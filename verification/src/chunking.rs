//! What a driver yields does not depend on how its source cuts the stream
//! into reads.
//!
//! The law is proved once, for every decoder whose verdict on a window stays
//! what it is when the window grows, and then drawn for the two decoders
//! that the drivers run.

use crate::driver::{spec_step, Step};
use crate::nalunits::{lemma_nal_unit_stable, spec_nal_unit, NALUnitView};
use crate::packets::{lemma_packet_stable, spec_packet, PacketView};
use crate::stream::{ParseError, SpecResult};
use vstd::prelude::*;

verus! {

/// A decoder: from a window and whether it is complete to a verdict.
pub type Decoder<V> = spec_fn(Seq<u8>, bool) -> SpecResult<V>;

/// A record takes one byte at least, and no more than the window holds.
pub open spec fn takes_bytes<V>(d: Decoder<V>) -> bool {
    forall|p: Seq<u8>, c: bool| (#[trigger] d(p, c)) is Ok ==> 0 < d(p, c).unwrap().1 <= p.len()
}

/// A record or a fault found in a window that may still grow is found the
/// same in every window that begins with it, complete or not.
pub open spec fn prefix_stable<V>(d: Decoder<V>) -> bool {
    forall|p: Seq<u8>, x: Seq<u8>, c: bool|
        !(d(p, false) == Err::<(V, int), ParseError>(ParseError::Incomplete)) ==> #[trigger] d(
            p + x,
            c,
        ) == d(p, false)
}

/// The chunks one after the other.
pub open spec fn concat(chunks: Seq<Seq<u8>>) -> Seq<u8>
    decreases chunks.len(),
{
    if chunks.len() == 0 {
        Seq::empty()
    } else {
        chunks[0] + concat(chunks.skip(1))
    }
}

/// No chunk is empty.
pub open spec fn all_nonempty(chunks: Seq<Seq<u8>>) -> bool {
    forall|i: int| 0 <= i < chunks.len() ==> (#[trigger] chunks[i]).len() > 0
}

/// The records that a driver yields from the pending bytes `s` once its
/// source has ended, up to the end of the bytes or the first fault.
pub open spec fn records<V>(d: Decoder<V>, s: Seq<u8>) -> Seq<V>
    decreases s.len(),
{
    match spec_step(s, true, d(s, true)) {
        (Step::Yield(v), rest) => if rest.len() < s.len() {
            seq![v] + records(d, rest)
        } else {
            Seq::empty()
        },
        _ => Seq::empty(),
    }
}

/// The records that a driver yields from the pending bytes `pending` on a
/// source whose reads give `chunks`, one chunk per read, and which ends
/// after the last chunk: the driver yields while it can, and is fed the next
/// chunk when it needs input.
pub open spec fn run<V>(d: Decoder<V>, pending: Seq<u8>, chunks: Seq<Seq<u8>>) -> Seq<V>
    decreases chunks.len(), pending.len(),
{
    match spec_step(pending, false, d(pending, false)) {
        (Step::Yield(v), rest) => if rest.len() < pending.len() {
            seq![v] + run(d, rest, chunks)
        } else {
            Seq::empty()
        },
        (Step::NeedInput, _) => if chunks.len() == 0 || chunks[0].len() == 0 {
            records(d, pending)
        } else {
            run(d, pending + chunks[0], chunks.skip(1))
        },
        _ => Seq::empty(),
    }
}

/// A driver on chunks yields what it yields on the whole stream at once.
pub proof fn lemma_run_is_records<V>(d: Decoder<V>, pending: Seq<u8>, chunks: Seq<Seq<u8>>)
    requires
        takes_bytes(d),
        prefix_stable(d),
        all_nonempty(chunks),
    ensures
        run(d, pending, chunks) == records(d, pending + concat(chunks)),
    decreases chunks.len(), pending.len(),
{
    let tail = concat(chunks);
    let s = pending + tail;
    match d(pending, false) {
        Ok((v, n)) => {
            assert(d(pending + tail, true) == d(pending, false));
            assert(s.skip(n) =~= pending.skip(n) + tail);
            lemma_run_is_records(d, pending.skip(n), chunks);
        },
        Err(ParseError::Malformed) => {
            assert(d(pending + tail, true) == d(pending, false));
        },
        Err(ParseError::Incomplete) => {
            if chunks.len() == 0 {
                assert(s =~= pending);
            } else {
                assert(chunks[0].len() > 0);
                assert(s =~= (pending + chunks[0]) + concat(chunks.skip(1)));
                assert forall|i: int| 0 <= i < chunks.skip(1).len() implies (
                #[trigger] chunks.skip(1)[i]).len() > 0 by {
                    assert(chunks.skip(1)[i] == chunks[i + 1]);
                }
                lemma_run_is_records(d, pending + chunks[0], chunks.skip(1));
            }
        },
    }
}

/// The decoder of NAL units.
pub open spec fn nal_decoder() -> Decoder<NALUnitView> {
    |s: Seq<u8>, complete: bool| spec_nal_unit(s, complete)
}

/// The decoder of transport packets.
pub open spec fn packet_decoder() -> Decoder<PacketView> {
    |s: Seq<u8>, complete: bool| spec_packet(s, complete)
}

/// Two sources that give the same byte stream, cut into reads in two ways,
/// make the NAL unit driver yield the same units in the same order.
pub proof fn lemma_nal_units_chunking_invariant(a: Seq<Seq<u8>>, b: Seq<Seq<u8>>)
    requires
        all_nonempty(a),
        all_nonempty(b),
        concat(a) == concat(b),
    ensures
        run(nal_decoder(), Seq::empty(), a) == run(nal_decoder(), Seq::empty(), b),
        run(nal_decoder(), Seq::empty(), a) == records(nal_decoder(), concat(a)),
{
    let d = nal_decoder();
    assert forall|p: Seq<u8>, c: bool| (#[trigger] d(p, c)) is Ok implies 0 < d(p, c).unwrap().1
        <= p.len() by {
        lemma_nal_unit_stable(p, Seq::empty(), c);
    }
    assert forall|p: Seq<u8>, x: Seq<u8>, c: bool|
        !(d(p, false) == Err::<(NALUnitView, int), ParseError>(
            ParseError::Incomplete,
        )) implies #[trigger] d(p + x, c) == d(p, false) by {
        lemma_nal_unit_stable(p, x, c);
    }
    lemma_run_is_records(d, Seq::empty(), a);
    lemma_run_is_records(d, Seq::empty(), b);
    assert(Seq::<u8>::empty() + concat(a) =~= concat(a));
    assert(Seq::<u8>::empty() + concat(b) =~= concat(b));
}

/// Two sources that give the same byte stream, cut into reads in two ways,
/// make the packet driver yield the same packets in the same order.
pub proof fn lemma_packets_chunking_invariant(a: Seq<Seq<u8>>, b: Seq<Seq<u8>>)
    requires
        all_nonempty(a),
        all_nonempty(b),
        concat(a) == concat(b),
    ensures
        run(packet_decoder(), Seq::empty(), a) == run(packet_decoder(), Seq::empty(), b),
        run(packet_decoder(), Seq::empty(), a) == records(packet_decoder(), concat(a)),
{
    let d = packet_decoder();
    assert forall|p: Seq<u8>, c: bool| (#[trigger] d(p, c)) is Ok implies 0 < d(p, c).unwrap().1
        <= p.len() by {
        lemma_packet_stable(p, Seq::empty(), c);
    }
    assert forall|p: Seq<u8>, x: Seq<u8>, c: bool|
        !(d(p, false) == Err::<(PacketView, int), ParseError>(
            ParseError::Incomplete,
        )) implies #[trigger] d(p + x, c) == d(p, false) by {
        lemma_packet_stable(p, x, c);
    }
    lemma_run_is_records(d, Seq::empty(), a);
    lemma_run_is_records(d, Seq::empty(), b);
    assert(Seq::<u8>::empty() + concat(a) =~= concat(a));
    assert(Seq::<u8>::empty() + concat(b) =~= concat(b));
}

} // verus!
