//! The reassembly engine: it sorts the payload of transport packets by PID,
//! finds where one element ends and the next begins, and decodes each
//! element with the decoder that the tables seen so far assign to its PID.

use crate::buffer::{buffer_capacity, buffer_data, buffer_wf, buffer_write};
use crate::driver::{spec_step, Step, CHUNK_SIZE};
use crate::iterators::MTSPacketIterator;
use crate::packets::{
    lemma_packet_length, lemma_packet_stable, spec_packet, Packet, PacketView, PACKET_LENGTH,
};
use crate::pes::{spec_parse_pes, PESPacket};
use crate::stream::{partialstream, ParseError, SpecResult};
use crate::stream_packet::{
    spec_parse_pat, spec_parse_pmt, stream_info_views, ElementaryStreamInfo, ElementaryStreamInfoView, PATTable,
    PATTableEntry, PMTTable, Parsable, StreamPacket, StreamPacketView,
};
use circular::Buffer;
use std::collections::HashSet;
use vstd::prelude::*;

verus! {

/// The PID that carries the program association table.
pub const PAT_PID: u16 = 0x0;

/// The PID of packets that only fill the stream.
pub const PADDING_PID: u16 = 0x1fff;

/// What the engine holds for one PID.
pub struct EntryView {
    pub pid: u16,
    /// The payload bytes of this PID that belong to no decoded element.
    pub data: Seq<u8>,
    /// Where the element at the front of `data` ends, once that is known.
    pub cutoff: Option<nat>,
    /// The size of the memory that holds `data`.
    pub capacity: nat,
}

/// The state of the engine.
pub struct EngineView {
    /// One entry per PID, in the order in which the entries were made.
    pub entries: Seq<EntryView>,
    /// The PID whose entry is tried first at the next step.
    pub last_pid: Option<u16>,
    /// The PIDs that a program association table named as carrying a map.
    pub pmt_table_pids: Set<u16>,
    /// The PIDs that a program map table named as elementary streams.
    pub pes_stream_pids: Set<u16>,
}

/// What the bytes of a PID are decoded as.
pub enum Carried {
    PAT,
    PMT,
    PES,
}

/// The index of the entry for `pid`, if there is one.
pub open spec fn index_of(entries: Seq<EntryView>, pid: u16) -> Option<int>
    decreases entries.len(),
{
    if entries.len() == 0 {
        None
    } else if entries.last().pid == pid {
        Some(entries.len() - 1)
    } else {
        index_of(entries.drop_last(), pid)
    }
}

/// The PIDs that the entries of a program association table name.
pub open spec fn pat_pids(entries: Seq<PATTableEntry>) -> Set<u16> {
    Set::new(|p: u16| exists|i: int| 0 <= i < entries.len() && entries[i].program_map_pid == p)
}

/// The PIDs that the elementary streams of a program map table have.
pub open spec fn pmt_pids(infos: Seq<ElementaryStreamInfoView>) -> Set<u16> {
    Set::new(|p: u16| exists|i: int| 0 <= i < infos.len() && infos[i].pid == p)
}

impl EngineView {
    /// The decoder for the bytes of `pid`: the program association table on
    /// its own PID, else what the tables seen so far say.
    pub open spec fn carried(self, pid: u16) -> Option<Carried> {
        if pid == PAT_PID {
            Some(Carried::PAT)
        } else if self.pmt_table_pids.contains(pid) {
            Some(Carried::PMT)
        } else if self.pes_stream_pids.contains(pid) {
            Some(Carried::PES)
        } else {
            None
        }
    }

    /// The state after the record `r` was decoded: a program association
    /// table adds the PIDs of its maps, a program map table those of its
    /// elementary streams. Nothing is ever removed.
    pub open spec fn learn(self, r: StreamPacketView) -> EngineView {
        match r {
            StreamPacketView::PAT(t) => EngineView {
                pmt_table_pids: self.pmt_table_pids.union(pat_pids(t.entries)),
                ..self
            },
            StreamPacketView::PMT(t) => EngineView {
                pes_stream_pids: self.pes_stream_pids.union(
                    pmt_pids(t.elementary_stream_info_data),
                ),
                ..self
            },
            _ => self,
        }
    }

    /// No PID has two entries, and the padding PID has none.
    pub open spec fn wf(self) -> bool {
        &&& forall|i: int, j: int|
            0 <= i < j < self.entries.len() ==> self.entries[i].pid != self.entries[j].pid
        &&& forall|i: int| 0 <= i < self.entries.len() ==> self.entries[i].pid != PADDING_PID
        &&& forall|i: int|
            0 <= i < self.entries.len() ==> #[trigger] self.entries[i].data.len()
                <= self.entries[i].capacity <= isize::MAX
    }
}

/// What a window of the bytes of one PID decodes to.
pub open spec fn spec_decode(kind: Carried, s: Seq<u8>, complete: bool) -> SpecResult<
    StreamPacketView,
> {
    match kind {
        Carried::PAT => spec_parse_pat(s, complete),
        Carried::PMT => spec_parse_pmt(s, complete),
        Carried::PES => spec_parse_pes(s, complete),
    }
}

/// The window on an entry that its decoder sees: all of its bytes while the
/// end of the element is not known, else the element alone, as a complete
/// window.
pub open spec fn entry_window(e: EntryView) -> (Seq<u8>, bool) {
    match e.cutoff {
        Some(c) => (e.data.take(c as int), true),
        None => (e.data, false),
    }
}

/// What the decoder of the entry `e` makes of it: a record and the number
/// of bytes it takes, nothing yet, or a fault. An end of element that lies
/// behind the bytes there are is a fault. A PID that nothing is known to
/// carry gives nothing.
pub open spec fn spec_entry_verdict(v: EngineView, e: EntryView) -> Result<
    Option<(StreamPacketView, int)>,
    ParseError,
> {
    if e.cutoff is Some && e.cutoff.unwrap() > e.data.len() {
        Err(ParseError::Malformed)
    } else {
        match v.carried(e.pid) {
            None => Ok(None),
            Some(kind) => match spec_decode(kind, entry_window(e).0, entry_window(e).1) {
                Err(ParseError::Incomplete) => Ok(None),
                Err(ParseError::Malformed) => Err(ParseError::Malformed),
                Ok((record, n)) => Ok(Some((record, n))),
            },
        }
    }
}

/// One attempt to decode the element at the front of the entry of `pid`:
/// the state afterwards, and the record, if there is one.
///
/// A record takes its bytes out of the entry. An entry that is empty then is
/// removed; one that is not forgets where its element ends, for the bytes
/// left belong to the next element.
pub open spec fn spec_attempt(v: EngineView, pid: u16) -> (
    EngineView,
    Result<Option<StreamPacketView>, ParseError>,
) {
    match index_of(v.entries, pid) {
        None => (v, Ok(None)),
        Some(i) => {
            let e = v.entries[i];
            match spec_entry_verdict(v, e) {
                Err(x) => (v, Err(x)),
                Ok(None) => (v, Ok(None)),
                Ok(Some((record, n))) => {
                    let rest = e.data.skip(n);
                    let entries = if rest.len() == 0 {
                        v.entries.remove(i)
                    } else {
                        v.entries.update(i, EntryView { data: rest, cutoff: None, ..e })
                    };
                    (EngineView { entries, ..v }.learn(record), Ok(Some(record)))
                },
            }
        },
    }
}

/// A record that the engine gives for a PID is what the decoder of that
/// PID makes of the bytes collected for it, in the order in which they came
/// and cut where the element ends.
pub proof fn lemma_record_decodes_entry(v: EngineView, pid: u16)
    requires
        spec_attempt(v, pid).1 matches Ok(Some(_)),
    ensures
        index_of(v.entries, pid) is Some,
        v.carried(pid) is Some,
        ({
            let i = index_of(v.entries, pid).unwrap();
            let e = v.entries[i];
            let found = spec_decode(v.carried(pid).unwrap(), entry_window(e).0, entry_window(e).1);
            &&& 0 <= i < v.entries.len()
            &&& e.pid == pid
            &&& found is Ok
            &&& spec_attempt(v, pid).1 == Ok::<Option<StreamPacketView>, ParseError>(
                Some(found.unwrap().0),
            )
        }),
{
    lemma_index_of(v.entries, pid);
}

/// What became of a packet that the engine took in.
pub enum Accepted {
    /// The packet left nothing to decode.
    Skipped,
    /// The packet's payload was stored; its entry is to be tried.
    Stored,
    /// The memory of the packet's entry cannot grow to hold the payload.
    Overflow,
}

/// The memory of an entry of capacity `capacity` after it was made to hold
/// `needed` more bytes behind `len` bytes of data: it grows by a chunk, or
/// by `needed` if that is more, where the bytes do not fit.
pub open spec fn grown_capacity(capacity: nat, len: nat, needed: nat) -> nat {
    if capacity - len >= needed {
        capacity
    } else if needed >= CHUNK_SIZE {
        capacity + needed
    } else {
        capacity + CHUNK_SIZE as nat
    }
}

/// The entry `e` after the payload `data` of a packet was stored in it.
///
/// Where the packet starts no unit, its payload continues the element. Where
/// it starts one and the entry is empty, the bytes before the unit's first
/// byte belong to an element whose start was never seen, and are dropped.
/// Where it starts one and the entry holds bytes, the element in the entry
/// ends where the unit begins.
pub open spec fn stored(e: EntryView, start: bool, cutoff: u8, data: Seq<u8>) -> EntryView {
    let capacity = grown_capacity(e.capacity, e.data.len(), data.len());
    let all = e.data + data;
    if !start {
        EntryView { data: all, capacity, ..e }
    } else if e.data.len() == 0 {
        EntryView {
            data: all.skip(
                if cutoff <= all.len() {
                    cutoff as int
                } else {
                    all.len() as int
                },
            ),
            capacity,
            ..e
        }
    } else {
        EntryView { data: all, cutoff: Some(e.data.len() + cutoff as nat), capacity, ..e }
    }
}

/// The state after the packet `p` was taken in, and what became of it.
///
/// Padding is dropped. A packet of a PID without entry is dropped unless it
/// starts a unit, in which case it gets an entry.
pub open spec fn spec_accept(v: EngineView, p: PacketView) -> (EngineView, Accepted) {
    if p.pid == PADDING_PID {
        (v, Accepted::Skipped)
    } else {
        let v1 = EngineView { last_pid: Some(p.pid), ..v };
        let known = index_of(v.entries, p.pid) is Some;
        if !known && !p.payload_unit_start_indicator {
            (v1, Accepted::Skipped)
        } else {
            let entries = if known {
                v.entries
            } else {
                v.entries.push(
                    EntryView {
                        pid: p.pid,
                        data: Seq::empty(),
                        cutoff: None,
                        capacity: CHUNK_SIZE as nat,
                    },
                )
            };
            let v2 = EngineView { entries, ..v1 };
            match p.payload_data {
                None => (v2, Accepted::Skipped),
                Some(payload) => {
                    let i = index_of(entries, p.pid).unwrap();
                    let e = entries[i];
                    if grown_capacity(e.capacity, e.data.len(), payload.data.len()) > isize::MAX {
                        (v2, Accepted::Overflow)
                    } else {
                        (
                            EngineView {
                                entries: entries.update(
                                    i,
                                    stored(
                                        e,
                                        p.payload_unit_start_indicator,
                                        payload.cutoff,
                                        payload.data,
                                    ),
                                ),
                                ..v2
                            },
                            Accepted::Stored,
                        )
                    }
                },
            }
        }
    }
}

/// The outcome of a step of the engine: a record with its PID, or what
/// keeps the engine from giving one.
pub type Outcome = Step<(u16, StreamPacketView)>;

/// What the engine gives once the source has ended and no packet is left:
/// the element of the oldest entry, taken to end where the entry's bytes
/// end. An entry that gives no record is removed, and the next one tried.
pub open spec fn spec_flush(v: EngineView) -> (EngineView, Outcome)
    decreases v.entries.len(),
{
    if v.entries.len() == 0 {
        (v, Step::End)
    } else {
        let e = v.entries[0];
        let v1 = EngineView {
            entries: v.entries.update(0, EntryView { cutoff: Some(e.data.len()), ..e }),
            ..v
        };
        match spec_attempt(v1, e.pid) {
            (v2, Ok(Some(record))) => (v2, Step::Yield((e.pid, record))),
            (v2, Err(_)) => (v2, Step::Malformed),
            (v2, Ok(None)) => spec_flush(EngineView { entries: v1.entries.remove(0), ..v1 }),
        }
    }
}

/// What the engine gives from the state `v` and the pending bytes of the
/// packet driver: packets are taken in until one completes a record, the
/// pending bytes hold no whole packet, or something is wrong.
pub open spec fn spec_pump(v: EngineView, pending: Seq<u8>, eof: bool) -> (
    EngineView,
    Seq<u8>,
    Outcome,
)
    decreases pending.len(),
{
    match spec_step(pending, eof, spec_packet(pending, eof)) {
        (Step::End, _) => (spec_flush(v).0, pending, spec_flush(v).1),
        (Step::NeedInput, _) => (v, pending, Step::NeedInput),
        (Step::Malformed, _) => (v, pending, Step::Malformed),
        (Step::Overflow, _) => (v, pending, Step::Overflow),
        (Step::Yield(p), rest) => if rest.len() >= pending.len() {
            (v, pending, Step::Malformed)
        } else {
            match spec_accept(v, p) {
                (v1, Accepted::Overflow) => (v1, rest, Step::Overflow),
                (v1, Accepted::Skipped) => spec_pump(v1, rest, eof),
                (v1, Accepted::Stored) => match spec_attempt(v1, p.pid) {
                    (v2, Ok(Some(record))) => (v2, rest, Step::Yield((p.pid, record))),
                    (v2, Err(_)) => (v2, rest, Step::Malformed),
                    (v2, Ok(None)) => spec_pump(v2, rest, eof),
                },
            }
        },
    }
}

/// One step of the engine: the entry of the PID that gave the last record
/// or took the last packet is tried first, for it may hold another element.
pub open spec fn spec_next(v: EngineView, pending: Seq<u8>, eof: bool) -> (
    EngineView,
    Seq<u8>,
    Outcome,
) {
    match v.last_pid {
        None => spec_pump(v, pending, eof),
        Some(pid) => match spec_attempt(v, pid) {
            (v1, Ok(Some(record))) => (v1, pending, Step::Yield((pid, record))),
            (v1, Err(_)) => (v1, pending, Step::Malformed),
            (v1, Ok(None)) => spec_pump(EngineView { last_pid: None, ..v1 }, pending, eof),
        },
    }
}

/// What the engine gives from the pending bytes, unless it is that it needs
/// input, it gives from every window that begins with them, complete or not,
/// and the bytes that came behind are still pending afterwards.
pub proof fn lemma_pump_stable(v: EngineView, pending: Seq<u8>, more: Seq<u8>, eof: bool)
    requires
        !(spec_pump(v, pending, false).2 is NeedInput),
    ensures
        spec_pump(v, pending + more, eof) == (
            spec_pump(v, pending, false).0,
            spec_pump(v, pending, false).1 + more,
            spec_pump(v, pending, false).2,
        ),
    decreases pending.len(),
{
    lemma_packet_stable(pending, more, eof);
    lemma_packet_length(pending, false);
    match spec_step(pending, false, spec_packet(pending, false)) {
        (Step::Yield(p), rest) => {
            assert((pending + more).skip(PACKET_LENGTH as int) =~= rest + more);
            match spec_accept(v, p) {
                (v1, Accepted::Overflow) => {},
                (v1, Accepted::Skipped) => {
                    lemma_pump_stable(v1, rest, more, eof);
                },
                (v1, Accepted::Stored) => match spec_attempt(v1, p.pid) {
                    (v2, Ok(None)) => {
                        lemma_pump_stable(v2, rest, more, eof);
                    },
                    _ => {},
                },
            }
        },
        _ => {},
    }
}

/// What a step of the engine gives, unless it is that it needs input, does
/// not change when more bytes stand behind the pending ones: how the source
/// cut the stream behind the record does not matter to the record.
pub proof fn lemma_next_stable(v: EngineView, pending: Seq<u8>, more: Seq<u8>, eof: bool)
    requires
        !(spec_next(v, pending, false).2 is NeedInput),
    ensures
        spec_next(v, pending + more, eof) == (
            spec_next(v, pending, false).0,
            spec_next(v, pending, false).1 + more,
            spec_next(v, pending, false).2,
        ),
{
    match v.last_pid {
        None => {
            lemma_pump_stable(v, pending, more, eof);
        },
        Some(pid) => match spec_attempt(v, pid) {
            (v1, Ok(None)) => {
                lemma_pump_stable(EngineView { last_pid: None, ..v1 }, pending, more, eof);
            },
            _ => {},
        },
    }
}

broadcast use vstd::std_specs::hash::group_hash_axioms;

/// The bytes of one PID and what is known of the element at their front.
struct MapEntry {
    pid: u16,
    buffer: Buffer,
    complete_element_cutoff: Option<usize>,
}

impl View for MapEntry {
    type V = EntryView;

    closed spec fn view(&self) -> EntryView {
        EntryView {
            pid: self.pid,
            data: buffer_data(self.buffer),
            cutoff: match self.complete_element_cutoff {
                Some(c) => Some(c as nat),
                None => None,
            },
            capacity: buffer_capacity(self.buffer),
        }
    }
}

impl MapEntry {
    closed spec fn wf(&self) -> bool {
        buffer_wf(self.buffer) && buffer_capacity(self.buffer) <= isize::MAX
    }

    fn new(pid: u16) -> (e: MapEntry)
        ensures
            e.wf(),
            e@ == (EntryView {
                pid,
                data: Seq::empty(),
                cutoff: None,
                capacity: CHUNK_SIZE as nat,
            }),
    {
        MapEntry { pid, buffer: Buffer::with_capacity(CHUNK_SIZE), complete_element_cutoff: None }
    }
}

/// The views of a sequence of entries.
spec fn entry_views(s: Seq<MapEntry>) -> Seq<EntryView> {
    s.map_values(|e: MapEntry| e@)
}

/// Where `index_of` finds an entry, it is the last one of that PID; where
/// it finds none, there is none.
pub proof fn lemma_index_of(entries: Seq<EntryView>, pid: u16)
    ensures
        match index_of(entries, pid) {
            Some(i) => 0 <= i < entries.len() && entries[i].pid == pid && forall|j: int|
                i < j < entries.len() ==> entries[j].pid != pid,
            None => forall|j: int| 0 <= j < entries.len() ==> entries[j].pid != pid,
        },
    decreases entries.len(),
{
    if entries.len() > 0 && entries.last().pid != pid {
        let front = entries.drop_last();
        lemma_index_of(front, pid);
        assert forall|j: int| 0 <= j < front.len() implies front[j] == entries[j] by {}
        match index_of(front, pid) {
            Some(i) => {
                assert forall|j: int| i < j < entries.len() implies entries[j].pid != pid by {
                    if j < front.len() {
                        assert(front[j] == entries[j]);
                    }
                }
            },
            None => {
                assert forall|j: int| 0 <= j < entries.len() implies entries[j].pid != pid by {
                    if j < front.len() {
                        assert(front[j] == entries[j]);
                    }
                }
            },
        }
    }
}

/// Adds the PIDs that the entries of a program association table name.
fn learn_pat(set: &mut HashSet<u16>, entries: &Vec<PATTableEntry>)
    ensures
        final(set)@ == old(set)@.union(pat_pids(entries@)),
{
    let mut k: usize = 0;
    assert(set@ =~= old(set)@.union(pat_pids(entries@.take(0))));
    while k < entries.len()
        invariant
            k <= entries@.len(),
            set@ == old(set)@.union(pat_pids(entries@.take(k as int))),
        decreases entries@.len() - k,
    {
        let ghost before = set@;
        set.insert(entries[k].program_map_pid);
        k += 1;
        proof {
            let here = entries@.take(k as int);
            let prior = entries@.take(k - 1);
            assert forall|p: u16| pat_pids(here).contains(p) <==> (pat_pids(prior).contains(p) || p
                == entries@[k - 1].program_map_pid) by {
                if pat_pids(here).contains(p) {
                    let i = choose|i: int| 0 <= i < here.len() && here[i].program_map_pid == p;
                    if i < k - 1 {
                        assert(prior[i].program_map_pid == p);
                    }
                }
                if pat_pids(prior).contains(p) {
                    let i = choose|i: int| 0 <= i < prior.len() && prior[i].program_map_pid == p;
                    assert(here[i].program_map_pid == p);
                }
                if p == entries@[k - 1].program_map_pid {
                    assert(here[k - 1].program_map_pid == p);
                }
            }
            assert(set@ =~= old(set)@.union(pat_pids(here)));
        }
    }
    assert(entries@.take(k as int) =~= entries@);
}

/// Adds the PIDs of the elementary streams of a program map table.
fn learn_pmt(set: &mut HashSet<u16>, infos: &Vec<ElementaryStreamInfo>)
    ensures
        final(set)@ == old(set)@.union(pmt_pids(stream_info_views(infos@))),
{
    let ghost views = stream_info_views(infos@);
    let mut k: usize = 0;
    assert(set@ =~= old(set)@.union(pmt_pids(views.take(0))));
    while k < infos.len()
        invariant
            k <= infos@.len(),
            views == stream_info_views(infos@),
            set@ == old(set)@.union(pmt_pids(views.take(k as int))),
        decreases infos@.len() - k,
    {
        assert(views[k as int].pid == infos@[k as int].pid);
        set.insert(infos[k].pid);
        k += 1;
        proof {
            let here = views.take(k as int);
            let prior = views.take(k - 1);
            assert forall|p: u16| pmt_pids(here).contains(p) <==> (pmt_pids(prior).contains(p) || p
                == views[k - 1].pid) by {
                if pmt_pids(here).contains(p) {
                    let i = choose|i: int| 0 <= i < here.len() && here[i].pid == p;
                    if i < k - 1 {
                        assert(prior[i].pid == p);
                    }
                }
                if pmt_pids(prior).contains(p) {
                    let i = choose|i: int| 0 <= i < prior.len() && prior[i].pid == p;
                    assert(here[i].pid == p);
                }
                if p == views[k - 1].pid {
                    assert(here[k - 1].pid == p);
                }
            }
            assert(set@ =~= old(set)@.union(pmt_pids(here)));
        }
    }
    assert(views.take(k as int) =~= views);
}

/// Reassembles the elements of a transport stream from its packets.
pub struct ElementIterator {
    packet_stream_map: Vec<MapEntry>,
    packet_iterator: MTSPacketIterator,
    last_pid: Option<u16>,
    pmt_table_pids: HashSet<u16>,
    pes_stream_pids: HashSet<u16>,
}

impl View for ElementIterator {
    type V = EngineView;

    closed spec fn view(&self) -> EngineView {
        EngineView {
            entries: entry_views(self.packet_stream_map@),
            last_pid: self.last_pid,
            pmt_table_pids: self.pmt_table_pids@,
            pes_stream_pids: self.pes_stream_pids@,
        }
    }
}

impl ElementIterator {
    /// The bytes that were fed and belong to no packet yet.
    pub closed spec fn pending(&self) -> Seq<u8> {
        self.packet_iterator.pending()
    }

    /// The source has ended.
    pub closed spec fn eof(&self) -> bool {
        self.packet_iterator.eof()
    }

    /// The size of the memory that holds the pending bytes.
    pub closed spec fn capacity(&self) -> nat {
        self.packet_iterator.capacity()
    }

    /// The state is well formed, and so is every buffer in it.
    pub closed spec fn wf(&self) -> bool {
        &&& self@.wf()
        &&& self.packet_iterator.wf()
        &&& forall|i: int|
            0 <= i < self.packet_stream_map@.len() ==> (#[trigger] self.packet_stream_map@[i]).wf()
    }

    /// Finds the entry of `pid`.
    fn find_entry(&self, pid: u16) -> (r: Option<usize>)
        ensures
            match index_of(self@.entries, pid) {
                Some(i) => r matches Some(j) && j == i && 0 <= i < self.packet_stream_map@.len(),
                None => r is None,
            },
    {
        let mut i: usize = self.packet_stream_map.len();
        while i > 0
            invariant
                i <= self.packet_stream_map@.len(),
                self@.entries.len() == self.packet_stream_map@.len(),
                forall|j: int| i <= j < self@.entries.len() ==> self@.entries[j].pid != pid,
            decreases i,
        {
            i -= 1;
            assert(self@.entries[i as int].pid == self.packet_stream_map@[i as int].pid);
            if self.packet_stream_map[i].pid == pid {
                proof {
                    lemma_index_of(self@.entries, pid);
                }
                return Some(i);
            }
        }
        proof {
            lemma_index_of(self@.entries, pid);
        }
        None
    }
}

/// What holds of every record `e` that the engine gives for `pid`: padding
/// gives none, and the PID of the program association table gives that
/// table, or a section of another table kept as it is.
pub open spec fn emitted_on(pid: u16, e: StreamPacket) -> bool {
    &&& pid != PADDING_PID
    &&& pid == PAT_PID ==> e is PAT || e is UnsupportedPSITable
}

/// The executable attempt `r` with the state `v` after it is the specified
/// one.
pub open spec fn attempt_agrees(
    r: Result<Option<StreamPacket>, ParseError>,
    v: EngineView,
    s: (EngineView, Result<Option<StreamPacketView>, ParseError>),
) -> bool {
    &&& v == s.0
    &&& match (r, s.1) {
        (Ok(Some(x)), Ok(Some(y))) => x@ == y,
        (Ok(None), Ok(None)) => true,
        (Err(e), Err(f)) => e == f,
        _ => false,
    }
}

impl ElementIterator {
    /// Runs the decoder of the entry at `i` on the entry's window.
    fn decode_entry(&self, i: usize) -> (r: Result<Option<(StreamPacket, usize)>, ParseError>)
        requires
            self.wf(),
            i < self.packet_stream_map@.len(),
        ensures
            match (r, spec_entry_verdict(self@, self@.entries[i as int])) {
                (Ok(Some((x, n))), Ok(Some((y, m)))) => x@ == y && n == m && 0 < n
                    <= self@.entries[i as int].data.len(),
                (Ok(None), Ok(None)) => true,
                (Err(e), Err(f)) => e == f,
                _ => false,
            },
            r matches Ok(Some((e, _))) ==> emitted_on(self@.entries[i as int].pid, e),
    {
        assert(self@.entries[i as int] == self.packet_stream_map@[i as int]@);
        assert(self.packet_stream_map@[i as int].wf());
        let pid = self.packet_stream_map[i].pid;
        let cutoff = self.packet_stream_map[i].complete_element_cutoff;
        let data: &[u8] = self.packet_stream_map[i].buffer.data();
        let input = match cutoff {
            Some(c) => {
                if c > data.len() {
                    return Err(ParseError::Malformed);
                }
                partialstream(vstd::slice::slice_subrange(data, 0, c), true)
            },
            None => partialstream(data, false),
        };
        let result = if pid == PAT_PID {
            PATTable::parse(input)
        } else if self.pmt_table_pids.contains(&pid) {
            PMTTable::parse(input)
        } else if self.pes_stream_pids.contains(&pid) {
            PESPacket::parse(input)
        } else {
            return Ok(None);
        };
        match result {
            Err(ParseError::Incomplete) => Ok(None),
            Err(ParseError::Malformed) => Err(ParseError::Malformed),
            Ok((record, n)) => Ok(Some((record, n))),
        }
    }

    /// Tries to decode the element at the front of the entry of `pid`.
    fn parse_pid_data_for_pid(&mut self, pid: u16) -> (r: Result<Option<StreamPacket>, ParseError>)
        requires
            old(self).wf(),
        ensures
            final(self).wf(),
            final(self).pending() == old(self).pending(),
            final(self).eof() == old(self).eof(),
            final(self).capacity() == old(self).capacity(),
            attempt_agrees(r, final(self)@, spec_attempt(old(self)@, pid)),
            old(self)@.pmt_table_pids.subset_of(final(self)@.pmt_table_pids),
            old(self)@.pes_stream_pids.subset_of(final(self)@.pes_stream_pids),
            r matches Ok(Some(e)) ==> emitted_on(pid, e),
    {
        let i = match self.find_entry(pid) {
            None => {
                return Ok(None);
            },
            Some(i) => i,
        };
        proof {
            lemma_index_of(self@.entries, pid);
        }
        let (record, n) = match self.decode_entry(i) {
            Err(e) => {
                return Err(e);
            },
            Ok(None) => {
                return Ok(None);
            },
            Ok(Some(found)) => found,
        };
        let ghost before = self.packet_stream_map@;
        assert(before[i as int].wf());
        assert(self@.entries[i as int] == before[i as int]@);
        let mut entry = self.packet_stream_map.remove(i);
        entry.buffer.consume(n);
        if !entry.buffer.empty() {
            entry.complete_element_cutoff = None;
            self.packet_stream_map.insert(i, entry);
            assert(entry_views(self.packet_stream_map@) =~= entry_views(before).update(
                i as int,
                entry@,
            ));
        } else {
            assert(entry_views(self.packet_stream_map@) =~= entry_views(before).remove(i as int));
        }
        match &record {
            StreamPacket::PAT(t) => {
                learn_pat(&mut self.pmt_table_pids, &t.entries);
            },
            StreamPacket::PMT(t) => {
                learn_pmt(&mut self.pes_stream_pids, &t.elementary_stream_info_data);
            },
            _ => {},
        }
        Ok(Some(record))
    }
}

impl MapEntry {
    /// Stores the payload of a packet behind the bytes of the entry, and
    /// tells whether the memory could hold it.
    fn store(&mut self, start: bool, cutoff: u8, data: &[u8]) -> (ok: bool)
        requires
            old(self).wf(),
        ensures
            final(self).wf(),
            ok == (grown_capacity(old(self)@.capacity, old(self)@.data.len(), data@.len())
                <= isize::MAX),
            ok ==> final(self)@ == stored(old(self)@, start, cutoff, data@),
            !ok ==> final(self)@ == old(self)@,
    {
        let needed = data.len();
        if self.buffer.available_space() < needed {
            self.buffer.shift();
            if self.buffer.available_space() < needed {
                let extra = if needed > CHUNK_SIZE {
                    needed
                } else {
                    CHUNK_SIZE
                };
                let capacity = self.buffer.capacity();
                if extra > (isize::MAX as usize) - capacity {
                    return false;
                }
                self.buffer.grow(capacity + extra);
            }
        }
        let was_empty = self.buffer.empty();
        let len = self.buffer.available_data();
        let written = buffer_write(&mut self.buffer, data);
        assert(data@.take(written as int) =~= data@);
        if start {
            let end = len + cutoff as usize;
            if was_empty {
                self.buffer.consume(end);
            } else {
                self.complete_element_cutoff = Some(end);
            }
        }
        true
    }
}

impl ElementIterator {
    /// Finds the entry of `pid`, or makes one if a unit starts.
    fn entry_for(&mut self, pid: u16, start: bool) -> (r: Option<usize>)
        requires
            old(self).wf(),
            pid != PADDING_PID,
        ensures
            final(self).wf(),
            final(self).pending() == old(self).pending(),
            final(self).eof() == old(self).eof(),
            final(self).capacity() == old(self).capacity(),
            final(self)@.last_pid == old(self)@.last_pid,
            final(self)@.pmt_table_pids == old(self)@.pmt_table_pids,
            final(self)@.pes_stream_pids == old(self)@.pes_stream_pids,
            final(self)@.entries == if index_of(old(self)@.entries, pid) is Some || !start {
                old(self)@.entries
            } else {
                old(self)@.entries.push(
                    EntryView {
                        pid,
                        data: Seq::empty(),
                        cutoff: None,
                        capacity: CHUNK_SIZE as nat,
                    },
                )
            },
            r is Some == (index_of(old(self)@.entries, pid) is Some || start),
            r matches Some(i) ==> index_of(final(self)@.entries, pid) == Some(i as int) && i
                < final(self).packet_stream_map@.len(),
    {
        proof {
            lemma_index_of(self@.entries, pid);
        }
        match self.find_entry(pid) {
            Some(i) => Some(i),
            None => {
                if !start {
                    return None;
                }
                let ghost before = self.packet_stream_map@;
                self.packet_stream_map.push(MapEntry::new(pid));
                assert(entry_views(self.packet_stream_map@) =~= entry_views(before).push(
                    self.packet_stream_map@.last()@,
                ));
                Some(self.packet_stream_map.len() - 1)
            },
        }
    }

    /// Takes a packet in: stores its payload with the bytes of its PID and
    /// notes where an element ends.
    fn accept_packet(&mut self, packet: Packet) -> (r: Accepted)
        requires
            old(self).wf(),
        ensures
            final(self).wf(),
            final(self).pending() == old(self).pending(),
            final(self).eof() == old(self).eof(),
            final(self).capacity() == old(self).capacity(),
            (final(self)@, r) == spec_accept(old(self)@, packet@),
    {
        let pid = packet.pid;
        if pid == PADDING_PID {
            return Accepted::Skipped;
        }
        self.last_pid = Some(pid);
        let i = match self.entry_for(pid, packet.payload_unit_start_indicator) {
            None => {
                return Accepted::Skipped;
            },
            Some(i) => i,
        };
        let payload = match packet.payload_data {
            None => {
                return Accepted::Skipped;
            },
            Some(payload) => payload,
        };
        let ghost held = self.packet_stream_map@;
        assert(held[i as int].wf());
        assert(self@.entries[i as int] == held[i as int]@);
        let mut entry = self.packet_stream_map.remove(i);
        let ok = entry.store(
            packet.payload_unit_start_indicator,
            payload.cutoff,
            payload.data.as_slice(),
        );
        self.packet_stream_map.insert(i, entry);
        assert(entry_views(self.packet_stream_map@) =~= entry_views(held).update(i as int, entry@));
        if ok {
            Accepted::Stored
        } else {
            assert(entry_views(self.packet_stream_map@) =~= entry_views(held));
            Accepted::Overflow
        }
    }
}

impl ElementIterator {
    /// An engine at the start of a stream, on the packets of `packet_iterator`.
    pub fn new(packet_iterator: MTSPacketIterator) -> (it: ElementIterator)
        requires
            packet_iterator.wf(),
        ensures
            it.wf(),
            it.pending() == packet_iterator.pending(),
            it.eof() == packet_iterator.eof(),
            it.capacity() == packet_iterator.capacity(),
            it@ == (EngineView {
                entries: Seq::empty(),
                last_pid: None,
                pmt_table_pids: Set::empty(),
                pes_stream_pids: Set::empty(),
            }),
    {
        let it = ElementIterator {
            packet_stream_map: Vec::new(),
            packet_iterator,
            last_pid: None,
            pmt_table_pids: HashSet::new(),
            pes_stream_pids: HashSet::new(),
        };
        assert(it@.entries =~= Seq::empty());
        it
    }

    /// Whether `feed` takes `n` bytes.
    pub open spec fn accepts(&self, n: nat) -> bool {
        n <= CHUNK_SIZE && (self.capacity() - self.pending().len() >= CHUNK_SIZE || self.capacity()
            + CHUNK_SIZE <= isize::MAX)
    }

    /// Takes in what was read from the source; no bytes mean that the
    /// source has ended. Returns whether the bytes were taken.
    pub fn feed(&mut self, bytes: &[u8]) -> (accepted: bool)
        requires
            old(self).wf(),
        ensures
            final(self).wf(),
            final(self)@ == old(self)@,
            accepted == old(self).accepts(bytes@.len()),
            accepted ==> final(self).pending() == old(self).pending() + bytes@,
            accepted ==> final(self).eof() == (old(self).eof() || bytes@.len() == 0),
            accepted ==> final(self).capacity() == if old(self).capacity() - old(self).pending().len()
                >= CHUNK_SIZE {
                old(self).capacity()
            } else {
                old(self).capacity() + CHUNK_SIZE as nat
            },
            !accepted ==> final(self).pending() == old(self).pending(),
            !accepted ==> final(self).eof() == old(self).eof(),
            !accepted ==> final(self).capacity() == old(self).capacity(),
    {
        self.packet_iterator.feed(bytes)
    }

    /// Gives what is left once the source has ended and no packet is left.
    fn flush(&mut self) -> (r: Step<(u16, StreamPacket)>)
        requires
            old(self).wf(),
        ensures
            final(self).wf(),
            final(self).pending() == old(self).pending(),
            final(self).eof() == old(self).eof(),
            final(self).capacity() == old(self).capacity(),
            (final(self)@, r@) == spec_flush(old(self)@),
            old(self)@.pmt_table_pids.subset_of(final(self)@.pmt_table_pids),
            old(self)@.pes_stream_pids.subset_of(final(self)@.pes_stream_pids),
            r matches Step::Yield((pid, e)) ==> emitted_on(pid, e),
    {
        loop
            invariant
                self.wf(),
                self.pending() == old(self).pending(),
                self.eof() == old(self).eof(),
                self.capacity() == old(self).capacity(),
                spec_flush(self@) == spec_flush(old(self)@),
                old(self)@.pmt_table_pids.subset_of(self@.pmt_table_pids),
                old(self)@.pes_stream_pids.subset_of(self@.pes_stream_pids),
            decreases self.packet_stream_map@.len(),
        {
            if self.packet_stream_map.len() == 0 {
                return Step::End;
            }
            let ghost held = self.packet_stream_map@;
            assert(held[0].wf());
            assert(self@.entries[0] == held[0]@);
            let mut entry = self.packet_stream_map.remove(0);
            let pid = entry.pid;
            entry.complete_element_cutoff = Some(entry.buffer.available_data());
            self.packet_stream_map.insert(0, entry);
            assert(entry_views(self.packet_stream_map@) =~= entry_views(held).update(0, entry@));
            match self.parse_pid_data_for_pid(pid) {
                Ok(Some(record)) => {
                    return Step::Yield((pid, record));
                },
                Err(_) => {
                    return Step::Malformed;
                },
                Ok(None) => {
                    let ghost kept = self.packet_stream_map@;
                    self.packet_stream_map.remove(0);
                    assert(entry_views(self.packet_stream_map@) =~= entry_views(kept).remove(0));
                },
            }
        }
    }

    /// Takes packets in until one completes a record, the pending bytes hold
    /// no whole packet, or something is wrong.
    fn pump(&mut self) -> (r: Step<(u16, StreamPacket)>)
        requires
            old(self).wf(),
        ensures
            final(self).wf(),
            final(self).eof() == old(self).eof(),
            final(self).capacity() == old(self).capacity(),
            (final(self)@, final(self).pending(), r@) == spec_pump(
                old(self)@,
                old(self).pending(),
                old(self).eof(),
            ),
            old(self)@.pmt_table_pids.subset_of(final(self)@.pmt_table_pids),
            old(self)@.pes_stream_pids.subset_of(final(self)@.pes_stream_pids),
            r matches Step::Yield((pid, e)) ==> emitted_on(pid, e),
    {
        loop
            invariant
                self.wf(),
                self.eof() == old(self).eof(),
                self.capacity() == old(self).capacity(),
                spec_pump(self@, self.pending(), self.eof()) == spec_pump(
                    old(self)@,
                    old(self).pending(),
                    old(self).eof(),
                ),
                old(self)@.pmt_table_pids.subset_of(self@.pmt_table_pids),
                old(self)@.pes_stream_pids.subset_of(self@.pes_stream_pids),
            decreases self.pending().len(),
        {
            proof {
                lemma_packet_length(self.pending(), self.eof());
            }
            match self.packet_iterator.next() {
                Step::End => {
                    return self.flush();
                },
                Step::NeedInput => {
                    return Step::NeedInput;
                },
                Step::Malformed => {
                    return Step::Malformed;
                },
                Step::Overflow => {
                    return Step::Overflow;
                },
                Step::Yield(packet) => {
                    let pid = packet.pid;
                    match self.accept_packet(packet) {
                        Accepted::Overflow => {
                            return Step::Overflow;
                        },
                        Accepted::Skipped => {},
                        Accepted::Stored => match self.parse_pid_data_for_pid(pid) {
                            Ok(Some(record)) => {
                                return Step::Yield((pid, record));
                            },
                            Err(_) => {
                                return Step::Malformed;
                            },
                            Ok(None) => {},
                        },
                    }
                },
            }
        }
    }

    /// The next element with its PID, or what keeps the engine from giving
    /// one. The learned PID sets only grow.
    pub fn next(&mut self) -> (r: Step<(u16, StreamPacket)>)
        requires
            old(self).wf(),
        ensures
            final(self).wf(),
            final(self).eof() == old(self).eof(),
            final(self).capacity() == old(self).capacity(),
            (final(self)@, final(self).pending(), r@) == spec_next(
                old(self)@,
                old(self).pending(),
                old(self).eof(),
            ),
            old(self)@.pmt_table_pids.subset_of(final(self)@.pmt_table_pids),
            old(self)@.pes_stream_pids.subset_of(final(self)@.pes_stream_pids),
            r matches Step::Yield((pid, e)) ==> emitted_on(pid, e),
    {
        if let Some(pid) = self.last_pid {
            match self.parse_pid_data_for_pid(pid) {
                Ok(Some(record)) => {
                    return Step::Yield((pid, record));
                },
                Err(_) => {
                    return Step::Malformed;
                },
                Ok(None) => {
                    self.last_pid = None;
                },
            }
        }
        self.pump()
    }
}

} // verus!
