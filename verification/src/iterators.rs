//! The two drivers that cut a byte stream into records: NAL units of an
//! H.264 stream, and packets of a transport stream.

use crate::driver::{spec_step, InputBuffer, Step, CHUNK_SIZE};
use crate::nalunits::{parse_nal_unit, spec_nal_unit, NALUnit};
use crate::packets::{spec_packet, Packet};
use crate::stream::ParseError;
use vstd::prelude::*;

verus! {

/// Cuts an H.264 Annex-B byte stream into NAL units.
pub struct NALUnitIterator {
    input: InputBuffer,
}

impl NALUnitIterator {
    /// The bytes that were fed and belong to no unit yet.
    pub closed spec fn pending(&self) -> Seq<u8> {
        self.input.pending()
    }

    /// The source has ended.
    pub closed spec fn eof(&self) -> bool {
        self.input.eof()
    }

    /// The size of the buffer's memory.
    pub closed spec fn capacity(&self) -> nat {
        self.input.capacity()
    }

    /// The pending bytes lie within the buffer's memory.
    pub closed spec fn wf(&self) -> bool {
        self.input.wf()
    }

    /// Whether `feed` takes `n` bytes.
    pub open spec fn accepts(&self, n: nat) -> bool {
        n <= CHUNK_SIZE && (self.capacity() - self.pending().len() >= CHUNK_SIZE || self.capacity()
            + CHUNK_SIZE <= isize::MAX)
    }

    /// A driver at the start of a stream.
    pub fn new() -> (it: NALUnitIterator)
        ensures
            it.wf(),
            it.pending() == Seq::<u8>::empty(),
            !it.eof(),
            it.capacity() == CHUNK_SIZE,
    {
        NALUnitIterator { input: InputBuffer::new() }
    }

    /// Takes in what was read from the source; no bytes mean that the
    /// source has ended. Returns whether the bytes were taken.
    pub fn feed(&mut self, bytes: &[u8]) -> (accepted: bool)
        requires
            old(self).wf(),
        ensures
            final(self).wf(),
            accepted == old(self).accepts(bytes@.len()),
            accepted ==> final(self).pending() == old(self).pending() + bytes@,
            accepted ==> final(self).eof() == (old(self).eof() || bytes@.len() == 0),
            accepted ==> final(self).capacity() == if old(self).capacity() - old(self).pending().len()
                >= CHUNK_SIZE {
                old(self).capacity()
            } else {
                old(self).capacity() + CHUNK_SIZE as nat
            },
            !accepted ==> final(self).pending() == old(self).pending(),
            !accepted ==> final(self).eof() == old(self).eof(),
            !accepted ==> final(self).capacity() == old(self).capacity(),
    {
        self.input.feed(bytes)
    }

    /// The next NAL unit, if the pending bytes hold one; else what keeps the
    /// driver from giving one. A unit leaves the pending bytes; nothing else
    /// changes them.
    pub fn next(&mut self) -> (r: Step<NALUnit>)
        requires
            old(self).wf(),
        ensures
            final(self).wf(),
            final(self).eof() == old(self).eof(),
            final(self).capacity() == old(self).capacity(),
            (r@, final(self).pending()) == spec_step(
                old(self).pending(),
                old(self).eof(),
                spec_nal_unit(old(self).pending(), old(self).eof()),
            ),
    {
        if self.input.is_finished() {
            return Step::End;
        }
        match parse_nal_unit(self.input.window()) {
            Ok((unit, n)) => {
                self.input.consume(n);
                Step::Yield(unit)
            },
            Err(ParseError::Incomplete) => Step::NeedInput,
            Err(ParseError::Malformed) => Step::Malformed,
        }
    }
}

/// Cuts a transport stream into packets.
pub struct MTSPacketIterator {
    input: InputBuffer,
}

impl MTSPacketIterator {
    /// The bytes that were fed and belong to no packet yet.
    pub closed spec fn pending(&self) -> Seq<u8> {
        self.input.pending()
    }

    /// The source has ended.
    pub closed spec fn eof(&self) -> bool {
        self.input.eof()
    }

    /// The size of the buffer's memory.
    pub closed spec fn capacity(&self) -> nat {
        self.input.capacity()
    }

    /// The pending bytes lie within the buffer's memory.
    pub closed spec fn wf(&self) -> bool {
        self.input.wf()
    }

    /// Whether `feed` takes `n` bytes.
    pub open spec fn accepts(&self, n: nat) -> bool {
        n <= CHUNK_SIZE && (self.capacity() - self.pending().len() >= CHUNK_SIZE || self.capacity()
            + CHUNK_SIZE <= isize::MAX)
    }

    /// A driver at the start of a stream.
    pub fn new() -> (it: MTSPacketIterator)
        ensures
            it.wf(),
            it.pending() == Seq::<u8>::empty(),
            !it.eof(),
            it.capacity() == CHUNK_SIZE,
    {
        MTSPacketIterator { input: InputBuffer::new() }
    }

    /// Takes in what was read from the source; no bytes mean that the
    /// source has ended. Returns whether the bytes were taken.
    pub fn feed(&mut self, bytes: &[u8]) -> (accepted: bool)
        requires
            old(self).wf(),
        ensures
            final(self).wf(),
            accepted == old(self).accepts(bytes@.len()),
            accepted ==> final(self).pending() == old(self).pending() + bytes@,
            accepted ==> final(self).eof() == (old(self).eof() || bytes@.len() == 0),
            accepted ==> final(self).capacity() == if old(self).capacity() - old(self).pending().len()
                >= CHUNK_SIZE {
                old(self).capacity()
            } else {
                old(self).capacity() + CHUNK_SIZE as nat
            },
            !accepted ==> final(self).pending() == old(self).pending(),
            !accepted ==> final(self).eof() == old(self).eof(),
            !accepted ==> final(self).capacity() == old(self).capacity(),
    {
        self.input.feed(bytes)
    }

    /// The next packet, if the pending bytes hold one; else what keeps the
    /// driver from giving one. A packet leaves the pending bytes; nothing
    /// else changes them.
    pub fn next(&mut self) -> (r: Step<Packet>)
        requires
            old(self).wf(),
        ensures
            final(self).wf(),
            final(self).eof() == old(self).eof(),
            final(self).capacity() == old(self).capacity(),
            (r@, final(self).pending()) == spec_step(
                old(self).pending(),
                old(self).eof(),
                spec_packet(old(self).pending(), old(self).eof()),
            ),
    {
        if self.input.is_finished() {
            return Step::End;
        }
        match Packet::parse(self.input.window()) {
            Ok((packet, n)) => {
                self.input.consume(n);
                Step::Yield(packet)
            },
            Err(ParseError::Incomplete) => Step::NeedInput,
            Err(ParseError::Malformed) => Step::Malformed,
        }
    }
}

} // verus!
