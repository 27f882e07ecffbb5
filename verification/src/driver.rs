//! What the drivers share: the bytes that were read and not yet decoded, and
//! the outcome of one step.
//!
//! A driver does not read. Whoever owns the byte source asks it for the next
//! record, and where the answer is that more input is needed, reads, hands
//! the bytes over with `feed`, and asks again. An empty `feed` says that the
//! source has ended.

use crate::buffer::{buffer_capacity, buffer_data, buffer_wf, buffer_write};
use crate::stream::{ParseError, PartialStream, SpecResult};
use circular::Buffer;
use vstd::prelude::*;

verus! {

/// The buffer's first size, the step by which it grows, and the most that
/// one `feed` takes.
pub const CHUNK_SIZE: usize = 10 * 1024;

/// The outcome of asking a driver for its next record.
#[derive(Debug)]
pub enum Step<T> {
    /// The next record.
    Yield(T),
    /// No record can be decoded before more bytes are fed.
    NeedInput,
    /// The source has ended and every byte was decoded.
    End,
    /// The pending bytes are not the start of a record.
    Malformed,
    /// A buffer would have to grow beyond what memory can hold.
    Overflow,
}

impl<T: View> View for Step<T> {
    type V = Step<T::V>;

    open spec fn view(&self) -> Step<T::V> {
        match *self {
            Step::Yield(t) => Step::Yield(t@),
            Step::NeedInput => Step::NeedInput,
            Step::End => Step::End,
            Step::Malformed => Step::Malformed,
            Step::Overflow => Step::Overflow,
        }
    }
}

/// One step of a driver whose decoder gives `verdict` on the pending bytes:
/// the outcome, and the bytes that are pending afterwards.
pub open spec fn spec_step<V>(pending: Seq<u8>, eof: bool, verdict: SpecResult<V>) -> (
    Step<V>,
    Seq<u8>,
) {
    if eof && pending.len() == 0 {
        (Step::End, pending)
    } else {
        match verdict {
            Ok((v, n)) => (Step::Yield(v), pending.skip(n)),
            Err(ParseError::Incomplete) => (Step::NeedInput, pending),
            Err(ParseError::Malformed) => (Step::Malformed, pending),
        }
    }
}

/// The bytes that were fed and not yet decoded, and whether the source has
/// ended.
pub struct InputBuffer {
    buffer: Buffer,
    has_reached_eof: bool,
}

impl InputBuffer {
    /// The pending bytes, oldest first.
    pub closed spec fn pending(&self) -> Seq<u8> {
        buffer_data(self.buffer)
    }

    /// The source has ended.
    pub closed spec fn eof(&self) -> bool {
        self.has_reached_eof
    }

    /// The size of the buffer's memory.
    pub closed spec fn capacity(&self) -> nat {
        buffer_capacity(self.buffer)
    }

    /// The pending bytes lie within the buffer's memory.
    pub closed spec fn wf(&self) -> bool {
        buffer_wf(self.buffer)
    }

    /// Whether `feed` takes `n` bytes: no more than a chunk, and the memory
    /// has room for a chunk or can still grow by one.
    pub open spec fn accepts(&self, n: nat) -> bool {
        n <= CHUNK_SIZE && (self.capacity() - self.pending().len() >= CHUNK_SIZE || self.capacity()
            + CHUNK_SIZE <= isize::MAX)
    }

    /// An empty buffer of one chunk, on a source that has not ended.
    pub fn new() -> (b: InputBuffer)
        ensures
            b.wf(),
            b.pending() == Seq::<u8>::empty(),
            !b.eof(),
            b.capacity() == CHUNK_SIZE,
    {
        InputBuffer { buffer: Buffer::with_capacity(CHUNK_SIZE), has_reached_eof: false }
    }

    /// Tells whether the source has ended and nothing is pending.
    pub fn is_finished(&self) -> (r: bool)
        ensures
            r == (self.eof() && self.pending().len() == 0),
    {
        self.has_reached_eof && self.buffer.empty()
    }

    /// The pending bytes as a window, complete once the source has ended.
    pub fn window(&self) -> (w: PartialStream<'_>)
        requires
            self.wf(),
        ensures
            w.bytes@ == self.pending(),
            w.complete == self.eof(),
    {
        PartialStream { bytes: self.buffer.data(), complete: self.has_reached_eof }
    }

    /// Drops the first `n` pending bytes, or all of them if they are fewer.
    pub fn consume(&mut self, n: usize)
        requires
            old(self).wf(),
        ensures
            final(self).wf(),
            final(self).pending() == old(self).pending().skip(
                if n <= old(self).pending().len() {
                    n as int
                } else {
                    old(self).pending().len() as int
                },
            ),
            final(self).eof() == old(self).eof(),
            final(self).capacity() == old(self).capacity(),
    {
        self.buffer.consume(n);
    }

    /// Takes in what was read from the source; no bytes mean that the
    /// source has ended. Before the bytes are stored, the pending bytes are
    /// moved to the front of the memory if that frees a chunk, else the
    /// memory grows by a chunk. Returns whether the bytes were taken.
    pub fn feed(&mut self, bytes: &[u8]) -> (accepted: bool)
        requires
            old(self).wf(),
        ensures
            final(self).wf(),
            accepted == old(self).accepts(bytes@.len()),
            accepted ==> final(self).pending() == old(self).pending() + bytes@,
            accepted ==> final(self).eof() == (old(self).eof() || bytes@.len() == 0),
            accepted ==> final(self).capacity() == if old(self).capacity() - old(self).pending().len()
                >= CHUNK_SIZE {
                old(self).capacity()
            } else {
                old(self).capacity() + CHUNK_SIZE as nat
            },
            !accepted ==> final(self).pending() == old(self).pending(),
            !accepted ==> final(self).eof() == old(self).eof(),
            !accepted ==> final(self).capacity() == old(self).capacity(),
    {
        if bytes.len() > CHUNK_SIZE {
            return false;
        }
        let capacity = self.buffer.capacity();
        if self.buffer.position() + self.buffer.available_space() >= CHUNK_SIZE {
            self.buffer.shift();
        } else {
            if capacity > (isize::MAX as usize) - CHUNK_SIZE {
                return false;
            }
            self.buffer.grow(capacity + CHUNK_SIZE);
        }
        let n = buffer_write(&mut self.buffer, bytes);
        assert(bytes@.take(n as int) =~= bytes@);
        if bytes.len() == 0 {
            self.has_reached_eof = true;
        }
        true
    }
}

} // verus!
