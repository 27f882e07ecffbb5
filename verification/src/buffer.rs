//! The ring buffer that holds bytes which were read but not yet decoded.
//!
//! The buffer is `circular::Buffer`. What is stated of it here is taken from
//! its source and is believed, not proved.

use circular::Buffer;
use std::io::Write;
use vstd::prelude::*;

verus! {

/// `circular::Buffer`: the type is known by name, its fields are not read.
#[verifier::external_type_specification]
#[verifier::external_body]
pub struct ExBuffer(Buffer);

/// The bytes that were written to the buffer and not yet consumed, oldest
/// first: what `Buffer::data` shows.
pub uninterp spec fn buffer_data(b: Buffer) -> Seq<u8>;

/// The size of the buffer's memory: what `Buffer::capacity` returns.
pub uninterp spec fn buffer_capacity(b: Buffer) -> nat;

/// The offset in the buffer's memory at which its data begins: what
/// `Buffer::position` returns.
pub uninterp spec fn buffer_position(b: Buffer) -> nat;

/// The data lies within the memory.
pub open spec fn buffer_wf(b: Buffer) -> bool {
    buffer_position(b) + buffer_data(b).len() <= buffer_capacity(b)
}

/// The room behind the data.
pub open spec fn buffer_space(b: Buffer) -> int {
    buffer_capacity(b) - buffer_position(b) - buffer_data(b).len()
}

/// `Buffer::with_capacity` allocates `capacity` zero bytes and starts with no
/// data at position 0. It panics where the allocation exceeds `isize::MAX`.
pub assume_specification[ Buffer::with_capacity ](capacity: usize) -> (b: Buffer)
    requires
        capacity <= isize::MAX,
    ensures
        buffer_data(b) == Seq::<u8>::empty(),
        buffer_capacity(b) == capacity,
        buffer_position(b) == 0,
;

/// `Buffer::grow` resizes the memory to `new_size` if that is more than the
/// capacity, and says whether it did. Data and position stay.
pub assume_specification[ Buffer::grow ](b: &mut Buffer, new_size: usize) -> (grown: bool)
    requires
        new_size <= isize::MAX,
    ensures
        grown == (buffer_capacity(*old(b)) < new_size),
        buffer_capacity(*final(b)) == if grown {
            new_size as nat
        } else {
            buffer_capacity(*old(b))
        },
        buffer_data(*final(b)) == buffer_data(*old(b)),
        buffer_position(*final(b)) == buffer_position(*old(b)),
;

/// `Buffer::available_data` is the end of the data minus its position.
pub assume_specification[ Buffer::available_data ](b: &Buffer) -> (n: usize)
    ensures
        n == buffer_data(*b).len(),
;

/// `Buffer::available_space` is the capacity minus the end of the data.
pub assume_specification[ Buffer::available_space ](b: &Buffer) -> (n: usize)
    requires
        buffer_wf(*b),
    ensures
        n == buffer_space(*b),
;

/// `Buffer::capacity` returns the size of the memory.
pub assume_specification[ Buffer::capacity ](b: &Buffer) -> (n: usize)
    ensures
        n == buffer_capacity(*b),
;

/// `Buffer::position` returns the offset at which the data begins.
pub assume_specification[ Buffer::position ](b: &Buffer) -> (n: usize)
    ensures
        n == buffer_position(*b),
;

/// `Buffer::empty` tells whether position and end of the data coincide.
pub assume_specification[ Buffer::empty ](b: &Buffer) -> (e: bool)
    ensures
        e == (buffer_data(*b).len() == 0),
;

/// `Buffer::data` is the slice of the memory from the position to the end
/// of the data.
pub assume_specification<'a>[ Buffer::data ](b: &'a Buffer) -> (d: &'a [u8])
    requires
        buffer_wf(*b),
    ensures
        d@ == buffer_data(*b),
;

/// `Buffer::consume` advances the position by `count`, or by the length of
/// the data if that is less, and returns by how much. Where the new
/// position lies beyond half of the capacity it moves the data to the
/// front of the memory.
pub assume_specification[ Buffer::consume ](b: &mut Buffer, count: usize) -> (n: usize)
    requires
        buffer_wf(*old(b)),
    ensures
        n == if count <= buffer_data(*old(b)).len() {
            count as nat
        } else {
            buffer_data(*old(b)).len()
        },
        buffer_data(*final(b)) == buffer_data(*old(b)).skip(n as int),
        buffer_capacity(*final(b)) == buffer_capacity(*old(b)),
        buffer_position(*final(b)) == if buffer_position(*old(b)) + n > buffer_capacity(*old(b))
            / 2 {
            0
        } else {
            buffer_position(*old(b)) + n
        },
;

/// `Buffer::shift` moves the data to the front of the memory.
pub assume_specification[ Buffer::shift ](b: &mut Buffer)
    requires
        buffer_wf(*old(b)),
    ensures
        buffer_data(*final(b)) == buffer_data(*old(b)),
        buffer_capacity(*final(b)) == buffer_capacity(*old(b)),
        buffer_position(*final(b)) == 0,
;

/// The buffer's `Write::write` copies as much of `bytes` behind the data as
/// the room there takes, and returns how much that was. Where less room is
/// left afterwards than the data and the new bytes together take, it moves
/// the data to the front of the memory. It never fails.
#[verifier::external_body]
pub(crate) fn buffer_write(b: &mut Buffer, bytes: &[u8]) -> (n: usize)
    requires
        buffer_wf(*old(b)),
    ensures
        n == if bytes@.len() <= buffer_space(*old(b)) {
            bytes@.len() as int
        } else {
            buffer_space(*old(b))
        },
        buffer_data(*final(b)) == buffer_data(*old(b)) + bytes@.take(n as int),
        buffer_capacity(*final(b)) == buffer_capacity(*old(b)),
        buffer_position(*final(b)) == if buffer_space(*old(b)) - n < buffer_data(*old(b)).len() + n
            + n {
            0
        } else {
            buffer_position(*old(b))
        },
{
    match b.write(bytes) {
        Ok(n) => n,
        Err(_) => 0,
    }
}

} // verus!
