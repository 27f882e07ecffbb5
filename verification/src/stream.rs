//! The byte window that every decoder reads, and the verdicts decoders give.

use vstd::prelude::*;

verus! {

/// Why a decoder produced no record.
#[derive(Clone, Copy, Debug, PartialEq, Eq, Structural)]
pub enum ParseError {
    /// The window ended before the record did, and more bytes may follow.
    Incomplete,
    /// The bytes cannot be the start of a record.
    Malformed,
}

/// What a decoder returns: the record with the number of bytes it took from
/// the front of the window, or the reason there is none.
pub type ParseResult<T> = Result<(T, usize), ParseError>;

/// A window on a byte stream, with a flag telling whether the stream ends
/// where the window ends.
#[derive(Clone, Copy, Debug)]
pub struct PartialStream<'a> {
    pub bytes: &'a [u8],
    pub complete: bool,
}

/// The verdict for a window that ends too early: more bytes are awaited
/// unless the window is complete.
pub open spec fn short_verdict(complete: bool) -> ParseError {
    if complete {
        ParseError::Malformed
    } else {
        ParseError::Incomplete
    }
}

/// Big-endian 16-bit value at offset `i`.
pub open spec fn be16(s: Seq<u8>, i: int) -> int {
    s[i] * 0x100 + s[i + 1]
}

/// Big-endian 32-bit value at offset `i`.
pub open spec fn be32(s: Seq<u8>, i: int) -> int {
    s[i] * 0x100_0000 + s[i + 1] * 0x1_0000 + s[i + 2] * 0x100 + s[i + 3]
}

/// What a decoder is specified to return: the record's view with the offset
/// just past it, or the reason there is none.
pub type SpecResult<V> = Result<(V, int), ParseError>;

/// The executable result `r` is the specified result `s`.
pub open spec fn agrees<T: View>(r: ParseResult<T>, s: SpecResult<T::V>) -> bool {
    match (r, s) {
        (Ok((v, n)), Ok((sv, sn))) => v@ == sv && n == sn,
        (Err(e), Err(se)) => e == se,
        _ => false,
    }
}

/// An optional field: absent when its flag is clear, else whatever `field`
/// reads at `off`.
pub open spec fn optional<V>(flag: bool, field: SpecResult<V>, off: int) -> SpecResult<Option<V>> {
    if !flag {
        Ok((None, off))
    } else {
        match field {
            Ok((v, next)) => Ok((Some(v), next)),
            Err(e) => Err(e),
        }
    }
}

/// The `n` bytes at `off`.
pub open spec fn take_block(s: Seq<u8>, off: int, n: int, complete: bool) -> SpecResult<Seq<u8>> {
    if off + n <= s.len() {
        Ok((s.subrange(off, off + n), off + n))
    } else {
        Err(short_verdict(complete))
    }
}

/// A block whose length is the byte at `off`, and which follows that byte.
pub open spec fn len8_block(s: Seq<u8>, off: int, complete: bool) -> SpecResult<Seq<u8>> {
    if off + 1 > s.len() {
        Err(short_verdict(complete))
    } else {
        take_block(s, off + 1, s[off] as int, complete)
    }
}

/// A 13-bit value in two bytes whose three leading bits must all be set.
pub open spec fn marked13(s: Seq<u8>, off: int, complete: bool) -> SpecResult<u16> {
    if off + 1 > s.len() {
        Err(short_verdict(complete))
    } else if s[off] / 32 != 7 {
        Err(ParseError::Malformed)
    } else if off + 2 > s.len() {
        Err(short_verdict(complete))
    } else {
        Ok((((s[off] % 32) * 0x100 + s[off + 1]) as u16, off + 2))
    }
}

/// A block behind a two-byte prefix: four set bits, two clear bits, and the
/// block's length in ten bits.
pub open spec fn len12_block(s: Seq<u8>, off: int, complete: bool) -> SpecResult<Seq<u8>> {
    if off + 1 > s.len() {
        Err(short_verdict(complete))
    } else if s[off] / 16 != 15 || (s[off] / 4) % 4 != 0 {
        Err(ParseError::Malformed)
    } else if off + 2 > s.len() {
        Err(short_verdict(complete))
    } else {
        take_block(s, off + 2, (s[off] % 4) * 0x100 + s[off + 1], complete)
    }
}

/// A window over `b` whose end is the end of the stream iff `complete`.
pub fn partialstream(b: &[u8], complete: bool) -> (s: PartialStream<'_>)
    ensures
        s.bytes@ == b@,
        s.complete == complete,
{
    PartialStream { bytes: b, complete }
}

/// A window over `b` that is known to hold the whole stream.
pub fn stream(b: &[u8]) -> (s: PartialStream<'_>)
    ensures
        s.bytes@ == b@,
        s.complete,
{
    PartialStream { bytes: b, complete: true }
}

impl<'a> PartialStream<'a> {
    /// The verdict for running out of bytes in this window.
    pub fn short(&self) -> (e: ParseError)
        ensures
            e == short_verdict(self.complete),
    {
        if self.complete {
            ParseError::Malformed
        } else {
            ParseError::Incomplete
        }
    }

    /// Number of bytes in the window.
    pub fn len(&self) -> (n: usize)
        ensures
            n == self.bytes@.len(),
    {
        self.bytes.len()
    }
}

/// Reads the big-endian 16-bit value at offset `i`.
pub(crate) fn read_be16(b: &[u8], i: usize) -> (v: u16)
    requires
        i + 2 <= b@.len(),
    ensures
        v == be16(b@, i as int),
{
    (b[i] as u16) * 0x100 + (b[i + 1] as u16)
}

/// Reads the big-endian 32-bit value at offset `i`.
pub(crate) fn read_be32(b: &[u8], i: usize) -> (v: u32)
    requires
        i + 4 <= b@.len(),
    ensures
        v == be32(b@, i as int),
{
    (b[i] as u32) * 0x100_0000 + (b[i + 1] as u32) * 0x1_0000 + (b[i + 2] as u32) * 0x100 + (b[i
        + 3] as u32)
}

/// Copies the bytes `b[from..to]` into a fresh vector.
pub(crate) fn copy_range(b: &[u8], from: usize, to: usize) -> (v: Vec<u8>)
    requires
        from <= to <= b@.len(),
    ensures
        v@ == b@.subrange(from as int, to as int),
{
    let mut v: Vec<u8> = Vec::new();
    let mut i: usize = from;
    while i < to
        invariant
            from <= i <= to <= b@.len(),
            v@ == b@.subrange(from as int, i as int),
        decreases to - i,
    {
        v.push(b[i]);
        i += 1;
        assert(v@ =~= b@.subrange(from as int, i as int));
    }
    v
}

/// Copies all of `b` into a fresh vector.
pub(crate) fn copy_all(b: &[u8]) -> (v: Vec<u8>)
    ensures
        v@ == b@,
{
    assert(b@.subrange(0, b@.len() as int) =~= b@);
    copy_range(b, 0, b.len())
}

/// Reads the `n` bytes at `off`.
pub(crate) fn read_block(input: PartialStream, off: usize, n: usize) -> (r: ParseResult<Vec<u8>>)
    requires
        off <= input.bytes@.len(),
    ensures
        agrees(r, take_block(input.bytes@, off as int, n as int, input.complete)),
{
    if n <= input.bytes.len() - off {
        Ok((copy_range(input.bytes, off, off + n), off + n))
    } else {
        Err(input.short())
    }
}

/// Reads a block whose length is the byte at `off`.
pub(crate) fn read_len8_block(input: PartialStream, off: usize) -> (r: ParseResult<Vec<u8>>)
    requires
        off <= input.bytes@.len(),
    ensures
        agrees(r, len8_block(input.bytes@, off as int, input.complete)),
{
    if off >= input.bytes.len() {
        Err(input.short())
    } else {
        read_block(input, off + 1, input.bytes[off] as usize)
    }
}

/// Reads a 13-bit value whose three leading bits must all be set.
pub(crate) fn read_marked13(input: PartialStream, off: usize) -> (r: ParseResult<u16>)
    requires
        off <= input.bytes@.len(),
    ensures
        agrees(r, marked13(input.bytes@, off as int, input.complete)),
{
    let b = input.bytes;
    if off >= b.len() {
        Err(input.short())
    } else if b[off] / 32 != 7 {
        Err(ParseError::Malformed)
    } else if b.len() - off < 2 {
        Err(input.short())
    } else {
        Ok((((b[off] % 32) as u16) * 0x100 + (b[off + 1] as u16), off + 2))
    }
}

/// Reads a block behind a two-byte prefix that holds its length in ten bits.
pub(crate) fn read_len12_block(input: PartialStream, off: usize) -> (r: ParseResult<Vec<u8>>)
    requires
        off <= input.bytes@.len(),
    ensures
        agrees(r, len12_block(input.bytes@, off as int, input.complete)),
{
    let b = input.bytes;
    if off >= b.len() {
        Err(input.short())
    } else if b[off] / 16 != 15 || (b[off] / 4) % 4 != 0 {
        Err(ParseError::Malformed)
    } else if b.len() - off < 2 {
        Err(input.short())
    } else {
        let n: usize = ((b[off] % 4) as usize) * 0x100 + (b[off + 1] as usize);
        read_block(input, off + 2, n)
    }
}

} // verus!
