//! CRC-32 as MPEG-2 Systems defines it: generator polynomial `0x04C11DB7`,
//! register preset to all ones, bits taken most significant first, and no
//! final inversion.

use vstd::prelude::*;

verus! {

/// The generator polynomial, without its leading term.
pub const CRC_POLYNOMIAL: u32 = 0x04C1_1DB7;

/// The register before any byte has been taken in.
pub const CRC_INITIAL: u32 = 0xFFFF_FFFF;

/// One step of the shift register: the top bit leaves, and if it was set the
/// polynomial is folded in.
pub open spec fn crc_shift(c: u32) -> u32 {
    if c & 0x8000_0000 != 0 {
        (c << 1) ^ CRC_POLYNOMIAL
    } else {
        c << 1
    }
}

/// `n` steps of the shift register.
pub open spec fn crc_shift_n(c: u32, n: nat) -> u32
    decreases n,
{
    if n == 0 {
        c
    } else {
        crc_shift_n(crc_shift(c), (n - 1) as nat)
    }
}

/// The register after byte `b` has been taken in.
pub open spec fn crc_update(c: u32, b: u8) -> u32 {
    crc_shift_n(c ^ ((b as u32) << 24), 8)
}

/// The checksum of `s`: the register after all of `s`, first byte first.
pub open spec fn crc_of(s: Seq<u8>) -> u32
    decreases s.len(),
{
    if s.len() == 0 {
        CRC_INITIAL
    } else {
        crc_update(crc_of(s.drop_last()), s.last())
    }
}

/// Takes one byte into the register.
pub fn update(c: u32, b: u8) -> (r: u32)
    ensures
        r == crc_update(c, b),
{
    let mut r: u32 = c ^ ((b as u32) << 24);
    let mut k: u8 = 0;
    while k < 8
        invariant
            k <= 8,
            crc_shift_n(r, (8 - k) as nat) == crc_update(c, b),
        decreases 8 - k,
    {
        r = if r & 0x8000_0000 != 0 {
            (r << 1) ^ CRC_POLYNOMIAL
        } else {
            r << 1
        };
        k += 1;
    }
    r
}

/// The checksum of `data`.
pub fn crc(data: &[u8]) -> (r: u32)
    ensures
        r == crc_of(data@),
{
    let mut r: u32 = CRC_INITIAL;
    let mut i: usize = 0;
    while i < data.len()
        invariant
            i <= data@.len(),
            r == crc_of(data@.take(i as int)),
        decreases data@.len() - i,
    {
        r = update(r, data[i]);
        i += 1;
        assert(data@.take(i as int).drop_last() =~= data@.take(i as int - 1));
    }
    assert(data@.take(i as int) =~= data@);
    r
}

} // verus!
