//! Packetized elementary stream packets: the six-byte prefix, the optional
//! header with its conditionally present fields, and the payload.

use crate::stream::{
    agrees, copy_all, copy_range, be16, be32, len8_block, optional, read_be16, read_be32, read_block,
    read_len8_block, short_verdict, stream, take_block, ParseError,
    ParseResult, PartialStream, SpecResult,
};
use crate::stream_packet::{StreamPacket, StreamPacketView};
use vstd::prelude::*;

verus! {

/// The view of optional bytes.
pub open spec fn bytes_view(o: Option<Vec<u8>>) -> Option<Seq<u8>> {
    match o {
        Some(v) => Some(v@),
        None => None,
    }
}

/// The extension that closes a PES header.
#[derive(Debug)]
pub struct PESExtension {
    pub pes_private_data: Option<Vec<u8>>,
    pub pack_header_field: Option<Vec<u8>>,
    /// Counter, MPEG-1/MPEG-2 identifier, original stuffing length.
    pub program_packet_sequence_counter: Option<(u8, bool, u8)>,
    /// Buffer scale and buffer size.
    pub p_std_buffer: Option<(bool, u16)>,
    pub pes_extension_data: Option<Vec<u8>>,
}

/// A PES extension as a value.
pub struct PESExtensionView {
    pub pes_private_data: Option<Seq<u8>>,
    pub pack_header_field: Option<Seq<u8>>,
    pub program_packet_sequence_counter: Option<(u8, bool, u8)>,
    pub p_std_buffer: Option<(bool, u16)>,
    pub pes_extension_data: Option<Seq<u8>>,
}

impl View for PESExtension {
    type V = PESExtensionView;

    open spec fn view(&self) -> PESExtensionView {
        PESExtensionView {
            pes_private_data: bytes_view(self.pes_private_data),
            pack_header_field: bytes_view(self.pack_header_field),
            program_packet_sequence_counter: self.program_packet_sequence_counter,
            p_std_buffer: self.p_std_buffer,
            pes_extension_data: bytes_view(self.pes_extension_data),
        }
    }
}

/// The packet sequence counter: two bytes, each led by a set marker bit.
pub open spec fn sequence_counter(s: Seq<u8>, off: int, complete: bool) -> SpecResult<
    (u8, bool, u8),
> {
    if off + 1 > s.len() {
        Err(short_verdict(complete))
    } else if s[off] / 128 != 1 {
        Err(ParseError::Malformed)
    } else if off + 2 > s.len() {
        Err(short_verdict(complete))
    } else if s[off + 1] / 128 != 1 {
        Err(ParseError::Malformed)
    } else {
        Ok((((s[off] % 128) as u8, (s[off + 1] / 64) % 2 == 1, (s[off + 1] % 64) as u8), off + 2))
    }
}

/// The P-STD buffer field: the bits `01`, the scale bit, and 13 bits of size.
pub open spec fn p_std_buffer(s: Seq<u8>, off: int, complete: bool) -> SpecResult<(bool, u16)> {
    if off + 1 > s.len() {
        Err(short_verdict(complete))
    } else if s[off] / 64 != 1 {
        Err(ParseError::Malformed)
    } else if off + 2 > s.len() {
        Err(short_verdict(complete))
    } else {
        Ok((((s[off] / 32) % 2 == 1, ((s[off] % 32) * 0x100 + s[off + 1]) as u16), off + 2))
    }
}

/// A block whose length is the low seven bits of a byte led by a set marker bit.
pub open spec fn len7_block(s: Seq<u8>, off: int, complete: bool) -> SpecResult<Seq<u8>> {
    if off + 1 > s.len() {
        Err(short_verdict(complete))
    } else if s[off] / 128 != 1 {
        Err(ParseError::Malformed)
    } else {
        take_block(s, off + 1, (s[off] % 128) as int, complete)
    }
}

/// The extension that fills the window `s`: a byte of flags, then each field
/// whose flag is set, in the order of the flags, and nothing after them.
pub open spec fn spec_pes_extension(s: Seq<u8>, complete: bool) -> SpecResult<PESExtensionView> {
    if s.len() < 1 {
        Err(short_verdict(complete))
    } else {
        let f = s[0];
        match optional(f / 128 == 1, take_block(s, 1, 16, complete), 1) {
            Err(e) => Err(e),
            Ok((pes_private_data, o1)) => match optional(
                (f / 64) % 2 == 1,
                len8_block(s, o1, complete),
                o1,
            ) {
                Err(e) => Err(e),
                Ok((pack_header_field, o2)) => match optional(
                    (f / 32) % 2 == 1,
                    sequence_counter(s, o2, complete),
                    o2,
                ) {
                    Err(e) => Err(e),
                    Ok((program_packet_sequence_counter, o3)) => match optional(
                        (f / 16) % 2 == 1,
                        p_std_buffer(s, o3, complete),
                        o3,
                    ) {
                        Err(e) => Err(e),
                        Ok((p_std_buffer, o4)) => match optional(
                            f % 2 == 1,
                            len7_block(s, o4, complete),
                            o4,
                        ) {
                            Err(e) => Err(e),
                            Ok((pes_extension_data, o5)) => if o5 != s.len() {
                                Err(ParseError::Malformed)
                            } else {
                                Ok(
                                    (
                                        PESExtensionView {
                                            pes_private_data,
                                            pack_header_field,
                                            program_packet_sequence_counter,
                                            p_std_buffer,
                                            pes_extension_data,
                                        },
                                        o5,
                                    ),
                                )
                            },
                        },
                    },
                },
            },
        }
    }
}

/// The fields that follow the first three bytes of a PES header.
#[derive(Debug)]
pub struct PESHeader {
    pub scrambling_control: u8,
    pub priority: bool,
    pub data_alignment_indicator: bool,
    pub copyright: bool,
    pub is_original: bool,
    pub pts: Option<u64>,
    pub dts: Option<u64>,
    /// Base and extension of the elementary stream clock reference.
    pub escr: Option<(u64, u16)>,
    pub es_rate: Option<u32>,
    /// Trick mode control and the five bits that follow it.
    pub dsm_trick_mode: Option<(u8, u8)>,
    pub additional_copy_info: Option<u8>,
    pub previous_pes_packet_crc: Option<u16>,
    pub pes_extension: Option<PESExtension>,
}

/// A PES header as a value.
pub struct PESHeaderView {
    pub scrambling_control: u8,
    pub priority: bool,
    pub data_alignment_indicator: bool,
    pub copyright: bool,
    pub is_original: bool,
    pub pts: Option<u64>,
    pub dts: Option<u64>,
    pub escr: Option<(u64, u16)>,
    pub es_rate: Option<u32>,
    pub dsm_trick_mode: Option<(u8, u8)>,
    pub additional_copy_info: Option<u8>,
    pub previous_pes_packet_crc: Option<u16>,
    pub pes_extension: Option<PESExtensionView>,
}

/// The view of an optional extension.
pub open spec fn extension_view(o: Option<PESExtension>) -> Option<PESExtensionView> {
    match o {
        Some(e) => Some(e@),
        None => None,
    }
}

impl View for PESHeader {
    type V = PESHeaderView;

    open spec fn view(&self) -> PESHeaderView {
        PESHeaderView {
            scrambling_control: self.scrambling_control,
            priority: self.priority,
            data_alignment_indicator: self.data_alignment_indicator,
            copyright: self.copyright,
            is_original: self.is_original,
            pts: self.pts,
            dts: self.dts,
            escr: self.escr,
            es_rate: self.es_rate,
            dsm_trick_mode: self.dsm_trick_mode,
            additional_copy_info: self.additional_copy_info,
            previous_pes_packet_crc: self.previous_pes_packet_crc,
            pes_extension: extension_view(self.pes_extension),
        }
    }
}

/// Big-endian 24-bit value at offset `i`.
pub open spec fn be24(s: Seq<u8>, i: int) -> int {
    s[i] * 0x1_0000 + s[i + 1] * 0x100 + s[i + 2]
}

/// Big-endian 40-bit value at offset `i`.
pub open spec fn be40(s: Seq<u8>, i: int) -> int {
    s[i] * 0x1_0000_0000 + be32(s, i + 1)
}

/// Big-endian 48-bit value at offset `i`.
pub open spec fn be48(s: Seq<u8>, i: int) -> int {
    be16(s, i) * 0x1_0000_0000 + be32(s, i + 2)
}

/// A 33-bit time stamp in five bytes: four bits that must equal `prefix`,
/// then 3, 15 and 15 bits of the value, each group closed by a set marker bit.
#[verifier::opaque]
pub open spec fn timestamp(s: Seq<u8>, off: int, prefix: int) -> SpecResult<u64> {
    if off + 5 > s.len() {
        Err(ParseError::Malformed)
    } else {
        let v = be40(s, off);
        if v / 0x10_0000_0000 != prefix || (v / 0x1_0000_0000) % 2 != 1 || (v / 0x1_0000) % 2 != 1
            || v % 2 != 1 {
            Err(ParseError::Malformed)
        } else {
            Ok(
                (
                    (((v / 0x2_0000_0000) % 8) * 0x4000_0000 + ((v / 0x2_0000) % 0x8000) * 0x8000
                        + (v / 2) % 0x8000) as u64,
                    off + 5,
                ),
            )
        }
    }
}

/// The clock reference in six bytes: two bits that are not read, 3, 15 and 15
/// bits of the base, each group closed by a set marker bit, then nine bits of
/// extension and a last set marker bit.
#[verifier::opaque]
pub open spec fn clock_reference(s: Seq<u8>, off: int) -> SpecResult<(u64, u16)> {
    if off + 6 > s.len() {
        Err(ParseError::Malformed)
    } else {
        let v = be48(s, off);
        if (v / 0x400_0000_0000) % 2 != 1 || (v / 0x400_0000) % 2 != 1 || (v / 0x400) % 2 != 1 || v
            % 2 != 1 {
            Err(ParseError::Malformed)
        } else {
            Ok(
                (
                    (
                        (((v / 0x800_0000_0000) % 8) * 0x4000_0000 + ((v / 0x800_0000) % 0x8000)
                            * 0x8000 + (v / 0x800) % 0x8000) as u64,
                        ((v / 2) % 0x200) as u16,
                    ),
                    off + 6,
                ),
            )
        }
    }
}

/// The elementary stream rate: 22 bits between two set marker bits.
#[verifier::opaque]
pub open spec fn es_rate(s: Seq<u8>, off: int) -> SpecResult<u32> {
    if off + 3 > s.len() {
        Err(ParseError::Malformed)
    } else {
        let v = be24(s, off);
        if v / 0x80_0000 != 1 || v % 2 != 1 {
            Err(ParseError::Malformed)
        } else {
            Ok((((v / 2) % 0x40_0000) as u32, off + 3))
        }
    }
}

/// The trick mode byte, split after its third bit.
#[verifier::opaque]
pub open spec fn trick_mode(s: Seq<u8>, off: int) -> SpecResult<(u8, u8)> {
    if off + 1 > s.len() {
        Err(ParseError::Malformed)
    } else {
        Ok((((s[off] / 32) as u8, (s[off] % 32) as u8), off + 1))
    }
}

/// Seven bits of copy information behind a set marker bit.
#[verifier::opaque]
pub open spec fn copy_info(s: Seq<u8>, off: int) -> SpecResult<u8> {
    if off + 1 > s.len() || s[off] / 128 != 1 {
        Err(ParseError::Malformed)
    } else {
        Ok(((s[off] % 128) as u8, off + 1))
    }
}

/// The checksum of the previous packet: 16 bits.
#[verifier::opaque]
pub open spec fn previous_crc(s: Seq<u8>, off: int) -> SpecResult<u16> {
    if off + 2 > s.len() {
        Err(ParseError::Malformed)
    } else {
        Ok((be16(s, off) as u16, off + 2))
    }
}

/// The extension that fills what is left of `s` from `off` on.
#[verifier::opaque]
pub open spec fn extension_at(s: Seq<u8>, off: int) -> SpecResult<PESExtensionView> {
    match spec_pes_extension(s.subrange(off, s.len() as int), true) {
        Ok((v, n)) => Ok((v, off + n)),
        Err(e) => Err(e),
    }
}

/// The header whose flag bytes are `b0` and `b1` and whose field bytes are
/// `d`: each field whose flag in `b1` is set, in the order of the flags. What
/// follows the last field is padding and is not read.
pub open spec fn spec_pes_header_fields(d: Seq<u8>, b0: u8, b1: u8) -> SpecResult<PESHeaderView> {
    let dts_flag = (b1 / 64) % 2 == 1;
    match optional(b1 / 128 == 1, timestamp(d, 0, if dts_flag { 3 } else { 2 }), 0) {
        Err(e) => Err(e),
        Ok((pts, o1)) => match optional(dts_flag, timestamp(d, o1, 1), o1) {
            Err(e) => Err(e),
            Ok((dts, o2)) => match optional((b1 / 32) % 2 == 1, clock_reference(d, o2), o2) {
                Err(e) => Err(e),
                Ok((escr, o3)) => match optional((b1 / 16) % 2 == 1, es_rate(d, o3), o3) {
                    Err(e) => Err(e),
                    Ok((es_rate, o4)) => match optional((b1 / 8) % 2 == 1, trick_mode(d, o4), o4) {
                        Err(e) => Err(e),
                        Ok((dsm_trick_mode, o5)) => match optional(
                            (b1 / 4) % 2 == 1,
                            copy_info(d, o5),
                            o5,
                        ) {
                            Err(e) => Err(e),
                            Ok((additional_copy_info, o6)) => match optional(
                                (b1 / 2) % 2 == 1,
                                previous_crc(d, o6),
                                o6,
                            ) {
                                Err(e) => Err(e),
                                Ok((previous_pes_packet_crc, o7)) => match optional(
                                    b1 % 2 == 1,
                                    extension_at(d, o7),
                                    o7,
                                ) {
                                    Err(e) => Err(e),
                                    Ok((pes_extension, o8)) => Ok(
                                        (
                                            PESHeaderView {
                                                scrambling_control: ((b0 / 16) % 4) as u8,
                                                priority: (b0 / 8) % 2 == 1,
                                                data_alignment_indicator: (b0 / 4) % 2 == 1,
                                                copyright: (b0 / 2) % 2 == 1,
                                                is_original: b0 % 2 == 1,
                                                pts,
                                                dts,
                                                escr,
                                                es_rate,
                                                dsm_trick_mode,
                                                additional_copy_info,
                                                previous_pes_packet_crc,
                                                pes_extension,
                                            },
                                            o8,
                                        ),
                                    ),
                                },
                            },
                        },
                    },
                },
            },
        },
    }
}

/// The PES header at the front of `s`: a byte that opens with the bits `10`,
/// a byte of flags, and a length-prefixed block that holds the fields.
pub open spec fn spec_pes_header(s: Seq<u8>, complete: bool) -> SpecResult<PESHeaderView> {
    if s.len() < 1 {
        Err(short_verdict(complete))
    } else if s[0] / 64 != 2 {
        Err(ParseError::Malformed)
    } else if s.len() < 2 {
        Err(short_verdict(complete))
    } else {
        match len8_block(s, 2, complete) {
            Err(e) => Err(e),
            Ok((d, end)) => match spec_pes_header_fields(d, s[0], s[1]) {
                Err(e) => Err(e),
                Ok((h, _)) => Ok((h, end)),
            },
        }
    }
}

fn read_sequence_counter(input: PartialStream, off: usize) -> (r: ParseResult<(u8, bool, u8)>)
    requires
        off <= input.bytes@.len(),
    ensures
        agrees(r, sequence_counter(input.bytes@, off as int, input.complete)),
{
    let b = input.bytes;
    if off >= b.len() {
        Err(input.short())
    } else if b[off] / 128 != 1 {
        Err(ParseError::Malformed)
    } else if b.len() - off < 2 {
        Err(input.short())
    } else if b[off + 1] / 128 != 1 {
        Err(ParseError::Malformed)
    } else {
        Ok(((b[off] % 128, (b[off + 1] / 64) % 2 == 1, b[off + 1] % 64), off + 2))
    }
}

fn read_p_std_buffer(input: PartialStream, off: usize) -> (r: ParseResult<(bool, u16)>)
    requires
        off <= input.bytes@.len(),
    ensures
        agrees(r, p_std_buffer(input.bytes@, off as int, input.complete)),
{
    let b = input.bytes;
    if off >= b.len() {
        Err(input.short())
    } else if b[off] / 64 != 1 {
        Err(ParseError::Malformed)
    } else if b.len() - off < 2 {
        Err(input.short())
    } else {
        Ok((((b[off] / 32) % 2 == 1, ((b[off] % 32) as u16) * 0x100 + (b[off + 1] as u16)), off + 2))
    }
}

fn read_len7_block(input: PartialStream, off: usize) -> (r: ParseResult<Vec<u8>>)
    requires
        off <= input.bytes@.len(),
    ensures
        agrees(r, len7_block(input.bytes@, off as int, input.complete)),
{
    let b = input.bytes;
    if off >= b.len() {
        Err(input.short())
    } else if b[off] / 128 != 1 {
        Err(ParseError::Malformed)
    } else {
        read_block(input, off + 1, (b[off] % 128) as usize)
    }
}

impl PESExtension {
    /// Decodes the extension that fills the window.
    pub fn parse(input: PartialStream) -> (r: ParseResult<PESExtension>)
        ensures
            agrees(r, spec_pes_extension(input.bytes@, input.complete)),
    {
        let b = input.bytes;
        if b.len() < 1 {
            return Err(input.short());
        }
        let f: u8 = b[0];
        let mut off: usize = 1;
        let mut pes_private_data: Option<Vec<u8>> = None;
        if f / 128 == 1 {
            let (v, next) = read_block(input, off, 16)?;
            pes_private_data = Some(v);
            off = next;
        }
        let mut pack_header_field: Option<Vec<u8>> = None;
        if (f / 64) % 2 == 1 {
            let (v, next) = read_len8_block(input, off)?;
            pack_header_field = Some(v);
            off = next;
        }
        let mut program_packet_sequence_counter: Option<(u8, bool, u8)> = None;
        if (f / 32) % 2 == 1 {
            let (v, next) = read_sequence_counter(input, off)?;
            program_packet_sequence_counter = Some(v);
            off = next;
        }
        let mut p_std_buffer: Option<(bool, u16)> = None;
        if (f / 16) % 2 == 1 {
            let (v, next) = read_p_std_buffer(input, off)?;
            p_std_buffer = Some(v);
            off = next;
        }
        let mut pes_extension_data: Option<Vec<u8>> = None;
        if f % 2 == 1 {
            let (v, next) = read_len7_block(input, off)?;
            pes_extension_data = Some(v);
            off = next;
        }
        if off != b.len() {
            return Err(ParseError::Malformed);
        }
        Ok(
            (
                PESExtension {
                    pes_private_data,
                    pack_header_field,
                    program_packet_sequence_counter,
                    p_std_buffer,
                    pes_extension_data,
                },
                off,
            ),
        )
    }
}

fn read_be40(b: &[u8], i: usize) -> (v: u64)
    requires
        i + 5 <= b@.len(),
    ensures
        v == be40(b@, i as int),
{
    (b[i] as u64) * 0x1_0000_0000 + (read_be32(b, i + 1) as u64)
}

pub(crate) fn read_be48(b: &[u8], i: usize) -> (v: u64)
    requires
        i + 6 <= b@.len(),
    ensures
        v == be48(b@, i as int),
{
    (b[i] as u64) * 0x100_0000_0000 + (b[i + 1] as u64) * 0x1_0000_0000 + (read_be32(b, i + 2) as u64)
}

fn read_timestamp(b: &[u8], off: usize, prefix: u64) -> (r: ParseResult<u64>)
    requires
        off <= b@.len(),
    ensures
        agrees(r, timestamp(b@, off as int, prefix as int)),
        r matches Ok((_, next)) ==> next <= b@.len(),
{
    reveal(timestamp);
    if b.len() - off < 5 {
        return Err(ParseError::Malformed);
    }
    let v: u64 = read_be40(b, off);
    if v / 0x10_0000_0000 != prefix || (v / 0x1_0000_0000) % 2 != 1 || (v / 0x1_0000) % 2 != 1 || v
        % 2 != 1 {
        return Err(ParseError::Malformed);
    }
    Ok(
        (
            ((v / 0x2_0000_0000) % 8) * 0x4000_0000 + ((v / 0x2_0000) % 0x8000) * 0x8000 + (v / 2)
                % 0x8000,
            off + 5,
        ),
    )
}

fn read_clock_reference(b: &[u8], off: usize) -> (r: ParseResult<(u64, u16)>)
    requires
        off <= b@.len(),
    ensures
        agrees(r, clock_reference(b@, off as int)),
        r matches Ok((_, next)) ==> next <= b@.len(),
{
    reveal(clock_reference);
    if b.len() - off < 6 {
        return Err(ParseError::Malformed);
    }
    let v: u64 = read_be48(b, off);
    if (v / 0x400_0000_0000) % 2 != 1 || (v / 0x400_0000) % 2 != 1 || (v / 0x400) % 2 != 1 || v % 2
        != 1 {
        return Err(ParseError::Malformed);
    }
    let base: u64 = ((v / 0x800_0000_0000) % 8) * 0x4000_0000 + ((v / 0x800_0000) % 0x8000) * 0x8000
        + (v / 0x800) % 0x8000;
    let extension: u16 = ((v / 2) % 0x200) as u16;
    Ok(((base, extension), off + 6))
}

fn read_es_rate(b: &[u8], off: usize) -> (r: ParseResult<u32>)
    requires
        off <= b@.len(),
    ensures
        agrees(r, es_rate(b@, off as int)),
        r matches Ok((_, next)) ==> next <= b@.len(),
{
    reveal(es_rate);
    if b.len() - off < 3 {
        return Err(ParseError::Malformed);
    }
    let v: u32 = (b[off] as u32) * 0x1_0000 + (b[off + 1] as u32) * 0x100 + (b[off + 2] as u32);
    if v / 0x80_0000 != 1 || v % 2 != 1 {
        return Err(ParseError::Malformed);
    }
    Ok(((v / 2) % 0x40_0000, off + 3))
}

fn read_trick_mode(b: &[u8], off: usize) -> (r: ParseResult<(u8, u8)>)
    requires
        off <= b@.len(),
    ensures
        agrees(r, trick_mode(b@, off as int)),
        r matches Ok((_, next)) ==> next <= b@.len(),
{
    reveal(trick_mode);
    if off >= b.len() {
        return Err(ParseError::Malformed);
    }
    Ok(((b[off] / 32, b[off] % 32), off + 1))
}

fn read_copy_info(b: &[u8], off: usize) -> (r: ParseResult<u8>)
    requires
        off <= b@.len(),
    ensures
        agrees(r, copy_info(b@, off as int)),
        r matches Ok((_, next)) ==> next <= b@.len(),
{
    reveal(copy_info);
    if off >= b.len() || b[off] / 128 != 1 {
        return Err(ParseError::Malformed);
    }
    Ok((b[off] % 128, off + 1))
}

fn read_previous_crc(b: &[u8], off: usize) -> (r: ParseResult<u16>)
    requires
        off <= b@.len(),
    ensures
        agrees(r, previous_crc(b@, off as int)),
        r matches Ok((_, next)) ==> next <= b@.len(),
{
    reveal(previous_crc);
    if b.len() - off < 2 {
        return Err(ParseError::Malformed);
    }
    Ok((read_be16(b, off), off + 2))
}

fn read_extension_at(b: &[u8], off: usize) -> (r: ParseResult<PESExtension>)
    requires
        off <= b@.len(),
    ensures
        agrees(r, extension_at(b@, off as int)),
        r matches Ok((_, next)) ==> next <= b@.len(),
{
    reveal(extension_at);
    let rest = vstd::slice::slice_subrange(b, off, b.len());
    let (v, n) = PESExtension::parse(stream(rest))?;
    Ok((v, off + n))
}

/// Wraps what a field reader gave as an optional field that is present.
fn present<T>(field: ParseResult<T>) -> (r: ParseResult<Option<T>>)
    ensures
        match field {
            Ok((v, next)) => r == Ok::<(Option<T>, usize), ParseError>((Some(v), next)),
            Err(e) => r == Err::<(Option<T>, usize), ParseError>(e),
        },
{
    match field {
        Ok((v, next)) => Ok((Some(v), next)),
        Err(e) => Err(e),
    }
}

impl PESHeader {
    /// Decodes the fields that the flag byte `b1` announces from the block `d`.
    fn parse_fields(d: &[u8], b0: u8, b1: u8) -> (r: ParseResult<PESHeader>)
        ensures
            agrees(r, spec_pes_header_fields(d@, b0, b1)),
    {
        let dts_flag = (b1 / 64) % 2 == 1;
        let prefix: u64 = if dts_flag { 3 } else { 2 };
        let (pts, o1) = if b1 / 128 == 1 {
            present(read_timestamp(d, 0, prefix))?
        } else {
            (None, 0)
        };
        let (dts, o2) = if dts_flag {
            present(read_timestamp(d, o1, 1))?
        } else {
            (None, o1)
        };
        let (escr, o3) = if (b1 / 32) % 2 == 1 {
            present(read_clock_reference(d, o2))?
        } else {
            (None, o2)
        };
        let (es_rate, o4) = if (b1 / 16) % 2 == 1 {
            present(read_es_rate(d, o3))?
        } else {
            (None, o3)
        };
        let (dsm_trick_mode, o5) = if (b1 / 8) % 2 == 1 {
            present(read_trick_mode(d, o4))?
        } else {
            (None, o4)
        };
        let (additional_copy_info, o6) = if (b1 / 4) % 2 == 1 {
            present(read_copy_info(d, o5))?
        } else {
            (None, o5)
        };
        let (previous_pes_packet_crc, o7) = if (b1 / 2) % 2 == 1 {
            present(read_previous_crc(d, o6))?
        } else {
            (None, o6)
        };
        let (pes_extension, o8) = if b1 % 2 == 1 {
            present(read_extension_at(d, o7))?
        } else {
            (None, o7)
        };
        Ok(
            (
                PESHeader {
                    scrambling_control: (b0 / 16) % 4,
                    priority: (b0 / 8) % 2 == 1,
                    data_alignment_indicator: (b0 / 4) % 2 == 1,
                    copyright: (b0 / 2) % 2 == 1,
                    is_original: b0 % 2 == 1,
                    pts,
                    dts,
                    escr,
                    es_rate,
                    dsm_trick_mode,
                    additional_copy_info,
                    previous_pes_packet_crc,
                    pes_extension,
                },
                o8,
            ),
        )
    }

    /// Decodes the PES header at the front of the window.
    pub fn parse(input: PartialStream) -> (r: ParseResult<PESHeader>)
        ensures
            agrees(r, spec_pes_header(input.bytes@, input.complete)),
    {
        let b = input.bytes;
        if b.len() < 1 {
            return Err(input.short());
        }
        if b[0] / 64 != 2 {
            return Err(ParseError::Malformed);
        }
        if b.len() < 3 {
            return Err(input.short());
        }
        let n: usize = b[2] as usize;
        if n > b.len() - 3 {
            return Err(input.short());
        }
        let d = vstd::slice::slice_subrange(b, 3, 3 + n);
        let (h, _) = Self::parse_fields(d, b[0], b[1])?;
        Ok((h, 3 + n))
    }
}

/// A PES packet: its stream id, its header if the stream id has one, and
/// the payload.
#[derive(Debug)]
pub struct PESPacket {
    pub stream_id: u8,
    pub header: Option<PESHeader>,
    pub data: Vec<u8>,
}

/// A PES packet as a value.
pub struct PESPacketView {
    pub stream_id: u8,
    pub header: Option<PESHeaderView>,
    pub data: Seq<u8>,
}

/// The view of an optional header.
pub open spec fn header_view(o: Option<PESHeader>) -> Option<PESHeaderView> {
    match o {
        Some(h) => Some(h@),
        None => None,
    }
}

impl View for PESPacket {
    type V = PESPacketView;

    open spec fn view(&self) -> PESPacketView {
        PESPacketView {
            stream_id: self.stream_id,
            header: header_view(self.header),
            data: self.data@,
        }
    }
}

/// The stream ids whose packets carry no header: program stream map,
/// padding stream, private stream 2, ECM, EMM, DSM-CC, H.222.1 type E and
/// program stream directory.
pub open spec fn headerless_stream_ids() -> Set<u8> {
    set![0xBC, 0xBE, 0xBF, 0xF0, 0xF1, 0xF2, 0xF8, 0xFF]
}

/// The window `s` cannot begin with the start code `00 00 01`.
pub open spec fn start_code_mismatch(s: Seq<u8>) -> bool {
    ||| s.len() >= 1 && s[0] != 0
    ||| s.len() >= 2 && s[1] != 0
    ||| s.len() >= 3 && s[2] != 1
}

/// The packet whose stream id is `stream_id` and whose bytes after the
/// six-byte prefix are `body`.
pub open spec fn spec_pes_body(stream_id: u8, body: Seq<u8>) -> Result<PESPacketView, ParseError> {
    if headerless_stream_ids().contains(stream_id) {
        Ok(PESPacketView { stream_id, header: None, data: body })
    } else {
        match spec_pes_header(body, true) {
            Err(e) => Err(e),
            Ok((h, n)) => Ok(
                PESPacketView {
                    stream_id,
                    header: Some(h),
                    data: body.subrange(n, body.len() as int),
                },
            ),
        }
    }
}

/// The PES packet at the front of `s`: the start code, the stream id, the
/// packet length, and as many bytes as the length says. A length of zero
/// stands for all the bytes there are, which is known only of a complete
/// window. A window shorter than a length that is not zero awaits more
/// bytes, complete or not.
pub open spec fn spec_pes_packet(s: Seq<u8>, complete: bool) -> SpecResult<PESPacketView> {
    if start_code_mismatch(s) {
        Err(ParseError::Malformed)
    } else if s.len() < 6 {
        Err(short_verdict(complete))
    } else {
        let length = be16(s, 4);
        if length == 0 && !complete {
            Err(ParseError::Incomplete)
        } else if length > 0 && s.len() - 6 < length {
            Err(ParseError::Incomplete)
        } else {
            let end = if length == 0 {
                s.len() as int
            } else {
                6 + length
            };
            match spec_pes_body(s[3], s.subrange(6, end)) {
                Err(e) => Err(e),
                Ok(p) => Ok((p, end)),
            }
        }
    }
}

/// What the bytes of a PID that carries an elementary stream decode to.
#[verifier::opaque]
pub open spec fn spec_parse_pes(s: Seq<u8>, complete: bool) -> SpecResult<StreamPacketView> {
    match spec_pes_packet(s, complete) {
        Err(e) => Err(e),
        Ok((p, n)) => Ok((StreamPacketView::PES(p), n)),
    }
}

impl PESPacket {
    /// Tells whether packets of this stream id carry a header.
    pub fn has_header(stream_id: u8) -> (r: bool)
        ensures
            r == !headerless_stream_ids().contains(stream_id),
    {
        !(stream_id == 0xBC || stream_id == 0xBE || stream_id == 0xBF || stream_id == 0xF0
            || stream_id == 0xF1 || stream_id == 0xF2 || stream_id == 0xF8 || stream_id == 0xFF)
    }

    /// Decodes the PES packet at the front of the window.
    pub fn parse(input: PartialStream) -> (r: ParseResult<StreamPacket>)
        ensures
            agrees(r, spec_parse_pes(input.bytes@, input.complete)),
            r matches Ok((_, n)) ==> 0 < n <= input.bytes@.len(),
    {
        reveal(spec_parse_pes);
        let b = input.bytes;
        if (b.len() >= 1 && b[0] != 0) || (b.len() >= 2 && b[1] != 0) || (b.len() >= 3 && b[2]
            != 1) {
            return Err(ParseError::Malformed);
        }
        if b.len() < 6 {
            return Err(input.short());
        }
        let stream_id: u8 = b[3];
        let length: usize = read_be16(b, 4) as usize;
        if length == 0 && !input.complete {
            return Err(ParseError::Incomplete);
        }
        if length > 0 && b.len() - 6 < length {
            return Err(ParseError::Incomplete);
        }
        let end: usize = if length == 0 {
            b.len()
        } else {
            6 + length
        };
        let body = vstd::slice::slice_subrange(b, 6, end);
        if Self::has_header(stream_id) {
            let (h, n) = PESHeader::parse(stream(body))?;
            let data = copy_range(body, n, body.len());
            Ok((StreamPacket::PES(PESPacket { stream_id, header: Some(h), data }), end))
        } else {
            Ok((StreamPacket::PES(PESPacket { stream_id, header: None, data: copy_all(body) }), end))
        }
    }
}

/// A decoded PES packet has no header exactly if its stream id is one of
/// the eight header-less ids.
pub proof fn lemma_header_absent_iff_headerless(s: Seq<u8>, complete: bool)
    requires
        spec_pes_packet(s, complete) is Ok,
    ensures
        spec_pes_packet(s, complete).unwrap().0.header is None <==> headerless_stream_ids().contains(
            spec_pes_packet(s, complete).unwrap().0.stream_id,
        ),
        forall|id: u8|
            headerless_stream_ids().contains(id) <==> (id == 0xBC || id == 0xBE || id == 0xBF || id
                == 0xF0 || id == 0xF1 || id == 0xF2 || id == 0xF8 || id == 0xFF),
{
}

} // verus!
