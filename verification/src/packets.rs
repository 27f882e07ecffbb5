//! The transport packet: 192 bytes on the wire, of which the first four are
//! a copy protection field and an arrival time stamp, and the fifth is the
//! sync byte `0x47`.

use crate::pes::{be48, bytes_view, read_be48};
use crate::stream::{
    agrees, be32, copy_range, len8_block, optional, read_be32, read_len8_block, short_verdict,
    stream, ParseError, ParseResult, PartialStream, SpecResult,
};
use vstd::prelude::*;

verus! {

/// A program clock reference: 33 bits of base, six reserved bits and nine
/// bits of extension.
#[derive(Debug, Clone, Copy, PartialEq, Eq, Structural)]
pub struct PCR {
    pub base: u64,
    pub reserved: u8,
    pub extension: u16,
}

impl View for PCR {
    type V = PCR;

    open spec fn view(&self) -> PCR {
        *self
    }
}

/// The extension of an adaptation field, undecoded.
#[derive(Debug)]
pub struct AdaptationExtension {
    pub data: Vec<u8>,
}

/// An adaptation extension as a value.
pub struct AdaptationExtensionView {
    pub data: Seq<u8>,
}

impl View for AdaptationExtension {
    type V = AdaptationExtensionView;

    open spec fn view(&self) -> AdaptationExtensionView {
        AdaptationExtensionView { data: self.data@ }
    }
}

/// The adaptation field of a packet.
#[derive(Debug)]
pub struct AdaptationField {
    pub discontinuity_indicator: bool,
    pub random_access_indicator: bool,
    pub elementary_stream_priority_indicator: bool,
    pub pcr: Option<PCR>,
    pub opcr: Option<PCR>,
    pub splice_countdown: Option<i8>,
    pub transport_private_data: Option<Vec<u8>>,
    pub adaption_extension: Option<AdaptationExtension>,
    /// Number of padding bytes that follow the last field.
    pub padding: usize,
}

/// An adaptation field as a value.
pub struct AdaptationFieldView {
    pub discontinuity_indicator: bool,
    pub random_access_indicator: bool,
    pub elementary_stream_priority_indicator: bool,
    pub pcr: Option<PCR>,
    pub opcr: Option<PCR>,
    pub splice_countdown: Option<i8>,
    pub transport_private_data: Option<Seq<u8>>,
    pub adaption_extension: Option<AdaptationExtensionView>,
    pub padding: nat,
}

/// The view of an optional extension.
pub open spec fn adaptation_extension_view(o: Option<AdaptationExtension>) -> Option<
    AdaptationExtensionView,
> {
    match o {
        Some(e) => Some(e@),
        None => None,
    }
}

impl View for AdaptationField {
    type V = AdaptationFieldView;

    open spec fn view(&self) -> AdaptationFieldView {
        AdaptationFieldView {
            discontinuity_indicator: self.discontinuity_indicator,
            random_access_indicator: self.random_access_indicator,
            elementary_stream_priority_indicator: self.elementary_stream_priority_indicator,
            pcr: self.pcr,
            opcr: self.opcr,
            splice_countdown: self.splice_countdown,
            transport_private_data: bytes_view(self.transport_private_data),
            adaption_extension: adaptation_extension_view(self.adaption_extension),
            padding: self.padding as nat,
        }
    }
}

/// The payload of a packet: its first byte, which where the packet starts a
/// unit is the offset in `data` of that unit's first byte, and the bytes
/// after it.
#[derive(Debug)]
pub struct Payload {
    pub cutoff: u8,
    pub data: Vec<u8>,
}

/// A payload as a value.
pub struct PayloadView {
    pub cutoff: u8,
    pub data: Seq<u8>,
}

impl View for Payload {
    type V = PayloadView;

    open spec fn view(&self) -> PayloadView {
        PayloadView { cutoff: self.cutoff, data: self.data@ }
    }
}

/// A transport packet.
#[derive(Debug)]
pub struct Packet {
    pub copy_protection: u8,
    pub arrival_timestamp: u32,
    pub transport_error_indicator: bool,
    pub payload_unit_start_indicator: bool,
    pub transport_priority: bool,
    pub pid: u16,
    pub transport_scrambling_control: u8,
    pub continuity_counter: u8,
    pub adaptation_field: Option<AdaptationField>,
    pub payload_data: Option<Payload>,
}

/// A transport packet as a value.
pub struct PacketView {
    pub copy_protection: u8,
    pub arrival_timestamp: u32,
    pub transport_error_indicator: bool,
    pub payload_unit_start_indicator: bool,
    pub transport_priority: bool,
    pub pid: u16,
    pub transport_scrambling_control: u8,
    pub continuity_counter: u8,
    pub adaptation_field: Option<AdaptationFieldView>,
    pub payload_data: Option<PayloadView>,
}

/// The view of an optional adaptation field.
pub open spec fn adaptation_field_view(o: Option<AdaptationField>) -> Option<AdaptationFieldView> {
    match o {
        Some(f) => Some(f@),
        None => None,
    }
}

/// The view of an optional payload.
pub open spec fn payload_view(o: Option<Payload>) -> Option<PayloadView> {
    match o {
        Some(p) => Some(p@),
        None => None,
    }
}

impl View for Packet {
    type V = PacketView;

    open spec fn view(&self) -> PacketView {
        PacketView {
            copy_protection: self.copy_protection,
            arrival_timestamp: self.arrival_timestamp,
            transport_error_indicator: self.transport_error_indicator,
            payload_unit_start_indicator: self.payload_unit_start_indicator,
            transport_priority: self.transport_priority,
            pid: self.pid,
            transport_scrambling_control: self.transport_scrambling_control,
            continuity_counter: self.continuity_counter,
            adaptation_field: adaptation_field_view(self.adaptation_field),
            payload_data: payload_view(self.payload_data),
        }
    }
}

/// Length of a packet on the wire.
pub const PACKET_LENGTH: usize = 192;

/// The byte that opens the packet proper, behind the four-byte prefix.
pub const SYNC_BYTE: u8 = 0x47;

/// The byte that fills an adaptation field behind its last field.
pub const STUFFING: u8 = 0xFF;

/// The clock reference in the six bytes at `off`.
pub open spec fn spec_pcr(s: Seq<u8>, off: int, complete: bool) -> SpecResult<PCR> {
    if off + 6 > s.len() {
        Err(short_verdict(complete))
    } else {
        let v = be48(s, off);
        Ok(
            (
                PCR {
                    base: (v / 0x8000) as u64,
                    reserved: ((v / 0x200) % 0x40) as u8,
                    extension: (v % 0x200) as u16,
                },
                off + 6,
            ),
        )
    }
}

/// The splice countdown: the byte at `off`, read as a signed number.
pub open spec fn spec_splice_countdown(s: Seq<u8>, off: int, complete: bool) -> SpecResult<i8> {
    if off + 1 > s.len() {
        Err(short_verdict(complete))
    } else {
        Ok(
            (
                (if s[off] < 128 {
                    s[off] as int
                } else {
                    s[off] - 256
                }) as i8,
                off + 1,
            ),
        )
    }
}

/// The extension at `off`: a length-prefixed block.
pub open spec fn spec_adaptation_extension(s: Seq<u8>, off: int, complete: bool) -> SpecResult<
    AdaptationExtensionView,
> {
    match len8_block(s, off, complete) {
        Err(e) => Err(e),
        Ok((data, next)) => Ok((AdaptationExtensionView { data }, next)),
    }
}

/// Number of stuffing bytes that stand in a row from `off` on.
pub open spec fn stuffing_run(s: Seq<u8>, off: int) -> nat
    decreases s.len() - off,
{
    if 0 <= off < s.len() && s[off] == STUFFING {
        1 + stuffing_run(s, off + 1)
    } else {
        0
    }
}

/// The adaptation field whose bytes after the length byte are `d`: a byte
/// of flags, each field whose flag is set, in the order of the flags, and
/// stuffing. What follows the stuffing is not read.
pub open spec fn spec_adaptation_fields(d: Seq<u8>) -> SpecResult<AdaptationFieldView> {
    if d.len() < 1 {
        Err(ParseError::Malformed)
    } else {
        let f = d[0];
        match optional((f / 16) % 2 == 1, spec_pcr(d, 1, true), 1) {
            Err(e) => Err(e),
            Ok((pcr, o1)) => match optional((f / 8) % 2 == 1, spec_pcr(d, o1, true), o1) {
                Err(e) => Err(e),
                Ok((opcr, o2)) => match optional(
                    (f / 4) % 2 == 1,
                    spec_splice_countdown(d, o2, true),
                    o2,
                ) {
                    Err(e) => Err(e),
                    Ok((splice_countdown, o3)) => match optional(
                        (f / 2) % 2 == 1,
                        len8_block(d, o3, true),
                        o3,
                    ) {
                        Err(e) => Err(e),
                        Ok((transport_private_data, o4)) => match optional(
                            f % 2 == 1,
                            spec_adaptation_extension(d, o4, true),
                            o4,
                        ) {
                            Err(e) => Err(e),
                            Ok((adaption_extension, o5)) => Ok(
                                (
                                    AdaptationFieldView {
                                        discontinuity_indicator: f / 128 == 1,
                                        random_access_indicator: (f / 64) % 2 == 1,
                                        elementary_stream_priority_indicator: (f / 32) % 2 == 1,
                                        pcr,
                                        opcr,
                                        splice_countdown,
                                        transport_private_data,
                                        adaption_extension,
                                        padding: stuffing_run(d, o5),
                                    },
                                    o5 + stuffing_run(d, o5),
                                ),
                            ),
                        },
                    },
                },
            },
        }
    }
}

/// The adaptation field at `off`: a length byte, and that many bytes which
/// hold the field.
pub open spec fn spec_adaptation_field(s: Seq<u8>, off: int, complete: bool) -> SpecResult<
    AdaptationFieldView,
> {
    match len8_block(s, off, complete) {
        Err(e) => Err(e),
        Ok((d, next)) => match spec_adaptation_fields(d) {
            Err(e) => Err(e),
            Ok((field, _)) => Ok((field, next)),
        },
    }
}

/// The payload that fills `s` from `off` on: one byte of offset, then data.
pub open spec fn spec_payload(s: Seq<u8>, off: int) -> SpecResult<PayloadView> {
    if off + 1 > s.len() {
        Err(ParseError::Malformed)
    } else {
        Ok(
            (
                PayloadView { cutoff: s[off], data: s.subrange(off + 1, s.len() as int) },
                s.len() as int,
            ),
        )
    }
}

/// The packet that the 192 bytes `p` hold.
pub open spec fn spec_packet_fields(p: Seq<u8>) -> SpecResult<PacketView> {
    if p[4] != SYNC_BYTE {
        Err(ParseError::Malformed)
    } else {
        match optional((p[7] / 32) % 2 == 1, spec_adaptation_field(p, 8, true), 8) {
            Err(e) => Err(e),
            Ok((adaptation_field, o1)) => match optional(
                (p[7] / 16) % 2 == 1,
                spec_payload(p, o1),
                o1,
            ) {
                Err(e) => Err(e),
                Ok((payload_data, o2)) => Ok(
                    (
                        PacketView {
                            copy_protection: (p[0] / 64) as u8,
                            arrival_timestamp: (be32(p, 0) % 0x4000_0000) as u32,
                            transport_error_indicator: p[5] / 128 == 1,
                            payload_unit_start_indicator: (p[5] / 64) % 2 == 1,
                            transport_priority: (p[5] / 32) % 2 == 1,
                            pid: ((p[5] % 32) * 0x100 + p[6]) as u16,
                            transport_scrambling_control: (p[7] / 64) as u8,
                            continuity_counter: (p[7] % 16) as u8,
                            adaptation_field,
                            payload_data,
                        },
                        o2,
                    ),
                ),
            },
        }
    }
}

/// The packet at the front of `s`: its first 192 bytes, whatever follows.
#[verifier::opaque]
pub open spec fn spec_packet(s: Seq<u8>, complete: bool) -> SpecResult<PacketView> {
    if s.len() < PACKET_LENGTH {
        Err(short_verdict(complete))
    } else {
        match spec_packet_fields(s.subrange(0, PACKET_LENGTH as int)) {
            Err(e) => Err(e),
            Ok((p, _)) => Ok((p, PACKET_LENGTH as int)),
        }
    }
}

fn read_pcr(input: PartialStream, off: usize) -> (r: ParseResult<PCR>)
    requires
        off <= input.bytes@.len(),
    ensures
        agrees(r, spec_pcr(input.bytes@, off as int, input.complete)),
{
    if input.bytes.len() - off < 6 {
        return Err(input.short());
    }
    let v: u64 = read_be48(input.bytes, off);
    Ok(
        (
            PCR {
                base: v / 0x8000,
                reserved: ((v / 0x200) % 0x40) as u8,
                extension: (v % 0x200) as u16,
            },
            off + 6,
        ),
    )
}

fn read_splice_countdown(input: PartialStream, off: usize) -> (r: ParseResult<i8>)
    requires
        off <= input.bytes@.len(),
    ensures
        agrees(r, spec_splice_countdown(input.bytes@, off as int, input.complete)),
{
    if off >= input.bytes.len() {
        return Err(input.short());
    }
    let b: u8 = input.bytes[off];
    let v: i8 = if b < 128 {
        b as i8
    } else {
        ((b as i16) - 256) as i8
    };
    Ok((v, off + 1))
}

fn read_adaptation_extension(input: PartialStream, off: usize) -> (r: ParseResult<
    AdaptationExtension,
>)
    requires
        off <= input.bytes@.len(),
    ensures
        agrees(r, spec_adaptation_extension(input.bytes@, off as int, input.complete)),
{
    let (data, next) = read_len8_block(input, off)?;
    Ok((AdaptationExtension { data }, next))
}

fn count_stuffing(d: &[u8], off: usize) -> (n: usize)
    requires
        off <= d@.len(),
    ensures
        n == stuffing_run(d@, off as int),
        off + n <= d@.len(),
{
    let mut i: usize = off;
    while i < d.len() && d[i] == STUFFING
        invariant
            off <= i <= d@.len(),
            stuffing_run(d@, off as int) == (i - off) + stuffing_run(d@, i as int),
        decreases d@.len() - i,
    {
        i += 1;
    }
    i - off
}

impl PCR {
    /// Decodes the clock reference at the front of the window.
    pub fn parse(input: PartialStream) -> (r: ParseResult<PCR>)
        ensures
            agrees(r, spec_pcr(input.bytes@, 0, input.complete)),
    {
        read_pcr(input, 0)
    }
}

impl AdaptationExtension {
    /// Decodes the extension at the front of the window.
    pub fn parse(input: PartialStream) -> (r: ParseResult<AdaptationExtension>)
        ensures
            agrees(r, spec_adaptation_extension(input.bytes@, 0, input.complete)),
    {
        read_adaptation_extension(input, 0)
    }
}

impl AdaptationField {
    /// Decodes the adaptation field whose bytes after the length byte are `d`.
    fn parse_length_limited(d: &[u8]) -> (r: ParseResult<AdaptationField>)
        ensures
            agrees(r, spec_adaptation_fields(d@)),
    {
        if d.len() < 1 {
            return Err(ParseError::Malformed);
        }
        let input = stream(d);
        let f: u8 = d[0];
        let mut off: usize = 1;
        let mut pcr: Option<PCR> = None;
        if (f / 16) % 2 == 1 {
            let (v, next) = read_pcr(input, off)?;
            pcr = Some(v);
            off = next;
        }
        let mut opcr: Option<PCR> = None;
        if (f / 8) % 2 == 1 {
            let (v, next) = read_pcr(input, off)?;
            opcr = Some(v);
            off = next;
        }
        let mut splice_countdown: Option<i8> = None;
        if (f / 4) % 2 == 1 {
            let (v, next) = read_splice_countdown(input, off)?;
            splice_countdown = Some(v);
            off = next;
        }
        let mut transport_private_data: Option<Vec<u8>> = None;
        if (f / 2) % 2 == 1 {
            let (v, next) = read_len8_block(input, off)?;
            transport_private_data = Some(v);
            off = next;
        }
        let mut adaption_extension: Option<AdaptationExtension> = None;
        if f % 2 == 1 {
            let (v, next) = read_adaptation_extension(input, off)?;
            adaption_extension = Some(v);
            off = next;
        }
        let padding = count_stuffing(d, off);
        Ok(
            (
                AdaptationField {
                    discontinuity_indicator: f / 128 == 1,
                    random_access_indicator: (f / 64) % 2 == 1,
                    elementary_stream_priority_indicator: (f / 32) % 2 == 1,
                    pcr,
                    opcr,
                    splice_countdown,
                    transport_private_data,
                    adaption_extension,
                    padding,
                },
                off + padding,
            ),
        )
    }

    fn parse_at(input: PartialStream, off: usize) -> (r: ParseResult<AdaptationField>)
        requires
            off <= input.bytes@.len(),
        ensures
            agrees(r, spec_adaptation_field(input.bytes@, off as int, input.complete)),
    {
        let b = input.bytes;
        if off >= b.len() {
            return Err(input.short());
        }
        let n: usize = b[off] as usize;
        if n > b.len() - off - 1 {
            return Err(input.short());
        }
        let d = vstd::slice::slice_subrange(b, off + 1, off + 1 + n);
        let (field, _) = Self::parse_length_limited(d)?;
        Ok((field, off + 1 + n))
    }

    /// Decodes the adaptation field at the front of the window.
    pub fn parse(input: PartialStream) -> (r: ParseResult<AdaptationField>)
        ensures
            agrees(r, spec_adaptation_field(input.bytes@, 0, input.complete)),
    {
        Self::parse_at(input, 0)
    }
}

impl Packet {
    /// Decodes the packet that the 192 bytes `p` hold.
    fn parse_length_limited(p: &[u8]) -> (r: ParseResult<Packet>)
        requires
            p@.len() == PACKET_LENGTH,
        ensures
            agrees(r, spec_packet_fields(p@)),
    {
        if p[4] != SYNC_BYTE {
            return Err(ParseError::Malformed);
        }
        let input = stream(p);
        let mut off: usize = 8;
        let mut adaptation_field: Option<AdaptationField> = None;
        if (p[7] / 32) % 2 == 1 {
            let (v, next) = AdaptationField::parse_at(input, off)?;
            adaptation_field = Some(v);
            off = next;
        }
        let mut payload_data: Option<Payload> = None;
        if (p[7] / 16) % 2 == 1 {
            if off >= p.len() {
                return Err(ParseError::Malformed);
            }
            payload_data = Some(Payload { cutoff: p[off], data: copy_range(p, off + 1, p.len()) });
            off = p.len();
        }
        Ok(
            (
                Packet {
                    copy_protection: p[0] / 64,
                    arrival_timestamp: read_be32(p, 0) % 0x4000_0000,
                    transport_error_indicator: p[5] / 128 == 1,
                    payload_unit_start_indicator: (p[5] / 64) % 2 == 1,
                    transport_priority: (p[5] / 32) % 2 == 1,
                    pid: ((p[5] % 32) as u16) * 0x100 + (p[6] as u16),
                    transport_scrambling_control: p[7] / 64,
                    continuity_counter: p[7] % 16,
                    adaptation_field,
                    payload_data,
                },
                off,
            ),
        )
    }

    /// Decodes the packet at the front of the window.
    pub fn parse(input: PartialStream) -> (r: ParseResult<Packet>)
        ensures
            agrees(r, spec_packet(input.bytes@, input.complete)),
            r matches Ok((_, n)) ==> n == PACKET_LENGTH && n <= input.bytes@.len(),
    {
        reveal(spec_packet);
        if input.bytes.len() < PACKET_LENGTH {
            return Err(input.short());
        }
        let p = vstd::slice::slice_subrange(input.bytes, 0, PACKET_LENGTH);
        let (packet, _) = Self::parse_length_limited(p)?;
        Ok((packet, PACKET_LENGTH))
    }
}

/// A decoded packet took exactly 192 bytes, which the window held, and a
/// shorter window is too short for any verdict but that.
pub proof fn lemma_packet_length(s: Seq<u8>, complete: bool)
    ensures
        spec_packet(s, complete) matches Ok((_, n)) ==> n == PACKET_LENGTH && n <= s.len(),
        s.len() < PACKET_LENGTH ==> spec_packet(s, complete) == Err::<(PacketView, int), ParseError>(
            short_verdict(complete),
        ),
{
    reveal(spec_packet);
}

/// What the decoder finds in a window that may still grow, it finds in
/// every window that begins with it; and a packet takes 192 bytes.
pub proof fn lemma_packet_stable(p: Seq<u8>, x: Seq<u8>, complete: bool)
    ensures
        spec_packet(p, complete) matches Ok((_, n)) ==> 0 < n <= p.len(),
        !(spec_packet(p, false) == Err::<(PacketView, int), ParseError>(ParseError::Incomplete))
            ==> spec_packet(p + x, complete) == spec_packet(p, false),
{
    reveal(spec_packet);
    if p.len() >= PACKET_LENGTH {
        assert((p + x).subrange(0, PACKET_LENGTH as int) =~= p.subrange(0, PACKET_LENGTH as int));
    }
}

} // verus!
