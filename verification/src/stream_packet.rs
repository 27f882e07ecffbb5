//! What the reassembled byte sequence of one PID decodes to: the PSI section
//! frame that PAT and PMT share, the two tables, and the record type.

use crate::crc::{crc, crc_of};
use crate::pes::{PESPacket, PESPacketView};
use crate::stream::{
    agrees, be16, be32, copy_all, len12_block, marked13, read_be16, read_be32, read_len12_block,
    read_marked13, short_verdict, stream, ParseError, ParseResult, PartialStream, SpecResult,
};
use vstd::prelude::*;

verus! {

/// One program of the program association table.
#[derive(Debug, Clone, Copy, PartialEq, Eq, Structural)]
pub struct PATTableEntry {
    pub program_number: u16,
    pub program_map_pid: u16,
}

impl View for PATTableEntry {
    type V = PATTableEntry;

    open spec fn view(&self) -> PATTableEntry {
        *self
    }
}

/// The fields that every PSI section carries before its body.
#[derive(Debug, Clone, Copy, PartialEq, Eq, Structural)]
pub struct PSISharedTableInfo {
    pub table_id: u8,
    pub table_id_extension: u16,
    pub version_number: u8,
    pub current: bool,
    pub section_number: u8,
    pub last_section_number: u8,
}

impl View for PSISharedTableInfo {
    type V = PSISharedTableInfo;

    open spec fn view(&self) -> PSISharedTableInfo {
        *self
    }
}

/// The byte that pads a payload behind a section.
pub const PADDING: u8 = 0xFF;

/// Every byte of `s` from `off` on is padding.
pub open spec fn all_padding(s: Seq<u8>, off: int) -> bool {
    forall|i: int| off <= i < s.len() ==> s[i] == PADDING
}

/// The section length that the second and third byte of a section declare:
/// the number of bytes that follow the third byte, checksum included.
pub open spec fn section_length(s: Seq<u8>) -> int {
    (s[1] % 4) * 0x100 + s[2]
}

/// The fields of a section whose bytes between the length and the checksum
/// are `t`, and the body that follows them.
pub open spec fn section_fields(table_id: u8, t: Seq<u8>) -> Option<(PSISharedTableInfo, Seq<u8>)> {
    if t.len() < 5 || t[2] / 64 != 3 {
        None
    } else {
        Some(
            (
                PSISharedTableInfo {
                    table_id,
                    table_id_extension: be16(t, 0) as u16,
                    version_number: ((t[2] / 2) % 32) as u8,
                    current: t[2] % 2 == 1,
                    section_number: t[3],
                    last_section_number: t[4],
                },
                t.subrange(5, t.len() as int),
            ),
        )
    }
}

/// The PSI section at the front of `s`, as its shared fields and its body.
///
/// The first byte is the table id. The next two hold, from the top bit down,
/// a set bit, a clear bit, the bits `11`, the bits `00` and the section
/// length. The last four bytes of the section are the checksum of all that
/// stands before them. If nothing but padding follows the section, the
/// padding belongs to it.
#[verifier::opaque]
pub open spec fn spec_parse_section(s: Seq<u8>, complete: bool) -> SpecResult<
    (PSISharedTableInfo, Seq<u8>),
> {
    if s.len() < 2 {
        Err(short_verdict(complete))
    } else if s[1] / 128 != 1 || (s[1] / 64) % 2 != 0 || (s[1] / 16) % 4 != 3 || (s[1] / 4) % 4
        != 0 {
        Err(ParseError::Malformed)
    } else if s.len() < 3 {
        Err(short_verdict(complete))
    } else if section_length(s) < 4 {
        Err(ParseError::Malformed)
    } else if s.len() < 3 + section_length(s) {
        Err(short_verdict(complete))
    } else {
        let end = 3 + section_length(s);
        if crc_of(s.subrange(0, end - 4)) != be32(s, end - 4) {
            Err(ParseError::Malformed)
        } else {
            match section_fields(s[0], s.subrange(3, end - 4)) {
                None => Err(ParseError::Malformed),
                Some(fields) => Ok(
                    (
                        fields,
                        if all_padding(s, end) {
                            s.len() as int
                        } else {
                            end
                        },
                    ),
                ),
            }
        }
    }
}

/// What padding at the front of `s` takes: all of `s` if it is nothing but
/// padding, else nothing.
pub open spec fn spec_eat_up_padding(s: Seq<u8>) -> SpecResult<()> {
    Ok(
        (
            (),
            if all_padding(s, 0) {
                s.len() as int
            } else {
                0
            },
        ),
    )
}

/// The program association table: which PID carries the map of each program.
#[derive(Debug)]
pub struct PATTable {
    pub psi_data: PSISharedTableInfo,
    pub entries: Vec<PATTableEntry>,
}

/// A program association table as a value.
pub struct PATTableView {
    pub psi_data: PSISharedTableInfo,
    pub entries: Seq<PATTableEntry>,
}

impl View for PATTable {
    type V = PATTableView;

    open spec fn view(&self) -> PATTableView {
        PATTableView { psi_data: self.psi_data, entries: self.entries@ }
    }
}

/// One elementary stream of a program.
#[derive(Debug)]
pub struct ElementaryStreamInfo {
    pub stream_type: u8,
    pub pid: u16,
    pub descriptors: Vec<u8>,
}

/// The description of an elementary stream as a value.
pub struct ElementaryStreamInfoView {
    pub stream_type: u8,
    pub pid: u16,
    pub descriptors: Seq<u8>,
}

impl View for ElementaryStreamInfo {
    type V = ElementaryStreamInfoView;

    open spec fn view(&self) -> ElementaryStreamInfoView {
        ElementaryStreamInfoView {
            stream_type: self.stream_type,
            pid: self.pid,
            descriptors: self.descriptors@,
        }
    }
}

/// The views of a sequence of elementary streams.
pub open spec fn stream_info_views(v: Seq<ElementaryStreamInfo>) -> Seq<ElementaryStreamInfoView> {
    v.map_values(|e: ElementaryStreamInfo| e@)
}

/// The program map table: the elementary streams of one program.
#[derive(Debug)]
pub struct PMTTable {
    pub psi_data: PSISharedTableInfo,
    pub pcr_pid: u16,
    pub program_descriptiors: Vec<u8>,
    pub elementary_stream_info_data: Vec<ElementaryStreamInfo>,
}

/// A program map table as a value.
pub struct PMTTableView {
    pub psi_data: PSISharedTableInfo,
    pub pcr_pid: u16,
    pub program_descriptiors: Seq<u8>,
    pub elementary_stream_info_data: Seq<ElementaryStreamInfoView>,
}

impl View for PMTTable {
    type V = PMTTableView;

    open spec fn view(&self) -> PMTTableView {
        PMTTableView {
            psi_data: self.psi_data,
            pcr_pid: self.pcr_pid,
            program_descriptiors: self.program_descriptiors@,
            elementary_stream_info_data: stream_info_views(self.elementary_stream_info_data@),
        }
    }
}

/// A record of the transport stream.
#[derive(Debug)]
pub enum StreamPacket {
    PAT(PATTable),
    PMT(PMTTable),
    PES(PESPacket),
    /// A well-formed section of a table that is not decoded, with its body.
    UnsupportedPSITable(PSISharedTableInfo, Vec<u8>),
}

/// A record of the transport stream as a value.
pub enum StreamPacketView {
    PAT(PATTableView),
    PMT(PMTTableView),
    PES(PESPacketView),
    UnsupportedPSITable(PSISharedTableInfo, Seq<u8>),
}

impl View for StreamPacket {
    type V = StreamPacketView;

    open spec fn view(&self) -> StreamPacketView {
        match *self {
            StreamPacket::PAT(t) => StreamPacketView::PAT(t@),
            StreamPacket::PMT(t) => StreamPacketView::PMT(t@),
            StreamPacket::PES(p) => StreamPacketView::PES(p@),
            StreamPacket::UnsupportedPSITable(info, body) => StreamPacketView::UnsupportedPSITable(
                info,
                body@,
            ),
        }
    }
}

/// The table entry at `off`: a program number, then the PID of its map.
pub open spec fn spec_pat_entry(s: Seq<u8>, off: int, complete: bool) -> SpecResult<PATTableEntry> {
    if off + 2 > s.len() {
        Err(short_verdict(complete))
    } else {
        match marked13(s, off + 2, complete) {
            Err(e) => Err(e),
            Ok((program_map_pid, next)) => Ok(
                (PATTableEntry { program_number: be16(s, off) as u16, program_map_pid }, next),
            ),
        }
    }
}

/// The entries from `off` on, up to the first place where no entry stands.
/// In a window that may still grow, the end of the window is no such place.
pub open spec fn spec_pat_entries(s: Seq<u8>, off: int, complete: bool) -> SpecResult<
    Seq<PATTableEntry>,
>
    decreases s.len() - off,
{
    match spec_pat_entry(s, off, complete) {
        Err(ParseError::Malformed) => Ok((Seq::empty(), off)),
        Err(ParseError::Incomplete) => Err(ParseError::Incomplete),
        Ok((e, next)) => match spec_pat_entries(s, next, complete) {
            Ok((es, end)) => Ok((seq![e] + es, end)),
            Err(x) => Err(x),
        },
    }
}

/// The body of a program association table: one entry or more.
pub open spec fn spec_pat_body(s: Seq<u8>, complete: bool, psi_data: PSISharedTableInfo) -> SpecResult<
    StreamPacketView,
> {
    match spec_pat_entries(s, 0, complete) {
        Err(e) => Err(e),
        Ok((entries, end)) => if entries.len() == 0 {
            Err(ParseError::Malformed)
        } else {
            Ok((StreamPacketView::PAT(PATTableView { psi_data, entries }), end))
        },
    }
}

/// The elementary stream at `off`: its type, its PID, and its descriptors.
pub open spec fn spec_stream_info(s: Seq<u8>, off: int, complete: bool) -> SpecResult<
    ElementaryStreamInfoView,
> {
    if off + 1 > s.len() {
        Err(short_verdict(complete))
    } else {
        match marked13(s, off + 1, complete) {
            Err(e) => Err(e),
            Ok((pid, o1)) => match len12_block(s, o1, complete) {
                Err(e) => Err(e),
                Ok((descriptors, next)) => Ok(
                    (ElementaryStreamInfoView { stream_type: s[off], pid, descriptors }, next),
                ),
            },
        }
    }
}

/// The elementary streams from `off` on, up to the first place where none
/// stands. In a window that may still grow, its end is no such place.
pub open spec fn spec_stream_infos(s: Seq<u8>, off: int, complete: bool) -> SpecResult<
    Seq<ElementaryStreamInfoView>,
>
    decreases s.len() - off,
{
    match spec_stream_info(s, off, complete) {
        Err(ParseError::Malformed) => Ok((Seq::empty(), off)),
        Err(ParseError::Incomplete) => Err(ParseError::Incomplete),
        Ok((e, next)) => match spec_stream_infos(s, next, complete) {
            Ok((es, end)) => Ok((seq![e] + es, end)),
            Err(x) => Err(x),
        },
    }
}

/// The body of a program map table: the PID of the program clock, the
/// program's descriptors, and the elementary streams.
pub open spec fn spec_pmt_body(s: Seq<u8>, complete: bool, psi_data: PSISharedTableInfo) -> SpecResult<
    StreamPacketView,
> {
    match marked13(s, 0, complete) {
        Err(e) => Err(e),
        Ok((pcr_pid, o1)) => match len12_block(s, o1, complete) {
            Err(e) => Err(e),
            Ok((program_descriptiors, o2)) => match spec_stream_infos(s, o2, complete) {
                Err(e) => Err(e),
                Ok((elementary_stream_info_data, end)) => Ok(
                    (
                        StreamPacketView::PMT(
                            PMTTableView {
                                psi_data,
                                pcr_pid,
                                program_descriptiors,
                                elementary_stream_info_data,
                            },
                        ),
                        end,
                    ),
                ),
            },
        },
    }
}

/// What a section decodes to where a table is expected whose body `body`
/// gives: a section of another table is kept undecoded; the body of the
/// expected table must fill the section.
pub open spec fn spec_table(
    section: SpecResult<(PSISharedTableInfo, Seq<u8>)>,
    table_id: u8,
    body: spec_fn(Seq<u8>, PSISharedTableInfo) -> SpecResult<StreamPacketView>,
) -> SpecResult<StreamPacketView> {
    match section {
        Err(e) => Err(e),
        Ok(((psi_data, bytes), n)) => if psi_data.table_id != table_id {
            Ok((StreamPacketView::UnsupportedPSITable(psi_data, bytes), n))
        } else {
            match body(bytes, psi_data) {
                Err(e) => Err(e),
                Ok((table, used)) => if used != bytes.len() {
                    Err(ParseError::Malformed)
                } else {
                    Ok((table, n))
                },
            }
        },
    }
}

/// What the bytes of the PID that carries the program association table
/// decode to.
pub open spec fn spec_parse_pat(s: Seq<u8>, complete: bool) -> SpecResult<StreamPacketView> {
    spec_table(
        spec_parse_section(s, complete),
        PATTable::TABLE_ID,
        |b: Seq<u8>, i: PSISharedTableInfo| spec_pat_body(b, true, i),
    )
}

/// What the bytes of a PID that carries a program map table decode to.
pub open spec fn spec_parse_pmt(s: Seq<u8>, complete: bool) -> SpecResult<StreamPacketView> {
    spec_table(
        spec_parse_section(s, complete),
        PMTTable::TABLE_ID,
        |b: Seq<u8>, i: PSISharedTableInfo| spec_pmt_body(b, true, i),
    )
}

/// Tells whether every byte of `b` from `off` on is padding.
fn is_all_padding(b: &[u8], off: usize) -> (r: bool)
    requires
        off <= b@.len(),
    ensures
        r == all_padding(b@, off as int),
{
    let mut i: usize = off;
    while i < b.len()
        invariant
            off <= i <= b@.len(),
            forall|k: int| off <= k < i ==> b@[k] == PADDING,
        decreases b@.len() - i,
    {
        if b[i] != PADDING {
            return false;
        }
        i += 1;
    }
    true
}

impl PSISharedTableInfo {
    /// Decodes the section at the front of the window, whatever its table.
    pub fn parse<'a>(input: PartialStream<'a>) -> (r: ParseResult<(PSISharedTableInfo, &'a [u8])>)
        ensures
            agrees(r, spec_parse_section(input.bytes@, input.complete)),
            r matches Ok((_, n)) ==> 0 < n <= input.bytes@.len(),
    {
        reveal(spec_parse_section);
        let b = input.bytes;
        if b.len() < 2 {
            return Err(input.short());
        }
        if b[1] / 128 != 1 || (b[1] / 64) % 2 != 0 || (b[1] / 16) % 4 != 3 || (b[1] / 4) % 4 != 0 {
            return Err(ParseError::Malformed);
        }
        if b.len() < 3 {
            return Err(input.short());
        }
        let length: usize = ((b[1] % 4) as usize) * 0x100 + (b[2] as usize);
        if length < 4 {
            return Err(ParseError::Malformed);
        }
        if b.len() - 3 < length {
            return Err(input.short());
        }
        let end: usize = 3 + length;
        if crc(vstd::slice::slice_subrange(b, 0, end - 4)) != read_be32(b, end - 4) {
            return Err(ParseError::Malformed);
        }
        let t = vstd::slice::slice_subrange(b, 3, end - 4);
        if t.len() < 5 || t[2] / 64 != 3 {
            return Err(ParseError::Malformed);
        }
        let info = PSISharedTableInfo {
            table_id: b[0],
            table_id_extension: read_be16(t, 0),
            version_number: (t[2] / 2) % 32,
            current: t[2] % 2 == 1,
            section_number: t[3],
            last_section_number: t[4],
        };
        let body = vstd::slice::slice_subrange(t, 5, t.len());
        let consumed = if is_all_padding(b, end) {
            b.len()
        } else {
            end
        };
        Ok(((info, body), consumed))
    }

    /// Takes the whole window if it holds nothing but padding, else nothing.
    pub fn eat_up_padding(input: PartialStream) -> (r: ParseResult<()>)
        ensures
            agrees(r, spec_eat_up_padding(input.bytes@)),
    {
        if is_all_padding(input.bytes, 0) {
            Ok(((), input.bytes.len()))
        } else {
            Ok(((), 0))
        }
    }
}

/// The result `tail` with the sequence `head` put before its records.
pub open spec fn prepend<V>(head: Seq<V>, tail: SpecResult<Seq<V>>) -> SpecResult<Seq<V>> {
    match tail {
        Ok((t, end)) => Ok((head + t, end)),
        Err(e) => Err(e),
    }
}

fn read_pat_entry(input: PartialStream, off: usize) -> (r: ParseResult<PATTableEntry>)
    requires
        off <= input.bytes@.len(),
    ensures
        agrees(r, spec_pat_entry(input.bytes@, off as int, input.complete)),
{
    if input.bytes.len() - off < 2 {
        return Err(input.short());
    }
    let (program_map_pid, next) = read_marked13(input, off + 2)?;
    Ok((PATTableEntry { program_number: read_be16(input.bytes, off), program_map_pid }, next))
}

fn read_pat_entries(input: PartialStream, start: usize) -> (r: ParseResult<Vec<PATTableEntry>>)
    requires
        start <= input.bytes@.len(),
    ensures
        agrees(r, spec_pat_entries(input.bytes@, start as int, input.complete)),
{
    let mut v: Vec<PATTableEntry> = Vec::new();
    let mut off: usize = start;
    assert(v@ + Seq::<PATTableEntry>::empty() =~= v@);
    loop
        invariant
            off <= input.bytes@.len(),
            spec_pat_entries(input.bytes@, start as int, input.complete) == prepend(
                v@,
                spec_pat_entries(input.bytes@, off as int, input.complete),
            ),
        decreases input.bytes@.len() - off,
    {
        match read_pat_entry(input, off) {
            Err(ParseError::Malformed) => {
                assert(v@ + Seq::<PATTableEntry>::empty() =~= v@);
                return Ok((v, off));
            },
            Err(ParseError::Incomplete) => {
                return Err(ParseError::Incomplete);
            },
            Ok((e, next)) => {
                proof {
                    match spec_pat_entries(input.bytes@, next as int, input.complete) {
                        Ok((es, _)) => {
                            assert(v@ + (seq![e] + es) =~= v@.push(e) + es);
                        },
                        Err(_) => {},
                    }
                }
                v.push(e);
                off = next;
            },
        }
    }
}

fn read_stream_info(input: PartialStream, off: usize) -> (r: ParseResult<ElementaryStreamInfo>)
    requires
        off <= input.bytes@.len(),
    ensures
        agrees(r, spec_stream_info(input.bytes@, off as int, input.complete)),
{
    if off >= input.bytes.len() {
        return Err(input.short());
    }
    let (pid, o1) = read_marked13(input, off + 1)?;
    let (descriptors, next) = read_len12_block(input, o1)?;
    Ok((ElementaryStreamInfo { stream_type: input.bytes[off], pid, descriptors }, next))
}

fn read_stream_infos(input: PartialStream, start: usize) -> (r: ParseResult<
    Vec<ElementaryStreamInfo>,
>)
    requires
        start <= input.bytes@.len(),
    ensures
        match (r, spec_stream_infos(input.bytes@, start as int, input.complete)) {
            (Ok((v, n)), Ok((sv, sn))) => stream_info_views(v@) == sv && n == sn,
            (Err(e), Err(se)) => e == se,
            _ => false,
        },
{
    let mut v: Vec<ElementaryStreamInfo> = Vec::new();
    let mut off: usize = start;
    assert(stream_info_views(v@) + Seq::<ElementaryStreamInfoView>::empty() =~= stream_info_views(
        v@,
    ));
    loop
        invariant
            off <= input.bytes@.len(),
            spec_stream_infos(input.bytes@, start as int, input.complete) == prepend(
                stream_info_views(v@),
                spec_stream_infos(input.bytes@, off as int, input.complete),
            ),
        decreases input.bytes@.len() - off,
    {
        match read_stream_info(input, off) {
            Err(ParseError::Malformed) => {
                assert(stream_info_views(v@) + Seq::<ElementaryStreamInfoView>::empty()
                    =~= stream_info_views(v@));
                return Ok((v, off));
            },
            Err(ParseError::Incomplete) => {
                return Err(ParseError::Incomplete);
            },
            Ok((e, next)) => {
                proof {
                    assert(stream_info_views(v@.push(e)) =~= stream_info_views(v@).push(e@));
                    match spec_stream_infos(input.bytes@, next as int, input.complete) {
                        Ok((es, _)) => {
                            assert(stream_info_views(v@) + (seq![e@] + es) =~= stream_info_views(
                                v@,
                            ).push(e@) + es);
                        },
                        Err(_) => {},
                    }
                }
                v.push(e);
                off = next;
            },
        }
    }
}

impl PATTableEntry {
    /// Decodes the table entry at the front of the window.
    pub fn parse(input: PartialStream) -> (r: ParseResult<PATTableEntry>)
        ensures
            agrees(r, spec_pat_entry(input.bytes@, 0, input.complete)),
    {
        read_pat_entry(input, 0)
    }
}

impl ElementaryStreamInfo {
    /// Decodes the elementary stream description at the front of the window.
    pub fn parse(input: PartialStream) -> (r: ParseResult<ElementaryStreamInfo>)
        ensures
            agrees(r, spec_stream_info(input.bytes@, 0, input.complete)),
    {
        read_stream_info(input, 0)
    }
}

/// A table that a PSI section carries.
pub trait Parsable {
    /// The table id of the sections that carry this table.
    const TABLE_ID: u8;

    /// What the body of a section of this table decodes to.
    spec fn spec_parse_body(s: Seq<u8>, complete: bool, psi_data: PSISharedTableInfo) -> SpecResult<
        StreamPacketView,
    >;

    /// Decodes what a PID that carries this table carries: the table, or a
    /// section of another table kept as it is.
    fn parse(input: PartialStream) -> (r: ParseResult<StreamPacket>)
        ensures
            agrees(
                r,
                spec_table(
                    spec_parse_section(input.bytes@, input.complete),
                    Self::TABLE_ID,
                    |b: Seq<u8>, i: PSISharedTableInfo| Self::spec_parse_body(b, true, i),
                ),
            ),
            r matches Ok((_, n)) ==> 0 < n <= input.bytes@.len(),
    {
        let ((psi_data, body), n) = PSISharedTableInfo::parse(input)?;
        if psi_data.table_id != Self::TABLE_ID {
            return Ok((StreamPacket::UnsupportedPSITable(psi_data, copy_all(body)), n));
        }
        let (table, used) = Self::parse_body(stream(body), psi_data)?;
        if used != body.len() {
            return Err(ParseError::Malformed);
        }
        Ok((table, n))
    }

    /// Decodes the body of a section of this table whose shared fields are
    /// `psi_data`.
    fn parse_body(input: PartialStream, psi_data: PSISharedTableInfo) -> (r: ParseResult<
        StreamPacket,
    >)
        ensures
            agrees(r, Self::spec_parse_body(input.bytes@, input.complete, psi_data)),
    ;
}

impl Parsable for PATTable {
    const TABLE_ID: u8 = 0;

    open spec fn spec_parse_body(
        s: Seq<u8>,
        complete: bool,
        psi_data: PSISharedTableInfo,
    ) -> SpecResult<StreamPacketView> {
        spec_pat_body(s, complete, psi_data)
    }

    fn parse_body(input: PartialStream, psi_data: PSISharedTableInfo) -> (r: ParseResult<
        StreamPacket,
    >) {
        let (entries, end) = read_pat_entries(input, 0)?;
        if entries.len() == 0 {
            return Err(ParseError::Malformed);
        }
        Ok((StreamPacket::PAT(PATTable { psi_data, entries }), end))
    }
}

impl Parsable for PMTTable {
    const TABLE_ID: u8 = 2;

    open spec fn spec_parse_body(
        s: Seq<u8>,
        complete: bool,
        psi_data: PSISharedTableInfo,
    ) -> SpecResult<StreamPacketView> {
        spec_pmt_body(s, complete, psi_data)
    }

    fn parse_body(input: PartialStream, psi_data: PSISharedTableInfo) -> (r: ParseResult<
        StreamPacket,
    >) {
        let (pcr_pid, o1) = read_marked13(input, 0)?;
        let (program_descriptiors, o2) = read_len12_block(input, o1)?;
        let (elementary_stream_info_data, end) = read_stream_infos(input, o2)?;
        Ok(
            (
                StreamPacket::PMT(
                    PMTTable {
                        psi_data,
                        pcr_pid,
                        program_descriptiors,
                        elementary_stream_info_data,
                    },
                ),
                end,
            ),
        )
    }
}

/// A record decoded from the bytes of the PID of the program association
/// table, or of the PID of a program map table, stands in a section whose
/// checksum is right: the last four bytes of the section are the checksum of
/// all that stands before them.
pub proof fn lemma_table_checksum_holds(s: Seq<u8>, complete: bool)
    requires
        spec_parse_pat(s, complete) is Ok || spec_parse_pmt(s, complete) is Ok,
    ensures
        s.len() >= 3 + section_length(s),
        section_length(s) >= 4,
        crc_of(s.subrange(0, section_length(s) - 1)) == be32(s, section_length(s) - 1),
{
    reveal(spec_parse_section);
}

} // verus!
