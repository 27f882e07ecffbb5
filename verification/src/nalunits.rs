//! NAL units of an H.264 Annex-B byte stream: start codes, the payload
//! between them, emulation prevention, and the dispatch on the unit's type.

use crate::stream::{
    agrees, copy_range, short_verdict, stream, ParseError, ParseResult, PartialStream, SpecResult,
};
use vstd::prelude::*;

verus! {

/// A slice of a picture that is not an IDR picture.
#[derive(Debug)]
pub struct NonIDRPictureNU {
    pub ref_idc: u8,
    pub rest: Vec<u8>,
}

/// A slice of an IDR picture.
#[derive(Debug)]
pub struct IDRPictureNU {
    pub ref_idc: u8,
    pub rest: Vec<u8>,
}

/// A unit of any other type, or one whose first bit is set.
#[derive(Debug)]
pub struct UnknownNU {
    pub nal_unit_type: u8,
    /// The three bits before the type.
    pub ref_idc: u8,
    pub rest: Vec<u8>,
}

/// A NAL unit.
#[derive(Debug)]
pub enum NALUnit {
    NonIDRPicture(NonIDRPictureNU),
    IDRPicture(IDRPictureNU),
    Unknown(UnknownNU),
}

/// A NAL unit as a value: its bytes are a sequence.
pub enum NALUnitView {
    NonIDRPicture { ref_idc: u8, rest: Seq<u8> },
    IDRPicture { ref_idc: u8, rest: Seq<u8> },
    Unknown { nal_unit_type: u8, ref_idc: u8, rest: Seq<u8> },
}

impl View for NALUnit {
    type V = NALUnitView;

    open spec fn view(&self) -> NALUnitView {
        match *self {
            NALUnit::NonIDRPicture(u) => NALUnitView::NonIDRPicture {
                ref_idc: u.ref_idc,
                rest: u.rest@,
            },
            NALUnit::IDRPicture(u) => NALUnitView::IDRPicture { ref_idc: u.ref_idc, rest: u.rest@ },
            NALUnit::Unknown(u) => NALUnitView::Unknown {
                nal_unit_type: u.nal_unit_type,
                ref_idc: u.ref_idc,
                rest: u.rest@,
            },
        }
    }
}

impl NALUnitView {
    /// The bytes of the unit after its first byte.
    pub open spec fn rest(self) -> Seq<u8> {
        match self {
            NALUnitView::NonIDRPicture { rest, .. } => rest,
            NALUnitView::IDRPicture { rest, .. } => rest,
            NALUnitView::Unknown { rest, .. } => rest,
        }
    }
}

/// The short start code `00 00 01` stands at `i`.
pub open spec fn short_start_code_at(s: Seq<u8>, i: int) -> bool {
    0 <= i && i + 3 <= s.len() && s[i] == 0 && s[i + 1] == 0 && s[i + 2] == 1
}

/// The long start code `00 00 00 01` stands at `i`.
pub open spec fn long_start_code_at(s: Seq<u8>, i: int) -> bool {
    0 <= i && i + 4 <= s.len() && s[i] == 0 && s[i + 1] == 0 && s[i + 2] == 0 && s[i + 3] == 1
}

/// A start code of either length stands at `i`.
pub open spec fn start_code_at(s: Seq<u8>, i: int) -> bool {
    short_start_code_at(s, i) || long_start_code_at(s, i)
}

/// The first place from `i` on where a start code stands, or the length of
/// `s` if there is none.
pub open spec fn next_start_code(s: Seq<u8>, i: int) -> int
    decreases s.len() - i,
{
    if i >= s.len() {
        s.len() as int
    } else if start_code_at(s, i) {
        i
    } else {
        next_start_code(s, i + 1)
    }
}

/// What is left of `s` from `i` on once every `00 00 03`, found from left to
/// right, has lost its `03`.
pub open spec fn strip_from(s: Seq<u8>, i: int) -> Seq<u8>
    decreases s.len() - i,
{
    if i < 0 || i >= s.len() {
        Seq::empty()
    } else if i + 3 <= s.len() && s[i] == 0 && s[i + 1] == 0 && s[i + 2] == 3 {
        seq![0u8, 0u8] + strip_from(s, i + 3)
    } else {
        seq![s[i]] + strip_from(s, i + 1)
    }
}

/// The bytes `s` without their emulation prevention bytes.
pub open spec fn strip_emulation_prevention(s: Seq<u8>) -> Seq<u8> {
    strip_from(s, 0)
}

/// The window `s` can still become one that begins with the long start code.
pub open spec fn may_begin_long(s: Seq<u8>) -> bool {
    &&& s.len() >= 1 ==> s[0] == 0
    &&& s.len() >= 2 ==> s[1] == 0
    &&& s.len() >= 3 ==> s[2] == 0
    &&& s.len() >= 4 ==> s[3] == 1
}

/// The length of the start code that opens the window.
pub open spec fn spec_leading_start_code(s: Seq<u8>, complete: bool) -> Result<int, ParseError> {
    if may_begin_long(s) {
        if s.len() >= 4 {
            Ok(4)
        } else {
            Err(short_verdict(complete))
        }
    } else if short_start_code_at(s, 0) {
        Ok(3)
    } else {
        Err(ParseError::Malformed)
    }
}

/// The first byte of a picture slice of type `t`: a clear bit, two bits of
/// reference indication, and the type.
pub open spec fn spec_unit_header(s: Seq<u8>, complete: bool, t: u8) -> SpecResult<u8> {
    if s.len() < 1 {
        Err(short_verdict(complete))
    } else if s[0] / 128 != 0 || s[0] % 32 != t {
        Err(ParseError::Malformed)
    } else {
        Ok(((s[0] / 32) as u8, 1))
    }
}

/// A unit that has a type of its own: the window holds the whole unit,
/// emulation prevention bytes removed.
pub trait KnownNALUnit {
    /// The unit's type.
    const NU_TYPE: u8;

    /// What the window decodes to.
    spec fn spec_parse(s: Seq<u8>, complete: bool) -> SpecResult<NALUnitView>;

    /// Reads the first byte, which must have the first bit clear and hold
    /// this unit's type, and gives the reference indication.
    fn parse_idc_ref_and_check_nutype(input: PartialStream) -> (r: ParseResult<u8>)
        ensures
            agrees(r, spec_unit_header(input.bytes@, input.complete, Self::NU_TYPE)),
    {
        let b = input.bytes;
        if b.len() < 1 {
            Err(input.short())
        } else if b[0] / 128 != 0 || b[0] % 32 != Self::NU_TYPE {
            Err(ParseError::Malformed)
        } else {
            Ok((b[0] / 32, 1))
        }
    }

    /// Decodes the unit that fills the window.
    fn parse(input: PartialStream) -> (r: ParseResult<NALUnit>)
        ensures
            agrees(r, Self::spec_parse(input.bytes@, input.complete)),
    ;
}

/// A unit without a type of its own: the window holds the whole unit,
/// emulation prevention bytes removed.
pub trait NALUnitBase {
    /// What the window decodes to.
    spec fn spec_parse(s: Seq<u8>, complete: bool) -> SpecResult<NALUnitView>;

    /// Decodes the unit that fills the window.
    fn parse(input: PartialStream) -> (r: ParseResult<NALUnit>)
        ensures
            agrees(r, Self::spec_parse(input.bytes@, input.complete)),
    ;
}

impl KnownNALUnit for NonIDRPictureNU {
    const NU_TYPE: u8 = 1;

    open spec fn spec_parse(s: Seq<u8>, complete: bool) -> SpecResult<NALUnitView> {
        match spec_unit_header(s, complete, 1) {
            Err(e) => Err(e),
            Ok((ref_idc, _)) => Ok(
                (
                    NALUnitView::NonIDRPicture { ref_idc, rest: s.subrange(1, s.len() as int) },
                    s.len() as int,
                ),
            ),
        }
    }

    fn parse(input: PartialStream) -> (r: ParseResult<NALUnit>) {
        let (ref_idc, _) = Self::parse_idc_ref_and_check_nutype(input)?;
        let rest = copy_range(input.bytes, 1, input.bytes.len());
        Ok((NALUnit::NonIDRPicture(NonIDRPictureNU { ref_idc, rest }), input.bytes.len()))
    }
}

impl KnownNALUnit for IDRPictureNU {
    const NU_TYPE: u8 = 5;

    open spec fn spec_parse(s: Seq<u8>, complete: bool) -> SpecResult<NALUnitView> {
        match spec_unit_header(s, complete, 5) {
            Err(e) => Err(e),
            Ok((ref_idc, _)) => Ok(
                (
                    NALUnitView::IDRPicture { ref_idc, rest: s.subrange(1, s.len() as int) },
                    s.len() as int,
                ),
            ),
        }
    }

    fn parse(input: PartialStream) -> (r: ParseResult<NALUnit>) {
        let (ref_idc, _) = Self::parse_idc_ref_and_check_nutype(input)?;
        let rest = copy_range(input.bytes, 1, input.bytes.len());
        Ok((NALUnit::IDRPicture(IDRPictureNU { ref_idc, rest }), input.bytes.len()))
    }
}

impl NALUnitBase for UnknownNU {
    open spec fn spec_parse(s: Seq<u8>, complete: bool) -> SpecResult<NALUnitView> {
        if s.len() < 1 {
            Err(short_verdict(complete))
        } else {
            Ok(
                (
                    NALUnitView::Unknown {
                        nal_unit_type: (s[0] % 32) as u8,
                        ref_idc: (s[0] / 32) as u8,
                        rest: s.subrange(1, s.len() as int),
                    },
                    s.len() as int,
                ),
            )
        }
    }

    fn parse(input: PartialStream) -> (r: ParseResult<NALUnit>) {
        let b = input.bytes;
        if b.len() < 1 {
            return Err(input.short());
        }
        let rest = copy_range(b, 1, b.len());
        Ok((NALUnit::Unknown(UnknownNU { nal_unit_type: b[0] % 32, ref_idc: b[0] / 32, rest }), b.len()))
    }
}

/// The unit whose bytes, emulation prevention bytes removed, are `p`: a
/// picture slice if the type says so and the first bit is clear, else a unit
/// of unknown kind.
pub open spec fn spec_dispatch(p: Seq<u8>) -> NALUnitView {
    let known = if p[0] % 32 == IDRPictureNU::NU_TYPE {
        IDRPictureNU::spec_parse(p, true)
    } else if p[0] % 32 == NonIDRPictureNU::NU_TYPE {
        NonIDRPictureNU::spec_parse(p, true)
    } else {
        Err(ParseError::Malformed)
    };
    match known {
        Ok((unit, _)) => unit,
        Err(_) => UnknownNU::spec_parse(p, true).unwrap().0,
    }
}

/// The NAL unit at the front of `s`.
///
/// The window must open with a start code. The unit's bytes reach to the
/// next start code, or to the end of a complete window; a window that may
/// still grow and shows no next start code awaits more bytes. A unit
/// without bytes is malformed. The bytes taken end where the next start code
/// begins.
pub open spec fn spec_nal_unit(s: Seq<u8>, complete: bool) -> SpecResult<NALUnitView> {
    match spec_leading_start_code(s, complete) {
        Err(e) => Err(e),
        Ok(start) => {
            let end = next_start_code(s, start);
            if end == s.len() && !complete {
                Err(ParseError::Incomplete)
            } else if end == start {
                Err(ParseError::Malformed)
            } else {
                Ok((spec_dispatch(strip_emulation_prevention(s.subrange(start, end))), end))
            }
        },
    }
}

/// Finds the first start code from `from` on.
fn find_start_code(b: &[u8], from: usize) -> (end: usize)
    requires
        from <= b@.len(),
    ensures
        end == next_start_code(b@, from as int),
        from <= end <= b@.len(),
{
    let n = b.len();
    let mut i: usize = from;
    while i < n
        invariant
            n == b@.len(),
            from <= i <= n,
            next_start_code(b@, from as int) == next_start_code(b@, i as int),
        decreases n - i,
    {
        if n - i >= 3 && b[i] == 0 && b[i + 1] == 0 && (b[i + 2] == 1 || (n - i >= 4 && b[i + 2]
            == 0 && b[i + 3] == 1)) {
            return i;
        }
        i += 1;
    }
    i
}

/// Removes the emulation prevention bytes from `b`.
pub fn strip(b: &[u8]) -> (out: Vec<u8>)
    ensures
        out@ == strip_emulation_prevention(b@),
{
    let n = b.len();
    let mut out: Vec<u8> = Vec::new();
    let mut i: usize = 0;
    assert(out@ + strip_from(b@, 0) =~= strip_from(b@, 0));
    while i < n
        invariant
            n == b@.len(),
            i <= n,
            strip_emulation_prevention(b@) == out@ + strip_from(b@, i as int),
        decreases n - i,
    {
        let ghost before = out@;
        if n - i >= 3 && b[i] == 0 && b[i + 1] == 0 && b[i + 2] == 3 {
            out.push(0);
            out.push(0);
            assert(before + (seq![0u8, 0u8] + strip_from(b@, i + 3)) =~= out@ + strip_from(
                b@,
                i + 3,
            ));
            i += 3;
        } else {
            out.push(b[i]);
            assert(before + (seq![b@[i as int]] + strip_from(b@, i + 1)) =~= out@ + strip_from(
                b@,
                i + 1,
            ));
            i += 1;
        }
    }
    assert(out@ + strip_from(b@, n as int) =~= out@);
    out
}

/// Sorts a unit by its first byte. `p` holds the unit's bytes with the
/// emulation prevention bytes removed.
fn dispatch(p: &[u8]) -> (u: NALUnit)
    requires
        p@.len() >= 1,
    ensures
        u@ == spec_dispatch(p@),
{
    let input = stream(p);
    let known = if p[0] % 32 == IDRPictureNU::NU_TYPE {
        IDRPictureNU::parse(input)
    } else if p[0] % 32 == NonIDRPictureNU::NU_TYPE {
        NonIDRPictureNU::parse(input)
    } else {
        Err(ParseError::Malformed)
    };
    match known {
        Ok((unit, _)) => unit,
        Err(_) => match UnknownNU::parse(input) {
            Ok((unit, _)) => unit,
            Err(_) => vstd::pervasive::unreached(),
        },
    }
}

/// Decodes the NAL unit at the front of the window.
pub fn parse_nal_unit(input: PartialStream) -> (r: ParseResult<NALUnit>)
    ensures
        agrees(r, spec_nal_unit(input.bytes@, input.complete)),
        r matches Ok((_, n)) ==> 3 < n <= input.bytes@.len(),
{
    let b = input.bytes;
    let n = b.len();
    let may_begin_long = (n < 1 || b[0] == 0) && (n < 2 || b[1] == 0) && (n < 3 || b[2] == 0) && (n
        < 4 || b[3] == 1);
    let start: usize = if may_begin_long {
        if n < 4 {
            return Err(input.short());
        }
        4
    } else if n >= 3 && b[0] == 0 && b[1] == 0 && b[2] == 1 {
        3
    } else {
        return Err(ParseError::Malformed);
    };
    let end = find_start_code(b, start);
    if end == n && !input.complete {
        return Err(ParseError::Incomplete);
    }
    if end == start {
        return Err(ParseError::Malformed);
    }
    let payload = strip(vstd::slice::slice_subrange(b, start, end));
    proof {
        lemma_strip_keeps_first(b@.subrange(start as int, end as int));
    }
    Ok((dispatch(payload.as_slice()), end))
}

/// Stripping leaves something of every sequence that is not empty.
pub proof fn lemma_strip_keeps_first(s: Seq<u8>)
    requires
        s.len() >= 1,
    ensures
        strip_emulation_prevention(s).len() >= 1,
        strip_emulation_prevention(s)[0] == s[0],
{
}

/// A start code that a window shows from `i` on stays the first one when the
/// window grows.
pub proof fn lemma_next_start_code_stable(p: Seq<u8>, x: Seq<u8>, i: int)
    requires
        0 <= i,
        next_start_code(p, i) < p.len(),
    ensures
        next_start_code(p + x, i) == next_start_code(p, i),
        start_code_at(p, next_start_code(p, i)),
    decreases p.len() - i,
{
    let s = p + x;
    if i < p.len() {
        if start_code_at(p, i) {
            assert(s[i] == p[i] && s[i + 1] == p[i + 1] && s[i + 2] == p[i + 2]);
            if long_start_code_at(p, i) {
                assert(s[i + 3] == p[i + 3]);
            }
        } else {
            lemma_next_start_code_stable(p, x, i + 1);
            lemma_next_start_code_bounds(p, i + 1);
            let end = next_start_code(p, i + 1);
            assert(i + 4 <= p.len());
            assert(s[i] == p[i] && s[i + 1] == p[i + 1] && s[i + 2] == p[i + 2] && s[i + 3] == p[i
                + 3]);
        }
    }
}

/// The first start code from `i` on lies at `i` or behind it, within the
/// window, and where it lies short of the window's end a start code stands.
pub proof fn lemma_next_start_code_bounds(s: Seq<u8>, i: int)
    requires
        0 <= i <= s.len(),
    ensures
        i <= next_start_code(s, i) <= s.len(),
        next_start_code(s, i) < s.len() ==> start_code_at(s, next_start_code(s, i)),
    decreases s.len() - i,
{
    if i < s.len() && !start_code_at(s, i) {
        lemma_next_start_code_bounds(s, i + 1);
    }
}

/// What the decoder finds in a window that may still grow, it finds in
/// every window that begins with it; and a unit takes more than its start
/// code.
pub proof fn lemma_nal_unit_stable(p: Seq<u8>, x: Seq<u8>, complete: bool)
    ensures
        spec_nal_unit(p, complete) matches Ok((_, n)) ==> 0 < n <= p.len(),
        !(spec_nal_unit(p, false) == Err::<(NALUnitView, int), ParseError>(ParseError::Incomplete))
            ==> spec_nal_unit(p + x, complete) == spec_nal_unit(p, false),
{
    let s = p + x;
    match spec_leading_start_code(p, complete) {
        Ok(start) => {
            lemma_next_start_code_bounds(p, start);
        },
        Err(_) => {},
    }
    match spec_leading_start_code(p, false) {
        Ok(start) => {
            assert(s[0] == p[0] && s[1] == p[1] && s[2] == p[2]);
            if start == 4 {
                assert(s[3] == p[3]);
            }
            assert(spec_leading_start_code(s, complete) == Ok::<int, ParseError>(start));
            lemma_next_start_code_bounds(p, start);
            let end = next_start_code(p, start);
            if end < p.len() {
                lemma_next_start_code_stable(p, x, start);
                assert(s.subrange(start, end) =~= p.subrange(start, end));
            }
        },
        Err(ParseError::Malformed) => {
            if p.len() >= 1 {
                assert(s[0] == p[0]);
            }
            if p.len() >= 2 {
                assert(s[1] == p[1]);
            }
            if p.len() >= 3 {
                assert(s[2] == p[2]);
            }
            if p.len() >= 4 {
                assert(s[3] == p[3]);
            }
        },
        Err(ParseError::Incomplete) => {},
    }
}

/// The three bytes `00 00 03` stand at `k`.
pub open spec fn triplet_at(s: Seq<u8>, k: int) -> bool {
    0 <= k && k + 3 <= s.len() && s[k] == 0 && s[k + 1] == 0 && s[k + 2] == 3
}

/// An emulation prevention byte at `i + 2` is followed by `03`, or by
/// `00 03`: what is left when it is gone reads `00 00 03` again.
pub open spec fn reforms_triplet_at(s: Seq<u8>, i: int) -> bool {
    triplet_at(s, i) && ((i + 4 <= s.len() && s[i + 3] == 3) || (i + 5 <= s.len() && s[i + 3] == 0
        && s[i + 4] == 3))
}

/// The first two bytes of what stripping leaves from `i` on are the first
/// two bytes from `i` on.
pub proof fn lemma_strip_heads(s: Seq<u8>, i: int)
    requires
        0 <= i < s.len(),
    ensures
        strip_from(s, i).len() >= 1,
        strip_from(s, i)[0] == s[i],
        i + 1 < s.len() ==> strip_from(s, i).len() >= 2 && strip_from(s, i)[1] == s[i + 1],
        strip_from(s, i).len() <= s.len() - i,
    decreases s.len() - i,
{
    if triplet_at(s, i) {
        if i + 3 < s.len() {
            lemma_strip_heads(s, i + 3);
        }
    } else if i + 1 < s.len() {
        lemma_strip_heads(s, i + 1);
    }
}

/// What stripping leaves from `i` on holds no `00 00 03`, if no emulation
/// prevention byte from `i` on is followed by `03` or by `00 03`.
pub proof fn lemma_strip_from_leaves_no_triplet(s: Seq<u8>, i: int)
    requires
        0 <= i,
        forall|j: int| i <= j ==> !reforms_triplet_at(s, j),
    ensures
        forall|k: int| !triplet_at(strip_from(s, i), k),
    decreases s.len() - i,
{
    let out = strip_from(s, i);
    if i < s.len() {
        lemma_strip_heads(s, i);
        if triplet_at(s, i) {
            let tail = strip_from(s, i + 3);
            lemma_strip_from_leaves_no_triplet(s, i + 3);
            assert(!reforms_triplet_at(s, i));
            if i + 3 < s.len() {
                lemma_strip_heads(s, i + 3);
            }
            assert forall|k: int| !triplet_at(out, k) by {
                if triplet_at(out, k) {
                    if k >= 2 {
                        assert(triplet_at(tail, k - 2));
                    }
                }
            }
        } else {
            let tail = strip_from(s, i + 1);
            lemma_strip_from_leaves_no_triplet(s, i + 1);
            if i + 1 < s.len() {
                lemma_strip_heads(s, i + 1);
            }
            assert forall|k: int| !triplet_at(out, k) by {
                if triplet_at(out, k) {
                    if k >= 1 {
                        assert(triplet_at(tail, k - 1));
                    }
                }
            }
        }
    }
}

/// The bytes of a unit behind its first byte hold no `00 00 03`, if in the
/// unit as it stands in the stream no emulation prevention byte is followed
/// by `00 03`, and none behind the first is followed by `03`: there the `03`
/// that had to go leaves `00 00 03` behind. On all other units every
/// `00 00 03` is gone.
pub proof fn lemma_rest_has_no_triplet(payload: Seq<u8>)
    requires
        payload.len() >= 1,
        forall|j: int| 1 <= j ==> !reforms_triplet_at(payload, j),
        !(triplet_at(payload, 0) && payload.len() >= 5 && payload[3] == 0 && payload[4] == 3),
    ensures
        forall|k: int| !triplet_at(spec_dispatch(strip_emulation_prevention(payload)).rest(), k),
{
    let out = strip_emulation_prevention(payload);
    let rest = spec_dispatch(out).rest();
    lemma_strip_heads(payload, 0);
    assert(rest == out.subrange(1, out.len() as int));
    if triplet_at(payload, 0) {
        let tail = strip_from(payload, 3);
        lemma_strip_from_leaves_no_triplet(payload, 3);
        if 3 < payload.len() {
            lemma_strip_heads(payload, 3);
        }
        assert forall|k: int| !triplet_at(rest, k) by {
            if triplet_at(rest, k) {
                assert(rest[k] == out[k + 1] && rest[k + 1] == out[k + 2] && rest[k + 2] == out[k
                    + 3]);
                if k >= 1 {
                    assert(triplet_at(tail, k - 1));
                }
            }
        }
    } else {
        let tail = strip_from(payload, 1);
        lemma_strip_from_leaves_no_triplet(payload, 1);
        assert(rest =~= tail);
    }
}

/// Where an emulation prevention byte at `j + 2` is followed by `03` or by
/// `00 03`, what stripping leaves from `i` on holds `00 00 03`; the place
/// `k` where it does is not the first unless `j` is `i` and `03` follows.
pub proof fn lemma_strip_from_keeps_triplet(s: Seq<u8>, i: int, j: int) -> (k: int)
    requires
        0 <= i <= j,
        reforms_triplet_at(s, j),
    ensures
        triplet_at(strip_from(s, i), k),
        j > i ==> k >= 1,
        j == i && !(j + 4 <= s.len() && s[j + 3] == 3) ==> k == 1,
    decreases j - i,
{
    lemma_strip_heads(s, i);
    if i == j {
        let tail = strip_from(s, i + 3);
        lemma_strip_heads(s, i + 3);
        if s[j + 3] == 3 {
            0
        } else {
            1
        }
    } else if triplet_at(s, i) {
        let k = lemma_strip_from_keeps_triplet(s, i + 3, j);
        let tail = strip_from(s, i + 3);
        assert(strip_from(s, i)[k + 2] == tail[k]);
        assert(strip_from(s, i)[k + 3] == tail[k + 1]);
        assert(strip_from(s, i)[k + 4] == tail[k + 2]);
        k + 2
    } else {
        let k = lemma_strip_from_keeps_triplet(s, i + 1, j);
        let tail = strip_from(s, i + 1);
        assert(strip_from(s, i)[k + 1] == tail[k]);
        assert(strip_from(s, i)[k + 2] == tail[k + 1]);
        assert(strip_from(s, i)[k + 3] == tail[k + 2]);
        k + 1
    }
}

/// The bytes of a unit behind its first byte hold `00 00 03` exactly if, in
/// the unit as it stands in the stream, an emulation prevention byte is
/// followed by `00 03`, or one behind the first is followed by `03`.
pub proof fn lemma_rest_triplet_iff(payload: Seq<u8>)
    requires
        payload.len() >= 1,
    ensures
        (exists|k: int| triplet_at(spec_dispatch(strip_emulation_prevention(payload)).rest(), k))
            <==> ((exists|j: int| 1 <= j && reforms_triplet_at(payload, j)) || (triplet_at(
            payload,
            0,
        ) && payload.len() >= 5 && payload[3] == 0 && payload[4] == 3)),
{
    let out = strip_emulation_prevention(payload);
    let rest = spec_dispatch(out).rest();
    lemma_strip_heads(payload, 0);
    assert(rest == out.subrange(1, out.len() as int));
    let first = triplet_at(payload, 0) && payload.len() >= 5 && payload[3] == 0 && payload[4] == 3;
    if (exists|j: int| 1 <= j && reforms_triplet_at(payload, j)) || first {
        let j = if first {
            0
        } else {
            choose|j: int| 1 <= j && reforms_triplet_at(payload, j)
        };
        let k = lemma_strip_from_keeps_triplet(payload, 0, j);
        assert(triplet_at(rest, k - 1));
    } else {
        lemma_rest_has_no_triplet(payload);
    }
}

/// The unit at the front of `s` as it stands in the stream, start code
/// left out.
pub open spec fn spec_nal_payload(s: Seq<u8>, complete: bool) -> Seq<u8> {
    match spec_leading_start_code(s, complete) {
        Ok(start) => s.subrange(start, next_start_code(s, start)),
        Err(_) => Seq::empty(),
    }
}

/// A decoded unit is its bytes in the stream without their emulation
/// prevention bytes, and holds no `00 00 03` behind its first byte unless
/// one of them was followed by `03` or `00 03`.
pub proof fn lemma_unit_has_no_triplet(s: Seq<u8>, complete: bool)
    requires
        spec_nal_unit(s, complete) is Ok,
        forall|j: int| 1 <= j ==> !reforms_triplet_at(spec_nal_payload(s, complete), j),
        !reforms_triplet_at(spec_nal_payload(s, complete), 0) || (spec_nal_payload(
            s,
            complete,
        ).len() >= 4 && spec_nal_payload(s, complete)[3] == 3),
    ensures
        spec_nal_unit(s, complete).unwrap().0 == spec_dispatch(
            strip_emulation_prevention(spec_nal_payload(s, complete)),
        ),
        forall|k: int| !triplet_at(spec_nal_unit(s, complete).unwrap().0.rest(), k),
{
    let payload = spec_nal_payload(s, complete);
    let start = spec_leading_start_code(s, complete).unwrap();
    lemma_next_start_code_bounds(s, start);
    if triplet_at(payload, 0) && payload.len() >= 5 && payload[3] == 0 && payload[4] == 3 {
        assert(reforms_triplet_at(payload, 0));
    }
    lemma_rest_has_no_triplet(payload);
}

} // verus!
