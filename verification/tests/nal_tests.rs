use media_parser::driver::Step;
use media_parser::iterators::NALUnitIterator;
use media_parser::nalunits::{
    parse_nal_unit, strip, IDRPictureNU, KnownNALUnit, NALUnit, NALUnitBase, NonIDRPictureNU,
    UnknownNU,
};
use media_parser::stream::{partialstream, stream, ParseError};

const TWO_UNITS: [u8; 14] = [
    0x00, 0x00, 0x00, 0x01, 0x65, 0xAA, 0xBB, 0xCC, 0x00, 0x00, 0x01, 0x41, 0xDD, 0xEE,
];

/// Runs the driver on a source that gives `stream` in reads of `chunk` bytes.
fn run(stream: &[u8], chunk: usize) -> Vec<NALUnit> {
    let mut it = NALUnitIterator::new();
    let mut units = Vec::new();
    let mut offset = 0;
    loop {
        match it.next() {
            Step::Yield(unit) => units.push(unit),
            Step::NeedInput => {
                let end = (offset + chunk).min(stream.len());
                assert!(it.feed(&stream[offset..end]));
                offset = end;
            }
            Step::End => return units,
            Step::Malformed => panic!("malformed stream"),
            Step::Overflow => panic!("buffer overflow"),
        }
    }
}

fn describe(unit: &NALUnit) -> (&'static str, u8, u8, Vec<u8>) {
    match unit {
        NALUnit::IDRPicture(u) => ("idr", 5, u.ref_idc, u.rest.clone()),
        NALUnit::NonIDRPicture(u) => ("non-idr", 1, u.ref_idc, u.rest.clone()),
        NALUnit::Unknown(u) => ("unknown", u.nal_unit_type, u.ref_idc, u.rest.clone()),
    }
}

#[test]
fn empty_source_yields_no_unit() {
    let mut it = NALUnitIterator::new();
    assert!(matches!(it.next(), Step::NeedInput));
    assert!(it.feed(&[]));
    assert!(matches!(it.next(), Step::End));
    assert!(matches!(it.next(), Step::End));
    assert_eq!(run(&[], 1).len(), 0);
}

#[test]
fn two_minimal_units() {
    let units = run(&TWO_UNITS, TWO_UNITS.len());
    assert_eq!(units.len(), 2);
    assert_eq!(describe(&units[0]), ("idr", 5, 3, vec![0xAA, 0xBB, 0xCC]));
    assert_eq!(describe(&units[1]), ("non-idr", 1, 2, vec![0xDD, 0xEE]));
}

#[test]
fn units_do_not_depend_on_the_size_of_reads() {
    let whole: Vec<_> = run(&TWO_UNITS, TWO_UNITS.len()).iter().map(describe).collect();
    for chunk in 1..=TWO_UNITS.len() {
        let cut: Vec<_> = run(&TWO_UNITS, chunk).iter().map(describe).collect();
        assert_eq!(cut, whole, "reads of {} bytes", chunk);
    }
}

#[test]
fn emulation_prevention_bytes_are_removed() {
    assert_eq!(strip(&[0xAA, 0x00, 0x00, 0x03, 0xBB]), vec![0xAA, 0x00, 0x00, 0xBB]);
    let input = [0x00, 0x00, 0x01, 0x65, 0xAA, 0x00, 0x00, 0x03, 0xBB];
    match parse_nal_unit(stream(&input)) {
        Ok((NALUnit::IDRPicture(u), n)) => {
            assert_eq!(u.rest, vec![0xAA, 0x00, 0x00, 0xBB]);
            assert_eq!(u.ref_idc, 3);
            assert_eq!(n, 9);
        }
        other => panic!("unexpected {:?}", other),
    }
}

#[test]
fn strip_goes_from_left_to_right_once() {
    assert_eq!(strip(&[]), Vec::<u8>::new());
    assert_eq!(strip(&[0, 0]), vec![0, 0]);
    assert_eq!(strip(&[0, 0, 3]), vec![0, 0]);
    assert_eq!(strip(&[0, 0, 3, 0, 0, 3]), vec![0, 0, 0, 0]);
    assert_eq!(strip(&[0, 0, 0, 3, 1]), vec![0, 0, 0, 1]);
    assert_eq!(strip(&[1, 0, 0, 2, 3]), vec![1, 0, 0, 2, 3]);
}

#[test]
fn strip_leaves_a_triplet_where_the_stream_escaped_one() {
    assert_eq!(strip(&[0, 0, 3, 3]), vec![0, 0, 3]);
    assert_eq!(strip(&[0, 0, 3, 0, 3]), vec![0, 0, 0, 3]);
}

#[test]
fn stripped_rest_holds_no_triplet() {
    let input = [0x00, 0x00, 0x01, 0x41, 0x00, 0x00, 0x03, 0x01, 0x00, 0x00, 0x03, 0x02];
    match parse_nal_unit(stream(&input)) {
        Ok((NALUnit::NonIDRPicture(u), _)) => {
            assert_eq!(u.rest, vec![0x00, 0x00, 0x01, 0x00, 0x00, 0x02]);
            assert!(!u.rest.windows(3).any(|w| w == [0, 0, 3]));
        }
        other => panic!("unexpected {:?}", other),
    }
}

#[test]
fn unit_waits_for_the_next_start_code() {
    let input = [0x00, 0x00, 0x01, 0x65, 0xAA];
    assert!(matches!(parse_nal_unit(partialstream(&input, false)), Err(ParseError::Incomplete)));
    match parse_nal_unit(partialstream(&input, true)) {
        Ok((NALUnit::IDRPicture(u), n)) => {
            assert_eq!(u.rest, vec![0xAA]);
            assert_eq!(n, 5);
        }
        other => panic!("unexpected {:?}", other),
    }
}

#[test]
fn start_code_may_still_arrive() {
    assert!(matches!(parse_nal_unit(partialstream(&[], false)), Err(ParseError::Incomplete)));
    assert!(matches!(parse_nal_unit(partialstream(&[0, 0], false)), Err(ParseError::Incomplete)));
    assert!(matches!(parse_nal_unit(partialstream(&[0, 0, 0], false)), Err(ParseError::Incomplete)));
    assert!(matches!(parse_nal_unit(partialstream(&[0, 0], true)), Err(ParseError::Malformed)));
    assert!(matches!(parse_nal_unit(partialstream(&[0, 0, 0], true)), Err(ParseError::Malformed)));
}

#[test]
fn stream_must_open_with_a_start_code() {
    assert!(matches!(parse_nal_unit(partialstream(&[0x65, 0, 0, 1], false)), Err(ParseError::Malformed)));
    assert!(matches!(parse_nal_unit(partialstream(&[0, 1], false)), Err(ParseError::Malformed)));
    assert!(matches!(parse_nal_unit(partialstream(&[0, 0, 2, 0], true)), Err(ParseError::Malformed)));
}

#[test]
fn unit_without_bytes_is_malformed() {
    let input = [0, 0, 1, 0, 0, 1, 0x65];
    assert!(matches!(parse_nal_unit(partialstream(&input, false)), Err(ParseError::Malformed)));
    assert!(matches!(parse_nal_unit(partialstream(&[0, 0, 1], true)), Err(ParseError::Malformed)));
}

#[test]
fn unit_ends_where_a_long_start_code_begins() {
    let input = [0, 0, 1, 0x41, 0x11, 0, 0, 0, 1, 0x65];
    match parse_nal_unit(partialstream(&input, false)) {
        Ok((NALUnit::NonIDRPicture(u), n)) => {
            assert_eq!(u.ref_idc, 2);
            assert_eq!(u.rest, vec![0x11]);
            assert_eq!(n, 5);
        }
        other => panic!("unexpected {:?}", other),
    }
}

#[test]
fn unit_ends_at_the_first_start_code_of_either_length() {
    let input = [0, 0, 1, 0x41, 0x11, 0, 0, 1, 0x22, 0, 0, 0, 1, 0x65];
    match parse_nal_unit(partialstream(&input, false)) {
        Ok((NALUnit::NonIDRPicture(u), n)) => {
            assert_eq!(u.rest, vec![0x11]);
            assert_eq!(n, 5);
        }
        other => panic!("unexpected {:?}", other),
    }
}

#[test]
fn other_types_are_unknown() {
    let input = [0, 0, 1, 0x67, 0x42, 0x00];
    match parse_nal_unit(stream(&input)) {
        Ok((NALUnit::Unknown(u), n)) => {
            assert_eq!(u.nal_unit_type, 7);
            assert_eq!(u.ref_idc, 3);
            assert_eq!(u.rest, vec![0x42, 0x00]);
            assert_eq!(n, 6);
        }
        other => panic!("unexpected {:?}", other),
    }
}

#[test]
fn set_first_bit_makes_a_unit_unknown() {
    let input = [0, 0, 1, 0xE5, 0x01];
    match parse_nal_unit(stream(&input)) {
        Ok((NALUnit::Unknown(u), _)) => {
            assert_eq!(u.nal_unit_type, 5);
            assert_eq!(u.ref_idc, 7);
            assert_eq!(u.rest, vec![0x01]);
        }
        other => panic!("unexpected {:?}", other),
    }
}

#[test]
fn known_units_check_their_type() {
    assert_eq!(IDRPictureNU::NU_TYPE, 5);
    assert_eq!(NonIDRPictureNU::NU_TYPE, 1);
    assert!(matches!(IDRPictureNU::parse_idc_ref_and_check_nutype(stream(&[0x65])), Ok((3, 1))));
    assert!(matches!(
        IDRPictureNU::parse_idc_ref_and_check_nutype(stream(&[0x41])),
        Err(ParseError::Malformed)
    ));
    assert!(matches!(
        NonIDRPictureNU::parse_idc_ref_and_check_nutype(stream(&[0xC1])),
        Err(ParseError::Malformed)
    ));
    assert!(matches!(
        NonIDRPictureNU::parse_idc_ref_and_check_nutype(partialstream(&[], false)),
        Err(ParseError::Incomplete)
    ));
    match NonIDRPictureNU::parse(stream(&[0x21, 9, 8])) {
        Ok((NALUnit::NonIDRPicture(u), 3)) => {
            assert_eq!(u.ref_idc, 1);
            assert_eq!(u.rest, vec![9, 8]);
        }
        other => panic!("unexpected {:?}", other),
    }
    match IDRPictureNU::parse(stream(&[0x05])) {
        Ok((NALUnit::IDRPicture(u), 1)) => {
            assert_eq!(u.ref_idc, 0);
            assert!(u.rest.is_empty());
        }
        other => panic!("unexpected {:?}", other),
    }
    match UnknownNU::parse(stream(&[0xFF, 1])) {
        Ok((NALUnit::Unknown(u), 2)) => {
            assert_eq!(u.nal_unit_type, 31);
            assert_eq!(u.ref_idc, 7);
            assert_eq!(u.rest, vec![1]);
        }
        other => panic!("unexpected {:?}", other),
    }
    assert!(matches!(UnknownNU::parse(stream(&[])), Err(ParseError::Malformed)));
}

#[test]
fn driver_reports_a_malformed_stream() {
    let mut it = NALUnitIterator::new();
    assert!(it.feed(&[0x12, 0x34, 0x56, 0x78]));
    assert!(matches!(it.next(), Step::Malformed));
}

#[test]
fn driver_takes_no_more_than_a_chunk_at_once() {
    let mut it = NALUnitIterator::new();
    let big = vec![0u8; 10 * 1024 + 1];
    assert!(!it.feed(&big));
    assert!(it.feed(&big[..10 * 1024]));
}

#[test]
fn driver_holds_a_unit_that_is_larger_than_its_buffer() {
    let mut stream = vec![0x00, 0x00, 0x01, 0x65];
    stream.extend((0..50_000u32).map(|i| (i % 251 + 1) as u8));
    stream.extend([0x00, 0x00, 0x01, 0x41, 0x07]);
    let units = run(&stream, 4096);
    assert_eq!(units.len(), 2);
    let (kind, _, ref_idc, rest) = describe(&units[0]);
    assert_eq!((kind, ref_idc), ("idr", 3));
    assert_eq!(rest.len(), 50_000);
    assert_eq!(rest, stream[4..50_004].to_vec());
    assert_eq!(describe(&units[1]), ("non-idr", 1, 2, vec![0x07]));
}

#[test]
fn driver_keeps_order_over_many_small_units() {
    let mut stream = Vec::new();
    for i in 0..3000u32 {
        stream.extend([0x00, 0x00, 0x01, 0x41, (i % 200 + 4) as u8, (i / 200 + 4) as u8]);
    }
    let units = run(&stream, 10 * 1024);
    assert_eq!(units.len(), 3000);
    for (i, unit) in units.iter().enumerate() {
        let i = i as u32;
        assert_eq!(describe(unit), ("non-idr", 1, 2, vec![(i % 200 + 4) as u8, (i / 200 + 4) as u8]));
    }
}
