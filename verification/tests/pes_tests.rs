use media_parser::pes::{PESExtension, PESHeader, PESPacket};
use media_parser::stream::{partialstream, stream, ParseError};
use media_parser::stream_packet::StreamPacket;

fn timestamp(prefix: u8, v: u64) -> [u8; 5] {
    [
        (prefix << 4) | ((((v >> 30) & 7) as u8) << 1) | 1,
        (v >> 22) as u8,
        ((((v >> 15) & 0x7F) as u8) << 1) | 1,
        (v >> 7) as u8,
        (((v & 0x7F) as u8) << 1) | 1,
    ]
}

fn clock_reference(base: u64, extension: u64) -> Vec<u8> {
    let v: u64 = (3 << 46)
        | (((base >> 30) & 7) << 43)
        | (1 << 42)
        | (((base >> 15) & 0x7FFF) << 27)
        | (1 << 26)
        | ((base & 0x7FFF) << 11)
        | (1 << 10)
        | (extension << 1)
        | 1;
    v.to_be_bytes()[2..].to_vec()
}

fn header(first: u8, flags: u8, fields: &[u8]) -> Vec<u8> {
    let mut h = vec![first, flags, fields.len() as u8];
    h.extend(fields);
    h
}

fn unwrap_pes(r: Result<(StreamPacket, usize), ParseError>) -> (PESPacket, usize) {
    match r {
        Ok((StreamPacket::PES(p), n)) => (p, n),
        other => panic!("unexpected {:?}", other),
    }
}

#[test]
fn header_with_every_field() {
    let mut fields = Vec::new();
    fields.extend(timestamp(3, 0x1_2345_6789));
    fields.extend(timestamp(1, 0x0_FEDC_BA98));
    fields.extend(clock_reference(0x1_0F0F_0F0F, 0x155));
    fields.extend((((1u32 << 23) | (0x2A_AAAA << 1) | 1).to_be_bytes())[1..].iter());
    fields.push(0b101_10011);
    fields.push(0x80 | 0x5A);
    fields.extend([0xBE, 0xEF]);
    let mut extension = vec![0b1111_0001];
    extension.extend([7u8; 16]);
    extension.extend([2, 0x21, 0x22]);
    extension.extend([0x80 | 0x45, 0x80 | 0x40 | 0x2A]);
    extension.extend([0x40 | 0x20 | 0x15, 0x67]);
    extension.extend([0x80 | 2, 0x31, 0x32]);
    fields.extend(&extension);
    let bytes = header(0b10_01_1_0_1_0, 0xFF, &fields);
    let (h, n) = PESHeader::parse(partialstream(&bytes, false)).expect("a header");
    assert_eq!(n, bytes.len());
    assert_eq!(h.scrambling_control, 1);
    assert!(h.priority);
    assert!(!h.data_alignment_indicator);
    assert!(h.copyright);
    assert!(!h.is_original);
    assert_eq!(h.pts, Some(0x1_2345_6789));
    assert_eq!(h.dts, Some(0x0_FEDC_BA98));
    assert_eq!(h.escr, Some((0x1_0F0F_0F0F, 0x155)));
    assert_eq!(h.es_rate, Some(0x2A_AAAA));
    assert_eq!(h.dsm_trick_mode, Some((0b101, 0b10011)));
    assert_eq!(h.additional_copy_info, Some(0x5A));
    assert_eq!(h.previous_pes_packet_crc, Some(0xBEEF));
    let e = h.pes_extension.expect("an extension");
    assert_eq!(e.pes_private_data, Some(vec![7u8; 16]));
    assert_eq!(e.pack_header_field, Some(vec![0x21, 0x22]));
    assert_eq!(e.program_packet_sequence_counter, Some((0x45, true, 0x2A)));
    assert_eq!(e.p_std_buffer, Some((true, 0x1567)));
    assert_eq!(e.pes_extension_data, Some(vec![0x31, 0x32]));
}

#[test]
fn header_without_fields() {
    let (h, n) = PESHeader::parse(stream(&[0x80, 0x00, 0x00, 0xAA])).expect("a header");
    assert_eq!(n, 3);
    assert_eq!(h.scrambling_control, 0);
    assert!(h.pts.is_none() && h.dts.is_none() && h.escr.is_none() && h.es_rate.is_none());
    assert!(h.dsm_trick_mode.is_none() && h.additional_copy_info.is_none());
    assert!(h.previous_pes_packet_crc.is_none() && h.pes_extension.is_none());
}

#[test]
fn header_with_presentation_time_only() {
    let bytes = header(0x81, 0x80, &[&timestamp(2, 0x1_FFFF_FFFF)[..], &[0xFF, 0xFF][..]].concat());
    let (h, n) = PESHeader::parse(stream(&bytes)).expect("a header");
    assert_eq!(n, 10);
    assert!(h.is_original);
    assert_eq!(h.pts, Some(0x1_FFFF_FFFF));
    assert_eq!(h.dts, None);
    let bytes = header(0x80, 0x80, &timestamp(2, 0));
    assert_eq!(PESHeader::parse(stream(&bytes)).expect("a header").0.pts, Some(0));
    let bytes = header(0x80, 0x80, &timestamp(2, 90_000));
    assert_eq!(PESHeader::parse(stream(&bytes)).expect("a header").0.pts, Some(90_000));
}

#[test]
fn header_padding_is_not_read() {
    let bytes = header(0x80, 0x00, &[0xFF, 0x12, 0xFF]);
    let (h, n) = PESHeader::parse(stream(&bytes)).expect("a header");
    assert_eq!(n, 6);
    assert!(h.pts.is_none());
}

#[test]
fn header_must_open_with_10() {
    for first in [0x00u8, 0x40, 0xC0, 0x7F] {
        let r = PESHeader::parse(partialstream(&[first], false));
        assert!(matches!(r, Err(ParseError::Malformed)), "first byte {:#x}", first);
    }
}

#[test]
fn header_waits_for_its_bytes() {
    let bytes = header(0x80, 0x80, &timestamp(2, 5));
    for end in 0..bytes.len() {
        let r = PESHeader::parse(partialstream(&bytes[..end], false));
        assert!(matches!(r, Err(ParseError::Incomplete)), "{} bytes", end);
        let r = PESHeader::parse(partialstream(&bytes[..end], true));
        assert!(matches!(r, Err(ParseError::Malformed)), "{} bytes", end);
    }
}

#[test]
fn time_stamp_markers_are_checked() {
    let good = timestamp(2, 0x1_2345_6789);
    for (at, mask) in [(0usize, 0x01u8), (2, 0x01), (4, 0x01), (0, 0x10), (0, 0x20), (0, 0x80)] {
        let mut t = good;
        t[at] ^= mask;
        let r = PESHeader::parse(stream(&header(0x80, 0x80, &t)));
        assert!(matches!(r, Err(ParseError::Malformed)), "byte {} mask {:#x}", at, mask);
    }
    let r = PESHeader::parse(stream(&header(0x80, 0xC0, &good)));
    assert!(matches!(r, Err(ParseError::Malformed)));
    let both = [&timestamp(3, 1)[..], &timestamp(2, 1)[..]].concat();
    let r = PESHeader::parse(stream(&header(0x80, 0xC0, &both)));
    assert!(matches!(r, Err(ParseError::Malformed)));
    let r = PESHeader::parse(stream(&header(0x80, 0x80, &good[..4])));
    assert!(matches!(r, Err(ParseError::Malformed)));
}

#[test]
fn decoding_time_alone_has_prefix_1() {
    let (h, _) = PESHeader::parse(stream(&header(0x80, 0x40, &timestamp(1, 77)))).expect("a header");
    assert_eq!((h.pts, h.dts), (None, Some(77)));
}

#[test]
fn other_header_fields_check_their_markers() {
    let mut escr = clock_reference(1, 1);
    escr[5] &= 0xFE;
    assert!(matches!(PESHeader::parse(stream(&header(0x80, 0x20, &escr))), Err(ParseError::Malformed)));
    let (h, _) = PESHeader::parse(stream(&header(0x80, 0x20, &clock_reference(5, 6)))).expect("a header");
    assert_eq!(h.escr, Some((5, 6)));
    assert!(matches!(PESHeader::parse(stream(&header(0x80, 0x10, &[0x00, 0x00, 0x01]))), Err(ParseError::Malformed)));
    assert!(matches!(PESHeader::parse(stream(&header(0x80, 0x10, &[0x80, 0x00, 0x00]))), Err(ParseError::Malformed)));
    let (h, _) = PESHeader::parse(stream(&header(0x80, 0x10, &[0x80, 0x00, 0x03]))).expect("a header");
    assert_eq!(h.es_rate, Some(1));
    assert!(matches!(PESHeader::parse(stream(&header(0x80, 0x04, &[0x7F]))), Err(ParseError::Malformed)));
    assert!(matches!(PESHeader::parse(stream(&header(0x80, 0x08, &[]))), Err(ParseError::Malformed)));
    assert!(matches!(PESHeader::parse(stream(&header(0x80, 0x02, &[1]))), Err(ParseError::Malformed)));
}

#[test]
fn extension_must_fill_its_window() {
    let (e, n) = PESExtension::parse(stream(&[0x00])).expect("an extension");
    assert_eq!(n, 1);
    assert!(e.pes_private_data.is_none() && e.pack_header_field.is_none());
    assert!(e.program_packet_sequence_counter.is_none() && e.p_std_buffer.is_none());
    assert!(e.pes_extension_data.is_none());
    assert!(matches!(PESExtension::parse(stream(&[0x00, 0xFF])), Err(ParseError::Malformed)));
    assert!(matches!(PESExtension::parse(partialstream(&[0x00, 0xFF], false)), Err(ParseError::Malformed)));
    let (e, n) = PESExtension::parse(stream(&[0x0E])).expect("an extension");
    assert_eq!(n, 1);
    assert!(e.pes_extension_data.is_none());
    assert!(matches!(
        PESHeader::parse(stream(&header(0x80, 0x01, &[0x00, 0xFF]))),
        Err(ParseError::Malformed)
    ));
}

#[test]
fn extension_verdicts() {
    assert!(matches!(PESExtension::parse(partialstream(&[], false)), Err(ParseError::Incomplete)));
    assert!(matches!(PESExtension::parse(partialstream(&[0x80, 1, 2], false)), Err(ParseError::Incomplete)));
    assert!(matches!(PESExtension::parse(stream(&[0x80, 1, 2])), Err(ParseError::Malformed)));
    assert!(matches!(PESExtension::parse(partialstream(&[0x40, 3, 1], false)), Err(ParseError::Incomplete)));
    assert!(matches!(PESExtension::parse(partialstream(&[0x20, 0x05], false)), Err(ParseError::Malformed)));
    assert!(matches!(PESExtension::parse(partialstream(&[0x20, 0x85], false)), Err(ParseError::Incomplete)));
    assert!(matches!(PESExtension::parse(partialstream(&[0x20, 0x85, 0x05], false)), Err(ParseError::Malformed)));
    assert!(matches!(PESExtension::parse(partialstream(&[0x10, 0x85], false)), Err(ParseError::Malformed)));
    assert!(matches!(PESExtension::parse(partialstream(&[0x10, 0x45], false)), Err(ParseError::Incomplete)));
    assert!(matches!(PESExtension::parse(partialstream(&[0x01, 0x02], false)), Err(ParseError::Malformed)));
    assert!(matches!(PESExtension::parse(partialstream(&[0x01, 0x82, 1], false)), Err(ParseError::Incomplete)));
    let (e, n) = PESExtension::parse(stream(&[0x10, 0x5F, 0xFF])).expect("an extension");
    assert_eq!((e.p_std_buffer, n), (Some((false, 0x1FFF)), 3));
}

#[test]
fn packet_with_a_length() {
    let mut bytes = vec![0, 0, 1, 0xE0, 0x00, 0x06, 0x80, 0x00, 0x00, 0xFF, 0xFE, 0xFD, 0x99];
    let (p, n) = unwrap_pes(PESPacket::parse(partialstream(&bytes, false)));
    assert_eq!(n, 12);
    assert_eq!(p.stream_id, 0xE0);
    assert!(p.header.is_some());
    assert_eq!(p.data, vec![0xFF, 0xFE, 0xFD]);
    bytes.truncate(11);
    assert!(matches!(PESPacket::parse(partialstream(&bytes, false)), Err(ParseError::Incomplete)));
    assert!(matches!(PESPacket::parse(partialstream(&bytes, true)), Err(ParseError::Incomplete)));
}

#[test]
fn packet_without_a_length_takes_a_complete_window() {
    let bytes = [0, 0, 1, 0xE0, 0x00, 0x00, 0x80, 0x00, 0x00, 0xFF, 0xFE, 0xFD];
    assert!(matches!(PESPacket::parse(partialstream(&bytes, false)), Err(ParseError::Incomplete)));
    let (p, n) = unwrap_pes(PESPacket::parse(partialstream(&bytes, true)));
    assert_eq!(n, 12);
    assert_eq!(p.stream_id, 0xE0);
    assert!(p.header.is_some());
    assert_eq!(p.data, vec![0xFF, 0xFE, 0xFD]);
}

#[test]
fn packet_must_open_with_the_start_code() {
    assert!(matches!(PESPacket::parse(partialstream(&[1], false)), Err(ParseError::Malformed)));
    assert!(matches!(PESPacket::parse(partialstream(&[0, 0, 0], false)), Err(ParseError::Malformed)));
    assert!(matches!(PESPacket::parse(partialstream(&[0, 0, 2, 0xE0, 0, 0], true)), Err(ParseError::Malformed)));
    assert!(matches!(PESPacket::parse(partialstream(&[0, 0], false)), Err(ParseError::Incomplete)));
    assert!(matches!(PESPacket::parse(partialstream(&[0, 0, 1, 0xE0, 0], false)), Err(ParseError::Incomplete)));
    assert!(matches!(PESPacket::parse(partialstream(&[0, 0, 1, 0xE0, 0], true)), Err(ParseError::Malformed)));
}

#[test]
fn packet_with_a_bad_header_is_malformed() {
    let bytes = [0, 0, 1, 0xE0, 0x00, 0x03, 0x40, 0x00, 0x00];
    assert!(matches!(PESPacket::parse(stream(&bytes)), Err(ParseError::Malformed)));
    let bytes = [0, 0, 1, 0xE0, 0x00, 0x02, 0x80, 0x00];
    assert!(matches!(PESPacket::parse(stream(&bytes)), Err(ParseError::Malformed)));
}

#[test]
fn eight_stream_ids_carry_no_header() {
    let without = [0xBCu8, 0xBE, 0xBF, 0xF0, 0xF1, 0xF2, 0xF8, 0xFF];
    for id in 0..=255u8 {
        assert_eq!(PESPacket::has_header(id), !without.contains(&id), "stream id {:#x}", id);
        let bytes = [0, 0, 1, id, 0x00, 0x04, 0x80, 0x00, 0x00, 0x55];
        let (p, n) = unwrap_pes(PESPacket::parse(stream(&bytes)));
        assert_eq!(n, 10);
        assert_eq!(p.stream_id, id);
        if without.contains(&id) {
            assert!(p.header.is_none());
            assert_eq!(p.data, vec![0x80, 0x00, 0x00, 0x55]);
        } else {
            assert!(p.header.is_some());
            assert_eq!(p.data, vec![0x55]);
        }
    }
}
