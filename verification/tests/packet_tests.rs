use media_parser::driver::Step;
use media_parser::iterators::MTSPacketIterator;
use media_parser::packets::{AdaptationExtension, AdaptationField, Packet, PCR};
use media_parser::stream::{partialstream, stream, ParseError};

/// A packet with every field of the adaptation field present.
fn full_packet() -> Vec<u8> {
    let mut p = vec![0x9A, 0xBC, 0xDE, 0xF0, 0x47, 0x52, 0x34, 0xB9];
    let clock: u64 = (0x1_2345_6789u64 << 15) | (0x3Fu64 << 9) | 0x1AB;
    let mut field = vec![0xB7];
    field.extend(&clock.to_be_bytes()[2..8]);
    field.push(0xFE);
    field.extend([0x02, 0x11, 0x22]);
    field.extend([0x01, 0x33]);
    field.extend([0xFF, 0xFF, 0xFF]);
    p.push(field.len() as u8);
    p.extend(&field);
    p.push(0x05);
    while p.len() < 192 {
        p.push((p.len() % 200) as u8);
    }
    p
}

/// A packet without adaptation field whose payload is `fill` throughout.
fn plain_packet(pid: u16, fill: u8) -> Vec<u8> {
    let mut p = vec![0, 0, 0, 0, 0x47, (pid >> 8) as u8 & 0x1F, pid as u8, 0x10];
    p.resize(192, fill);
    p
}

#[test]
fn packet_fields_are_read_bit_by_bit() {
    let bytes = full_packet();
    let (packet, n) = Packet::parse(partialstream(&bytes, false)).expect("a packet");
    assert_eq!(n, 192);
    assert_eq!(packet.copy_protection, 2);
    assert_eq!(packet.arrival_timestamp, 0x1ABC_DEF0);
    assert!(!packet.transport_error_indicator);
    assert!(packet.payload_unit_start_indicator);
    assert!(!packet.transport_priority);
    assert_eq!(packet.pid, 0x1234);
    assert_eq!(packet.transport_scrambling_control, 2);
    assert_eq!(packet.continuity_counter, 9);
    let field = packet.adaptation_field.expect("an adaptation field");
    assert!(field.discontinuity_indicator);
    assert!(!field.random_access_indicator);
    assert!(field.elementary_stream_priority_indicator);
    assert_eq!(field.pcr, Some(PCR { base: 0x1_2345_6789, reserved: 0x3F, extension: 0x1AB }));
    assert_eq!(field.opcr, None);
    assert_eq!(field.splice_countdown, Some(-2));
    assert_eq!(field.transport_private_data, Some(vec![0x11, 0x22]));
    assert_eq!(field.adaption_extension.expect("an extension").data, vec![0x33]);
    assert_eq!(field.padding, 3);
    let payload = packet.payload_data.expect("a payload");
    assert_eq!(payload.cutoff, 0x05);
    assert_eq!(payload.data.len(), 192 - 8 - 1 - 16 - 1);
    assert_eq!(payload.data, bytes[26..].to_vec());
}

#[test]
fn packet_takes_192_bytes_of_a_longer_window() {
    let mut bytes = plain_packet(0x0100, 0xAB);
    bytes.extend(plain_packet(0x0101, 0xCD));
    let (packet, n) = Packet::parse(partialstream(&bytes, false)).expect("a packet");
    assert_eq!(n, 192);
    assert_eq!(packet.pid, 0x0100);
    assert!(packet.adaptation_field.is_none());
    let payload = packet.payload_data.expect("a payload");
    assert_eq!(payload.cutoff, 0xAB);
    assert_eq!(payload.data, vec![0xAB; 183]);
}

#[test]
fn short_window_is_incomplete_or_malformed() {
    let bytes = plain_packet(0x0100, 0xAB);
    assert!(matches!(Packet::parse(partialstream(&bytes[..191], false)), Err(ParseError::Incomplete)));
    assert!(matches!(Packet::parse(partialstream(&[], false)), Err(ParseError::Incomplete)));
    assert!(matches!(Packet::parse(partialstream(&bytes[..191], true)), Err(ParseError::Malformed)));
}

#[test]
fn sync_byte_must_be_0x47() {
    let mut bytes = plain_packet(0x0100, 0xAB);
    bytes[4] = 0x48;
    assert!(matches!(Packet::parse(partialstream(&bytes, false)), Err(ParseError::Malformed)));
    bytes[4] = 0x47;
    bytes[0] = 0x47;
    assert!(Packet::parse(partialstream(&bytes, false)).is_ok());
}

#[test]
fn packet_without_payload_flag_has_no_payload() {
    let mut bytes = plain_packet(0x0100, 0xAB);
    bytes[7] = 0x00;
    let (packet, n) = Packet::parse(stream(&bytes)).expect("a packet");
    assert_eq!(n, 192);
    assert!(packet.adaptation_field.is_none());
    assert!(packet.payload_data.is_none());
}

#[test]
fn adaptation_field_that_fills_the_packet_leaves_no_room_for_a_payload() {
    let mut bytes = vec![0, 0, 0, 0, 0x47, 0x01, 0x00, 0x30, 183, 0x00];
    bytes.resize(192, 0xFF);
    assert!(matches!(Packet::parse(stream(&bytes)), Err(ParseError::Malformed)));
    bytes[7] = 0x20;
    let (packet, _) = Packet::parse(stream(&bytes)).expect("a packet");
    assert_eq!(packet.adaptation_field.expect("an adaptation field").padding, 182);
    assert!(packet.payload_data.is_none());
}

#[test]
fn adaptation_field_that_overruns_the_packet_is_malformed() {
    let mut bytes = vec![0, 0, 0, 0, 0x47, 0x01, 0x00, 0x30, 184, 0x00];
    bytes.resize(192, 0xFF);
    assert!(matches!(Packet::parse(stream(&bytes)), Err(ParseError::Malformed)));
}

#[test]
fn adaptation_field_verdicts() {
    assert!(matches!(AdaptationField::parse(partialstream(&[], false)), Err(ParseError::Incomplete)));
    assert!(matches!(AdaptationField::parse(partialstream(&[2, 0], false)), Err(ParseError::Incomplete)));
    assert!(matches!(AdaptationField::parse(partialstream(&[2, 0], true)), Err(ParseError::Malformed)));
    assert!(matches!(AdaptationField::parse(stream(&[0])), Err(ParseError::Malformed)));
    assert!(matches!(AdaptationField::parse(stream(&[3, 0x10, 1, 2])), Err(ParseError::Malformed)));
    assert!(matches!(AdaptationField::parse(stream(&[2, 0x02, 5])), Err(ParseError::Malformed)));
    let (field, n) = AdaptationField::parse(partialstream(&[4, 0x40, 0xFF, 0x07, 0xFF, 9], false))
        .expect("an adaptation field");
    assert_eq!(n, 5);
    assert!(field.random_access_indicator);
    assert!(!field.discontinuity_indicator);
    assert_eq!(field.padding, 1);
    assert!(field.pcr.is_none() && field.splice_countdown.is_none());
}

#[test]
fn clock_reference_takes_six_bytes() {
    let (pcr, n) = PCR::parse(stream(&[0xFF, 0xFF, 0xFF, 0xFF, 0x80, 0x00])).expect("a clock");
    assert_eq!(n, 6);
    assert_eq!(pcr, PCR { base: 0x1_FFFF_FFFF, reserved: 0, extension: 0 });
    let (pcr, _) = PCR::parse(stream(&[0, 0, 0, 0, 0x7F, 0xFF, 0xAA])).expect("a clock");
    assert_eq!(pcr, PCR { base: 0, reserved: 0x3F, extension: 0x1FF });
    assert!(matches!(PCR::parse(partialstream(&[1, 2, 3, 4, 5], false)), Err(ParseError::Incomplete)));
    assert!(matches!(PCR::parse(stream(&[1, 2, 3, 4, 5])), Err(ParseError::Malformed)));
}

#[test]
fn splice_countdown_is_signed() {
    let (field, _) = AdaptationField::parse(stream(&[2, 0x04, 0x7F])).expect("a field");
    assert_eq!(field.splice_countdown, Some(127));
    let (field, _) = AdaptationField::parse(stream(&[2, 0x04, 0x80])).expect("a field");
    assert_eq!(field.splice_countdown, Some(-128));
    let (field, _) = AdaptationField::parse(stream(&[2, 0x04, 0xFF])).expect("a field");
    assert_eq!(field.splice_countdown, Some(-1));
}

#[test]
fn adaptation_extension_is_a_block_with_its_length() {
    let (ext, n) = AdaptationExtension::parse(stream(&[2, 7, 8, 9])).expect("an extension");
    assert_eq!((ext.data, n), (vec![7, 8], 3));
    assert!(matches!(
        AdaptationExtension::parse(partialstream(&[2, 7], false)),
        Err(ParseError::Incomplete)
    ));
}

#[test]
fn packet_driver_cuts_the_stream_every_192_bytes() {
    let mut stream = Vec::new();
    for i in 0..120u16 {
        stream.extend(plain_packet(i, i as u8));
    }
    for chunk in [1usize, 191, 192, 193, 1000, 10 * 1024] {
        let mut it = MTSPacketIterator::new();
        let mut pids = Vec::new();
        let mut offset = 0;
        loop {
            match it.next() {
                Step::Yield(packet) => {
                    assert_eq!(packet.payload_data.expect("a payload").data, vec![pids.len() as u8; 183]);
                    pids.push(packet.pid);
                }
                Step::NeedInput => {
                    let end = (offset + chunk).min(stream.len());
                    assert!(it.feed(&stream[offset..end]));
                    offset = end;
                }
                Step::End => break,
                other => panic!("unexpected {:?}", other),
            }
        }
        assert_eq!(pids, (0..120).collect::<Vec<u16>>(), "reads of {} bytes", chunk);
    }
}

#[test]
fn packet_driver_on_an_empty_source() {
    let mut it = MTSPacketIterator::new();
    assert!(matches!(it.next(), Step::NeedInput));
    assert!(it.feed(&[]));
    assert!(matches!(it.next(), Step::End));
}

#[test]
fn packet_driver_reports_a_cut_off_packet() {
    let mut it = MTSPacketIterator::new();
    assert!(it.feed(&plain_packet(1, 1)[..100]));
    assert!(matches!(it.next(), Step::NeedInput));
    assert!(it.feed(&[]));
    assert!(matches!(it.next(), Step::Malformed));
}
