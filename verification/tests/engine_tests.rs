use media_parser::crc::crc;
use media_parser::driver::Step;
use media_parser::elements::ElementIterator;
use media_parser::iterators::MTSPacketIterator;
use media_parser::stream_packet::{PATTableEntry, StreamPacket};

/// A packet of `pid` whose payload, first byte included, is `payload`; an
/// adaptation field of stuffing fills the packet.
fn packet(pid: u16, start: bool, payload: &[u8]) -> Vec<u8> {
    assert!(payload.len() == 184 || payload.len() <= 182);
    let mut p = vec![0x00, 0x00, 0x00, 0x00, 0x47];
    p.push(if start { 0x40 } else { 0x00 } | (pid >> 8) as u8);
    p.push(pid as u8);
    if payload.len() == 184 {
        p.push(0x10);
    } else {
        p.push(0x30);
        let stuffing = 184 - payload.len() - 1;
        p.push(stuffing as u8);
        p.push(0x00);
        p.resize(p.len() + stuffing - 1, 0xFF);
    }
    p.extend(payload);
    assert_eq!(p.len(), 192);
    p
}

/// A payload that starts a unit at its first byte and is padded to the end.
fn padded(unit: &[u8]) -> Vec<u8> {
    let mut payload = vec![0x00];
    payload.extend(unit);
    payload.resize(184, 0xFF);
    payload
}

fn section(table_id: u8, body: &[u8]) -> Vec<u8> {
    let length = 5 + body.len() + 4;
    let mut s = vec![table_id, 0xB0 | (length >> 8) as u8, length as u8];
    s.extend([0x00, 0x01, 0xC1, 0x00, 0x00]);
    s.extend(body);
    let sum = crc(&s);
    s.extend(sum.to_be_bytes());
    s
}

fn pat(pid: u16) -> Vec<u8> {
    section(0, &[0x00, 0x01, 0xE0 | (pid >> 8) as u8, pid as u8])
}

fn pmt(stream_type: u8, pid: u16) -> Vec<u8> {
    section(2, &[0xE0 | (pid >> 8) as u8, pid as u8, 0xF0, 0x00, stream_type, 0xE0 | (pid >> 8) as u8, pid as u8, 0xF0, 0x00])
}

const PES: [u8; 12] = [0x00, 0x00, 0x01, 0xE0, 0x00, 0x00, 0x80, 0x00, 0x00, 0xFF, 0xFE, 0xFD];

/// Runs the engine on a source that gives `stream` in reads of `chunk` bytes.
fn run(stream: &[u8], chunk: usize) -> Vec<(u16, StreamPacket)> {
    let mut it = ElementIterator::new(MTSPacketIterator::new());
    let mut elements = Vec::new();
    let mut offset = 0;
    loop {
        match it.next() {
            Step::Yield(element) => elements.push(element),
            Step::NeedInput => {
                let end = (offset + chunk).min(stream.len());
                assert!(it.feed(&stream[offset..end]));
                offset = end;
            }
            Step::End => return elements,
            other => panic!("unexpected {:?}", other),
        }
    }
}

fn three_packets() -> Vec<u8> {
    let mut stream = packet(0x0000, true, &padded(&pat(0x100)));
    stream.extend(packet(0x0100, true, &padded(&pmt(0x1B, 0x101))));
    stream.extend(packet(0x0101, true, &[&[0x00][..], &PES[..]].concat()));
    stream
}

fn check_three_elements(elements: &[(u16, StreamPacket)]) {
    assert_eq!(elements.len(), 3);
    match &elements[0] {
        (0x0000, StreamPacket::PAT(table)) => {
            assert_eq!(table.entries, vec![PATTableEntry { program_number: 1, program_map_pid: 0x100 }]);
        }
        other => panic!("unexpected {:?}", other),
    }
    match &elements[1] {
        (0x0100, StreamPacket::PMT(table)) => {
            assert_eq!(table.pcr_pid, 0x101);
            assert_eq!(table.elementary_stream_info_data.len(), 1);
            assert_eq!(table.elementary_stream_info_data[0].pid, 0x101);
            assert_eq!(table.elementary_stream_info_data[0].stream_type, 0x1B);
        }
        other => panic!("unexpected {:?}", other),
    }
    match &elements[2] {
        (0x0101, StreamPacket::PES(p)) => {
            assert_eq!(p.stream_id, 0xE0);
            assert!(p.header.is_some());
            assert_eq!(p.data, vec![0xFF, 0xFE, 0xFD]);
        }
        other => panic!("unexpected {:?}", other),
    }
}

#[test]
fn empty_source_yields_no_element() {
    assert_eq!(run(&[], 1).len(), 0);
    let mut it = ElementIterator::new(MTSPacketIterator::new());
    assert!(matches!(it.next(), Step::NeedInput));
    assert!(it.feed(&[]));
    assert!(matches!(it.next(), Step::End));
    assert!(matches!(it.next(), Step::End));
}

#[test]
fn padding_packet_yields_no_element() {
    let stream = packet(0x1FFF, true, &padded(&pat(0x100)));
    assert_eq!(run(&stream, 192).len(), 0);
    let mut stream = packet(0x1FFF, true, &[&[0x00][..], &PES[..]].concat());
    stream.extend(packet(0x1FFF, false, &[0xFF; 184]));
    assert_eq!(run(&stream, 100).len(), 0);
}

#[test]
fn tables_then_stream() {
    check_three_elements(&run(&three_packets(), 576));
}

#[test]
fn elements_do_not_depend_on_the_size_of_reads() {
    let stream = three_packets();
    for chunk in [1usize, 2, 3, 7, 64, 191, 192, 193, 384, 575] {
        check_three_elements(&run(&stream, chunk));
    }
}

#[test]
fn element_split_over_two_packets() {
    let mut stream = packet(0x0000, true, &padded(&pat(0x100)));
    stream.extend(packet(0x0100, true, &padded(&pmt(0x1B, 0x101))));
    stream.extend(packet(0x0101, true, &[&[0x00][..], &PES[..11]].concat()));
    stream.extend(packet(0x0101, false, &[0x00, PES[11]]));
    check_three_elements(&run(&stream, 1000));
}

#[test]
fn start_of_a_unit_ends_the_element_before_it() {
    let mut stream = packet(0x0000, true, &padded(&pat(0x100)));
    stream.extend(packet(0x0100, true, &padded(&pmt(0x1B, 0x101))));
    stream.extend(packet(0x0101, true, &[&[0x00][..], &PES[..10]].concat()));
    let second = [0x00, 0x00, 0x01, 0xE0, 0x00, 0x00, 0x80, 0x00, 0x00, 0x11];
    stream.extend(packet(0x0101, true, &[&[0x02][..], &PES[10..], &second[..]].concat()));
    let elements = run(&stream, 192);
    assert_eq!(elements.len(), 4);
    match &elements[2] {
        (0x0101, StreamPacket::PES(p)) => assert_eq!(p.data, vec![0xFF, 0xFE, 0xFD]),
        other => panic!("unexpected {:?}", other),
    }
    match &elements[3] {
        (0x0101, StreamPacket::PES(p)) => assert_eq!(p.data, vec![0x11]),
        other => panic!("unexpected {:?}", other),
    }
}

#[test]
fn bytes_before_the_first_unit_are_dropped() {
    let unit = pat(0x100);
    let mut payload = vec![0x03, 0xDE, 0xAD, 0xFF];
    payload.extend(&unit);
    payload.resize(184, 0xFF);
    let elements = run(&packet(0x0000, true, &payload), 192);
    assert_eq!(elements.len(), 1);
    assert!(matches!(&elements[0], (0, StreamPacket::PAT(_))));
}

#[test]
fn packet_of_an_unseen_pid_that_starts_no_unit_is_dropped() {
    let mut stream = packet(0x0000, false, &padded(&pat(0x100)));
    stream.extend(packet(0x0000, true, &padded(&pat(0x200))));
    let elements = run(&stream, 192);
    assert_eq!(elements.len(), 1);
    match &elements[0] {
        (0, StreamPacket::PAT(table)) => assert_eq!(table.entries[0].program_map_pid, 0x200),
        other => panic!("unexpected {:?}", other),
    }
}

#[test]
fn pid_of_the_association_table_gives_other_sections_as_they_are() {
    let elements = run(&packet(0x0000, true, &padded(&pmt(0x1B, 0x101))), 192);
    assert_eq!(elements.len(), 1);
    match &elements[0] {
        (0, StreamPacket::UnsupportedPSITable(info, _)) => assert_eq!(info.table_id, 2),
        other => panic!("unexpected {:?}", other),
    }
}

#[test]
fn pid_that_no_table_names_gives_nothing() {
    let mut stream = packet(0x0300, true, &[&[0x00][..], &PES[..]].concat());
    stream.extend(packet(0x0000, true, &padded(&pat(0x100))));
    let elements = run(&stream, 192);
    assert_eq!(elements.len(), 1);
    assert!(matches!(&elements[0], (0, StreamPacket::PAT(_))));
}

#[test]
fn two_sections_in_one_payload() {
    let mut payload = vec![0x00];
    payload.extend(pat(0x100));
    payload.extend(pat(0x200));
    payload.resize(184, 0xFF);
    let elements = run(&packet(0x0000, true, &payload), 192);
    assert_eq!(elements.len(), 2);
    match (&elements[0], &elements[1]) {
        ((0, StreamPacket::PAT(a)), (0, StreamPacket::PAT(b))) => {
            assert_eq!(a.entries[0].program_map_pid, 0x100);
            assert_eq!(b.entries[0].program_map_pid, 0x200);
        }
        other => panic!("unexpected {:?}", other),
    }
}

#[test]
fn section_with_a_wrong_checksum_stops_the_engine() {
    let mut unit = pat(0x100);
    unit[9] ^= 0xFF;
    let mut it = ElementIterator::new(MTSPacketIterator::new());
    assert!(it.feed(&packet(0x0000, true, &padded(&unit))));
    assert!(matches!(it.next(), Step::Malformed));
}

#[test]
fn packet_without_sync_byte_stops_the_engine() {
    let mut stream = packet(0x0000, true, &padded(&pat(0x100)));
    stream[4] = 0x00;
    let mut it = ElementIterator::new(MTSPacketIterator::new());
    assert!(it.feed(&stream));
    assert!(matches!(it.next(), Step::Malformed));
}

#[test]
fn end_of_element_behind_the_bytes_is_malformed() {
    let mut stream = packet(0x0000, true, &[&[0x00][..], &pat(0x100)[..10]].concat());
    stream.extend(packet(0x0000, true, &[200, 0x01, 0x02]));
    let mut it = ElementIterator::new(MTSPacketIterator::new());
    assert!(it.feed(&stream));
    assert!(matches!(it.next(), Step::Malformed));
}

#[test]
fn long_element_grows_the_memory_of_its_pid() {
    let mut stream = packet(0x0000, true, &padded(&pat(0x100)));
    stream.extend(packet(0x0100, true, &padded(&pmt(0x1B, 0x101))));
    let mut body = Vec::new();
    let mut first = vec![0x00];
    first.extend(&PES[..9]);
    first.resize(184, 0x5A);
    body.extend(&first[10..]);
    stream.extend(packet(0x0101, true, &first));
    for i in 0..200u32 {
        let mut payload = vec![0x00];
        payload.resize(184, (i % 250) as u8);
        body.extend(&payload[1..]);
        stream.extend(packet(0x0101, false, &payload));
    }
    let elements = run(&stream, 10 * 1024);
    assert_eq!(elements.len(), 3);
    match &elements[2] {
        (0x0101, StreamPacket::PES(p)) => {
            assert_eq!(p.data.len(), 174 + 200 * 183);
            assert_eq!(p.data, body);
        }
        other => panic!("unexpected {:?}", other),
    }
}

#[test]
fn elements_left_at_the_end_come_oldest_first() {
    let mut stream = packet(0x0000, true, &padded(&section(0, &[0, 1, 0xE1, 0x00, 0, 2, 0xE2, 0x00])));
    stream.extend(packet(0x0100, true, &padded(&pmt(0x1B, 0x101))));
    stream.extend(packet(0x0200, true, &padded(&pmt(0x0F, 0x201))));
    stream.extend(packet(0x0201, true, &[&[0x00][..], &PES[..]].concat()));
    stream.extend(packet(0x0300, true, &[&[0x00][..], &PES[..]].concat()));
    stream.extend(packet(0x0101, true, &[&[0x00][..], &PES[..]].concat()));
    let elements = run(&stream, 500);
    let pids: Vec<u16> = elements.iter().map(|e| e.0).collect();
    assert_eq!(pids, vec![0x0000, 0x0100, 0x0200, 0x0201, 0x0101]);
}

#[test]
fn learned_pids_are_kept() {
    let mut stream = packet(0x0000, true, &padded(&pat(0x100)));
    stream.extend(packet(0x0000, true, &padded(&pat(0x200))));
    stream.extend(packet(0x0100, true, &padded(&pmt(0x1B, 0x101))));
    stream.extend(packet(0x0200, true, &padded(&pmt(0x1B, 0x201))));
    stream.extend(packet(0x0101, true, &[&[0x00][..], &PES[..]].concat()));
    stream.extend(packet(0x0201, true, &[&[0x00][..], &PES[..]].concat()));
    let elements = run(&stream, 192);
    let pids: Vec<u16> = elements.iter().map(|e| e.0).collect();
    assert_eq!(pids, vec![0x0000, 0x0000, 0x0100, 0x0200, 0x0101, 0x0201]);
    assert!(matches!(&elements[2].1, StreamPacket::PMT(_)));
    assert!(matches!(&elements[3].1, StreamPacket::PMT(_)));
    assert!(matches!(&elements[4].1, StreamPacket::PES(_)));
    assert!(matches!(&elements[5].1, StreamPacket::PES(_)));
}

#[test]
fn section_split_over_two_packets() {
    let unit = section(0, &[0, 1, 0xE1, 0x00, 0, 2, 0xE2, 0x00, 0, 3, 0xE3, 0x00]);
    let mut stream = packet(0x0000, true, &[&[0x00][..], &unit[..7]].concat());
    let mut rest = vec![0x00];
    rest.extend(&unit[7..]);
    rest.resize(184, 0xFF);
    stream.extend(packet(0x0000, false, &rest));
    for chunk in [50usize, 192, 384] {
        let elements = run(&stream, chunk);
        assert_eq!(elements.len(), 1);
        match &elements[0] {
            (0, StreamPacket::PAT(table)) => {
                let pids: Vec<u16> = table.entries.iter().map(|e| e.program_map_pid).collect();
                assert_eq!(pids, vec![0x100, 0x200, 0x300]);
            }
            other => panic!("unexpected {:?}", other),
        }
    }
}
