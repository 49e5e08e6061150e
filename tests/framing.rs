use mysql_proxy::framing::{next_packet_len, parse_packet_length};
use mysql_proxy::{ConnReader, ConnWriter, Packet, PacketError, PacketType};

#[test]
fn error_packet_bytes() {
    let p = Packet::error_packet(1064, *b"12345", "ab".to_string());
    assert_eq!(p.bytes, vec![11, 0, 0, 1, 0xff, 0x28, 0x04, b'#', b'1', b'2', b'3', b'4', b'5', b'a', b'b']);
    assert_eq!(p.sequence_id(), 1);
}

#[test]
fn error_packet_utf8_message_and_high_code() {
    let p = Packet::error_packet(0xabcd, *b"HY000", "é".to_string());
    assert_eq!(p.bytes, vec![11, 0, 0, 1, 0xff, 0xcd, 0xab, b'#', b'H', b'Y', b'0', b'0', b'0', 0xc3, 0xa9]);
}

#[test]
fn error_packet_long_message_uses_three_length_bytes() {
    let msg = "m".repeat(0x1_0203 - 9);
    let p = Packet::error_packet(1, *b"00000", msg);
    assert_eq!(&p.bytes[..4], &[0x03, 0x02, 0x01, 0x01]);
    assert_eq!(p.bytes.len(), 4 + 0x1_0203);
}

#[test]
fn packet_type_classification() {
    let p = Packet { bytes: vec![1, 0, 0, 0, 0x0e] };
    assert_eq!(p.packet_type(), Ok(PacketType::ComPing));
    let q = Packet { bytes: vec![4, 0, 0, 0, 0x03, b'a', b'b', b'c'] };
    assert_eq!(q.packet_type(), Ok(PacketType::ComQuery));
    let r = Packet { bytes: vec![1, 0, 0, 0, 0x1f] };
    assert_eq!(r.packet_type(), Ok(PacketType::ComResetConnection));
    let s = Packet { bytes: vec![1, 0, 0, 0, 0x1d] };
    assert_eq!(s.packet_type(), Ok(PacketType::ComDaemon));
    let t = Packet { bytes: vec![1, 0, 0, 0, 0x00] };
    assert_eq!(t.packet_type(), Ok(PacketType::ComSleep));
}

#[test]
fn packet_type_failures() {
    let gap = Packet { bytes: vec![1, 0, 0, 0, 0x1b] };
    assert_eq!(gap.packet_type(), Err(PacketError::UnknownCommand(0x1b)));
    let high = Packet { bytes: vec![1, 0, 0, 0, 0x20] };
    assert_eq!(high.packet_type(), Err(PacketError::UnknownCommand(0x20)));
    let empty = Packet { bytes: vec![0, 0, 0, 3] };
    assert_eq!(empty.packet_type(), Err(PacketError::MissingCommand));
    assert_eq!(empty.sequence_id(), 3);
}

#[test]
fn length_decoding() {
    assert_eq!(parse_packet_length(&[0x01, 0x02, 0x03]), 0x03_02_01);
    assert_eq!(parse_packet_length(&[0xff, 0xff, 0xff, 9]), 0xff_ffff);
    assert_eq!(next_packet_len(&[1, 0, 0]), None);
    assert_eq!(next_packet_len(&[1, 0, 0, 0]), None);
    assert_eq!(next_packet_len(&[1, 0, 0, 0, 0x0e]), Some(5));
    assert_eq!(next_packet_len(&[0, 0, 0, 0, 9, 9]), Some(4));
}

#[test]
fn reader_takes_whole_packets_and_compacts() {
    let mut r = ConnReader::new();
    assert!(r.read(&[1, 0, 0, 0, 0x0e, 0, 0, 0, 7, 2, 0]));
    let p = r.next().unwrap();
    assert_eq!(p.bytes, vec![1, 0, 0, 0, 0x0e]);
    assert_eq!(r.buffered(), &[0, 0, 0, 7, 2, 0]);
    let q = r.next().unwrap();
    assert_eq!(q.bytes, vec![0, 0, 0, 7]);
    assert_eq!(r.buffered(), &[2, 0]);
    assert!(r.next().is_none());
    assert_eq!(r.buffered(), &[2, 0]);
    assert!(r.read(&[0, 1, 0xaa, 0xbb]));
    assert_eq!(r.next().unwrap().bytes, vec![2, 0, 0, 1, 0xaa, 0xbb]);
    assert!(r.buffered().is_empty());
    assert!(!r.closed());
    assert!(!r.read(&[]));
    assert!(r.closed());
}

#[test]
fn reader_one_byte_at_a_time() {
    let stream = [1u8, 0, 0, 0, 0x0e, 0, 0, 0, 1, 3, 0, 0, 2, 0x03, b'x', b'y'];
    let mut r = ConnReader::new();
    let mut got = Vec::new();
    for b in stream.iter() {
        assert!(r.read(&[*b]));
        while let Some(p) = r.next() {
            got.push(p.bytes);
        }
    }
    assert_eq!(got, vec![vec![1, 0, 0, 0, 0x0e], vec![0, 0, 0, 1], vec![3, 0, 0, 2, 0x03, b'x', b'y']]);
    assert!(r.buffered().is_empty());
}

#[test]
fn writer_queues_and_advances() {
    let mut w = ConnWriter::new();
    assert!(w.is_empty());
    w.push(&Packet { bytes: vec![1, 0, 0, 0, 0x0e] });
    w.push(&Packet { bytes: vec![0, 0, 0, 1] });
    assert_eq!(w.pending(), &[1, 0, 0, 0, 0x0e, 0, 0, 0, 1]);
    w.advance(3);
    assert_eq!(w.pending(), &[0, 0x0e, 0, 0, 0, 1]);
    w.advance(6);
    assert!(w.is_empty());
}
