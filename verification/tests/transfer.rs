use citadel::transfer::{encode_frame, MsgKind, Packet, PacketHeader, DEFAULT_PAYLOAD_MTU};

#[test]
fn test_packet_creation() {
    let body = bytes::Bytes::from_static(b"hello world");
    let packet = Packet::data(12345, 1, 0, body.clone());

    assert_eq!(packet.stream_id(), 12345);
    assert_eq!(packet.seq(), 0);
    assert!(packet.is_data());
    assert_eq!(packet.body, body);
}

#[test]
fn test_header_creation() {
    let hdr = PacketHeader::new_data(999, 2, 42, 100);
    assert_eq!(hdr.stream_id, 999);
    assert_eq!(hdr.epoch, 2);
    assert_eq!(hdr.seq, 42);
    assert_eq!(hdr.body_len, 100);
    assert_eq!(hdr.kind, MsgKind::Data);
}

#[test]
fn control_header_has_empty_body() {
    let hdr = PacketHeader::new_control(7, 3, 9);
    assert_eq!(hdr.kind, MsgKind::Control);
    assert_eq!(hdr.body_len, 0);
    assert_eq!(hdr.flags, 0);
    let p = Packet::new(hdr, bytes::Bytes::new());
    assert!(!p.is_data());
    assert_eq!(p.seq(), 9);
    assert_eq!(DEFAULT_PAYLOAD_MTU, 1200);
}

#[test]
fn data_header_records_body_length() {
    let p = Packet::data(1, 1, 1, bytes::Bytes::from(vec![0u8; 1200]));
    assert_eq!(p.hdr.body_len, 1200);
    // lengths beyond 16 bits wrap, as an `as u16` cast does
    let big = Packet::data(1, 1, 1, bytes::Bytes::from(vec![0u8; 65536 + 5]));
    assert_eq!(big.hdr.body_len, 5);
}

#[test]
fn frame_is_little_endian_length_then_body() {
    let p = Packet::data(1, 0, 0, bytes::Bytes::from_static(b"hello"));
    assert_eq!(encode_frame(&p), vec![5, 0, b'h', b'e', b'l', b'l', b'o']);
    let long = Packet::data(1, 0, 0, bytes::Bytes::from(vec![9u8; 300]));
    let frame = encode_frame(&long);
    assert_eq!(frame.len(), 302);
    assert_eq!(&frame[..2], &[44, 1]);
    assert!(frame[2..].iter().all(|b| *b == 9));
    let empty = Packet::new(PacketHeader::new_control(0, 0, 0), bytes::Bytes::new());
    assert_eq!(encode_frame(&empty), vec![0, 0]);
}
