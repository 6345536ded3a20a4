use adaptive_transport::packet::{
    decode_packet, encode_packet, encode_packet_with_timestamp, Reliability, HEADER_LEN, TYPE_ACK,
    TYPE_DATA, VERSION,
};

#[test]
fn packet_roundtrip_works() {
    let payload = b"hello";

    let encoded = encode_packet(TYPE_DATA, Reliability::Important, 7, 11, 22, 33, 0, payload);

    let decoded = decode_packet(&encoded).expect("packet should decode");

    assert_eq!(decoded.version, VERSION);
    assert_eq!(decoded.ptype, TYPE_DATA);
    assert_eq!(decoded.reliability, Reliability::Important);
    assert_eq!(decoded.priority, 7);
    assert_eq!(decoded.connection_id, 11);
    assert_eq!(decoded.stream_id, 22);
    assert_eq!(decoded.seq, 33);
    assert_eq!(decoded.ack, 0);
    assert_eq!(decoded.payload, payload.to_vec());
}

#[test]
fn header_layout_is_big_endian() {
    let bytes = encode_packet_with_timestamp(
        TYPE_ACK,
        Reliability::Guaranteed,
        9,
        0x0102_0304,
        0x0A0B_0C0D,
        0xFFFF_FFFE,
        7,
        0x1122_3344_5566_7788,
        &[0xAA, 0xBB],
    );
    assert_eq!(
        bytes,
        vec![
            1, 1, 2, 9, 1, 2, 3, 4, 0x0A, 0x0B, 0x0C, 0x0D, 0xFF, 0xFF, 0xFF, 0xFE, 0, 0, 0, 7,
            0x11, 0x22, 0x33, 0x44, 0x55, 0x66, 0x77, 0x88, 0xAA, 0xBB
        ]
    );
    let p = decode_packet(&bytes).unwrap();
    assert_eq!(p.timestamp_us, 0x1122_3344_5566_7788);
    assert_eq!(p.seq, 0xFFFF_FFFE);
}

#[test]
fn short_and_bad_packets_are_refused() {
    let short = vec![0u8; HEADER_LEN - 1];
    assert_eq!(decode_packet(&short).err(), Some("packet too short".to_string()));
    let mut bad = vec![0u8; HEADER_LEN];
    bad[2] = 3;
    assert_eq!(decode_packet(&bad).err(), Some("invalid reliability value".to_string()));
    bad[2] = 0;
    let p = decode_packet(&bad).unwrap();
    assert_eq!(p.reliability, Reliability::BestEffort);
    assert!(p.payload.is_empty());
}

#[test]
fn reliability_codes_and_words() {
    assert_eq!(Reliability::BestEffort.to_u8(), 0);
    assert_eq!(Reliability::Guaranteed.to_u8(), 2);
    assert_eq!(Reliability::from_u8(1), Some(Reliability::Important));
    assert_eq!(Reliability::from_u8(3), None);
    assert_eq!(Reliability::parse("be"), Some(Reliability::BestEffort));
    assert_eq!(Reliability::parse("guaranteed"), Some(Reliability::Guaranteed));
    assert_eq!(Reliability::parse("Important"), None);
}
