use adaptive_transport::packet::{
    decode_packet, encode_packet, Reliability, TYPE_ACK, TYPE_CLOSE, TYPE_CLOSE_ACK, TYPE_DATA,
    TYPE_SYN, TYPE_SYN_ACK,
};
use adaptive_transport::server::{encode_reply, Reply, ServerState};

fn packet(ptype: u8, reliability: Reliability, conn: u32, stream: u32, seq: u32) -> adaptive_transport::packet::Packet {
    decode_packet(&encode_packet(ptype, reliability, 0, conn, stream, seq, 0, b"x")).unwrap()
}

#[test]
fn syn_is_answered_and_data_acked() {
    let mut s = ServerState::new();
    let r = s.handle_packet(0, &packet(TYPE_SYN, Reliability::BestEffort, 42, 0, 1));
    assert_eq!(r.reply, Some(Reply { ptype: TYPE_SYN_ACK, connection_id: 42, stream_id: 0, ack: 1 }));
    assert!(s.knows_connection(0, 42));

    let r = s.handle_packet(0, &packet(TYPE_DATA, Reliability::Guaranteed, 42, 3, 9));
    assert!(!r.new_connection);
    assert!(r.new_stream);
    assert_eq!(r.reply, Some(Reply { ptype: TYPE_ACK, connection_id: 42, stream_id: 3, ack: 9 }));

    let r = s.handle_packet(1, &packet(TYPE_DATA, Reliability::BestEffort, 42, 3, 10));
    assert!(r.new_connection);
    assert!(r.new_stream);
    assert_eq!(r.reply, None);

    let r = s.handle_packet(0, &packet(TYPE_CLOSE, Reliability::BestEffort, 42, 0, 2));
    assert_eq!(r.reply, Some(Reply { ptype: TYPE_CLOSE_ACK, connection_id: 42, stream_id: 0, ack: 2 }));
    assert!(!s.knows_connection(0, 42));
    assert!(!s.knows_stream(0, 42, 3));
    assert!(s.knows_stream(1, 42, 3));
    assert!(s.handle_packet(0, &packet(TYPE_ACK, Reliability::BestEffort, 42, 0, 0)).reply.is_none());
}

#[test]
fn replies_encode_as_best_effort_control_packets() {
    let bytes = encode_reply(&Reply { ptype: TYPE_ACK, connection_id: 5, stream_id: 6, ack: 7 });
    let p = decode_packet(&bytes).unwrap();
    assert_eq!(p.ptype, TYPE_ACK);
    assert_eq!(p.reliability, Reliability::BestEffort);
    assert_eq!((p.connection_id, p.stream_id, p.seq, p.ack), (5, 6, 0, 7));
    assert!(p.payload.is_empty());
}

#[test]
fn keys_keep_peers_connections_and_streams_apart() {
    let mut s = ServerState::new();
    let max = u32::MAX;
    let r = s.handle_packet(max, &packet(TYPE_DATA, Reliability::Important, max, max, 1));
    assert!(r.new_connection && r.new_stream);
    s.handle_packet(max, &packet(TYPE_DATA, Reliability::Important, 0, max, 2));
    s.handle_packet(0, &packet(TYPE_DATA, Reliability::Important, max, 0, 3));
    assert!(s.knows_stream(max, max, max));
    assert!(!s.knows_stream(max, max, 0));
    assert!(!s.knows_connection(0, 0));
    s.handle_packet(max, &packet(TYPE_CLOSE, Reliability::BestEffort, max, 0, 4));
    assert!(!s.knows_connection(max, max));
    assert!(!s.knows_stream(max, max, max));
    assert!(s.knows_stream(max, 0, max));
    assert!(s.knows_stream(0, max, 0));
    assert!(s.knows_connection(0, max));
}
