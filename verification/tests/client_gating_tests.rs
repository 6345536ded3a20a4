use adaptive_transport::client::{
    after_handshake, answers_handshake, client_step, parse_command, state_during, ClientStep,
};
use adaptive_transport::connection::ConnectionState;
use adaptive_transport::packet::{
    decode_packet, encode_packet, Packet, Reliability, TYPE_ACK, TYPE_CLOSE_ACK, TYPE_SYN_ACK,
};

fn reply(ptype: u8, connection_id: u32) -> Packet {
    decode_packet(&encode_packet(ptype, Reliability::BestEffort, 0, connection_id, 0, 0, 1, &[]))
        .unwrap()
}

#[test]
fn commands_are_gated_on_the_connection() {
    let d = ConnectionState::Disconnected;
    let c = ConnectionState::Connected;
    assert_eq!(client_step(d, &parse_command("connect")), ClientStep::StartHandshake);
    assert_eq!(client_step(c, &parse_command("connect")), ClientStep::AlreadyConnected);
    assert_eq!(client_step(c, &parse_command("close")), ClientStep::StartTeardown);
    assert_eq!(client_step(d, &parse_command("close")), ClientStep::RefuseNotConnected);
    for line in ["send hi", "mkstream be 1", "batch", "experiment 3", "be 1 hello", "be 1"] {
        assert_eq!(client_step(d, &parse_command(line)), ClientStep::RefuseNotConnected);
        assert_eq!(client_step(c, &parse_command(line)), ClientStep::Run);
    }
    for line in ["stats", "use 2", "streams", "loss 5", "help", ""] {
        assert_eq!(client_step(d, &parse_command(line)), ClientStep::Run);
    }
}

#[test]
fn handshakes_move_the_connection_state() {
    let connecting = state_during(ConnectionState::Disconnected, ClientStep::StartHandshake);
    assert_eq!(connecting, ConnectionState::Connecting);
    let closing = state_during(ConnectionState::Connected, ClientStep::StartTeardown);
    assert_eq!(closing, ConnectionState::Closing);
    assert_eq!(state_during(ConnectionState::Connected, ClientStep::Run), ConnectionState::Connected);
    assert!(answers_handshake(connecting, 9, &reply(TYPE_SYN_ACK, 9)));
    assert!(!answers_handshake(connecting, 9, &reply(TYPE_SYN_ACK, 8)));
    assert!(!answers_handshake(connecting, 9, &reply(TYPE_CLOSE_ACK, 9)));
    assert!(answers_handshake(closing, 9, &reply(TYPE_CLOSE_ACK, 9)));
    assert_eq!(after_handshake(connecting, Some(reply(TYPE_SYN_ACK, 9))), ConnectionState::Connected);
    assert_eq!(after_handshake(connecting, Some(reply(TYPE_ACK, 9))), ConnectionState::Disconnected);
    assert_eq!(after_handshake(connecting, None), ConnectionState::Disconnected);
    assert_eq!(after_handshake(closing, Some(reply(TYPE_CLOSE_ACK, 9))), ConnectionState::Disconnected);
    assert_eq!(after_handshake(closing, None), ConnectionState::Disconnected);
}
