use adaptive_transport::lifecycle::{
    run_self_check, protocol_spec, state_machine_spec, ConnEvent, ConnState, ConnStateMachine,
    GlobalState, PathEvent, PathStateMachine, RetxEvent, RetxState, RetxStateMachine, StreamEvent,
    StreamState, StreamStateMachine,
};

#[test]
fn valid_connection_lifecycle() {
    let mut machine = ConnStateMachine::new();
    assert!(machine.apply(ConnEvent::Connect).is_ok());
    assert!(machine.apply(ConnEvent::SynAckReceived).is_ok());
    assert!(machine.apply(ConnEvent::Close).is_ok());
    assert!(machine.apply(ConnEvent::CloseAckReceived).is_ok());
}

#[test]
fn invalid_transition_fails() {
    let mut machine = ConnStateMachine::new();
    assert!(machine.apply(ConnEvent::Close).is_err());
}

#[test]
fn invariants_hold_in_valid_state() {
    let global = GlobalState {
        conn: ConnState::Established,
        stream: StreamState::Active,
        retx: RetxState::InFlight,
    };
    assert!(global.check_invariants().is_ok());
}

#[test]
fn invariants_catch_invalid_state() {
    let global = GlobalState {
        conn: ConnState::Closed,
        stream: StreamState::Active,
        retx: RetxState::Ready,
    };
    assert!(global.check_invariants().is_err());
}

#[test]
fn rejected_event_reports_states_and_keeps_machine() {
    let mut machine = ConnStateMachine::new();
    let err = machine.apply(ConnEvent::Close).unwrap_err();
    assert_eq!(err, "invalid transition from Closed on Close");
    assert_eq!(machine.state, ConnState::Closed);
    assert!(machine.log.is_empty());
}

#[test]
fn transitions_are_logged() {
    let mut machine = ConnStateMachine::new();
    machine.apply(ConnEvent::Connect).unwrap();
    machine.apply(ConnEvent::Timeout).unwrap();
    assert_eq!(machine.state, ConnState::Closed);
    assert_eq!(
        machine.log,
        vec![
            "Closed --Connect--> WaitSynAck".to_string(),
            "WaitSynAck --Timeout--> Closed".to_string()
        ]
    );
}

#[test]
fn stream_retx_path_machines_follow_their_tables() {
    let mut stream = StreamStateMachine::new();
    assert!(stream.apply(StreamEvent::SendData).is_err());
    assert_eq!(
        stream.apply(StreamEvent::Close).unwrap_err(),
        "invalid stream transition from Idle on Close"
    );
    assert!(stream.apply(StreamEvent::Create).is_ok());
    assert!(stream.apply(StreamEvent::ReceiveAck).is_ok());
    assert_eq!(stream.state, StreamState::Active);

    let mut retx = RetxStateMachine::new();
    assert!(retx.apply(RetxEvent::Ack).is_err());
    retx.apply(RetxEvent::Transmit).unwrap();
    retx.apply(RetxEvent::Fail).unwrap();
    assert_eq!(retx.state, RetxState::Dropped);
    assert_eq!(
        retx.apply(RetxEvent::Retransmit).unwrap_err(),
        "invalid retx transition from Dropped on Retransmit"
    );

    let mut path = PathStateMachine::new();
    path.apply(PathEvent::HighDelay).unwrap();
    path.apply(PathEvent::HighLoss).unwrap();
    assert!(path.apply(PathEvent::GoodAck).is_err());
    path.apply(PathEvent::Recover).unwrap();
    assert_eq!(
        path.log,
        vec![
            "Available --HighDelay--> Degraded".to_string(),
            "Degraded --HighLoss--> Unavailable".to_string(),
            "Unavailable --Recover--> Available".to_string()
        ]
    );
}

#[test]
fn second_invariant_is_checked() {
    let global = GlobalState {
        conn: ConnState::Established,
        stream: StreamState::Closed,
        retx: RetxState::InFlight,
    };
    assert_eq!(
        global.check_invariants().unwrap_err(),
        "Invariant violated: Packet is InFlight but Stream is Closed"
    );
    let global = GlobalState {
        conn: ConnState::Closed,
        stream: StreamState::Active,
        retx: RetxState::InFlight,
    };
    assert_eq!(
        global.check_invariants().unwrap_err(),
        "Invariant violated: Stream is Active but Connection is Closed"
    );
}

#[test]
fn self_check_writes_the_documented_state_machines() {
    let (conn, stream, retx, path, ok) = run_self_check().expect("self-check passes");
    assert!(ok);
    let doc = state_machine_spec(&conn, &stream, &retx, &path, ok);
    let expected = "# Formal State Machines\n\n## 1. Connection State Machine\n```text\nClosed --Connect--> WaitSynAck\nWaitSynAck --SynAckReceived--> Established\nEstablished --Close--> WaitCloseAck\nWaitCloseAck --CloseAckReceived--> Closed\n```\n\n## 2. Stream State Machine\n```text\nIdle --Create--> Active\nActive --SendData--> Active\nActive --Close--> Closed\n```\n\n## 3. Retransmission State Machine\n```text\nReady --Transmit--> InFlight\nInFlight --Retransmit--> InFlight\nInFlight --Ack--> Acked\n```\n\n## 4. Multipath Path State Machine\n```text\nAvailable --HighLoss--> Degraded\nDegraded --GoodAck--> Available\n```\n\n## 5. Formal Invariants\n\n1. A stream cannot be `Active` if the Connection is `Closed`.\n2. A packet cannot be `InFlight` if its Stream is `Closed`.\n\n**Self-Check Result:** All invariants held true during the lifecycle trace.\n";
    assert_eq!(doc, expected);
}

#[test]
fn protocol_spec_starts_with_title_and_lists_classes() {
    let doc = protocol_spec();
    assert!(doc.starts_with("# Adaptive Transport Prototype Protocol Specification\n\n## 1. Overview\n"));
    assert!(doc.ends_with("| Guaranteed | ACK required, more retransmissions |\n"));
    assert_eq!(doc.lines().count(), 28);
}
