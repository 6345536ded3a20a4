use adaptive_transport::connection::{ConnectionManager, ConnectionState};
use adaptive_transport::packet::Reliability;
use std::time::Duration;

#[test]
fn connection_creates_and_uses_stream() {
    let mut connection = ConnectionManager::new(123);

    let id = connection.create_stream(Reliability::Important, 5);

    assert!(connection.use_stream(id));
    assert_eq!(connection.current_stream, id);
}

#[test]
fn connection_records_stream_stats() {
    let mut connection = ConnectionManager::new(123);

    let id = connection.create_stream(Reliability::Guaranteed, 3);

    connection.record_send(id, Reliability::Guaranteed);
    connection.record_ack(id, Duration::from_micros(500).as_micros());

    let stream = connection.streams.get(&id).expect("stream should exist");

    assert_eq!(stream.stats.sent, 1);
    assert_eq!(stream.stats.acked, 1);
    assert_eq!(stream.stats.in_flight, 0);
    assert_eq!(stream.stats.rtt_samples, 1);
}

#[test]
fn stream_ids_status_and_text() {
    let mut c = ConnectionManager::new(7);
    assert_eq!(c.state, ConnectionState::Disconnected);
    assert_eq!(c.create_stream(Reliability::BestEffort, 2), 2);
    assert_eq!(c.create_stream(Reliability::Important, 9), 3);
    assert!(!c.use_stream(40));
    assert_eq!(c.current_stream, 3);
    assert_eq!(c.stream_ids(), vec![1, 2, 3]);
    assert_eq!(c.status(), "conn_id=7 state=Disconnected current_stream=3 streams=3");
    c.record_send(3, Reliability::Important);
    c.record_ack(3, 300);
    c.record_send(3, Reliability::Important);
    c.record_ack(3, 101);
    c.record_send(3, Reliability::Important);
    c.record_loss(3);
    c.record_retransmit(3);
    assert_eq!(
        c.stream_stats_text(),
        "stream=1 rel=Guaranteed prio=0 sent=0 acked=0 lost=0 retx=0 inflight=0 avg_rtt_us=0\n\
stream=2 rel=BestEffort prio=2 sent=0 acked=0 lost=0 retx=0 inflight=0 avg_rtt_us=0\n\
stream=3 rel=Important prio=9 sent=3 acked=2 lost=1 retx=1 inflight=0 avg_rtt_us=200"
    );
}

#[test]
fn stream_in_flight_limit() {
    let mut c = ConnectionManager::new(1);
    for _ in 0..4 {
        assert!(c.can_send_stream(1, Reliability::Guaranteed));
        c.record_send(1, Reliability::Guaranteed);
    }
    assert!(!c.can_send_stream(1, Reliability::Guaranteed));
    assert!(c.can_send_stream(1, Reliability::BestEffort));
    assert!(c.can_send_stream(99, Reliability::Guaranteed));
    c.record_send(1, Reliability::BestEffort);
    assert_eq!(c.streams.get(&1).unwrap().stats.in_flight, 4);
    assert_eq!(c.streams.get(&1).unwrap().stats.sent, 5);
    c.record_loss(1);
    assert!(c.can_send_stream(1, Reliability::Guaranteed));
}

#[test]
fn created_streams_get_fresh_ids() {
    let mut c = adaptive_transport::connection::ConnectionManager::new(5);
    assert_eq!(c.next_stream_id, 2);
    let a = c.create_stream(Reliability::Important, 1);
    let b = c.create_stream(Reliability::BestEffort, 2);
    assert_eq!((a, b), (2, 3));
    assert_eq!(c.stream_ids(), vec![1, 2, 3]);
    assert_eq!(c.current_stream, 3);
}
