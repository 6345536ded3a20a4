use adaptive_transport::packet::Reliability;
use adaptive_transport::scheduler::{PriorityScheduler, ScheduledPacket};
use adaptive_transport::metrics::Metrics;
use adaptive_transport::sender::{
    admission, max_attempts, rtt_us, settle_ack, settle_timeout, timeout_ms, Admission,
    SendStep, TimeoutAction, Transfer, UnackedList,
};

fn item(seq: u32, reliability: Reliability) -> ScheduledPacket {
    ScheduledPacket {
        priority: 1,
        seq,
        reliability,
        encoded: vec![1, 2, 3],
        payload_preview: String::from("x"),
    }
}

#[test]
fn attempt_limits_and_timeouts() {
    assert_eq!(max_attempts(Reliability::Important), 4);
    assert_eq!(max_attempts(Reliability::Guaranteed), 9);
    assert_eq!(max_attempts(Reliability::BestEffort), 1);
    assert_eq!(timeout_ms(0), 400);
    assert_eq!(timeout_ms(150), 700);
    assert_eq!(timeout_ms(u64::MAX), u64::MAX);
    assert_eq!(rtt_us(1_000, 501_999), 500);
}

#[test]
fn acks_take_out_the_first_match() {
    let mut l = UnackedList::new();
    l.track(item(5, Reliability::Important), 33, 0, 0, 0);
    l.track(item(6, Reliability::Guaranteed), 34, 1, 10, 100);
    assert!(l.acknowledge(9).is_none());
    let acked = l.acknowledge(6).unwrap();
    assert_eq!(acked.packet_len, 34);
    assert_eq!(acked.timeout_ms, 420);
    assert_eq!(acked.max_attempts, 9);
    assert_eq!(l.len(), 1);
}

#[test]
fn timeouts_retransmit_then_give_up() {
    let mut l = UnackedList::new();
    l.track(item(1, Reliability::Important), 30, 0, 0, 0);
    assert_eq!(l.find_expired(0, 399_999_999), None);
    let mut now: u64 = 400_000_000;
    for attempt in 2..=4 {
        let i = l.find_expired(0, now).unwrap();
        assert!(matches!(l.on_timeout(i), TimeoutAction::Retransmit));
        assert_eq!(l.packets[i].attempts, attempt);
        l.rearm(i, 1, 50, now);
        assert_eq!(l.packets[i].timeout_ms, 500);
        now += 500_000_000;
    }
    let i = l.find_expired(0, now).unwrap();
    match l.on_timeout(i) {
        TimeoutAction::GiveUp(p) => assert_eq!(p.attempts, 4),
        TimeoutAction::Retransmit => panic!("should give up"),
    }
    assert!(l.is_empty());
}

#[test]
fn guaranteed_packet_is_retransmitted_eight_times() {
    let mut l = UnackedList::new();
    l.track(item(9, Reliability::Guaranteed), 30, 0, 0, 0);
    let mut retransmits = 0;
    loop {
        match l.on_timeout(0) {
            TimeoutAction::Retransmit => retransmits += 1,
            TimeoutAction::GiveUp(p) => {
                assert_eq!(p.attempts, 9);
                break;
            }
        }
    }
    assert_eq!(retransmits, 8);
    assert!(l.is_empty());
}

#[test]
fn admission_and_settling_update_the_counters() {
    assert_eq!(admission(Reliability::BestEffort, false), Admission::SendUntracked);
    assert_eq!(admission(Reliability::Important, false), Admission::Wait);
    assert_eq!(admission(Reliability::Guaranteed, true), Admission::SendTracked);
    let mut l = UnackedList::new();
    let mut m = Metrics::new();
    l.track(item(3, Reliability::Important), 30, 1, 0, 1_000);
    l.track(item(4, Reliability::Important), 30, 0, 0, 2_000);
    assert!(settle_ack(&mut l, &mut m, 99, 5_000).is_none());
    assert_eq!(m.acks, 0);
    let (u, rtt) = settle_ack(&mut l, &mut m, 3, 501_000).unwrap();
    assert_eq!((u.item.seq, u.path_id, rtt), (3, 1, 500));
    assert_eq!((m.acks, m.rtt_samples, m.rtt_sum_us), (1, 1, 500));
    assert!(matches!(settle_timeout(&mut l, &mut m, 0), TimeoutAction::Retransmit));
    assert_eq!(m.retransmits, 1);
    for _ in 0..2 {
        settle_timeout(&mut l, &mut m, 0);
    }
    assert!(matches!(settle_timeout(&mut l, &mut m, 0), TimeoutAction::GiveUp(_)));
    assert_eq!((m.retransmits, m.losses), (3, 1));
    assert!(l.is_empty());
}

#[test]
fn transfer_settles_every_reliable_packet_once() {
    let mut s = PriorityScheduler::new();
    s.enqueue(item(1, Reliability::BestEffort));
    s.enqueue(item(2, Reliability::Important));
    s.enqueue(item(3, Reliability::Guaranteed));
    let mut t = Transfer::from_scheduler(&mut s);
    assert!(s.is_empty());
    let mut m = Metrics::new();
    // A full window holds back reliable packets but never best-effort ones.
    assert!(matches!(t.send_next(&mut m, false, 0, 0, 0), SendStep::SentUntracked(_)));
    assert!(matches!(t.send_next(&mut m, false, 0, 0, 0), SendStep::Waiting));
    assert!(matches!(t.send_next(&mut m, true, 1, 0, 0), SendStep::SentTracked));
    assert!(matches!(t.send_next(&mut m, true, 1, 0, 0), SendStep::SentTracked));
    assert!(t.front().is_none());
    assert_eq!(t.outstanding().len(), 2);
    assert_eq!(m.sent_total, 3);
    assert!(t.on_ack(&mut m, 2, 1_000).is_some());
    assert!(t.on_ack(&mut m, 2, 1_000).is_none());
    assert!(!t.is_done());
    loop {
        if let TimeoutAction::GiveUp(p) = t.on_timeout(&mut m, 0) {
            assert_eq!(p.item.seq, 3);
            break;
        }
    }
    assert!(t.is_done());
    assert_eq!((m.acks, m.losses, m.retransmits), (1, 1, 8));
}
