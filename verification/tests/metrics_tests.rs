use adaptive_transport::metrics::Metrics;
use adaptive_transport::packet::Reliability;

#[test]
fn fresh_metrics_summary() {
    let m = Metrics::new();
    assert_eq!(
        m.summary(),
        "sent_total=0 be=0 important=0 guaranteed=0 acks=0 losses=0 retransmits=0 rtt_samples=0 rtt_avg_us=0 rtt_min_us=0 rtt_max_us=0 priorities=none"
    );
}

#[test]
fn metrics_count_and_summarize() {
    let mut m = Metrics::new();
    m.record_send(Reliability::BestEffort, 0);
    m.record_send(Reliability::Guaranteed, 7);
    m.record_send(Reliability::Guaranteed, 7);
    m.record_send(Reliability::Important, 255);
    m.record_ack(300);
    m.record_ack(100);
    m.record_ack(200);
    m.record_loss();
    m.record_retransmit();
    assert_eq!(m.rtt_min_us, Some(100));
    assert_eq!(m.rtt_max_us, Some(300));
    assert_eq!(m.priority_counts[7], 2);
    assert_eq!(
        m.summary(),
        "sent_total=4 be=1 important=1 guaranteed=2 acks=3 losses=1 retransmits=1 rtt_samples=3 rtt_avg_us=200 rtt_min_us=100 rtt_max_us=300 priorities=p0=1 p7=2 p255=1"
    );
}

#[test]
fn send_counters_always_agree() {
    let mut m = adaptive_transport::metrics::Metrics::new();
    for (rel, prio) in [
        (adaptive_transport::packet::Reliability::BestEffort, 0u8),
        (adaptive_transport::packet::Reliability::Important, 255),
        (adaptive_transport::packet::Reliability::Guaranteed, 7),
        (adaptive_transport::packet::Reliability::Guaranteed, 7),
    ] {
        m.record_send(rel, prio);
        m.record_ack(10);
        m.record_loss();
        let by_priority: u64 = m.priority_counts.iter().sum();
        assert_eq!(m.sent_total, m.sent_best_effort + m.sent_important + m.sent_guaranteed);
        assert_eq!(m.sent_total, by_priority);
    }
    assert_eq!((m.sent_total, m.priority_counts[7]), (4, 2));
}
