use adaptive_transport::experiment::{timestamp_us, ExperimentRow};
use adaptive_transport::metrics::Metrics;
use adaptive_transport::packet::Reliability;
use adaptive_transport::text::csv_row_line;

#[test]
fn experiment_line_has_every_column() {
    let row = ExperimentRow {
        timestamp_us: 10,
        run_id: 2,
        controller: "simple-aimd".to_string(),
        emulator: "loss=1.0% delay=0ms jitter=0ms active=true multipath=on".to_string(),
        sent_total: 5,
        sent_best_effort: 1,
        sent_important: 2,
        sent_guaranteed: 2,
        acks: 4,
        losses: 0,
        retransmits: 1,
        rtt_samples: 4,
        rtt_avg_us: 250,
        rtt_min_us: 100,
        rtt_max_us: 400,
        final_cwnd_bytes: 4800,
        final_risk: "0.000000".to_string(),
        duration_ms: 321,
    };
    assert_eq!(
        row.csv_line(),
        "10,2,simple-aimd,loss=1.0% delay=0ms jitter=0ms active=true multipath=on,5,1,2,2,4,0,1,4,250,100,400,4800,0.000000,321"
    );
    let quoted = ExperimentRow { controller: "a,\"b\"".to_string(), ..row };
    assert!(quoted.csv_line().starts_with("10,2,\"a,\"\"b\"\"\",loss"));
}

#[test]
fn csv_row_line_joins_escaped_fields() {
    let fields: Vec<String> = vec!["x".to_string(), "y,z".to_string(), String::new()];
    assert_eq!(csv_row_line(&fields), "x,\"y,z\",");
    assert_eq!(csv_row_line(&Vec::new()), "");
}

#[test]
fn metrics_average_round_trip() {
    let mut m = Metrics::new();
    assert_eq!(m.average_rtt_us(), 0);
    m.record_send(Reliability::Important, 3);
    m.record_ack(100);
    m.record_ack(301);
    assert_eq!(m.average_rtt_us(), 200);
}

#[test]
fn timestamps_are_after_the_epoch() {
    assert!(timestamp_us() > 1_600_000_000_000_000);
}
