use adaptive_transport::features::FeatureExtractor;
use std::time::Duration;

#[test]
fn extractor_computes_basic_features() {
    let mut extractor = FeatureExtractor::new(8);

    extractor.record_ack(Duration::from_micros(100).as_micros());
    extractor.record_ack(Duration::from_micros(300).as_micros());
    extractor.record_loss();

    let features = extractor.rtt_stats();
    let (losses, outcomes) = extractor.outcome_counts();

    assert_eq!(features.samples, 2);
    assert_eq!(features.latest_rtt_us, 300);
    assert_eq!(features.min_rtt_us, 100);
    assert_eq!(features.max_rtt_us, 300);

    assert!(losses as f64 / outcomes as f64 > 0.0);
    assert!(features.jitter_us > 0);
}

#[test]
fn window_keeps_the_latest_samples() {
    let mut e = FeatureExtractor::new(3);
    for rtt in [500u128, 100, 400, 200, 900] {
        e.record_ack(rtt);
    }
    let s = e.rtt_stats();
    assert_eq!(s.samples, 3);
    assert_eq!(s.min_rtt_us, 200);
    assert_eq!(s.max_rtt_us, 900);
    assert_eq!(s.avg_rtt_us, 500);
    assert_eq!(s.latest_rtt_us, 900);
    // (900 - 400) / 2
    assert_eq!(s.rtt_trend_us, 250);
    // (200 + 700) / 2
    assert_eq!(s.jitter_us, 450);
    e.record_loss();
    e.record_loss();
    assert_eq!(e.outcome_counts(), (2, 3));
}

#[test]
fn falling_trend_rounds_toward_zero_and_huge_rtt_saturates() {
    let mut e = FeatureExtractor::new(0);
    e.record_ack(1000);
    e.record_ack(990);
    e.record_ack(995);
    let s = e.rtt_stats();
    // (995 - 1000) / 2 = -2.5, rounded toward zero
    assert_eq!(s.rtt_trend_us, -2);
    let empty = FeatureExtractor::new(4).rtt_stats();
    assert_eq!(empty.samples, 0);
    assert_eq!(empty.min_rtt_us, 0);
    let mut big = FeatureExtractor::new(2);
    big.record_ack(u128::MAX);
    assert_eq!(big.rtt_stats().latest_rtt_us, u64::MAX);
}
