use adaptive_transport::congestion::{
    CongestionController, RiskLevel, RiskWindow, SimpleAimd,
};

#[test]
fn aimd_starts_with_four_segments() {
    let c = SimpleAimd::new(1000);
    assert_eq!(c.name(), "simple-aimd");
    assert_eq!(c.cwnd_bytes(), 4000);
    assert_eq!(c.status(), "cwnd_bytes=4000 in_flight_bytes=0 mss=1000");
    let d = SimpleAimd::new(0);
    assert_eq!(d.status(), "cwnd_bytes=4800 in_flight_bytes=0 mss=1200");
}

#[test]
fn aimd_window_rules() {
    let mut c = SimpleAimd::new(1000);
    assert!(c.can_send(50_000));
    c.on_packet_sent(1000);
    assert!(c.can_send(3000));
    assert!(!c.can_send(3001));
    // One packet more per ACK, whatever the size acknowledged.
    c.on_ack(1000, 100);
    assert_eq!(c.cwnd_bytes(), 5000);
    c.on_packet_sent(10);
    c.on_ack(10, 100);
    assert_eq!(c.cwnd_bytes(), 6000);
    c.on_packet_sent(1);
    c.on_ack(1, 100);
    assert_eq!(c.cwnd_bytes(), 7000);
    c.on_loss(0);
    assert_eq!(c.cwnd_bytes(), 3500);
    c.on_loss(0);
    c.on_loss(0);
    assert_eq!(c.cwnd_bytes(), 1000);
    assert_eq!(c.status(), "cwnd_bytes=1000 in_flight_bytes=0 mss=1000");
}

#[test]
fn aimd_grows_one_packet_per_ack() {
    let mut c = SimpleAimd::new(1200);
    c.on_packet_sent(1200);
    c.on_ack(1200, 10_000);
    assert_eq!(c.status(), "cwnd_bytes=6000 in_flight_bytes=0 mss=1200");
}

#[test]
fn aimd_window_stops_at_sixty_four_segments() {
    let mut c = SimpleAimd::new(10);
    for _ in 0..1000 {
        c.on_packet_sent(10);
        c.on_ack(10, 1);
    }
    assert_eq!(c.cwnd_bytes(), 640);
}

#[test]
fn risk_window_follows_the_risk_level() {
    let mut w = RiskWindow::new(1000);
    assert_eq!(w.cwnd_bytes(), 4000);
    w.on_packet_sent(1000);
    assert!(!w.can_send(3001));
    // Low risk grows the window by mss * size / cwnd: 1000 * 1000 / 4000 = 250.
    w.on_ack(1000, RiskLevel::Low);
    assert_eq!(w.cwnd_bytes(), 4250);
    assert_eq!(w.in_flight_bytes(), 0);
    // High risk always reduces the window to three quarters.
    w.on_ack(0, RiskLevel::High);
    assert_eq!(w.cwnd_bytes(), 3187);
    assert_eq!(w.proactive_reductions(), 1);
    w.on_ack(0, RiskLevel::High);
    assert_eq!(w.cwnd_bytes(), 2390);
    assert_eq!(w.proactive_reductions(), 2);
    // Moderate risk adds one byte on every eighth ACK (this is the fourth).
    w.on_ack(0, RiskLevel::Moderate);
    assert_eq!(w.cwnd_bytes(), 2390);
    for _ in 0..4 {
        w.on_ack(0, RiskLevel::Moderate);
    }
    assert_eq!(w.cwnd_bytes(), 2391);
    w.on_loss(0);
    assert_eq!(w.cwnd_bytes(), 1195);
    w.on_loss(0);
    assert_eq!(w.cwnd_bytes(), 1000);
    // The window never falls below one segment.
    let mut small = RiskWindow::new(1000);
    for _ in 0..10 {
        small.on_ack(0, RiskLevel::High);
    }
    assert_eq!(small.cwnd_bytes(), 1000);
}
