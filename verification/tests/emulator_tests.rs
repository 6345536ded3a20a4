use adaptive_transport::emulator::{
    path_scenario_impairment, scenario_impairment, Impairment, LossSetting, NetworkEmulator,
    SendOutcome, XorShift64,
};
use adaptive_transport::multipath::{path_role, PathRole};
use adaptive_transport::packet::Reliability;

#[test]
fn xorshift_sequence() {
    let mut r = XorShift64::new(1);
    assert_eq!(r.next_u64(), 1082269761);
    assert_eq!(XorShift64::new(0).state, 0x243F_6A88_85A3_08D3);
}

#[test]
fn quiet_emulator_sends_at_once() {
    let mut e = NetworkEmulator::with_seed(7);
    assert!(!e.is_active());
    let plan = e.plan_send();
    assert_eq!(plan.delay_ms, 0);
    assert_eq!(plan.outcome, SendOutcome::Sent);
    assert_eq!(e.max_delay_ms(), 0);
}

#[test]
fn settings_are_capped_and_cleared() {
    let mut e = NetworkEmulator::with_seed(7);
    e.set_delay(20_000);
    e.set_jitter(5);
    assert_eq!(e.delay_ms(), 10_000);
    assert_eq!(e.max_delay_ms(), 10_005);
    e.set_loss_setting(LossSetting::Below(50_000));
    assert_eq!(e.loss_setting(), LossSetting::Below(10_000));
    assert!(e.is_active());
    e.clear();
    assert!(!e.is_active());
}

#[test]
fn loss_settings_decide_drops() {
    let mut e = NetworkEmulator::with_seed(99);
    e.set_loss_setting(LossSetting::Always);
    assert_eq!(e.plan_send().outcome, SendOutcome::Dropped);
    e.set_loss_setting(LossSetting::Never);
    e.set_delay(30);
    e.set_jitter(10);
    for _ in 0..50 {
        let plan = e.plan_send();
        assert_eq!(plan.outcome, SendOutcome::Sent);
        assert!(plan.delay_ms >= 30 && plan.delay_ms <= 40);
    }
}

#[test]
fn scenarios_set_their_impairments() {
    assert_eq!(
        scenario_impairment("lossy"),
        Some(Impairment { loss_percent: 20, delay_ms: 20, jitter_ms: 10 })
    );
    assert_eq!(
        scenario_impairment("good"),
        Some(Impairment { loss_percent: 0, delay_ms: 0, jitter_ms: 0 })
    );
    assert_eq!(
        scenario_impairment("bad"),
        Some(Impairment { loss_percent: 35, delay_ms: 150, jitter_ms: 100 })
    );
    assert_eq!(scenario_impairment("mixed"), None);
    assert_eq!(scenario_impairment("GOOD"), None);
}

#[test]
fn multipath_scenarios_set_each_path() {
    assert_eq!(
        path_scenario_impairment("lossy", 0),
        Some(Impairment { loss_percent: 10, delay_ms: 10, jitter_ms: 5 })
    );
    assert_eq!(
        path_scenario_impairment("lossy", 1),
        Some(Impairment { loss_percent: 30, delay_ms: 80, jitter_ms: 50 })
    );
    assert_eq!(path_scenario_impairment("lossy", 2), None);
    assert_eq!(
        path_scenario_impairment("mixed", 0),
        Some(Impairment { loss_percent: 0, delay_ms: 0, jitter_ms: 0 })
    );
    assert_eq!(
        path_scenario_impairment("mixed", 1),
        Some(Impairment { loss_percent: 30, delay_ms: 120, jitter_ms: 80 })
    );
    assert_eq!(
        path_scenario_impairment("bad", 5),
        Some(Impairment { loss_percent: 35, delay_ms: 150, jitter_ms: 100 })
    );
    assert_eq!(path_scenario_impairment("stormy", 0), None);
}

#[test]
fn path_role_follows_class_and_priority() {
    assert_eq!(path_role(Reliability::Guaranteed, 0), PathRole::Best);
    assert_eq!(path_role(Reliability::BestEffort, 9), PathRole::Secondary);
    assert_eq!(path_role(Reliability::Important, 5), PathRole::Best);
    assert_eq!(path_role(Reliability::Important, 4), PathRole::Secondary);
}
