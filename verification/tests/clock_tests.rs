use adaptive_transport::client::{connection_id_from_time, generate_connection_id};
use adaptive_transport::emulator::{now_seed, seed_from_clock, CLOCK_FALLBACK_SEED};
use adaptive_transport::experiment::timestamp_from_clock;
use adaptive_transport::packet::{micros_from_clock, now_us};

#[test]
fn clock_readings_become_time_stamps() {
    assert_eq!(micros_from_clock(Some(1_700_000_000_000_000)), 1_700_000_000_000_000);
    assert_eq!(micros_from_clock(Some((1u128 << 64) + 5)), 5);
    assert_eq!(micros_from_clock(None), 0);
    assert_eq!(timestamp_from_clock(Some(42)), 42);
    assert_eq!(timestamp_from_clock(Some((1u128 << 64) + 5)), u64::MAX);
    assert_eq!(timestamp_from_clock(None), 0);
}

#[test]
fn clock_readings_become_seeds_and_ids() {
    assert_eq!(seed_from_clock(Some((3u128 << 64) + 9)), 9);
    assert_eq!(seed_from_clock(None), CLOCK_FALLBACK_SEED);
    assert_eq!(connection_id_from_time(0x1_0000_0005), 5);
    assert_eq!(connection_id_from_time(0xFFFF_FFFF), 0xFFFF_FFFF);
}

#[test]
fn the_clock_is_past_the_epoch() {
    assert!(now_us() > 1_600_000_000_000_000);
    assert_ne!(now_seed(), 0);
    let _ = generate_connection_id();
}
