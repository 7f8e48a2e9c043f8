use std::time::{SystemTime, UNIX_EPOCH};
use tokio_udp_demo::clock::{
    ms_to_ns, secs_to_ns, unix_now_ns_u64, unix_timestamp, MonotonicClock,
};

#[test]
fn timestamps_are_clamped() {
    assert_eq!(unix_timestamp(None), 0);
    assert_eq!(unix_timestamp(Some(0)), 0);
    assert_eq!(unix_timestamp(Some(123)), 123);
    assert_eq!(unix_timestamp(Some(u64::MAX as u128)), u64::MAX);
    assert_eq!(unix_timestamp(Some(u64::MAX as u128 + 1)), u64::MAX);
    assert_eq!(unix_timestamp(Some(u128::MAX)), u64::MAX);
}

#[test]
fn wall_clock_agrees_with_std() {
    let before = SystemTime::now().duration_since(UNIX_EPOCH).unwrap().as_nanos() as u64;
    let now = unix_now_ns_u64();
    let after = SystemTime::now().duration_since(UNIX_EPOCH).unwrap().as_nanos() as u64;
    assert!(before <= now && now <= after);
}

#[test]
fn stopwatch_runs_forward() {
    let clock = MonotonicClock::start();
    let first = clock.now_ns();
    let mut later = clock.now_ns();
    while later <= first + 1_000 {
        later = clock.now_ns();
    }
    assert!(later > first);
}

#[test]
fn durations_in_nanoseconds() {
    assert_eq!(ms_to_ns(2000), 2_000_000_000);
    assert_eq!(ms_to_ns(u64::MAX), 18_446_744_073_709_551_615_000_000);
    assert_eq!(secs_to_ns(10), 10_000_000_000);
    assert_eq!(secs_to_ns(0), 0);
}
