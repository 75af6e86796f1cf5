use conduit_core::clock::{Clock, Instant, SystemClock};

#[test]
fn system_clock_returns_instant() {
    let clock = SystemClock;
    let t0 = clock.now();
    let t1 = clock.now();
    assert!(t1 >= t0);
}

#[test]
fn instant_arithmetic_saturates() {
    let t = Instant::from_secs(10);
    assert_eq!(t.nanos, 10_000_000_000);
    assert_eq!(t.plus_secs(5), Instant::from_secs(15));
    assert_eq!(t.minus_secs(20), Instant::from_nanos(0));
    assert_eq!(t.checked_minus_secs(20), None);
    assert_eq!(t.checked_minus_secs(4), Some(Instant::from_secs(6)));
    assert_eq!(Instant::from_nanos(u64::MAX).plus_secs(1).nanos, u64::MAX);
    assert_eq!(Instant::from_secs(15).saturating_secs_since(t), 5);
    assert_eq!(t.saturating_secs_since(Instant::from_secs(15)), 0);
}
