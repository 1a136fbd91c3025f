use rdn::screensaver::{IdleTick, IdleWatch, IDLE_THRESHOLD};

#[test]
fn starts_after_threshold_ticks() {
    let mut w = IdleWatch::new();
    w.idle_threshold = 3;
    assert_eq!(w.tick(), IdleTick::Waiting);
    assert_eq!(w.tick(), IdleTick::Waiting);
    assert!(!w.active);
    assert_eq!(w.tick(), IdleTick::Activate);
    assert!(w.active);
    assert_eq!(w.tick(), IdleTick::Animate);
    assert_eq!(w.idle_ticks, 3);
}

#[test]
fn reset_stops_and_counts_again() {
    let mut w = IdleWatch::new();
    assert_eq!(w.idle_threshold, IDLE_THRESHOLD);
    for _ in 0..IDLE_THRESHOLD - 1 {
        assert_eq!(w.tick(), IdleTick::Waiting);
    }
    assert_eq!(w.tick(), IdleTick::Activate);
    w.reset_idle();
    assert!(!w.active);
    assert_eq!(w.idle_ticks, 0);
    assert_eq!(w.tick(), IdleTick::Waiting);
}
