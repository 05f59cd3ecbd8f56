use wcore::channels::rate_limit::AutoReplyRateLimiter;

/// A fixed base time (milliseconds) plus a helper that advances it by whole
/// seconds — no sleeping, no wall clock.
fn base() -> u64 {
    1_000_000
}

fn after(t: u64, secs: u64) -> u64 {
    t + secs * 1000
}

#[test]
fn under_limit_passes() {
    let mut rl = AutoReplyRateLimiter::new(3, 600_000, 1024);
    let t = base();
    assert!(rl.check_and_record("conv", t));
    assert!(rl.check_and_record("conv", after(t, 1)));
    assert!(rl.check_and_record("conv", after(t, 2)));
}

#[test]
fn over_limit_is_suppressed() {
    let mut rl = AutoReplyRateLimiter::new(3, 600_000, 1024);
    let t = base();
    assert!(rl.check_and_record("conv", t));
    assert!(rl.check_and_record("conv", after(t, 1)));
    assert!(rl.check_and_record("conv", after(t, 2)));
    assert!(!rl.check_and_record("conv", after(t, 3)));
    assert!(!rl.check_and_record("conv", after(t, 599)));
}

#[test]
fn window_rollover_reallows() {
    let mut rl = AutoReplyRateLimiter::new(2, 600_000, 1024);
    let t = base();
    assert!(rl.check_and_record("conv", t));
    assert!(rl.check_and_record("conv", after(t, 1)));
    assert!(!rl.check_and_record("conv", after(t, 2)));
    assert!(rl.check_and_record("conv", after(t, 600)));
    assert!(!rl.check_and_record("conv", after(t, 600)));
    assert!(rl.check_and_record("conv", after(t, 601)));
}

#[test]
fn distinct_conversations_are_independent() {
    let mut rl = AutoReplyRateLimiter::new(1, 600_000, 1024);
    let t = base();
    assert!(rl.check_and_record("a", t));
    assert!(rl.check_and_record("b", t));
    assert!(!rl.check_and_record("a", after(t, 1)));
    assert!(!rl.check_and_record("b", after(t, 1)));
    assert!(rl.check_and_record("c", after(t, 1)));
}

#[test]
fn zero_window_disables_limiting() {
    let mut rl = AutoReplyRateLimiter::new(1, 0, 1024);
    let t = base();
    for i in 0..100 {
        assert!(rl.check_and_record("conv", after(t, i)));
    }
    assert_eq!(rl.tracked_conversations(), 0);
}

#[test]
fn conversation_map_is_bounded_by_cap() {
    let mut rl = AutoReplyRateLimiter::new(3, 600_000, 2);
    let t = base();
    for i in 0..50 {
        let conv = format!("conv-{i}");
        assert!(rl.check_and_record(&conv, after(t, i)));
        assert!(
            rl.tracked_conversations() <= 2,
            "tracked conversations must stay within the cap"
        );
    }
}

#[test]
fn eviction_keeps_the_just_recorded_conversation() {
    let mut rl = AutoReplyRateLimiter::new(1, 600_000, 1);
    let t = base();
    assert!(rl.check_and_record("first", t));
    assert!(rl.check_and_record("second", after(t, 1)));
    assert_eq!(rl.tracked_conversations(), 1);
    assert!(rl.check_and_record("first", after(t, 2)));
    assert_eq!(rl.tracked_conversations(), 1);
}

#[test]
fn default_limiter_allows_thirty_per_window() {
    let mut rl = AutoReplyRateLimiter::default();
    let t = base();
    for i in 0..30 {
        assert!(rl.check_and_record("conv", after(t, i)));
    }
    assert!(!rl.check_and_record("conv", after(t, 31)));
    // Ten minutes after the first send, one slot frees up.
    assert!(rl.check_and_record("conv", after(t, 600)));
}
