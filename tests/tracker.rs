use pubsub_lease::{AdvanceOutcome, DeadlinesTracker, LeaseExtensionSetting};

fn tracker(max_extension: i64, exactly_once: bool) -> DeadlinesTracker {
    let s = LeaseExtensionSetting { max_extension, max_extension_period: None, min_extension_period: None };
    DeadlinesTracker::new(s, exactly_once)
}

fn id(s: &str) -> String {
    s.to_string()
}

#[test]
fn register_sets_ceiling_and_first_due() {
    let mut t = tracker(30_000, false);
    let st = t.register(id("m1"), 0, 5_000);
    assert_eq!(st.start, 0);
    assert_eq!(st.ceiling, 30_000);
    assert_eq!(st.next_due, 10_000);
    assert_eq!(t.get(&id("m1")), Some(st));
    assert_eq!(t.get(&id("m2")), None);
}

#[test]
fn duplicate_registration_replaces_the_lease() {
    let mut t = tracker(30_000, false);
    t.register(id("m1"), 0, 5_000);
    let second = t.register(id("m1"), 4_000, 5_000);
    assert_eq!(t.get(&id("m1")), Some(second));
    assert_eq!(second.ceiling, 34_000);
    assert_eq!(t.due_before(100_000, 0), vec![id("m1")]);
}

#[test]
fn done_is_idempotent() {
    let mut t = tracker(30_000, false);
    let st = t.register(id("m1"), 0, 5_000);
    assert_eq!(t.done(&id("m1")), Some(st));
    assert_eq!(t.done(&id("m1")), None);
    assert_eq!(t.done(&id("never")), None);
}

#[test]
fn due_before_selects_due_and_live_leases() {
    let mut t = tracker(30_000, false);
    t.register(id("a"), 0, 5_000); // due 10s, ceiling 30s
    t.register(id("b"), 5_000, 5_000); // due 15s, ceiling 35s
    assert!(t.due_before(9_999, 9_999).is_empty());
    assert_eq!(t.due_before(10_000, 10_000), vec![id("a")]);
    let mut both = t.due_before(15_000, 15_000);
    both.sort();
    assert_eq!(both, vec![id("a"), id("b")]);
    // past a's ceiling only b is left
    assert_eq!(t.due_before(30_000, 30_000), vec![id("b")]);
}

#[test]
fn advance_moves_forward_only() {
    let mut t = tracker(30_000, false);
    t.register(id("m1"), 0, 5_000);
    assert_eq!(t.advance(&id("m1"), 20_000), AdvanceOutcome::Advanced);
    assert_eq!(t.get(&id("m1")).unwrap().next_due, 20_000);
    assert_eq!(t.advance(&id("m1"), 15_000), AdvanceOutcome::Stale);
    assert_eq!(t.advance(&id("m1"), 20_000), AdvanceOutcome::Stale);
    assert_eq!(t.get(&id("m1")).unwrap().next_due, 20_000);
    assert_eq!(t.advance(&id("m1"), 30_000), AdvanceOutcome::Advanced);
    assert_eq!(t.advance(&id("m1"), 30_001), AdvanceOutcome::Dropped);
    assert_eq!(t.get(&id("m1")), None);
    assert_eq!(t.advance(&id("m1"), 40_000), AdvanceOutcome::NotTracked);
}

#[test]
fn next_wake_is_the_earliest_live_due() {
    let mut t = tracker(30_000, false);
    assert_eq!(t.next_wake(0), None);
    t.register(id("a"), 0, 5_000);
    t.register(id("b"), 2_000, 5_000);
    assert_eq!(t.next_wake(0), Some(10_000));
    assert_eq!(t.next_wake(31_000), Some(12_000));
    assert_eq!(t.next_wake(32_000), None);
}

#[test]
fn zero_extension_never_due() {
    for &max in [0i64, -1, -60_000].iter() {
        let mut t = tracker(max, false);
        t.register(id("m1"), 0, 5_000);
        for &now in [0i64, 10_000, 1_000_000].iter() {
            assert!(t.due_before(now, now).is_empty());
            assert!(t.due_before(i64::MAX, now).is_empty());
        }
    }
}

#[test]
fn scenario_c_done_before_any_extension() {
    let mut t = tracker(30_000, false);
    t.register(id("m1"), 0, 5_000);
    t.done(&id("m1"));
    assert!(t.due_before(10_000, 10_000).is_empty());
    assert!(t.due_before(29_000, 29_000).is_empty());
}

#[test]
fn scenario_d_ack_during_batch_is_tolerated() {
    let mut t = tracker(60_000, false);
    t.register(id("a"), 0, 5_000);
    t.register(id("b"), 0, 5_000);
    let first = t.due_before(10_000, 10_000);
    let second = t.due_before(10_000, 10_000);
    assert_eq!(first.len(), 2);
    t.done(&id("a"));
    for i in first.iter().chain(second.iter()) {
        let _ = t.advance(i, 20_000);
    }
    assert_eq!(t.get(&id("a")), None);
    assert_eq!(t.get(&id("b")).unwrap().next_due, 20_000);
    assert_eq!(t.advance(&id("a"), 20_000), AdvanceOutcome::NotTracked);
}

#[test]
fn extension_duration_follows_mode() {
    assert_eq!(tracker(30_000, false).extension_duration(5_000), 10_000);
    assert_eq!(tracker(30_000, true).extension_duration(5_000), 60_000);
}
