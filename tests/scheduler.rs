use pubsub_lease::{
    DeadlinesTracker, LeaseExtensionSetting, Scheduler, SchedulerAction, SchedulerEvent,
    SchedulerState,
};

fn tracker(max_extension: i64, exactly_once: bool) -> DeadlinesTracker {
    let s = LeaseExtensionSetting { max_extension, max_extension_period: None, min_extension_period: None };
    DeadlinesTracker::new(s, exactly_once)
}

fn wake(now: i64) -> SchedulerEvent {
    SchedulerEvent::Wake { now, estimate: 5_000 }
}

fn ok(now: i64) -> SchedulerEvent {
    SchedulerEvent::ExtendSucceeded { now, rejected: vec![] }
}

#[test]
fn empty_tracker_waits_for_registration() {
    let mut t = tracker(30_000, false);
    let mut s = Scheduler::new();
    assert_eq!(s.current_state(), SchedulerState::Idle);
    assert_eq!(s.step(&mut t, wake(0)), SchedulerAction::WaitForRegistration);
    assert_eq!(s.current_state(), SchedulerState::Idle);
}

#[test]
fn scenario_a_two_extensions_then_lapse() {
    let mut t = tracker(30_000, false);
    let mut s = Scheduler::new();
    t.register("m1".to_string(), 0, 5_000);
    assert_eq!(s.step(&mut t, wake(0)), SchedulerAction::SleepUntil(10_000));
    assert_eq!(s.current_state(), SchedulerState::Waiting { wake: 10_000 });

    let a = s.step(&mut t, wake(10_000));
    assert_eq!(a, SchedulerAction::Extend { ids: vec!["m1".to_string()], duration: 10_000 });
    assert_eq!(s.step(&mut t, ok(10_000)), SchedulerAction::SleepUntil(20_000));
    assert_eq!(t.get(&"m1".to_string()).unwrap().next_due, 20_000);

    let a = s.step(&mut t, wake(20_000));
    assert_eq!(a, SchedulerAction::Extend { ids: vec!["m1".to_string()], duration: 10_000 });
    assert_eq!(s.step(&mut t, ok(20_000)), SchedulerAction::SleepUntil(30_000));
    assert_eq!(t.get(&"m1".to_string()).unwrap().next_due, 30_000);

    // next_due == ceiling: no third extension
    assert_eq!(s.step(&mut t, wake(30_000)), SchedulerAction::WaitForRegistration);
}

#[test]
fn scenario_b_exactly_once_extends_once() {
    let mut t = tracker(90_000, true);
    let mut s = Scheduler::new();
    let st = t.register("m1".to_string(), 0, 5_000);
    assert_eq!(st.next_due, 60_000);
    assert_eq!(s.step(&mut t, wake(0)), SchedulerAction::SleepUntil(60_000));
    let a = s.step(&mut t, wake(60_000));
    assert_eq!(a, SchedulerAction::Extend { ids: vec!["m1".to_string()], duration: 60_000 });
    // 60s + 60s lies past the 90s ceiling: the lease is dropped
    assert_eq!(s.step(&mut t, ok(60_000)), SchedulerAction::WaitForRegistration);
    assert_eq!(t.get(&"m1".to_string()), None);
}

#[test]
fn zero_extension_issues_no_extension() {
    let mut t = tracker(0, false);
    let mut s = Scheduler::new();
    t.register("m1".to_string(), 0, 5_000);
    for &now in [0i64, 10_000, 100_000].iter() {
        let a = s.step(&mut t, wake(now));
        assert!(!matches!(a, SchedulerAction::Extend { .. }));
    }
}

#[test]
fn scenario_c_done_before_first_cycle() {
    let mut t = tracker(30_000, false);
    let mut s = Scheduler::new();
    t.register("m1".to_string(), 0, 5_000);
    t.done(&"m1".to_string());
    assert_eq!(s.step(&mut t, wake(10_000)), SchedulerAction::WaitForRegistration);
}

#[test]
fn scenario_d_ack_during_batch_discards_success() {
    let mut t = tracker(60_000, false);
    let mut s = Scheduler::new();
    t.register("a".to_string(), 0, 5_000);
    t.register("b".to_string(), 0, 5_000);
    match s.step(&mut t, wake(10_000)) {
        SchedulerAction::Extend { ids, .. } => assert_eq!(ids.len(), 2),
        other => panic!("expected a batch, got {:?}", other),
    }
    t.done(&"a".to_string());
    assert_eq!(s.step(&mut t, ok(10_100)), SchedulerAction::SleepUntil(20_000));
    assert_eq!(t.get(&"a".to_string()), None);
    assert_eq!(t.get(&"b".to_string()).unwrap().next_due, 20_000);
}

#[test]
fn rejected_ids_stop_being_tracked() {
    let mut t = tracker(60_000, false);
    let mut s = Scheduler::new();
    t.register("a".to_string(), 0, 5_000);
    t.register("b".to_string(), 0, 5_000);
    let _ = s.step(&mut t, wake(10_000));
    let ev = SchedulerEvent::ExtendSucceeded { now: 10_000, rejected: vec!["b".to_string()] };
    assert_eq!(s.step(&mut t, ev), SchedulerAction::SleepUntil(20_000));
    assert_eq!(t.get(&"b".to_string()), None);
    assert!(t.get(&"a".to_string()).is_some());
}

#[test]
fn transport_failure_keeps_leases_and_retries() {
    let mut t = tracker(60_000, false);
    let mut s = Scheduler::new();
    let st = t.register("a".to_string(), 0, 5_000);
    let _ = s.step(&mut t, wake(10_000));
    assert_eq!(s.step(&mut t, SchedulerEvent::ExtendFailed { now: 10_500 }), SchedulerAction::SleepUntil(10_500));
    assert_eq!(t.get(&"a".to_string()), Some(st));
    let a = s.step(&mut t, wake(10_500));
    assert!(matches!(a, SchedulerAction::Extend { .. }));
}

#[test]
fn wake_while_batch_in_flight_waits() {
    let mut t = tracker(60_000, false);
    let mut s = Scheduler::new();
    t.register("a".to_string(), 0, 5_000);
    let _ = s.step(&mut t, wake(10_000));
    assert_eq!(s.current_state(), SchedulerState::Extending);
    assert_eq!(s.step(&mut t, wake(10_001)), SchedulerAction::AwaitOutcome);
    assert_eq!(s.current_state(), SchedulerState::Extending);
}

#[test]
fn stray_outcome_is_ignored() {
    let mut t = tracker(60_000, false);
    let mut s = Scheduler::new();
    t.register("a".to_string(), 0, 5_000);
    assert_eq!(s.step(&mut t, ok(1_000)), SchedulerAction::AwaitOutcome);
    assert_eq!(t.get(&"a".to_string()).unwrap().next_due, 10_000);
}

#[test]
fn shutdown_is_terminal() {
    let mut t = tracker(60_000, false);
    let mut s = Scheduler::new();
    t.register("a".to_string(), 0, 5_000);
    let _ = s.step(&mut t, wake(10_000));
    assert_eq!(s.step(&mut t, SchedulerEvent::Shutdown), SchedulerAction::Stop);
    assert_eq!(s.current_state(), SchedulerState::Stopped);
    // the in-flight result is discarded
    assert_eq!(s.step(&mut t, ok(10_100)), SchedulerAction::Stop);
    assert_eq!(t.get(&"a".to_string()).unwrap().next_due, 10_000);
    assert_eq!(s.step(&mut t, wake(20_000)), SchedulerAction::Stop);
    assert_eq!(s.current_state(), SchedulerState::Stopped);
}
