use amp_recovery::recovery::REINIT_THRESHOLD;
use amp_recovery::InitRecoveryTracker;

#[test]
fn test_reinit_tracker_threshold() {
    let mut tracker = InitRecoveryTracker::new();
    assert_eq!(tracker.reinit_count(), 0);

    assert!(!tracker.record_failure());
    assert_eq!(tracker.reinit_count(), 0);

    assert!(!tracker.record_failure());
    assert_eq!(tracker.reinit_count(), 0);

    assert!(tracker.record_failure());
    assert_eq!(tracker.reinit_count(), 1);
}

#[test]
fn test_reinit_tracker_success_resets_counter() {
    let mut tracker = InitRecoveryTracker::new();
    tracker.record_failure();
    tracker.record_failure();
    tracker.record_success();
    assert!(!tracker.record_failure());
    assert!(!tracker.record_failure());
    assert_eq!(tracker.reinit_count(), 0);
}

#[test]
fn test_reinit_tracker_multiple_cycles() {
    let mut tracker = InitRecoveryTracker::new();
    for _ in 0..7 {
        tracker.record_failure();
    }
    assert_eq!(tracker.reinit_count(), 2);
}

#[test]
fn test_reinit_threshold_constant() {
    assert_eq!(REINIT_THRESHOLD, 3);
}

#[test]
fn test_default_is_new() {
    assert_eq!(InitRecoveryTracker::default(), InitRecoveryTracker::new());
    assert_eq!(InitRecoveryTracker::default().reinit_count(), 0);
}

#[test]
fn test_fires_on_every_third_failure() {
    let mut tracker = InitRecoveryTracker::new();
    for k in 1..=30u32 {
        assert_eq!(tracker.record_failure(), k % 3 == 0);
        assert_eq!(tracker.reinit_count(), k / 3);
    }
}

#[test]
fn test_success_restarts_count_but_keeps_reinit_count() {
    let mut tracker = InitRecoveryTracker::new();
    for _ in 0..4 {
        tracker.record_failure();
    }
    assert_eq!(tracker.reinit_count(), 1);
    tracker.record_success();
    assert_eq!(tracker.reinit_count(), 1);
    assert!(!tracker.record_failure());
    assert!(!tracker.record_failure());
    assert!(tracker.record_failure());
    assert_eq!(tracker.reinit_count(), 2);
}

#[test]
fn test_success_is_idempotent() {
    let mut once = InitRecoveryTracker::new();
    once.record_failure();
    once.record_success();
    let mut twice = once;
    twice.record_success();
    assert_eq!(once, twice);
}

#[test]
fn test_success_on_fresh_tracker_changes_nothing() {
    let mut tracker = InitRecoveryTracker::new();
    tracker.record_success();
    assert_eq!(tracker, InitRecoveryTracker::new());
}

#[test]
fn test_reinit_resets_run_of_failures() {
    let mut tracker = InitRecoveryTracker::new();
    tracker.record_failure();
    tracker.record_failure();
    assert!(tracker.record_failure());
    // The run starts over: after the re-initialisation the state is that of a
    // fresh tracker apart from the count.
    let mut fresh = InitRecoveryTracker::new();
    assert!(!fresh.record_failure());
    assert!(!tracker.record_failure());
    assert_eq!(tracker.reinit_count(), 1);
}
