use potatodb::checkpoint_policy::should_checkpoint_autocommit;
use std::time::Duration;

#[test]
fn force_checkpoint_always_wins() {
    assert!(should_checkpoint_autocommit(
        true,
        0,
        0,
        Duration::from_secs(0),
        Duration::from_secs(0)
    ));
}

#[test]
fn commit_threshold_triggers_checkpoint() {
    assert!(should_checkpoint_autocommit(
        false,
        5,
        5,
        Duration::from_millis(1),
        Duration::from_secs(60)
    ));
    assert!(!should_checkpoint_autocommit(
        false,
        4,
        5,
        Duration::from_millis(1),
        Duration::from_secs(60)
    ));
}

#[test]
fn interval_threshold_triggers_checkpoint() {
    assert!(should_checkpoint_autocommit(
        false,
        1,
        100,
        Duration::from_secs(10),
        Duration::from_secs(5)
    ));
    assert!(!should_checkpoint_autocommit(
        false,
        1,
        100,
        Duration::from_secs(4),
        Duration::from_secs(5)
    ));
}

#[test]
fn unset_limits_never_trigger_checkpoint() {
    assert!(!should_checkpoint_autocommit(
        false,
        u64::MAX,
        0,
        Duration::from_secs(3600),
        Duration::from_secs(0)
    ));
}
