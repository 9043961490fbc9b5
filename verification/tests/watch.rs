use openlogi::device::DeviceInventory;
use openlogi::watch::{
    Drained, InventoryEvent, WaitEnd, WatchState, Watcher, INITIAL_FAILURE_LIMIT, WAKE_GAP,
};

fn enumerate_failed() -> async_hid::HidError {
    async_hid::HidError::Disconnected
}

fn failed() -> Result<Vec<DeviceInventory>, async_hid::HidError> {
    Err(enumerate_failed())
}

fn nothing() -> Result<Vec<DeviceInventory>, async_hid::HidError> {
    Ok(vec![])
}

#[test]
fn completed_enumeration_is_forwarded_even_when_empty() {
    let mut state = WatchState::new();
    assert!(matches!(
        state.classify(nothing()),
        Some(InventoryEvent::Snapshot(snap)) if snap.is_empty()
    ));
    assert!(state.succeeded);
}

#[test]
fn failure_after_a_success_keeps_the_last_snapshot() {
    let mut state = WatchState::new();
    assert!(matches!(state.classify(nothing()), Some(InventoryEvent::Snapshot(_))));
    assert!(state.classify(failed()).is_none());
    assert!(state.classify(failed()).is_none());
}

#[test]
fn persistent_initial_failure_reports_unavailable_once_then_recovers() {
    let mut state = WatchState::new();
    for _ in 0..INITIAL_FAILURE_LIMIT - 1 {
        assert!(state.classify(failed()).is_none());
    }
    assert!(matches!(state.classify(failed()), Some(InventoryEvent::Unavailable)));
    assert!(state.classify(failed()).is_none());
    assert!(matches!(state.classify(nothing()), Some(InventoryEvent::Snapshot(_))));
}

#[test]
fn unavailable_is_not_reported_again_after_many_failures() {
    let mut state = WatchState::new();
    let reports = (0..600).filter(|_| state.classify(failed()).is_some()).count();
    assert_eq!(reports, 1);
    assert_eq!(state.initial_failures, u8::MAX);
}

#[test]
fn only_a_gap_past_period_and_slack_is_a_wake() {
    let period = 2_000_000_000;
    let mut watcher = Watcher::new(period, 100, true);
    assert!(!watcher.begin_tick(100 + period + WAKE_GAP));
    let last = 100 + period + WAKE_GAP;
    assert!(watcher.begin_tick(last + period + WAKE_GAP + 1));
    assert!(!watcher.begin_tick(5), "a clock set back tells nothing");
    assert_eq!(watcher.last_tick, 5);
}

#[test]
fn a_closed_hotplug_stream_leaves_polling() {
    let mut watcher = Watcher::new(1, 0, true);
    assert!(!watcher.after_wait(WaitEnd::Period));
    assert!(watcher.after_wait(WaitEnd::Hotplug));
    assert!(watcher.after_drain(Drained::Event));
    assert!(!watcher.after_drain(Drained::Nothing));
    assert!(watcher.hotplug);
    assert!(!watcher.after_drain(Drained::Closed));
    assert!(!watcher.hotplug);
    let mut other = Watcher::new(1, 0, true);
    assert!(!other.after_wait(WaitEnd::StreamClosed));
    assert!(!other.hotplug);
}
