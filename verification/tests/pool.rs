use joypool::description::{DeviceDescription, DeviceItem};
use joypool::device_pool::{DevicePool, FetchStep, PoolError};
use joypool::state::{JoystickInfo, JoystickState};

fn pad1_description() -> DeviceDescription {
    DeviceDescription::new(
        Some("Pad1".to_string()),
        None,
        None,
        None,
        Some(vec![DeviceItem::new(0, None)]),
        Some(vec![DeviceItem::new(304, None)]),
        Some(vec![]),
    )
}

fn pad1_connected() -> Vec<JoystickInfo> {
    vec![JoystickInfo { path: "/dev/input/event7".to_string(), name: "Pad1".to_string() }]
}

fn button_update(code: u16, value: i64) -> JoystickState {
    let mut update = JoystickState::new();
    update.buttons.insert(code, value);
    update
}

#[test]
fn fetch_nowait_before_reset_fails() {
    let mut pool = DevicePool::new(vec![pad1_description()], 100);
    match pool.fetch_nowait() {
        Err(e) => assert_eq!(e, PoolError::NotRunning),
        Ok(_) => panic!("fetch_nowait must fail before reset"),
    }
}

#[test]
fn reset_matches_connected_devices() {
    let mut pool = DevicePool::new(vec![pad1_description()], 100);
    let matched = pool.reset(&pad1_connected());
    assert_eq!(matched, vec!["Pad1".to_string()]);

    let unknown = vec![JoystickInfo {
        path: "/dev/input/event9".to_string(),
        name: "SomethingElse".to_string(),
    }];
    let matched = pool.reset(&unknown);
    assert!(matched.is_empty());
}

#[test]
fn fetch_nowait_after_reset_returns_zeroed_state() {
    let mut pool = DevicePool::new(vec![pad1_description()], 100);
    let matched = pool.reset(&pad1_connected());
    assert_eq!(matched, vec!["Pad1".to_string()]);

    let snapshot = match pool.fetch_nowait() {
        Ok(s) => s,
        Err(_) => panic!("fetch_nowait must succeed after reset"),
    };
    let state = snapshot.get(&"Pad1".to_string()).expect("Pad1 must be registered");
    assert_eq!(state.axes.len(), 1);
    assert_eq!(state.axes.get(0), Some(0));
    assert_eq!(state.buttons.len(), 1);
    assert_eq!(state.buttons.get(304), Some(0));
    assert_eq!(state.hats.len(), 0);
}

#[test]
fn debounce_suppresses_second_update_within_window() {
    // debounce 100 ms; updates to code 304 at t=0, t=50 and t=150.
    let mut pool = DevicePool::new(vec![pad1_description()], 100);
    pool.reset(&pad1_connected());
    let name = "Pad1".to_string();

    // t=0: press accepted.
    pool.apply_update(&name, &button_update(304, 1), 0);
    // t=50: within the window; the release is suppressed.
    pool.apply_update(&name, &button_update(304, 0), 50);

    let snapshot = pool.fetch_nowait().ok().expect("running");
    let state = snapshot.get(&name).expect("Pad1 must be registered");
    assert_eq!(state.buttons.get(304), Some(1));

    // t=150: a full window after t=0 (the suppressed update left no stamp),
    // so this update is applied.
    pool.apply_update(&name, &button_update(304, 1), 150);
    let snapshot = pool.fetch_nowait().ok().expect("running");
    let state = snapshot.get(&name).expect("Pad1 must be registered");
    assert_eq!(state.buttons.get(304), Some(1));

    // t=200: still within the window opened at t=150, so this press is
    // suppressed and the button keeps the neutral value left by the last
    // read.
    pool.apply_update(&name, &button_update(304, 1), 200);
    let snapshot = pool.fetch_nowait().ok().expect("running");
    let state = snapshot.get(&name).expect("Pad1 must be registered");
    assert_eq!(state.buttons.get(304), Some(0));
}

#[test]
fn edge_trigger_clears_buttons_but_keeps_axes() {
    let mut pool = DevicePool::new(vec![pad1_description()], 100);
    pool.reset(&pad1_connected());
    let name = "Pad1".to_string();

    let mut update = JoystickState::new();
    update.axes.insert(0, 500_000);
    update.buttons.insert(304, 1);
    pool.apply_update(&name, &update, 0);

    let first = pool.fetch_nowait().ok().expect("running");
    let state = first.get(&name).expect("Pad1 must be registered");
    assert_eq!(state.axes.get(0), Some(500_000));
    assert_eq!(state.buttons.get(304), Some(1));

    // No hardware events in between: the second read agrees on axes but the
    // consumed press reads back as neutral.
    let second = pool.fetch_nowait().ok().expect("running");
    let state = second.get(&name).expect("Pad1 must be registered");
    assert_eq!(state.axes.get(0), Some(500_000));
    assert_eq!(state.buttons.get(304), Some(0));
}

#[test]
fn fetch_step_pending_then_timeout_without_change() {
    let mut pool = DevicePool::new(vec![pad1_description()], 100);
    pool.reset(&pad1_connected());

    assert!(matches!(pool.fetch_step(false), FetchStep::Pending));
    assert!(matches!(pool.fetch_step(false), FetchStep::Pending));
    assert!(matches!(pool.fetch_step(true), FetchStep::Failed(PoolError::TimedOut)));
}

#[test]
fn fetch_step_ready_on_change() {
    let mut pool = DevicePool::new(vec![pad1_description()], 100);
    pool.reset(&pad1_connected());
    let name = "Pad1".to_string();

    pool.apply_update(&name, &button_update(304, 1), 0);
    match pool.fetch_step(false) {
        FetchStep::Ready(snapshot) => {
            let state = snapshot.get(&name).expect("Pad1 must be registered");
            assert_eq!(state.buttons.get(304), Some(1));
        }
        _ => panic!("a change must yield a snapshot"),
    }

    // The edge-trigger reset is itself a change against the new baseline:
    // the next step reports the neutral state once.
    match pool.fetch_step(false) {
        FetchStep::Ready(snapshot) => {
            let state = snapshot.get(&name).expect("Pad1 must be registered");
            assert_eq!(state.buttons.get(304), Some(0));
        }
        _ => panic!("the cleared press is reported once"),
    }
    assert!(matches!(pool.fetch_step(false), FetchStep::Pending));
}

#[test]
fn fetch_step_returns_snapshot_when_stopped() {
    let mut pool = DevicePool::new(vec![pad1_description()], 100);
    pool.reset(&pad1_connected());
    pool.stop();

    match pool.fetch_nowait() {
        Err(e) => assert_eq!(e, PoolError::NotRunning),
        Ok(_) => panic!("fetch_nowait must fail when stopped"),
    }
    match pool.fetch_step(true) {
        FetchStep::Ready(snapshot) => {
            let state = snapshot.get(&"Pad1".to_string()).expect("Pad1 must be registered");
            assert_eq!(state.buttons.get(304), Some(0));
        }
        _ => panic!("a stopped pool yields the live snapshot"),
    }
}

#[test]
fn reset_clears_state_and_debounce_stamps() {
    let mut pool = DevicePool::new(vec![pad1_description()], 100);
    pool.reset(&pad1_connected());
    let name = "Pad1".to_string();

    pool.apply_update(&name, &button_update(304, 1), 0);
    // A reset re-seeds the registry and forgets the stamp from t=0, so an
    // update at t=10 is accepted even though it is within the old window.
    pool.reset(&pad1_connected());
    pool.apply_update(&name, &button_update(304, 1), 10);

    let snapshot = pool.fetch_nowait().ok().expect("running");
    let state = snapshot.get(&name).expect("Pad1 must be registered");
    assert_eq!(state.buttons.get(304), Some(1));
}

#[test]
fn debounce_window_is_shared_across_devices() {
    // The debounce timestamps are keyed by code alone, not per device: an
    // accepted update to code 304 on Pad1 suppresses an update to the same
    // code on Pad2 within the window.
    let pad2 = DeviceDescription::new(
        Some("Pad2".to_string()),
        None,
        None,
        None,
        None,
        Some(vec![DeviceItem::new(304, None)]),
        None,
    );
    let mut pool = DevicePool::new(vec![pad1_description(), pad2], 100);
    let connected = vec![
        JoystickInfo { path: "/dev/input/event7".to_string(), name: "Pad1".to_string() },
        JoystickInfo { path: "/dev/input/event8".to_string(), name: "Pad2".to_string() },
    ];
    let matched = pool.reset(&connected);
    assert_eq!(matched, vec!["Pad1".to_string(), "Pad2".to_string()]);

    pool.apply_update(&"Pad1".to_string(), &button_update(304, 1), 0);
    pool.apply_update(&"Pad2".to_string(), &button_update(304, 1), 50);

    let snapshot = pool.fetch_nowait().ok().expect("running");
    assert_eq!(snapshot.get(&"Pad1".to_string()).unwrap().buttons.get(304), Some(1));
    assert_eq!(snapshot.get(&"Pad2".to_string()).unwrap().buttons.get(304), Some(0));
}

#[test]
fn update_for_unknown_device_changes_nothing() {
    let mut pool = DevicePool::new(vec![pad1_description()], 100);
    pool.reset(&pad1_connected());

    pool.apply_update(&"Ghost".to_string(), &button_update(304, 1), 0);
    assert!(matches!(pool.fetch_step(false), FetchStep::Pending));
}
