use joypool::joystick::{
    normalize_axis, AbsAxisInfo, InputEvent, Joystick, AXIS_SCALE, HAT_X_CODE, HAT_Y_CODE,
};

#[test]
fn normalize_maps_range_endpoints_and_midpoint() {
    assert_eq!(normalize_axis(0, 0, 255), -AXIS_SCALE);
    assert_eq!(normalize_axis(255, 0, 255), AXIS_SCALE);
    // (128 * 2_000_000) / 255 - 1_000_000, rounded down.
    assert_eq!(normalize_axis(128, 0, 255), 3_921);
    // The raw range is asymmetric, so a resting reading of 0 maps slightly
    // above the center: (32768 * 2_000_000) / 65535 - 1_000_000.
    assert_eq!(normalize_axis(0, -32768, 32767), 15);
    assert_eq!(normalize_axis(-32768, -32768, 32767), -AXIS_SCALE);
    assert_eq!(normalize_axis(32767, -32768, 32767), AXIS_SCALE);
}

#[test]
fn normalize_clamps_out_of_range_readings() {
    assert_eq!(normalize_axis(300, 0, 255), AXIS_SCALE);
    assert_eq!(normalize_axis(-5, 0, 255), -AXIS_SCALE);
}

fn sample_reader() -> Joystick {
    Joystick::new(
        vec![
            AbsAxisInfo { code: 0, min: 0, max: 255 },
            AbsAxisInfo { code: HAT_X_CODE, min: -1, max: 1 },
            AbsAxisInfo { code: HAT_Y_CODE, min: -1, max: 1 },
            // A degenerate range cannot be normalized; the axis stays
            // unclassified.
            AbsAxisInfo { code: 3, min: 7, max: 7 },
        ],
        vec![304, 305],
    )
}

#[test]
fn classification_splits_axes_buttons_and_hats() {
    let reader = sample_reader();
    assert_eq!(reader.axes, vec![0]);
    assert_eq!(reader.buttons, vec![304, 305]);
    assert_eq!(reader.hats, vec![HAT_X_CODE, HAT_Y_CODE]);
}

#[test]
fn get_state_decodes_key_events() {
    let reader = sample_reader();
    let state = reader.get_state(&vec![
        InputEvent::Key { code: 304, value: 1 },
        InputEvent::Key { code: 305, value: 2 },
        InputEvent::Key { code: 999, value: 1 },
    ]);
    assert_eq!(state.buttons.get(304), Some(1));
    // Only a raw value of exactly 1 counts as pressed.
    assert_eq!(state.buttons.get(305), Some(0));
    // Unreported keys are dropped.
    assert_eq!(state.buttons.get(999), None);
}

#[test]
fn get_state_normalizes_axis_events() {
    let reader = sample_reader();
    let state = reader.get_state(&vec![
        InputEvent::Axis { code: 0, value: 255 },
        InputEvent::Axis { code: 2, value: 100 },
        InputEvent::Axis { code: 3, value: 7 },
        InputEvent::Other,
    ]);
    assert_eq!(state.axes.get(0), Some(AXIS_SCALE));
    // Codes the device did not report, and axes with a degenerate range,
    // are dropped.
    assert_eq!(state.axes.get(2), None);
    assert_eq!(state.axes.get(3), None);
    assert_eq!(state.buttons.len(), 0);
    assert_eq!(state.hats.len(), 0);
}

#[test]
fn get_state_collapses_hat_events_to_signs() {
    let reader = sample_reader();
    let state = reader.get_state(&vec![
        InputEvent::Axis { code: HAT_X_CODE, value: -3 },
        InputEvent::Axis { code: HAT_Y_CODE, value: 0 },
    ]);
    assert_eq!(state.hats.get(HAT_X_CODE), Some(-1));
    assert_eq!(state.hats.get(HAT_Y_CODE), Some(0));

    let state = reader.get_state(&vec![InputEvent::Axis { code: HAT_Y_CODE, value: 2 }]);
    assert_eq!(state.hats.get(HAT_Y_CODE), Some(1));
}

#[test]
fn get_state_keeps_last_event_per_code() {
    let reader = sample_reader();
    let state = reader.get_state(&vec![
        InputEvent::Key { code: 304, value: 1 },
        InputEvent::Key { code: 304, value: 0 },
        InputEvent::Axis { code: 0, value: 0 },
        InputEvent::Axis { code: 0, value: 255 },
    ]);
    assert_eq!(state.buttons.get(304), Some(0));
    assert_eq!(state.axes.get(0), Some(AXIS_SCALE));
}

#[test]
fn get_state_of_no_events_is_empty() {
    let reader = sample_reader();
    let state = reader.get_state(&Vec::new());
    assert_eq!(state.axes.len(), 0);
    assert_eq!(state.buttons.len(), 0);
    assert_eq!(state.hats.len(), 0);
}
