use joypool::description::{DeviceDescription, DeviceItem};
use joypool::state::JoystickState;

#[test]
fn test_device_item_creation() {
    let item = DeviceItem::new(1, Some("test_alias".to_string()));
    assert_eq!(item.code, 1);
    assert_eq!(item.alias, Some("test_alias".to_string()));

    let item_no_alias = DeviceItem::new(2, None);
    assert_eq!(item_no_alias.code, 2);
    assert_eq!(item_no_alias.alias, None);
}

#[test]
fn test_input_data_creation() {
    let input_data = JoystickState::new();
    assert!(input_data.axes.len() == 0);
    assert!(input_data.buttons.len() == 0);
    assert!(input_data.hats.len() == 0);
}

#[test]
fn test_device_description_creation() {
    let desc = DeviceDescription::new(
        Some("Test Device".to_string()),
        Some("Test Author".to_string()),
        Some("2023-01-01".to_string()),
        Some("Test Description".to_string()),
        Some(vec![DeviceItem::new(0, Some("X".to_string()))]),
        Some(vec![DeviceItem::new(1, Some("Button A".to_string()))]),
        Some(vec![DeviceItem::new(2, Some("Hat".to_string()))]),
    );

    assert_eq!(desc.device_name, "Test Device");
    assert_eq!(desc.author, Some("Test Author".to_string()));
    assert_eq!(desc.created, Some("2023-01-01".to_string()));
    assert_eq!(desc.description, Some("Test Description".to_string()));
    assert_eq!(desc.axes.len(), 1);
    assert_eq!(desc.buttons.len(), 1);
    assert_eq!(desc.hats.len(), 1);
}

#[test]
fn test_device_description_defaults() {
    let desc = DeviceDescription::new(None, None, None, None, None, None, None);
    assert_eq!(desc.device_name, "Unknown Device");
    assert_eq!(desc.author, None);
    assert_eq!(desc.created, None);
    assert_eq!(desc.description, None);
    assert!(desc.axes.is_empty());
    assert!(desc.buttons.is_empty());
    assert!(desc.hats.is_empty());
}

#[test]
fn test_build_state_empty() {
    let desc = DeviceDescription::new(None, None, None, None, None, None, None);
    let input_data = desc.build_state();
    assert!(input_data.axes.len() == 0);
    assert!(input_data.buttons.len() == 0);
    assert!(input_data.hats.len() == 0);
}

#[test]
fn test_build_state_with_items() {
    let desc = DeviceDescription::new(
        None,
        None,
        None,
        None,
        Some(vec![DeviceItem::new(0, None), DeviceItem::new(1, None)]),
        Some(vec![DeviceItem::new(2, None)]),
        Some(vec![DeviceItem::new(3, None)]),
    );

    let input_data = desc.build_state();

    assert_eq!(input_data.axes.len(), 2);
    assert_eq!(input_data.axes.get(0), Some(0));
    assert_eq!(input_data.axes.get(1), Some(0));

    assert_eq!(input_data.buttons.len(), 1);
    assert_eq!(input_data.buttons.get(2), Some(0));

    assert_eq!(input_data.hats.len(), 1);
    assert_eq!(input_data.hats.get(3), Some(0));
}

#[test]
fn test_build_state_duplicate_codes() {
    let desc = DeviceDescription::new(
        None,
        None,
        None,
        None,
        Some(vec![DeviceItem::new(5, None), DeviceItem::new(5, None)]),
        None,
        None,
    );
    let input_data = desc.build_state();
    assert_eq!(input_data.axes.len(), 1);
    assert_eq!(input_data.axes.get(5), Some(0));
}
