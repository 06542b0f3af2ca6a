//! A debounced, change-detecting view of joystick/gamepad input.
//!
//! The library models a pool of input devices: each device's declared axes,
//! buttons and hat switches are kept in a shared registry, per-device poll
//! results are merged into it under a global debounce window, and consumers
//! query the registry for snapshots or wait for a change against a remembered
//! baseline.  All device I/O (opening device nodes, draining hardware events,
//! sleeping between polls) is left to the caller, which hands the library
//! plain values.

pub mod code_map;
pub mod description;
pub mod device_pool;
pub mod joystick;
pub mod registry;
pub mod state;
