[package]
name = "joypool"
version = "0.1.0"
edition = "2021"
publish = false

[dependencies]
evdev = "*"
serde = { version = "*", features = ["derive"] }
tokio = { version = "*", features = ["rt", "rt-multi-thread", "sync", "time", "macros"] }
toml = "*"
