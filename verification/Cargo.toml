[package]
name = "loreglide"
version = "0.1.0"
edition = "2021"
publish = false

[dependencies]
serde = { version = "1", features = ["derive"] }
thiserror = "2"
log = "0.4"
env_logger = "0.11"
parking_lot = "0.12"
tts = "0.26"
uiautomation = "*"
accessibility = "*"
accessibility-sys = "*"
core-foundation = "*"
