[package]
name = "keylogger"
version = "0.1.0"
edition = "2021"
publish = false

[dependencies]
flate2 = "1"
chrono = "0.4"
clap = { version = "4", features = ["derive"] }
ctrlc = "3"
evdev-rs = "0.6"

[dev-dependencies]
serde_json = "1"
