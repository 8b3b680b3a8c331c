[package]
name = "chartml"
version = "0.1.0"
edition = "2021"
publish = false

[dependencies]
chrono = "0.4"
serde_json = "1"
serde_yaml = "0.9"
thiserror = "1"
indexmap = "2"
arrow = { version = "*", default-features = false, features = ["ipc"] }
