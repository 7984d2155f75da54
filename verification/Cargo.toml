[package]
name = "wattwise"
version = "1.0.0"
edition = "2021"
publish = false

[dependencies]
chrono = "0.4"
procfs = "*"
serde = { version = "1", features = ["derive"] }
serde_json = "1"
sysinfo = "*"
