[package]
name = "systemstat_core"
version = "0.1.0"
edition = "2021"
publish = false

[dependencies]
crossterm = "0.27"
ratatui = "0.26"
serde = { version = "1", features = ["derive"] }
serde_json = "1"
signal-hook = "0.3"
sysinfo = "0.30"
systemstat = "0.2"
toml = "0.8"
