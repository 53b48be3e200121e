[package]
name = "d-link"
version = "0.1.0"
edition = "2021"
publish = false

[dependencies]
chrono = "=0.4.45"
crossbeam-channel = "=0.5.17"
crossterm = "=0.28.1"
dirs = "=5.0.1"
image = { version = "=0.25.10", default-features = false, features = ["png"] }
libnspire = "=0.2.3"
ratatui = "=0.29.0"
rusb = { version = "=0.6.5", features = ["vendored"] }
serde = { version = "=1.0.229", features = ["derive"] }
thiserror = "=1.0.69"
toml = "=0.8.23"
tui-textarea = "=0.7.0"
