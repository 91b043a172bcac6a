[package]
name = "corust-tui"
version = "0.1.0"
edition = "2021"
publish = false

[dependencies]
agent-client-protocol = "=5.0.0"
futures = "=0.3.34"
ratatui = { version = "=0.29.0", default-features = false, features = ["unstable-rendered-line-info"] }
