[package]
name = "termconnect"
version = "0.1.0"
edition = "2021"
publish = false

[dependencies]
anyhow = "1"
crossterm = { version = "*", features = ["event-stream"] }
futures-util = "0.3"
ratatui = "*"
russh = "*"
russh-sftp = "*"
serde = { version = "1", features = ["derive"] }
tokio = { version = "1", features = ["full"] }
toml = "*"
tracing = "0.1"
tracing-subscriber = { version = "0.3", features = ["env-filter"] }
unicode-width = "*"
