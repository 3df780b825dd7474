[package]
name = "siff"
version = "0.1.1"
edition = "2021"
publish = false

[dependencies]
anyhow = "1"
clap = { version = "4", features = ["derive"] }
crossterm = "*"
dirs = "*"
ratatui = "*"
serde = { version = "1", features = ["derive"] }
serde_json = "1"
tempfile = "3"
tiktoken-rs = "*"
tokio = { version = "1", features = ["full"] }
tokio-util = "0.7"
