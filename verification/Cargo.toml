[package]
name = "settupper"
version = "0.1.0"
edition = "2021"
publish = false

[dependencies]
anyhow = "1"
chrono = "0.4"
clap = { version = "4", features = ["derive"] }
crossterm = "0.28"
dirs = "5"
ratatui = "0.29"
serde = { version = "1", features = ["derive"] }
serde_json = "1"
serde_yaml = "0.9"
strip-ansi-escapes = "0.2"
tokio = { version = "1", features = ["sync", "rt-multi-thread", "macros"] }
