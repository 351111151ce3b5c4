[package]
name = "needle"
version = "0.1.0"
edition = "2021"
publish = false

[dependencies]
unicode-width = "=0.2.0"
serde = { version = "=1.0.229", features = ["derive"] }
serde_json = "=1.0.154"
toml = "=1.1.8"
dirs = "=7.0.0"
rusqlite = { version = "=0.40.2", features = ["bundled"] }
notify-rust = "=4.18.2"
clap = { version = "=4.6.7", features = ["derive"] }
crossterm = "=0.28.1"
ratatui = "=0.29.0"
tokio = { version = "=1.54.1", features = ["rt-multi-thread", "macros"] }
octocrab = "=0.44.1"
update-informer = "=1.3.0"
