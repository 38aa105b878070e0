[package]
name = "sqlens"
version = "0.2.0"
edition = "2021"
publish = false

[dependencies]
anyhow = "=1.0.104"
base64 = "=0.22.1"
clap = { version = "=4.6.7", features = ["derive"] }
crossterm = "=0.29.0"
ratatui = "=0.30.2"
rusqlite = { version = "=0.37.0", features = ["bundled", "hooks"] }

[dev-dependencies]
tempfile = "=3.27.0"
