[package]
name = "ghost_complete"
version = "0.1.0"
edition = "2021"
publish = false

[dependencies]
nucleo = "*"
vte = "*"
anyhow = "*"
clap = { version = "4", features = ["derive"] }
crossterm = "*"
dirs = "*"
serde = { version = "1", features = ["derive"] }
serde_json = "1"
tokio = { version = "1", features = ["rt-multi-thread", "signal", "sync", "time", "macros"] }
toml = "*"
tracing = "*"
tracing-subscriber = { version = "*", features = ["env-filter"] }
portable-pty = "*"
