[package]
name = "pterminal"
version = "0.1.0"
edition = "2021"
publish = false

[dependencies]
ahash = "=0.8.12"
alacritty_terminal = "=0.26.0"
anyhow = "=1.0.104"
portable-pty = "=0.9.0"
serde = { version = "=1.0.229", features = ["derive"] }
serde_json = "=1.0.154"
toml = "=1.1.8"
directories = "=6.0.0"
clap = { version = "4", features = ["derive"] }
tokio = { version = "1", features = ["rt", "net", "io-util", "sync", "time", "macros"] }
tracing = "0.1"
tracing-subscriber = "0.3"
