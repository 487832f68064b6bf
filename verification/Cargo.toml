[package]
name = "maelstrom-worker"
version = "0.1.0"
edition = "2021"
publish = false

[dependencies]
anyhow = "=1.0.104"
bincode = "=1.3.3"
clap = { version = "=4.6.7", features = ["derive"] }
crossterm = "=0.28.1"
regex = "=1.13.1"
serde = { version = "=1.0.229", features = ["derive"] }
slog = { version = "=2.8.2", features = ["dynamic-keys"] }
std-semaphore = "=0.1.0"
tokio = { version = "=1.54.1", features = ["fs", "rt", "rt-multi-thread", "net", "io-util", "sync", "macros", "signal"] }
toml = "=0.8.23"
url = "=2.5.8"
xdg = "=2.5.2"
