[package]
name = "codex_link"
version = "0.1.0"
edition = "2021"
publish = false

[dependencies]
globset = "0.4"
regex-lite = "0.1"
serde = { version = "1", features = ["derive"] }
serde_json = "1"
tokio = { version = "1", features = ["fs", "io-util", "macros", "rt", "sync", "time"] }
tokio-util = "0.7"
tracing = "0.1"
