[package]
name = "cronaut"
version = "0.1.0"
edition = "2021"
publish = false

[dependencies]
cron = "0.17"
chrono = { version = "0.4", features = ["serde"] }
serde = { version = "1", features = ["derive"] }
serde_json = "1"
dirs = "6"
thiserror = "2"
tokio = { version = "1", features = ["process", "io-util", "fs", "rt", "macros", "sync"] }
tracing = "0.1"
tracing-subscriber = { version = "0.3", features = ["env-filter"] }
