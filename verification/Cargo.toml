[package]
name = "otamoryx"
version = "0.1.0"
edition = "2021"
publish = false

[dependencies]
anyhow = "1"
chrono = "0.4"
cron = "*"
dashmap = "6"
rand = "*"
reqwest = { version = "0.12", default-features = false }
serde = { version = "1", features = ["derive"] }
serde_json = "1"
sha2 = "0.10"
thiserror = "*"
tokio = { version = "1", features = ["rt", "time", "sync", "macros"] }
toml = "*"
tracing = "0.1"
uuid = { version = "1", features = ["v4"] }
