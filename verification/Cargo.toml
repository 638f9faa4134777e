[package]
name = "libsync"
version = "0.1.0"
edition = "2021"
publish = false

[dependencies]
clap = "=2.34.0"
crc32fast = "=1.5.4"
dashmap = "=4.0.2"
serde = { version = "=1.0.229", features = ["derive"] }
serde_json = "=1.0.154"
thiserror = "=1.0.69"
tokio = { version = "=1.54.1", features = ["full"] }
tracing = "=0.1.44"
tracing-subscriber = { version = "=0.3.23", features = ["env-filter"] }
uuid = { version = "=1.29.0", features = ["serde", "v4"] }
