[package]
name = "kotoba_core"
version = "0.2.2"
edition = "2021"
publish = false

[dependencies]
age = "=0.12.1"
chrono = "=0.4.45"
chrono-tz = "=0.10.4"
csv = "=1.4.0"
encoding_rs = "=0.8.44"
fsrs = "=6.6.2"
iana-time-zone = "=0.1.65"
rusqlite = { version = "=0.41.1", features = ["bundled", "backup"] }
serde = { version = "=1.0.229", features = ["derive"] }
serde_json = "=1.0.154"
tempfile = "=3.27.0"
uuid = { version = "=1.29.0", features = ["v4"] }
zeroize = "=1.9.1"

[dev-dependencies]
