[package]
name = "dbx"
version = "0.1.0"
edition = "2021"
publish = false

[dependencies]
chrono = "=0.4.45"
percent-encoding = "=2.3.2"
serde = { version = "=1.0.229", features = ["derive"] }
serde_json = "=1.0.154"
tokio = { version = "=1.54.1", features = ["sync", "fs", "io-util", "net", "rt", "rt-multi-thread", "macros", "time"] }
tokio-util = "=0.7.20"
uuid = { version = "=1.29.0", features = ["v4"] }
