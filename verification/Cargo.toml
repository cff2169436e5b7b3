[package]
name = "log_sanitizer"
version = "0.1.0"
edition = "2021"
publish = false

[dependencies]
eyre = "0.6"
parking_lot = "0.12"
regex = "1"
reqwest = { version = "0.12", default-features = false, features = ["rustls-tls"] }
serde = { version = "1", features = ["derive"] }
serde_json = "1"
tokio = { version = "1", features = ["rt-multi-thread", "sync", "time", "macros"] }
tracing = "0.1"
