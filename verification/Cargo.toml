[package]
name = "chat_engine"
version = "0.1.0"
edition = "2021"
publish = false

[dependencies]
backoff = "0.4"
chrono = "0.4"
tokio = { version = "1", features = ["full"] }
