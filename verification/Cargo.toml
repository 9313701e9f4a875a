[package]
name = "async-rate-limiter"
version = "1.0.0"
edition = "2021"
publish = false

[dependencies]
futures = "0.3"
tokio = { version = "1", features = ["rt", "rt-multi-thread", "time"] }
tokio-stream = "0.1"
