[package]
name = "ringlog"
version = "0.1.0"
edition = "2021"
publish = false

[dependencies]
tokio = { version = "1", features = ["sync", "io-std", "io-util", "time"] }
tokio-uring = "0.4"
