[package]
name = "flowcore"
version = "0.1.0"
edition = "2021"
publish = false

[dependencies]
serde_json = "*"
tokio = { version = "*", features = ["rt-multi-thread", "sync", "macros", "time"] }
uuid = { version = "*", features = ["v4"] }
chrono = "*"
