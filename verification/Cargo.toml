[package]
name = "xiu"
version = "0.1.0"
edition = "2021"
publish = false

[dependencies]
tokio = { version = "*", features = ["sync", "net", "rt-multi-thread", "time", "io-util", "macros"] }
uuid = { version = "*", features = ["v4"] }
chrono = "*"
bytes = "*"
axum = "*"
serde = { version = "*", features = ["derive"] }
serde_json = "*"
futures = "*"
