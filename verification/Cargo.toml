[package]
name = "cqlite"
version = "0.1.0"
edition = "2021"
publish = false

[dependencies]
fjall = "*"
tokio = { version = "*", features = ["full"] }
tokio-util = { version = "*", features = ["codec"] }
tokio-stream = "*"
futures = "*"
bytes = "*"

[dev-dependencies]
uuid = { version = "*", features = ["v4"] }
