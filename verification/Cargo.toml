[package]
name = "toolrpc"
version = "0.1.0"
edition = "2021"
publish = false

[dependencies]
uuid = { version = "*", features = ["v4"] }
tokio = { version = "*", features = ["full"] }
axum = "*"
futures = "*"

[dev-dependencies]
serde_json = "*"
