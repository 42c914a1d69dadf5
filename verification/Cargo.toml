[package]
name = "phone_control"
version = "0.1.0"
edition = "2021"
publish = false

[dependencies]
axum = "0.7"
fxhash = "0.2"
muxide = "*"
serde = { version = "1", features = ["derive"] }
serde_json = "1"
tokio = { version = "1", features = ["rt-multi-thread", "net", "sync", "time"] }
