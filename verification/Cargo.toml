[package]
name = "http_server"
version = "0.1.0"
edition = "2021"
publish = false

[dependencies]
napi = { version = "3", features = ["napi4"] }
napi-derive = "3"
serde = { version = "1", features = ["derive"] }
serde_json = "1"
