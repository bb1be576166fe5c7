[package]
name = "goose_local_inference"
version = "0.1.0"
edition = "2021"
publish = false

[dependencies]
rmcp = { version = "*", default-features = false }
serde_json = "1"
uuid = { version = "1", features = ["v4"] }
