[package]
name = "rust_actions"
version = "0.1.0"
edition = "2021"
publish = false

[dependencies]
serde_json = "1"
serde_yaml = "0.9"
rand = "0.8"
rand_chacha = "0.3"
uuid = { version = "1", features = ["v4"] }
colored = "2"
