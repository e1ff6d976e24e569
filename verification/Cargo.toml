[package]
name = "popup_core"
version = "0.1.0"
edition = "2021"
publish = false

[dependencies]
rand = "0.8"
uuid = { version = "1", features = ["v4"] }

[dev-dependencies]
serde_json = "1"
