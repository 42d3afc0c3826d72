[package]
name = "orjson"
version = "0.1.0"
edition = "2021"
publish = false

[dependencies]
serde = "*"

[dev-dependencies]
serde_json = "*"
