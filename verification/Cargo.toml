[package]
name = "math_defense"
version = "0.1.0"
edition = "2021"
publish = false

[dependencies]
rand = "0.7"

[dev-dependencies]
serde_json = "1"
