[package]
name = "multi_light"
version = "0.1.0"
edition = "2021"
publish = false

[dependencies]
serde_json = "*"
toml = "*"
yaml-rust2 = "*"
