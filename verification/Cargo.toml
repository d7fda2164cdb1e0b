[package]
name = "renzokutai"
version = "0.1.0"
edition = "2021"
publish = false

[dependencies]
rand = "0.8"
tokio = { version = "1", features = ["full"] }
anyhow = "1"
zone = "*"
owo-colors = "*"
