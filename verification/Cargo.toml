[package]
name = "static_rd"
version = "0.1.0"
edition = "2021"
publish = false

[dependencies]
csv = "=1.4.0"
serde_json = "=1.0.151"
tokio = { version = "=1.53.2", features = ["full"] }
