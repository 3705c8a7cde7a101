[package]
name = "hypergate"
version = "0.1.0"
edition = "2021"
publish = false

[dependencies]
ipnet = "2"
axum = "0.8"
hyper = { version = "1", features = ["full"] }
hyper-util = { version = "0.1", features = ["full"] }
tokio = { version = "1", features = ["full"] }
tokio-util = "0.7"
serde = { version = "1", features = ["derive"] }
serde_json = "1"
toml = "0.8"
tempfile = "3"
rustyline = "14"
arc-swap = "1"
bytes = "1"
futures-util = "0.3"
mimalloc = "0.1"
