[package]
name = "tmd"
version = "0.1.0"
edition = "2021"
publish = false

[dependencies]
anyhow = "1"
axum = "0.8"
chrono = "0.4"
env_logger = "0.11"
grammers-client = "*"
grammers-mtsender = "*"
grammers-session = { version = "*", features = ["sqlite-storage"] }
indicatif = "*"
log = "0.4"
regex = "1"
rustc-hash = "2"
serde = { version = "1", features = ["derive"] }
serde_json = "1"
serde_yaml = "0.9"
tokio = { version = "1", features = ["full"] }
tokio-stream = { version = "0.1", features = ["sync"] }
tokio-util = "0.7"
