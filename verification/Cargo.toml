[package]
name = "spider"
version = "0.1.0"
edition = "2021"
publish = false

[dependencies]
url = "*"
chrono = "*"
serde_json = "*"
scraper = "*"
serde = { version = "*", features = ["derive"] }
redis = { version = "*", features = ["tokio-comp"] }
tokio = { version = "*", features = ["full"] }
reqwest = { version = "*", default-features = false }
anyhow = "*"
tracing = "*"
tracing-subscriber = "*"
log = "*"
