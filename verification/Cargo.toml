[package]
name = "willow_extractor"
version = "0.1.0"
edition = "2021"
publish = false

[dependencies]
lopdf = { version = "=0.46.0", default-features = false }
scraper = "=0.29.0"
urlencoding = "=2.1.3"
regex = "=1.13.1"
serde = { version = "=1.0.229", features = ["derive"] }
serde_json = "=1.0.154"
thiserror = "=2.0.21"
tokio = { version = "=1.54.1", features = ["full"] }
axum = "=0.8.9"
tower-http = { version = "=0.6.11", features = ["cors"] }
reqwest = { version = "=0.12.28", default-features = false, features = ["json", "rustls-tls"] }
