[package]
name = "meridian"
version = "0.1.0"
edition = "2021"
publish = false

[dependencies]
axum = "=0.7.9"
chrono = { version = "=0.4.45", features = ["serde"] }
dashmap = "=6.2.1"
hex = "=0.4.3"
reqwest = { version = "=0.12.28", default-features = false, features = ["gzip", "deflate", "rustls-tls"] }
scraper = { version = "=0.20.0", features = ["deterministic"] }
serde = { version = "1", features = ["derive"] }
serde_json = "1"
sha2 = "=0.10.9"
tokio = { version = "1", features = ["full"] }
tower-http = { version = "0.5", features = ["cors", "fs"] }
tracing = "0.1"
tracing-subscriber = { version = "0.3", features = ["env-filter"] }
url = "=2.5.8"
