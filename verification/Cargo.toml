[package]
name = "gelbooru"
version = "1.0.0"
edition = "2021"
publish = false

[dependencies]
scraper = "=0.29.0"
ego-tree = "=0.11.1"
url = "=2.5.8"
base64 = "=0.22.1"
serde = { version = "=1.0.229", features = ["derive"] }
serde_json = "=1.0.154"
tokio = { version = "=1.54.1", features = ["full"] }
reqwest = { version = "=0.12.28", default-features = false, features = ["rustls-tls", "cookies", "gzip", "stream"] }
rusqlite = { version = "=0.41.1", features = ["bundled"] }
image = { version = "=0.25.10", default-features = false, features = ["jpeg", "png", "gif", "webp"] }
walkdir = "=2.5.0"
futures = "=0.3.34"
lazy_static = "=1.5.1"

[dev-dependencies]
tempfile = "=3.27.0"
