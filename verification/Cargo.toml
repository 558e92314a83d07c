[package]
name = "bilibili_tui"
version = "0.1.0"
edition = "2021"
publish = false

[dependencies]
anyhow = "=1.0.104"
brotli = "=9.1.1"
chrono = "=0.4.45"
flate2 = "=1.1.10"
quick-xml = "=0.42.0"
reqwest = { version = "*", default-features = false }
scraper = "=0.29.0"
serde = { version = "=1.0.229", features = ["derive"] }
serde_json = "=1.0.154"
