[package]
name = "dynamism"
version = "0.1.0"
edition = "2021"
publish = false

[dependencies]
icu_segmenter = "2"
uuid = { version = "1", features = ["v4"] }
scraper = "*"
sanitize_html = "*"
readability-rust = "*"
tokio = { version = "1", features = ["full"] }
anyhow = "1"
indicatif = "*"
futures = "0.3"
crossbeam-channel = "0.5"
serde = { version = "1", features = ["derive"] }
tempfile = "3"
ndarray = "*"
reqwest = { version = "0.12", default-features = false }
websearch = "*"
pacmap = "*"
