[package]
name = "paul_scrape_rs"
version = "0.1.0"
edition = "2021"
publish = false

[dependencies]
rand = "=0.8.8"
sha2 = "=0.10.9"
chrono = { version = "=0.4.45", features = ["serde"] }
serde = { version = "=1.0.229", features = ["derive"] }
serde_json = "=1.0.151"
reqwest = { version = "=0.12.28", default-features = false, features = ["rustls-tls"] }
scraper = "=0.27.0"
tokio = { version = "=1.53.2", features = ["macros", "rt-multi-thread", "time", "sync"] }
clap = { version = "=4.6.7", features = ["derive"] }
indicatif = "=0.18.6"
