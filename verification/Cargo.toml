[package]
name = "steam_replay"
version = "0.1.0"
edition = "2021"
publish = false

[dependencies]
anyhow = "1"
chrono = "0.4"
reqwest = { version = "0.12", features = ["blocking", "json"] }
scraper = "*"
serde_json = "1"
