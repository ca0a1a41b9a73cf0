[package]
name = "exchange_rates"
version = "0.1.0"
edition = "2021"
publish = false

[dependencies]
scraper = "*"
csv = "*"
reqwest = { version = "*", default-features = false, features = ["blocking", "json"] }
serde = { version = "*", features = ["derive"] }
serde_json = "*"
