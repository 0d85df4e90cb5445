[package]
name = "bangumi_rules"
version = "0.1.0"
edition = "2021"
publish = false

[dependencies]
chrono = "=0.4.45"
colored = "=3.1.1"
indicatif = "=0.18.6"
log = { version = "=0.4.34", features = ["std"] }
reqwest = { version = "=0.12.28", default-features = false, features = ["json", "rustls-tls"] }
scraper = "=0.27.0"
serde = { version = "=1.0.229", features = ["derive"] }
serde_json = "=1.0.151"
tokio = { version = "=1.53.2", features = ["rt-multi-thread", "macros", "time"] }
