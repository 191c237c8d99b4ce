[package]
name = "lead_audit"
version = "0.1.0"
edition = "2021"
publish = false

[dependencies]
anyhow = "=1.0.104"
chromiumoxide = { version = "=0.8.0", default-features = false, features = ["tokio-runtime"] }
chrono = "=0.4.45"
futures = "=0.3.34"
redis = { version = "=1.7.1", features = ["tokio-comp", "connection-manager", "script"] }
regex = "=1.13.1"
reqwest = { version = "=0.13.5", default-features = false, features = ["json"] }
scraper = "=0.27.0"
serde = { version = "=1.0.229", features = ["derive"] }
serde_json = "=1.0.151"
tokio = { version = "=1.53.2", features = ["rt-multi-thread", "macros", "time"] }
tokio-postgres = { version = "=0.7.18", features = ["with-chrono-0_4", "with-serde_json-1"] }
url = "=2.5.8"
