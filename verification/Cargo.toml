[package]
name = "caldawarrior"
version = "1.0.0"
edition = "2021"
publish = false

[dependencies]
anyhow = "=1.0.104"
chrono = { version = "=0.4.45", features = ["serde"] }
chrono-tz = "=0.10.4"
clap = { version = "=4.6.7", features = ["derive"] }
quick-xml = "0.38"
reqwest = { version = "=0.12.28", default-features = false, features = ["blocking", "rustls-tls"] }
serde = { version = "=1.0.229", features = ["derive"] }
serde_json = "=1.0.154"
thiserror = "=2.0.21"
toml = "=0.8.23"
uuid = { version = "=1.29.0", features = ["v4", "serde"] }
