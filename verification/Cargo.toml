[package]
name = "crates_publish_check"
version = "0.1.0"
edition = "2021"
publish = false

[dependencies]
toml = "0.8"
anyhow = "1"
clap = { version = "4", features = ["derive"] }
console = "0.15"
futures = "0.3"
indicatif = "0.17"
reqwest = { version = "0.12", default-features = false, features = ["rustls-tls"] }
serde = { version = "1", features = ["derive"] }
serde_json = "1"
tokio = { version = "1", features = ["full"] }
