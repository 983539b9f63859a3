[package]
name = "explorator"
version = "0.1.0"
edition = "2021"
publish = false

[dependencies]
axum = "=0.7.9"
clap = { version = "=4.6.7", features = ["derive"] }
env_logger = "=0.11.11"
log = "=0.4.35"
petgraph = "=0.6.5"
reqwest = { version = "=0.12.28", default-features = false, features = ["rustls-tls", "json", "charset", "http2"] }
serde = { version = "=1.0.229", features = ["derive"] }
serde_json = { version = "=1.0.154", features = ["preserve_order"] }
tokio = { version = "=1.54.1", features = ["full"] }
tokio-rustls = { version = "=0.26.6", default-features = false, features = ["ring", "tls12", "logging"] }
toml = "=0.8.23"
uuid = { version = "=1.29.0", features = ["v4"] }
