[package]
name = "iot_pipeline"
version = "0.1.0"
edition = "2021"
publish = false

[dependencies]
rustls-pemfile = "1"
serde = { version = "1", features = ["derive"] }
serde_json = "1"
tokio = { version = "1", features = ["full"] }
axum = "0.7"
reqwest = { version = "0.11", default-features = false, features = ["json", "rustls-tls"] }
rand = "0.8"
clap = { version = "4", features = ["derive"] }
env_logger = "0.10"
log = "0.4"
anyhow = "1"
tracing = "0.1"
tracing-subscriber = { version = "0.3", features = ["env-filter"] }
rustls = "0.21"
tokio-rustls = "0.24"
