[package]
name = "rzrouter"
version = "0.1.0"
edition = "2021"
publish = false

[dependencies]
bytes = "1"
arc-swap = "1"
tokio = { version = "1", features = ["full"] }
tokio-util = "0.7"
axum = "0.7"
axum-server = "0.7"
clap = { version = "4", features = ["derive"] }
serde = { version = "1", features = ["derive"] }
reqwest = { version = "0.12", default-features = false, features = ["json"] }
thiserror = "2"
tracing = "0.1"
tracing-subscriber = { version = "0.3", features = ["fmt", "time"] }
metrics = "0.24"
metrics-exporter-prometheus = { version = "0.16", default-features = false }
