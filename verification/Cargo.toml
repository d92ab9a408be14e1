[package]
name = "mairu"
version = "0.1.0"
edition = "2021"
publish = false

[dependencies]
anyhow = "1"
base64 = "0.22"
chrono = { version = "0.4", features = ["serde"] }
clap = { version = "4", features = ["derive"] }
serde = { version = "1", features = ["derive"] }
serde_json = "1"
serde_with = { version = "3", features = ["base64"] }
sha2 = "0.10"
tokio = { version = "1", features = ["full"] }
tonic = { version = "0.12", default-features = false }
tracing = "0.1"
