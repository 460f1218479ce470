[package]
name = "dbx-docs"
version = "0.1.0"
edition = "2021"
publish = false

[dependencies]
base64 = "0.22"
serde = { version = "1", features = ["derive"] }
serde_json = "1"
chrono = "0.4"
futures = "0.3"
tokio = { version = "1", features = ["sync"] }
axum = "0.7"
