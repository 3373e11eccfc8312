[package]
name = "kallip_tagma"
version = "0.1.0"
edition = "2021"
publish = false

[dependencies]
axum = "=0.8.9"
tokio = { version = "=1.54.1", features = ["full"] }
serde = { version = "=1.0.229", features = ["derive"] }
serde_json = "=1.0.154"
jiff = { version = "0.2", features = ["tzdb-bundle-always"] }
