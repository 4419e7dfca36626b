[package]
name = "encapure"
version = "0.1.0"
edition = "2021"
publish = false

[dependencies]
crossbeam = "*"
sha2 = "*"
tokenizers = "*"
serde = { version = "*", features = ["derive"] }
serde_json = "*"
thiserror = "*"
anyhow = "*"
axum = "*"
tokio = { version = "*", features = ["full"] }
tower = "*"
tower-http = { version = "*", features = ["trace"] }
tracing = "*"
tracing-subscriber = { version = "*", features = ["env-filter"] }
metrics = "*"
metrics-exporter-prometheus = { version = "*", default-features = false }
ndarray = "*"
ort = { version = "=2.0.0-rc.13", default-features = false }
