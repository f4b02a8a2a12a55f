[package]
name = "goose_metrics"
version = "0.1.0"
edition = "2021"
publish = false

[dependencies]
chrono = "=0.4.45"
http = "=0.2.12"
itertools = "=0.10.5"
log = "=0.4.35"
num-format = "=0.4.4"
serde = { version = "=1.0.229", features = ["derive"] }
serde_json = "=1.0.154"
tokio = { version = "=1.54.1", default-features = false, features = ["fs", "io-util"] }
