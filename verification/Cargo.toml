[package]
name = "geoip_service"
version = "0.1.0"
edition = "2021"
publish = false

[dependencies]
maxminddb = "*"
serde = { version = "1", features = ["derive"] }
serde_json = "1"
hyper = { version = "0.14", features = ["full"] }
tokio = { version = "1", features = ["full"] }
log = "0.4"
pretty_env_logger = "0.4"
