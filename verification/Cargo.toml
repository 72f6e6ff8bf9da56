[package]
name = "unicorn_logs"
version = "0.1.0"
edition = "2021"
publish = false

[dependencies]
bincode = "1.3"
chrono = { version = "0.4", features = ["serde"] }
serde = { version = "1", features = ["derive"] }
tokio = { version = "1", features = ["full"] }
tonic = "0.11"
prost = "0.12"
rocket = { version = "0.5", features = ["json"] }
docker-api = "0.14"
env_logger = "0.11"
log = "0.4"
futures-util = "0.3"
