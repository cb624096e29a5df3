[package]
name = "log_searching"
version = "0.1.0"
edition = "2021"
publish = false

[dependencies]
serde_json = "1"
serde_yaml = "0.9"
serde = { version = "1", features = ["derive"] }
log = "0.4"
env_logger = "*"
tokio = { version = "1", features = ["full"] }
futures = "0.3"
futures-util = "0.3"
async-std = "1"
async-tungstenite = { version = "*", features = ["tokio-runtime", "async-std-runtime"] }
actix-web = "4"
actix-cors = "*"
actix-files = "*"
elasticsearch = { version = "8.5.0-alpha.1", default-features = false, features = ["rustls-tls"] }
