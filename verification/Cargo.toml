[package]
name = "ban2bgp"
version = "0.1.0"
edition = "2021"
publish = false

[dependencies]
zettabgp = "*"
url = "2"
chrono = "0.4"
futures = "0.3"
futures-util = "0.3"
hyper = { version = "0.14", features = ["full"] }
ini = "1"
log = "0.4"
pretty_env_logger = "*"
serde = { version = "1", features = ["derive"] }
serde_json = "1"
tokio = { version = "1", features = ["full"] }
tokio-util = { version = "0.7", features = ["full"] }
