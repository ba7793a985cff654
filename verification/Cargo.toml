[package]
name = "transfer_proxy_rs"
version = "0.1.0"
edition = "2021"
publish = false

[dependencies]
bytes = "1"
md-5 = "0.10"
base64 = "0.22"
ipnetwork = "*"
rand = "0.10"
uuid = "*"
serde = { version = "1", features = ["derive"] }
serde-saphyr = "*"
maxminddb = "*"
tokio = { version = "1", features = ["full"] }
async-trait = "*"
log = "*"
env_logger = "*"
