[package]
name = "rkub"
version = "0.1.0"
edition = "2021"
publish = false

[dependencies]
rand = "0.7"
serde = { version = "1", features = ["derive"] }
serde_json = "1"
anyhow = "1"
log = "0.4"
env_logger = "*"
futures = "0.3"
smol = "*"
async-channel = "*"
async-lock = "*"
async-tungstenite = "*"
tungstenite = "*"
