[package]
name = "trade_utils"
version = "0.1.0"
edition = "2021"
publish = false

[dependencies]
serde_json = "*"
hmac = "*"
sha2 = "*"
hex = "*"
chrono = "*"
serde = { version = "*", features = ["derive"] }
reqwest = { version = "*", default-features = false }
mongodb = "*"
futures = "*"
async-std = "*"
clap = { version = "*", features = ["derive"] }
log = "*"
anyhow = "*"
