[package]
name = "lelantus"
version = "0.1.0"
edition = "2021"
publish = false

[dependencies]
sha2 = "*"
hmac = "*"
rand = "*"
lru = "*"
parking_lot = "*"
serde = { version = "*", features = ["derive"] }
serde_json = "*"
thiserror = "*"
