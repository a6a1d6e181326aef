[package]
name = "cw-bitcoin"
version = "0.1.0"
edition = "2021"
publish = false

[dependencies]
bitcoin = { version = "=0.29.2", features = ["serde"] }
sha2 = "=0.10.9"
cosmwasm-std = "=1.5.11"
cosmwasm-schema = "=1.5.11"
cw-storage-plus = "=1.2.0"
serde = { version = "=1.0.229", features = ["derive"] }
derive_more = "=0.99.20"
ed = "=0.2.2"
token-bindings = "=0.11.0"
