[package]
name = "btc_anchoring"
version = "0.1.0"
edition = "2021"
publish = false

[dependencies]
bitcoin = "*"
byteorder = "1"
exonum = "*"
exonum_bitcoinrpc = "*"
serde = { version = "1", features = ["derive"] }
serde_json = "1"
