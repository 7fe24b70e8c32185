[package]
name = "tx_filter"
version = "0.1.0"
edition = "2021"
publish = false

[dependencies]
ethers = { version = "2.0", default-features = false }
hex = "0.4"
base64 = "0.13"
serde = { version = "1", features = ["derive"] }
serde_json = "1"
serde_repr = "0.1"
