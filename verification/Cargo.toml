[package]
name = "ml_kem"
version = "0.1.0"
edition = "2021"

[dependencies]
sha3 = "0.10"
rand = "0.8"
serde_json = "1"
hex = "0.4"
