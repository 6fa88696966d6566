[package]
name = "bicycle_shop"
version = "0.1.0"
edition = "2021"
publish = false

[dependencies]
near-sdk = { version = "=5.30.0", features = ["non-contract-usage"] }
