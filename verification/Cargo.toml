[package]
name = "protocol_sdk"
version = "0.1.0"
edition = "2021"
publish = false

[dependencies]
hex = "0.4"
near-sdk = { version = "*", features = ["unit-testing"] }
