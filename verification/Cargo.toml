[package]
name = "launchpad"
version = "0.1.0"
edition = "2021"
publish = false

[dependencies]
near-sdk = { version = "=4.1.1", default-features = false }
ed25519-dalek = "=1.0.1"
near-contract-standards = "=4.1.1"
