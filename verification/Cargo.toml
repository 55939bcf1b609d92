[package]
name = "ledger_core"
version = "0.1.0"
edition = "2021"
publish = false

[dependencies]
hex = "0.4"
p256 = { version = "0.13", features = ["ecdsa"] }
rand = "0.8"
sha2 = "0.10"
