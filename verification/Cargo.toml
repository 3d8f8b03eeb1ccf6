[package]
name = "transactions"
version = "0.1.0"
edition = "2021"
publish = false

[dependencies]
csv = "1"
fnv = "1"
serde = "1"
