[package]
name = "rust-sc2"
version = "0.1.0"
edition = "2021"
publish = false

[dependencies]
sc2-proto = "=0.1.8"
num-traits = "=0.2.19"
num-derive = "=0.5.1"
serde = { version = "=1.0.229", features = ["derive"] }
