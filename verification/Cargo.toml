[package]
name = "rust_box"
version = "0.1.0"
edition = "2021"
publish = false

[dependencies]
anyhow = "=1.0.104"
futures = "=0.3.34"
parking_lot = "=0.12.5"
crossbeam-queue = "=0.3.14"
indexmap = "=2.14.2"
pin-project = "=1.1.13"
pin-project-lite = "=0.2.17"
async-lock = "=3.5.0"
leaky-bucket = "=1.1.2"
governor = "=0.6.3"
serde = { version = "=1.0.229", features = ["derive"] }
postcard = { version = "1", features = ["use-std"] }
