[package]
name = "orderbook"
version = "0.1.0"
edition = "2021"
publish = false

[dependencies]
miden-vm = "0.10"
serde = { version = "=1.0.229", features = ["derive"] }
serde_json = "=1.0.154"
wasm-bindgen = "=0.2.129"
