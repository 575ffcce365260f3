[package]
name = "llamattf"
version = "0.1.0"
edition = "2021"
publish = false

[dependencies]
candle-core = "=0.9.2"
candle-transformers = "=0.9.2"
tokenizers = { version = "=0.21.4", default-features = false, features = ["unstable_wasm"] }
serde_json = "1"
bytemuck = "1"
wasm-bindgen = "0.2"
