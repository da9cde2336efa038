[package]
name = "marv"
version = "0.1.0"
edition = "2021"
publish = false

[dependencies]
blake3 = "1.8"
cranelift = "0.128"
cranelift-jit = "0.128"
cranelift-module = "0.128"
cranelift-native = "0.128"
serde = { version = "1", features = ["derive"] }
serde_json = "1"
wasm-encoder = "0.249"
wasmparser = "0.249"

[dev-dependencies]
wasmtime = { version = "41", default-features = false, features = ["runtime", "cranelift", "std"] }
