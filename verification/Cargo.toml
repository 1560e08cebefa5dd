[package]
name = "resume_parser"
version = "0.1.0"
edition = "2021"
publish = false

[dependencies]
lopdf = { version = "=0.45.0", default-features = false }
serde = { version = "=1.0.229", features = ["derive"] }
serde_json = "=1.0.151"
thiserror = "=2.0.21"
wasm-bindgen = "=0.2.129"
serde-wasm-bindgen = "=0.6.5"
console_error_panic_hook = "=0.1.7"
