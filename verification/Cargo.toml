[package]
name = "idle_engine"
version = "0.1.0"
edition = "2021"
publish = false

[dependencies]
serde = { version = "*", features = ["derive"] }
serde_json = "*"
thiserror = "*"
wasm-bindgen = "*"
console_error_panic_hook = "*"
