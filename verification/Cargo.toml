[package]
name = "delay_effects"
version = "0.1.0"
edition = "2021"
publish = false

[dependencies]
anyhow = "1"
console_error_panic_hook = "0.1"
cpal = "0.15"
wasm-bindgen = "0.2"
web-sys = { version = "0.3", features = ["console"] }
wee_alloc = "0.4"

[dev-dependencies]
rand = "0.8"
