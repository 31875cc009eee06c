[package]
name = "tile_engine"
version = "0.1.0"
edition = "2021"
publish = false

[dependencies]
sha2 = "*"
hex = "*"
image = { version = "*", default-features = false, features = ["png", "jpeg", "webp"] }
serde = { version = "*", features = ["derive"] }
serde_json = "*"
wasm-bindgen = "*"
js-sys = "*"
serde-wasm-bindgen = "*"
console_error_panic_hook = "*"
