[package]
name = "x25519_keys"
version = "0.1.0"
edition = "2021"
publish = false

[dependencies]
x25519-dalek = "*"
curve25519-dalek = "*"
rand = "0.8"
wasm-bindgen = "*"
js-sys = "*"

[dev-dependencies]
base64 = "*"
