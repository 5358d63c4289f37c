[package]
name = "abi_bridge"
version = "0.1.0"
edition = "2021"
publish = false

[dependencies]
base64 = "=0.13.1"
ed25519-dalek = "=1.0.1"
hex = "=0.4.3"
js-sys = "=0.3.106"
rand = "=0.7.3"
sha2 = "=0.9.9"
wasm-bindgen = "=0.2.129"
zeroize = "=1.3.0"
