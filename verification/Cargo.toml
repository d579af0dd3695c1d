[package]
name = "mls_engine"
version = "0.1.0"
edition = "2021"
publish = false

[dependencies]
openmls_traits = "0.2"
openmls_rust_crypto = "0.2"
tls_codec = "0.3"
wasm-bindgen = "0.2"
wasm-bindgen-futures = "0.4"
js-sys = "0.3"
web-sys = { version = "0.3", features = ["Request", "RequestInit", "RequestMode", "Response", "Window", "console"] }
serde-wasm-bindgen = "0.6"
serde = { version = "1", features = ["derive"] }
url = "2"
console_error_panic_hook = "0.1"
