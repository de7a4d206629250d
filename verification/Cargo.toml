[package]
name = "nano-infer"
version = "0.1.0"
edition = "2021"
publish = false

[dependencies]
libm = "0.2"
wasm-bindgen = "0.2"
js-sys = "0.3"
console_error_panic_hook = "0.1"
