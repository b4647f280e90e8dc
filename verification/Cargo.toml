[package]
name = "grand"
version = "0.1.0"
edition = "2021"
publish = false

[dependencies]
getrandom = "0.3"
rust_decimal = "1"
wasm-bindgen = "0.2"
