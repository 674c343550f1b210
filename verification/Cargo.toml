[package]
name = "bamboo_core"
version = "0.3.12"
edition = "2021"
publish = false

[dependencies]
wasm-bindgen = "0.2"
