[package]
name = "poker_equity"
version = "0.1.0"
edition = "2021"

[dependencies]
rand = "0.9"
wasm-bindgen = "0.2"
