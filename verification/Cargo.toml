[package]
name = "weldscope"
version = "0.1.0"
edition = "2021"
publish = false

[dependencies]
realfft = "3.5"
rustfft = "6.4"
num-complex = "0.4"
rand = "0.8"
rand_distr = "0.4"
serde = { version = "1", features = ["derive"] }
serde_json = "1"
wasm-bindgen = "0.2"
