[package]
name = "chi"
version = "0.1.0"
edition = "2021"
publish = false

[dependencies]
bimap = { version = "0.6", features = ["serde"] }
serde = { version = "1", features = ["derive"] }
serde-wasm-bindgen = "0.6"
wasm-bindgen = "0.2"

[dev-dependencies]
nom = "7"
