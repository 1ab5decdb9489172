[package]
name = "wasmtime-component-serde"
version = "0.1.0"
edition = "2021"
publish = false

[dependencies]
serde = "1"
serde_json = "1"
wasmtime = { version = "17", default-features = false, features = ["component-model"] }
