[package]
name = "loom"
version = "0.3.0"
edition = "2021"
publish = false

[dependencies]
serde = { version = "1", features = ["derive"] }
serde_json = "1"
oxigraph = { version = "0.5", default-features = false }
regex = "1"
thiserror = "2"
clap = { version = "4", features = ["derive"] }
jsonschema = { version = "*", default-features = false }
tracing = "0.1"
wasm-bindgen = "0.2"
js-sys = "0.3"
serde-wasm-bindgen = "0.6"
