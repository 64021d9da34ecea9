[package]
name = "argumentation-suite"
version = "0.1.0"
edition = "2021"
publish = false

[dependencies]
petgraph = "*"
serde = { version = "1", features = ["derive"] }
serde_json = "1"
smallvec = "1"
thiserror = "*"
wasm-bindgen = "*"
js-sys = "*"
console_error_panic_hook = "*"
