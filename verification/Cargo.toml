[package]
name = "bracket_scan"
version = "0.1.0"
edition = "2021"
publish = false

[dependencies]
chrono = "0.4"
comemo = "0.5"
console_error_panic_hook = "0.1"
ecow = "0.2"
js-sys = "0.3"
mitex = "0.2"
rustc-hash = "2"
send_wrapper = "0.6"
serde = { version = "1", features = ["derive"] }
serde-wasm-bindgen = "0.6"
typst = "0.14"
typst-assets = { version = "0.14", features = ["fonts"] }
typst-ide = "0.14"
typst-pdf = "0.14"
typst-svg = "0.14"
wasm-bindgen = "0.2"
