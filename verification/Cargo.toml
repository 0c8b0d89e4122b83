[package]
name = "trace_engine"
version = "0.1.0"
edition = "2021"
publish = false

[dependencies]
arrow = { version = "=60.0.0", default-features = false, features = ["ipc"] }
parquet = { version = "=60.0.0", default-features = false, features = ["arrow", "snap", "flate2-rust_backend"] }
sqlparser = "=0.63.0"
js-sys = "=0.3.106"
wasm-bindgen = "=0.2.129"
instant = "=0.1.13"
console_error_panic_hook = "=0.1.7"
bytes = "=1.12.1"
