[package]
name = "drc_heap"
version = "0.1.0"
edition = "2021"
publish = false

[dev-dependencies]
wasmtime-environ = { version = "=35.0.0", features = ["gc-drc"] }
