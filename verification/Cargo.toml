[package]
name = "wasm_decomp"
version = "0.1.0"
edition = "2021"
publish = false

[dependencies]
dot2 = "*"
log = "*"
simple_logger = "*"
