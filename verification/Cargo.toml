[package]
name = "chasm_rs"
version = "0.1.0"
edition = "2021"
publish = false

[dependencies]
leb128 = "*"
wasmi = "*"

[dev-dependencies]
blake3 = "*"
