[package]
name = "binarystream"
version = "0.1.0"
edition = "2021"
publish = false

[dependencies]
napi = { version = "3", features = ["napi6"] }
napi-derive = "3"
