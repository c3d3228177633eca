[package]
name = "gpuix_native"
version = "0.7.0"
edition = "2021"
publish = false

[dependencies]
serde_json = { version = "1", features = ["arbitrary_precision"] }
