[package]
name = "blake2b"
version = "0.1.0"
edition = "2021"
publish = false

[dev-dependencies]
blake2 = "=0.10.6"
