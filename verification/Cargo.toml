[package]
name = "traversev"
version = "0.1.0"
edition = "2021"
publish = false

[dependencies]
blake2 = "0.10"
blake3 = "1"
salsa20 = "0.10"
subtle = "2"
