[package]
name = "chain_extension"
version = "0.1.0"
edition = "2021"
publish = false

[dev-dependencies]
parity-scale-codec = "*"
