[package]
name = "ion_binary_rs"
version = "0.1.0"
edition = "2021"
publish = false

[dependencies]
digest = "=0.10.7"
sha2 = "=0.10.9"

[dev-dependencies]
num-bigint = "0.4"
