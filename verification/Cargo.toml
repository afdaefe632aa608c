[package]
name = "bls_sig"
version = "0.1.0"
edition = "2021"
publish = false

[dependencies]
blst = "*"
hex = "*"
rand = "0.8"
threadpool = "*"
ethereum_hashing = "*"

[dev-dependencies]
rand_chacha = "0.3"
