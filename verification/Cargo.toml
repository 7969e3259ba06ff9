[package]
name = "rust_crypto"
version = "0.1.0"
edition = "2021"
publish = false

[dependencies]
aes-gcm = "0.10"
rand = "0.8"
rayon = "1"
sha2 = "0.10"
