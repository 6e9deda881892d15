[package]
name = "mockchain_core"
version = "0.1.0"
edition = "2021"
publish = false

[dependencies]
blake2 = "0.10"
chacha20poly1305 = "0.10"
pbkdf2 = "0.12"
sha2 = "0.10"
ed25519-dalek = "2"
rand = "0.8"
rand_chacha = "0.3"
rand_core = "0.6"
