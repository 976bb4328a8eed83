[package]
name = "dkg"
version = "0.1.0"
edition = "2021"
publish = false

[dependencies]
blake2 = "0.10"
chacha20poly1305 = "0.10"
rand_core = { version = "0.6", features = ["getrandom"] }
