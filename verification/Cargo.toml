[package]
name = "curve25519_kem"
version = "0.1.0"
edition = "2021"
publish = false

[dependencies]
chacha20 = "0.9"
clap = { version = "4", features = ["derive"] }
curve25519-dalek = { version = "4", features = ["rand_core"] }
rand = "0.8"
sha3 = "0.10"
x25519-dalek = { version = "2", features = ["static_secrets", "getrandom"] }
