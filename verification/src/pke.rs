//! Key generation for encryption under X25519 keys.

pub mod keygen;
