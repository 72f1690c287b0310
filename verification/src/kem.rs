//! Key generation for encapsulation under X25519 keys.

pub mod keygen;
