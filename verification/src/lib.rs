//! A key-encapsulation mechanism on Curve25519, secure against chosen
//! ciphertexts: the Fujisaki-Okamoto transform with implicit rejection,
//! applied to ElGamal-style encryption on the Montgomery form of the curve.
//!
//! * [`fo_kem`] is the mechanism: `keygen`, `encaps` and `decaps`, the
//!   encodings of its keys, and the laws that tie the three together.
//! * [`elgamal_pke`] is the encryption scheme underneath.
//! * [`scalar`] and [`montgomery`] hold scalars and points as byte strings
//!   and say what the curve arithmetic of `curve25519_dalek` returns.
//! * [`utils`] holds the hash (SHAKE128 of `sha3`), the stream transform
//!   (ChaCha20 of `chacha20`), the randomness source (`rand`) and
//!   hexadecimal transcoding.
//! * [`kem`] and [`pke`] generate keys in the X25519 convention of
//!   `x25519_dalek`, whose secrets are raw bytes that are clamped at use.
//!   Such keys are not interchangeable with those of [`fo_kem`], whose
//!   secret is a reduced scalar.
//!
//! Every function is verified against its contract. The arithmetic of the
//! outside crates is not: each call into them stands in a small function
//! whose contract is believed, and whose documentation says what is claimed.

pub mod elgamal_pke;
pub mod error;
pub mod fo_kem;
pub mod kem;
pub mod montgomery;
pub mod pke;
pub mod scalar;
pub mod utils;
