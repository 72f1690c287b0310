//! Secret keys for encapsulation under X25519 keys: the X25519 secret, a
//! seed for rejection keys, and the public key with its hash.

use crate::fo_kem::{public_key_hash, KeyMaterial};
use crate::pke::keygen::{public_key, x25519_public_key};
use crate::utils::{hash, join, random_bytes};
use vstd::prelude::*;

verus! {

/// The public key and its hash are those of the X25519 secret.
pub open spec fn is_x25519_key(key: KeyMaterial) -> bool {
    &&& key.public_key == x25519_public_key(key.dh_secret)
    &&& key.public_key_hash == public_key_hash(key.public_key)
}

/// An X25519 secret with what decapsulation needs beside it: in order, the
/// secret, the rejection seed, the public key and the hash of the public key.
pub struct StaticSecret([u8; 32], [u8; 32], [u8; 32], [u8; 32]);

impl View for StaticSecret {
    type V = KeyMaterial;

    closed spec fn view(&self) -> KeyMaterial {
        KeyMaterial {
            dh_secret: self.0@,
            seed: self.1@,
            public_key: self.2@,
            public_key_hash: self.3@,
        }
    }
}

impl StaticSecret {
    /// The 128-byte encoding: the four parts in order, 32 bytes each.
    pub fn as_bytes(&self) -> (bytes: [u8; 128])
        ensures
            bytes@ == self@.encoding(),
    {
        let front: [u8; 64] = join(&self.0, &self.1);
        let back: [u8; 64] = join(&self.2, &self.3);
        let bytes: [u8; 128] = join(&front, &back);
        assert(bytes@ =~= self@.encoding());
        bytes
    }
}

/// Completes a key pair from its two secrets: computes the X25519 public key
/// of `secret` and the hash of that public key.
pub fn keygen_derand(secret: [u8; 32], seed: [u8; 32]) -> (keys: ([u8; 32], StaticSecret))
    ensures
        keys.0@ == keys.1@.public_key,
        keys.1@.dh_secret == secret@,
        keys.1@.seed == seed@,
        is_x25519_key(keys.1@),
{
    let pk = public_key(&secret);
    let pkh = hash::<32>(&pk);
    (pk, StaticSecret(secret, seed, pk, pkh))
}

/// Generates a key pair from fresh randomness.
pub fn keygen() -> (keys: ([u8; 32], StaticSecret))
    ensures
        keys.0@ == keys.1@.public_key,
        is_x25519_key(keys.1@),
{
    let (pk, sk) = crate::pke::keygen::keygen();
    let s = random_bytes::<32>();
    let pkh = hash::<32>(&pk);
    (pk, StaticSecret(sk, s, pk, pkh))
}

} // verus!
