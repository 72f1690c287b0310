//! X25519 key pairs, made by `x25519_dalek`. The secret is 32 bytes as drawn,
//! which X25519 clamps whenever it uses them.

use vstd::prelude::*;

verus! {

/// The X25519 public key of the secret bytes `secret`: the u-coordinate of
/// the base point multiplied by the clamped secret.
pub uninterp spec fn x25519_public_key(secret: Seq<u8>) -> Seq<u8>;

/// `x25519_dalek::StaticSecret::random`, which fills 32 bytes from the
/// operating system's generator and keeps them as they are. Nothing is
/// claimed of them. It panics only if the operating system gives no
/// randomness.
#[verifier::external_body]
fn gen_sk() -> (secret: [u8; 32]) {
    x25519_dalek::StaticSecret::random().to_bytes()
}

/// `PublicKey::from(&StaticSecret)` of `x25519_dalek`, which multiplies the
/// base point by the clamped secret. The public key is a function of the
/// secret bytes alone, and the contract gives it its name. Both `from` on
/// bytes and `to_bytes` only change the type.
#[verifier::external_body]
fn gen_pk(secret: &[u8; 32]) -> (public: [u8; 32])
    ensures
        public@ == x25519_public_key(secret@),
{
    x25519_dalek::PublicKey::from(&x25519_dalek::StaticSecret::from(*secret)).to_bytes()
}

/// The public key that belongs to `secret`.
pub fn public_key(secret: &[u8; 32]) -> (public: [u8; 32])
    ensures
        public@ == x25519_public_key(secret@),
{
    gen_pk(secret)
}

/// Draws a secret at random and returns it after its public key.
pub fn keygen() -> (keys: ([u8; 32], [u8; 32]))
    ensures
        keys.0@ == x25519_public_key(keys.1@),
{
    let sk = gen_sk();
    (gen_pk(&sk), sk)
}

} // verus!
