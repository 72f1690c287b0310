//! Points of Curve25519 in Montgomery form, held as 32-byte u-coordinates, and
//! their multiplication by scalars.
//!
//! The ladder is `curve25519_dalek`'s. What it computes is not written out
//! here: it has a name, [`montgomery_mul`], and the one algebraic fact that
//! key agreement rests on is stated beside it.

use crate::scalar::{is_canonical, Scalar};
use vstd::prelude::*;

verus! {

/// The u-coordinate of `[scalar]P`, where `point` is the u-coordinate of `P`
/// and `scalar` is a canonical scalar encoding; the point at infinity has
/// u-coordinate zero.
pub uninterp spec fn montgomery_mul(scalar: Seq<u8>, point: Seq<u8>) -> Seq<u8>;

/// The u-coordinate of the base point: the integer 9.
pub open spec fn basepoint() -> Seq<u8> {
    Seq::new(32, |i: int| if i == 0 { 9u8 } else { 0u8 })
}

/// Multiplying by `scalar` and by any other scalar can be done in either
/// order: `product`, which is `[scalar]P`, multiplied by `other` is
/// `[other]P` multiplied by `scalar`.
pub open spec fn multiples_commute(scalar: Seq<u8>, point: Seq<u8>, product: Seq<u8>) -> bool {
    forall|other: Seq<u8>|
        is_canonical(other) ==> #[trigger] montgomery_mul(other, product) == montgomery_mul(
            scalar,
            montgomery_mul(other, point),
        )
}

/// `curve25519_dalek::constants::X25519_BASEPOINT`, whose bytes are 9
/// followed by 31 zeros.
#[verifier::external_body]
pub(crate) fn x25519_basepoint() -> (point: [u8; 32])
    ensures
        point@ == basepoint(),
{
    curve25519_dalek::constants::X25519_BASEPOINT.to_bytes()
}

/// `Scalar * MontgomeryPoint` of `curve25519_dalek`, the Montgomery ladder:
/// given the u-coordinate of a point `P` on the curve or its twist and a
/// scalar `n`, it returns the u-coordinate of `[n]P`, where the point at
/// infinity counts as having u-coordinate zero. The contract names that
/// result. It adds that scalar multiples commute, `[m]([n]P) = [n]([m]P)`:
/// a u-coordinate fixes its point up to sign, and shares zero between
/// infinity and the point of order two, none of which a multiple's
/// u-coordinate can tell apart, so both sides are the u-coordinate of
/// `[mn]P`. `from_canonical_bytes` only changes the type: the `requires`
/// rules out the encodings it rejects.
#[verifier::external_body]
fn montgomery_ladder(scalar: &[u8; 32], point: &[u8; 32]) -> (product: [u8; 32])
    requires
        is_canonical(scalar@),
    ensures
        product@ == montgomery_mul(scalar@, point@),
        multiples_commute(scalar@, point@, product@),
{
    let scalar = curve25519_dalek::Scalar::from_canonical_bytes(*scalar).unwrap();
    (scalar * curve25519_dalek::MontgomeryPoint(*point)).to_bytes()
}

/// Multiplies `point` by `scalar`.
pub fn scalar_mul(scalar: &Scalar, point: &[u8; 32]) -> (product: [u8; 32])
    ensures
        product@ == montgomery_mul(scalar@, point@),
        multiples_commute(scalar@, point@, product@),
{
    let bytes = scalar.to_bytes();
    montgomery_ladder(&bytes, point)
}

} // verus!
