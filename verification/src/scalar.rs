//! Scalars of the prime-order group of Curve25519, held as their canonical
//! 32-byte little-endian encodings.
//!
//! The arithmetic itself is done by `curve25519_dalek`; this module states in
//! plain integer terms what that arithmetic returns and proves the facts about
//! encodings that the rest of the library relies on.

use vstd::prelude::*;

verus! {

/// The order of the group: `2^252 + 27742317777372353535851937790883648493`.
pub open spec fn group_order() -> nat {
    0x1000000000000000000000000000000014def9dea2f79cd65812631a5cf5d3ednat
}

/// `256^n`.
pub open spec fn pow256(n: nat) -> nat
    decreases n,
{
    if n == 0 {
        1
    } else {
        256 * pow256((n - 1) as nat)
    }
}

/// The integer that `bytes` encodes, least significant byte first.
pub open spec fn le_value(bytes: Seq<u8>) -> nat
    decreases bytes.len(),
{
    if bytes.len() == 0 {
        0
    } else {
        bytes[0] as nat + 256 * le_value(bytes.drop_first())
    }
}

/// The `len` least significant bytes of `value`, least significant first.
pub open spec fn le_bytes(value: nat, len: nat) -> Seq<u8>
    decreases len,
{
    if len == 0 {
        Seq::empty()
    } else {
        seq![(value % 256) as u8] + le_bytes(value / 256, (len - 1) as nat)
    }
}

/// A scalar encoding is canonical when it is 32 bytes long and encodes an
/// integer below the group order.
pub open spec fn is_canonical(bytes: Seq<u8>) -> bool {
    bytes.len() == 32 && le_value(bytes) < group_order()
}

/// The canonical encoding of the integer that `bytes` encodes, taken modulo
/// the group order.
pub open spec fn reduce(bytes: Seq<u8>) -> Seq<u8> {
    le_bytes(le_value(bytes) % group_order(), 32)
}

/// An encoding has as many bytes as were asked for.
pub proof fn lemma_le_bytes_len(value: nat, len: nat)
    ensures
        le_bytes(value, len).len() == len,
    decreases len,
{
    if len > 0 {
        lemma_le_bytes_len(value / 256, (len - 1) as nat);
    }
}

/// Encoding an integer that fits in `len` bytes loses nothing.
pub proof fn lemma_le_value_of_le_bytes(value: nat, len: nat)
    requires
        value < pow256(len),
    ensures
        le_value(le_bytes(value, len)) == value,
    decreases len,
{
    if len > 0 {
        let rest = le_bytes(value / 256, (len - 1) as nat);
        let bytes = le_bytes(value, len);
        lemma_le_bytes_len(value / 256, (len - 1) as nat);
        lemma_le_value_of_le_bytes(value / 256, (len - 1) as nat);
        assert(bytes.drop_first() =~= rest);
        assert(bytes[0] == (value % 256) as u8);
    }
}

/// An encoding is determined by its length and the integer it encodes.
pub proof fn lemma_le_bytes_of_le_value(bytes: Seq<u8>)
    ensures
        le_bytes(le_value(bytes), bytes.len()) == bytes,
    decreases bytes.len(),
{
    if bytes.len() > 0 {
        let rest = bytes.drop_first();
        lemma_le_bytes_of_le_value(rest);
        assert(le_value(bytes) % 256 == bytes[0] as nat);
        assert(le_value(bytes) / 256 == le_value(rest));
        assert(bytes =~= seq![bytes[0]] + rest);
    } else {
        assert(bytes =~= Seq::empty());
    }
}

/// The group order fits in 32 bytes.
pub proof fn lemma_group_order_fits()
    ensures
        group_order() < pow256(32),
{
    reveal_with_fuel(pow256, 33);
}

/// Reduction always gives a canonical encoding.
pub proof fn lemma_reduce_is_canonical(bytes: Seq<u8>)
    ensures
        is_canonical(reduce(bytes)),
        le_value(reduce(bytes)) == le_value(bytes) % group_order(),
{
    let v = le_value(bytes) % group_order();
    lemma_group_order_fits();
    lemma_le_bytes_len(v, 32);
    lemma_le_value_of_le_bytes(v, 32);
}

/// Reduction leaves a canonical encoding as it is.
pub proof fn lemma_reduce_of_canonical(bytes: Seq<u8>)
    requires
        is_canonical(bytes),
    ensures
        reduce(bytes) == bytes,
{
    lemma_le_bytes_of_le_value(bytes);
}

/// `curve25519_dalek::Scalar::from_bytes_mod_order`, which reads `bytes` as a
/// 256-bit little-endian integer and reduces it modulo the group order. The
/// contract states that the bytes handed back are the canonical encoding of
/// that remainder.
#[verifier::external_body]
fn scalar_from_bytes_mod_order(bytes: &[u8; 32]) -> (out: [u8; 32])
    ensures
        out@ == reduce(bytes@),
{
    curve25519_dalek::Scalar::from_bytes_mod_order(*bytes).to_bytes()
}

/// `curve25519_dalek::Scalar::random`, drawing from `rand::thread_rng()`. It
/// reduces 64 fresh bytes modulo the group order, so all that is claimed of
/// the outcome is that it is canonical. It panics only if the operating
/// system cannot seed the generator.
#[verifier::external_body]
fn scalar_random() -> (out: [u8; 32])
    ensures
        is_canonical(out@),
{
    curve25519_dalek::Scalar::random(&mut rand::thread_rng()).to_bytes()
}

/// An element of the integers modulo the group order.
#[derive(Clone, Copy)]
pub struct Scalar {
    bytes: [u8; 32],
}

impl View for Scalar {
    type V = Seq<u8>;

    /// The canonical little-endian encoding.
    closed spec fn view(&self) -> Seq<u8> {
        self.bytes@
    }
}

impl Scalar {
    /// Every scalar is held in canonical encoding.
    #[verifier::type_invariant]
    pub open spec fn is_reduced(self) -> bool {
        is_canonical(self@)
    }

    /// An encoding always has 32 bytes.
    pub proof fn lemma_length(self)
        ensures
            self@.len() == 32,
    {
    }

    /// Reads `bytes` as a little-endian integer and reduces it modulo the
    /// group order.
    pub fn from_bytes_mod_order(bytes: [u8; 32]) -> (scalar: Scalar)
        ensures
            scalar@ == reduce(bytes@),
            is_canonical(scalar@),
    {
        let reduced = scalar_from_bytes_mod_order(&bytes);
        proof {
            lemma_reduce_is_canonical(bytes@);
        }
        Scalar { bytes: reduced }
    }

    /// A fresh scalar from the thread's random generator.
    pub fn random() -> (scalar: Scalar)
        ensures
            is_canonical(scalar@),
    {
        Scalar { bytes: scalar_random() }
    }

    /// The canonical encoding of this scalar.
    pub fn to_bytes(&self) -> (bytes: [u8; 32])
        ensures
            bytes@ == self@,
            is_canonical(bytes@),
    {
        proof {
            use_type_invariant(self);
        }
        self.bytes
    }
}

} // verus!
