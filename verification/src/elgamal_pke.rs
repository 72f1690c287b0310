//! ElGamal-style public-key encryption on the Montgomery form of Curve25519.
//!
//! A message is hidden under the keystream of a symmetric key hashed from a
//! Diffie-Hellman point. The scheme resists passive attackers only; the
//! key-encapsulation module builds on it.

use crate::error::Error;
use crate::montgomery::{
    basepoint, montgomery_mul, multiples_commute, scalar_mul, x25519_basepoint,
};
use crate::scalar::{is_canonical, Scalar};
use crate::utils::{
    encrypt, hash, lemma_stream_xor_involution, shake128, stream_xor, subarray, MAX_STREAM_LEN,
};
use vstd::prelude::*;

verus! {

/// What a ciphertext holds: the u-coordinate of the sender's ephemeral point
/// and the message under the keystream.
pub struct Ciphertext {
    pub ephemeral: Seq<u8>,
    pub payload: Seq<u8>,
}

impl Ciphertext {
    /// The byte encoding: the ephemeral point, then the payload.
    pub open spec fn encoding(self) -> Seq<u8> {
        self.ephemeral + self.payload
    }
}

/// `public_key` is the public point of the canonical scalar `secret_key`, and
/// whatever another party derives from it, the owner derives from that
/// party's public point.
pub open spec fn is_key_pair(public_key: Seq<u8>, secret_key: Seq<u8>) -> bool {
    &&& is_canonical(secret_key)
    &&& public_key == montgomery_mul(secret_key, basepoint())
    &&& multiples_commute(secret_key, basepoint(), public_key)
}

/// The symmetric key that both sides hash from the shared point.
pub open spec fn symmetric_key(shared_point: Seq<u8>) -> Seq<u8> {
    shake128(shared_point, 32)
}

/// The ciphertext of `plaintext` for `public_key` under the ephemeral scalar
/// `randomness`.
pub open spec fn encrypted(plaintext: Seq<u8>, public_key: Seq<u8>, randomness: Seq<u8>)
    -> Ciphertext {
    Ciphertext {
        ephemeral: montgomery_mul(randomness, basepoint()),
        payload: stream_xor(plaintext, symmetric_key(montgomery_mul(randomness, public_key))),
    }
}

/// What the holder of `secret_key` reads out of `ciphertext`.
pub open spec fn decrypted(ciphertext: Ciphertext, secret_key: Seq<u8>) -> Seq<u8> {
    stream_xor(
        ciphertext.payload,
        symmetric_key(montgomery_mul(secret_key, ciphertext.ephemeral)),
    )
}

/// Decryption undoes encryption: under a key pair, any message encrypted
/// with any ephemeral scalar decrypts to itself.
pub proof fn lemma_decrypt_inverts_encrypt(
    plaintext: Seq<u8>,
    public_key: Seq<u8>,
    secret_key: Seq<u8>,
    randomness: Seq<u8>,
)
    requires
        is_key_pair(public_key, secret_key),
        is_canonical(randomness),
    ensures
        decrypted(encrypted(plaintext, public_key, randomness), secret_key) == plaintext,
{
    let sender_point = montgomery_mul(randomness, public_key);
    let receiver_point = montgomery_mul(secret_key, montgomery_mul(randomness, basepoint()));
    assert(sender_point == receiver_point);
    lemma_stream_xor_involution(plaintext, symmetric_key(sender_point));
}

/// An ephemeral point together with a payload of `N` bytes.
pub struct ElGamalCiphertext<const N: usize>([u8; 32], [u8; N]);

/// A message of exactly `N` bytes.
pub struct ElGamalPlaintext<const N: usize>([u8; N]);

impl<const N: usize> View for ElGamalCiphertext<N> {
    type V = Ciphertext;

    closed spec fn view(&self) -> Ciphertext {
        Ciphertext { ephemeral: self.0@, payload: self.1@ }
    }
}

impl<const N: usize> View for ElGamalPlaintext<N> {
    type V = Seq<u8>;

    closed spec fn view(&self) -> Seq<u8> {
        self.0@
    }
}

impl<const N: usize> ElGamalCiphertext<N> {
    /// The two parts always have their fixed lengths.
    pub proof fn lemma_lengths(self)
        ensures
            self@.ephemeral.len() == 32,
            self@.payload.len() == N,
            self@.encoding().len() == N + 32,
    {
    }

    /// Ciphertexts with the same encoding are the same.
    pub proof fn lemma_encoding_is_injective(self, other: Self)
        requires
            self@.encoding() == other@.encoding(),
        ensures
            self@ == other@,
    {
        assert(self@.ephemeral =~= self@.encoding().subrange(0, 32));
        assert(other@.ephemeral =~= other@.encoding().subrange(0, 32));
        assert(self@.payload =~= self@.encoding().subrange(32, N + 32));
        assert(other@.payload =~= other@.encoding().subrange(32, N + 32));
    }

    /// The encoding: 32 bytes of ephemeral point, then the `N` bytes of
    /// payload.
    pub fn as_bytes(&self) -> (bytes: Vec<u8>)
        ensures
            bytes@ == self@.encoding(),
            bytes@.len() == N + 32,
    {
        let mut bytes: Vec<u8> = Vec::new();
        let mut i: usize = 0;
        while i < 32
            invariant
                i <= 32,
                bytes@ == self.0@.subrange(0, i as int),
            decreases 32 - i,
        {
            bytes.push(self.0[i]);
            i = i + 1;
            assert(bytes@ =~= self.0@.subrange(0, i as int));
        }
        assert(bytes@ =~= self.0@);
        let mut j: usize = 0;
        while j < N
            invariant
                j <= N,
                bytes@ == self.0@ + self.1@.subrange(0, j as int),
            decreases N - j,
        {
            bytes.push(self.1[j]);
            j = j + 1;
            assert(bytes@ =~= self.0@ + self.1@.subrange(0, j as int));
        }
        assert(bytes@ =~= self.0@ + self.1@);
        bytes
    }

    /// Decodes a ciphertext, which succeeds exactly on inputs of `N + 32`
    /// bytes.
    pub fn from_bytes(bytes: &[u8]) -> (result: Result<Self, Error>)
        ensures
            result is Ok <==> bytes@.len() == N + 32,
            result matches Ok(ciphertext) ==> ciphertext@.encoding() == bytes@,
            result matches Err(error) ==> error == Error::InvalidLength,
    {
        let len = bytes.len();
        if len < 32 || len - 32 != N {
            return Err(Error::InvalidLength);
        }
        let ephemeral: [u8; 32] = subarray(bytes, 0);
        let payload: [u8; N] = subarray(bytes, 32);
        assert(bytes@ =~= ephemeral@ + payload@);
        Ok(ElGamalCiphertext(ephemeral, payload))
    }

    /// Compares two ciphertexts byte by byte without stopping at the first
    /// difference, and returns 1 if they are equal and 0 if not. No branch
    /// depends on what the ciphertexts hold.
    pub fn ct_eq(&self, other: &Self) -> (same: u8)
        ensures
            same == (if self@ == other@ { 1u8 } else { 0u8 }),
    {
        let mut difference: u8 = 0;
        let mut i: usize = 0;
        assert(self.0@.subrange(0, 0) =~= other.0@.subrange(0, 0));
        while i < 32
            invariant
                i <= 32,
                difference == 0 <==> self.0@.subrange(0, i as int) == other.0@.subrange(
                    0,
                    i as int,
                ),
            decreases 32 - i,
        {
            let a = self.0[i];
            let b = other.0[i];
            let seen = difference;
            difference = difference | (a ^ b);
            i = i + 1;
            proof {
                assert((seen | (a ^ b)) == 0 <==> seen == 0 && a == b) by (bit_vector);
                lemma_prefix_equality(self.0@, other.0@, i as int);
            }
        }
        assert(self.0@.subrange(0, 32) =~= self.0@);
        assert(other.0@.subrange(0, 32) =~= other.0@);
        let mut j: usize = 0;
        assert(self.1@.subrange(0, 0) =~= other.1@.subrange(0, 0));
        while j < N
            invariant
                j <= N,
                difference == 0 <==> self.0@ == other.0@ && self.1@.subrange(0, j as int)
                    == other.1@.subrange(0, j as int),
            decreases N - j,
        {
            let a = self.1[j];
            let b = other.1[j];
            let seen = difference;
            difference = difference | (a ^ b);
            j = j + 1;
            proof {
                assert((seen | (a ^ b)) == 0 <==> seen == 0 && a == b) by (bit_vector);
                lemma_prefix_equality(self.1@, other.1@, j as int);
            }
        }
        assert(self.1@.subrange(0, N as int) =~= self.1@);
        assert(other.1@.subrange(0, N as int) =~= other.1@);
        assert(difference == 0 <==> self@ == other@);
        let widened: u16 = difference as u16 + 0xff;
        let carry: u16 = widened >> 8;
        assert(carry == (if widened < 0x100 { 0u16 } else { 1u16 })) by (bit_vector)
            requires
                widened <= 0x1fe,
                carry == widened >> 8,
        ;
        (1 - carry) as u8
    }
}

/// Two sequences agree on their first `n` elements exactly if they agree on
/// the first `n - 1` and on the one after.
proof fn lemma_prefix_equality(a: Seq<u8>, b: Seq<u8>, n: int)
    requires
        0 < n <= a.len(),
        n <= b.len(),
    ensures
        a.subrange(0, n) == b.subrange(0, n) <==> a.subrange(0, n - 1) == b.subrange(0, n - 1)
            && a[n - 1] == b[n - 1],
{
    if a.subrange(0, n) == b.subrange(0, n) {
        assert(a.subrange(0, n - 1) =~= a.subrange(0, n).subrange(0, n - 1));
        assert(b.subrange(0, n - 1) =~= b.subrange(0, n).subrange(0, n - 1));
        assert(a[n - 1] == a.subrange(0, n)[n - 1]);
        assert(b[n - 1] == b.subrange(0, n)[n - 1]);
    }
    if a.subrange(0, n - 1) == b.subrange(0, n - 1) && a[n - 1] == b[n - 1] {
        assert(a.subrange(0, n) =~= a.subrange(0, n - 1).push(a[n - 1]));
        assert(b.subrange(0, n) =~= b.subrange(0, n - 1).push(b[n - 1]));
    }
}

impl<const N: usize> ElGamalPlaintext<N> {
    /// The bytes of the message.
    pub fn as_bytes(&self) -> (bytes: [u8; N])
        ensures
            bytes@ == self@,
    {
        self.0
    }

    /// The message that consists of `bytes`.
    pub fn from_bytes(bytes: [u8; N]) -> (plaintext: Self)
        ensures
            plaintext@ == bytes@,
    {
        ElGamalPlaintext(bytes)
    }
}

/// The public point that belongs to `secret_key`.
pub fn public_key(secret_key: &Scalar) -> (public_key: [u8; 32])
    ensures
        is_key_pair(public_key@, secret_key@),
{
    proof {
        use_type_invariant(secret_key);
    }
    scalar_mul(secret_key, &x25519_basepoint())
}

/// Draws a secret scalar at random and returns it after its public point.
pub fn keygen() -> (keys: ([u8; 32], Scalar))
    ensures
        is_key_pair(keys.0@, keys.1@),
{
    let secret_key = Scalar::random();
    let public_key = public_key(&secret_key);
    (public_key, secret_key)
}

/// Encrypts `plaintext` for the holder of `public_key`. The result is a
/// function of the three arguments; `randomness` must not be used for a
/// second message.
pub fn encaps<const N: usize>(
    plaintext: &ElGamalPlaintext<N>,
    public_key: &[u8; 32],
    randomness: &Scalar,
) -> (ciphertext: ElGamalCiphertext<N>)
    requires
        N <= MAX_STREAM_LEN,
    ensures
        ciphertext@ == encrypted(plaintext@, public_key@, randomness@),
{
    let shared_secret = scalar_mul(randomness, public_key);
    let symmetric_key = hash::<32>(&shared_secret);
    let payload = encrypt(&plaintext.0, &symmetric_key);
    let ephemeral = scalar_mul(randomness, &x25519_basepoint());
    ElGamalCiphertext(ephemeral, payload)
}

/// Decrypts `ciphertext` with `secret_key`. Every ciphertext decrypts to
/// something: nothing is checked here.
pub fn decaps<const N: usize>(ciphertext: &ElGamalCiphertext<N>, secret_key: &Scalar) -> (plaintext:
    ElGamalPlaintext<N>)
    requires
        N <= MAX_STREAM_LEN,
    ensures
        plaintext@ == decrypted(ciphertext@, secret_key@),
{
    let shared_secret = scalar_mul(secret_key, &ciphertext.0);
    let symmetric_key = hash::<32>(&shared_secret);
    ElGamalPlaintext(encrypt(&ciphertext.1, &symmetric_key))
}

} // verus!
