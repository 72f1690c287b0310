//! A key-encapsulation mechanism: the Fujisaki-Okamoto transform, with
//! implicit rejection, of the encryption scheme in [`crate::elgamal_pke`].
//!
//! Encapsulation derives both the ephemeral scalar and a key share from a
//! hash of the recipient's public key and a random seed, encrypts the seed,
//! and hashes ciphertext and key share into the shared key. Decapsulation
//! decrypts, derives again, encrypts again and compares: if the ciphertext is
//! the one it would have made itself it returns the same shared key, and if
//! not it returns a key hashed from the ciphertext and a secret seed, so that
//! a forged ciphertext yields a key that tells its sender nothing.

use crate::elgamal_pke::{
    decrypted, encrypted, is_key_pair, lemma_decrypt_inverts_encrypt, public_key, Ciphertext,
    ElGamalCiphertext, ElGamalPlaintext,
};
use crate::scalar::{
    is_canonical, lemma_reduce_is_canonical, lemma_reduce_of_canonical, reduce, Scalar,
};
use crate::utils::{hash, join, random_bytes, shake128, subarray};
use vstd::prelude::*;

verus! {

/// Bytes in a public key.
pub const PUBLIC_KEY_LEN: usize = 32;

/// Bytes in an encoded secret key.
pub const SECRET_LEN: usize = 128;

/// Bytes in the seed that encapsulation encrypts.
pub const PLAINTEXT_LEN: usize = 64;

/// Bytes in an encoded ciphertext.
pub const CIPHERTEXT_LEN: usize = 96;

/// Bytes in a shared key.
pub const SHARED_KEY_LEN: usize = 16;

/// What a secret key holds.
pub struct KeyMaterial {
    /// The Diffie-Hellman secret scalar, in canonical encoding.
    pub dh_secret: Seq<u8>,
    /// The seed from which rejection keys are hashed.
    pub seed: Seq<u8>,
    /// The owner's public key.
    pub public_key: Seq<u8>,
    /// The hash of the owner's public key.
    pub public_key_hash: Seq<u8>,
}

impl KeyMaterial {
    /// The byte encoding: the four parts in order.
    pub open spec fn encoding(self) -> Seq<u8> {
        self.dh_secret + self.seed + self.public_key + self.public_key_hash
    }

    /// The public key and its hash are those of the secret scalar.
    pub open spec fn is_valid(self) -> bool {
        &&& is_key_pair(self.public_key, self.dh_secret)
        &&& self.public_key_hash == public_key_hash(self.public_key)
    }
}

/// The key material that 128 bytes decode to: the first 32 bytes are reduced
/// to a canonical scalar, the rest is cut into three parts of 32 bytes.
pub open spec fn decoded(bytes: Seq<u8>) -> KeyMaterial {
    KeyMaterial {
        dh_secret: reduce(bytes.subrange(0, 32)),
        seed: bytes.subrange(32, 64),
        public_key: bytes.subrange(64, 96),
        public_key_hash: bytes.subrange(96, 128),
    }
}

/// Decoding undoes encoding: key material of four parts of 32 bytes, the
/// first a canonical scalar, is what its own encoding decodes to.
pub proof fn lemma_decoding_inverts_encoding(key: KeyMaterial)
    requires
        is_canonical(key.dh_secret),
        key.seed.len() == 32,
        key.public_key.len() == 32,
        key.public_key_hash.len() == 32,
    ensures
        key.encoding().len() == 128,
        decoded(key.encoding()) == key,
{
    let bytes = key.encoding();
    assert(bytes.subrange(0, 32) =~= key.dh_secret);
    assert(bytes.subrange(32, 64) =~= key.seed);
    assert(bytes.subrange(64, 96) =~= key.public_key);
    assert(bytes.subrange(96, 128) =~= key.public_key_hash);
    lemma_reduce_of_canonical(key.dh_secret);
}

/// The hash of a public key that enters every derivation.
pub open spec fn public_key_hash(public_key: Seq<u8>) -> Seq<u8> {
    shake128(public_key, 32)
}

/// The 64 bytes derived from the hash of the public key and the seed `m`.
pub open spec fn derived(public_key_hash: Seq<u8>, m: Seq<u8>) -> Seq<u8> {
    shake128(public_key_hash + m, 64)
}

/// The ephemeral scalar: the first half of the derived bytes, reduced.
pub open spec fn derived_scalar(public_key_hash: Seq<u8>, m: Seq<u8>) -> Seq<u8> {
    reduce(derived(public_key_hash, m).subrange(0, 32))
}

/// The key share: the second half of the derived bytes.
pub open spec fn derived_share(public_key_hash: Seq<u8>, m: Seq<u8>) -> Seq<u8> {
    derived(public_key_hash, m).subrange(32, 64)
}

/// The message whose digest is a shared key: the encoded ciphertext, then a
/// key share or a rejection seed.
pub open spec fn key_input(ciphertext: Ciphertext, share: Seq<u8>) -> Seq<u8> {
    ciphertext.encoding() + share
}

/// The shared key for a ciphertext and a key share or rejection seed.
pub open spec fn shared_key(ciphertext: Ciphertext, share: Seq<u8>) -> Seq<u8> {
    shake128(key_input(ciphertext, share), 16)
}

/// The ciphertext that the seed `m` determines for the key with hash
/// `public_key_hash`.
pub open spec fn sealed(public_key: Seq<u8>, public_key_hash: Seq<u8>, m: Seq<u8>) -> Ciphertext {
    encrypted(m, public_key, derived_scalar(public_key_hash, m))
}

/// The ciphertext of an encapsulation to `public_key` with seed `m`.
pub open spec fn encaps_ciphertext(public_key: Seq<u8>, m: Seq<u8>) -> Ciphertext {
    sealed(public_key, public_key_hash(public_key), m)
}

/// The shared key of an encapsulation to `public_key` with seed `m`.
pub open spec fn encaps_key(public_key: Seq<u8>, m: Seq<u8>) -> Seq<u8> {
    shared_key(encaps_ciphertext(public_key, m), derived_share(public_key_hash(public_key), m))
}

/// Whether `ciphertext` is the one that the key's owner would have made from
/// the seed it decrypts to.
pub open spec fn accepts(key: KeyMaterial, ciphertext: Ciphertext) -> bool {
    sealed(key.public_key, key.public_key_hash, decrypted(ciphertext, key.dh_secret))
        == ciphertext
}

/// What decapsulation hashes after the ciphertext: the key share derived
/// from the decrypted seed where the ciphertext is accepted, and the secret
/// seed where it is not.
pub open spec fn answering_share(key: KeyMaterial, ciphertext: Ciphertext) -> Seq<u8> {
    if accepts(key, ciphertext) {
        derived_share(key.public_key_hash, decrypted(ciphertext, key.dh_secret))
    } else {
        key.seed
    }
}

/// The key that decapsulation returns.
pub open spec fn decapsulated(key: KeyMaterial, ciphertext: Ciphertext) -> Seq<u8> {
    shared_key(ciphertext, answering_share(key, ciphertext))
}

/// Decapsulation recovers the encapsulated key: for a valid secret key and
/// any seed, decapsulating the ciphertext of an encapsulation to the key's
/// public key gives the shared key of that encapsulation.
pub proof fn lemma_round_trip(key: KeyMaterial, m: Seq<u8>)
    requires
        key.is_valid(),
    ensures
        accepts(key, encaps_ciphertext(key.public_key, m)),
        decapsulated(key, encaps_ciphertext(key.public_key, m)) == encaps_key(key.public_key, m),
{
    let randomness = derived_scalar(key.public_key_hash, m);
    lemma_reduce_is_canonical(derived(key.public_key_hash, m).subrange(0, 32));
    lemma_decrypt_inverts_encrypt(m, key.public_key, key.dh_secret, randomness);
}

/// A ciphertext that is not accepted is answered with a key that depends on
/// nothing but the ciphertext and the secret seed, so the same ciphertext is
/// answered with the same key every time.
pub proof fn lemma_rejection(key: KeyMaterial, ciphertext: Ciphertext)
    requires
        !accepts(key, ciphertext),
    ensures
        decapsulated(key, ciphertext) == shake128(ciphertext.encoding() + key.seed, 16),
{
}

/// Changing a ciphertext changes the message whose digest is the key: two
/// different ciphertexts never give the same message, whatever key share or
/// seed follows each. So the key that answers a tampered ciphertext, accepted
/// or not, equals the encapsulated key only if SHAKE128 maps two different
/// messages to the same 16 bytes.
pub proof fn lemma_tampering_changes_key_input<const N: usize>(
    sent: ElGamalCiphertext<N>,
    tampered: ElGamalCiphertext<N>,
    share: Seq<u8>,
    answer: Seq<u8>,
)
    requires
        tampered@ != sent@,
    ensures
        key_input(tampered@, answer) != key_input(sent@, share),
{
    let x = key_input(tampered@, answer);
    let y = key_input(sent@, share);
    sent.lemma_lengths();
    tampered.lemma_lengths();
    if x == y {
        assert(tampered@.encoding() =~= x.subrange(0, N + 32));
        assert(sent@.encoding() =~= y.subrange(0, N + 32));
        sent.lemma_encoding_is_injective(tampered);
    }
}

/// A ciphertext other than the one that was sent is answered, accepted or
/// not, with the digest of a message other than the one whose digest is the
/// encapsulated key.
pub proof fn lemma_tampered_answer(
    key: KeyMaterial,
    m: Seq<u8>,
    sent: ElGamalCiphertext<PLAINTEXT_LEN>,
    tampered: ElGamalCiphertext<PLAINTEXT_LEN>,
)
    requires
        sent@ == encaps_ciphertext(key.public_key, m),
        tampered@ != sent@,
    ensures
        ({
            let answered = key_input(tampered@, answering_share(key, tampered@));
            let encapsulated = key_input(
                sent@,
                derived_share(public_key_hash(key.public_key), m),
            );
            &&& answered != encapsulated
            &&& decapsulated(key, tampered@) == shake128(answered, 16)
            &&& encaps_key(key.public_key, m) == shake128(encapsulated, 16)
        }),
{
    lemma_tampering_changes_key_input(
        sent,
        tampered,
        derived_share(public_key_hash(key.public_key), m),
        answering_share(key, tampered@),
    );
}

/// The secret key of a recipient.
pub struct SecretKey {
    sk: Scalar,
    s: [u8; 32],
    pk: [u8; 32],
    pkh: [u8; 32],
}

impl View for SecretKey {
    type V = KeyMaterial;

    closed spec fn view(&self) -> KeyMaterial {
        KeyMaterial {
            dh_secret: self.sk@,
            seed: self.s@,
            public_key: self.pk@,
            public_key_hash: self.pkh@,
        }
    }
}

impl SecretKey {
    /// Each of the four parts always has 32 bytes.
    pub proof fn lemma_lengths(self)
        ensures
            self@.dh_secret.len() == 32,
            self@.seed.len() == 32,
            self@.public_key.len() == 32,
            self@.public_key_hash.len() == 32,
            self@.encoding().len() == 128,
    {
        assert(self.sk@.len() == 32) by {
            self.sk.lemma_length();
        }
    }

    /// The 128-byte encoding: secret scalar, seed, public key and hash of
    /// the public key, 32 bytes each. Decoding it gives this key back.
    pub fn as_bytes(&self) -> (bytes: [u8; SECRET_LEN])
        ensures
            bytes@ == self@.encoding(),
            decoded(bytes@) == self@,
    {
        let secret = self.sk.to_bytes();
        let front: [u8; 64] = join(&secret, &self.s);
        let back: [u8; 64] = join(&self.pk, &self.pkh);
        let bytes: [u8; 128] = join(&front, &back);
        proof {
            assert(bytes@ =~= self@.encoding());
            lemma_decoding_inverts_encoding(self@);
        }
        bytes
    }

    /// Decodes a secret key. The first 32 bytes are reduced to a scalar; the
    /// other three parts are taken as they are, and nothing checks that
    /// they belong together.
    pub fn from_bytes(bytes: [u8; SECRET_LEN]) -> (key: Self)
        ensures
            key@ == decoded(bytes@),
    {
        SecretKey {
            sk: Scalar::from_bytes_mod_order(subarray(&bytes, 0)),
            s: subarray(&bytes, 32),
            pk: subarray(&bytes, 64),
            pkh: subarray(&bytes, 96),
        }
    }
}

/// Selects between two keys by arithmetic alone: the result is `k0` where
/// `condition` is 1 and `k1` where it is 0, and no branch depends on
/// `condition`.
pub fn select<const N: usize>(condition: u8, k0: &[u8; N], k1: &[u8; N]) -> (key: [u8; N])
    requires
        condition <= 1,
    ensures
        condition == 1 ==> key@ == k0@,
        condition == 0 ==> key@ == k1@,
{
    let mut key = [0u8; N];
    let mut i: usize = 0;
    while i < N
        invariant
            i <= N,
            condition <= 1,
            forall|j: int| 0 <= j < i ==> key@[j] == (if condition == 1 { k0@[j] } else { k1@[j] }),
        decreases N - i,
    {
        let a = k0[i];
        let b = k1[i];
        assert(a * condition == (if condition == 1 { a as int } else { 0 })) by (nonlinear_arith)
            requires
                condition <= 1,
        ;
        assert(b * (1 - condition) == (if condition == 1 { 0 } else { b as int }))
            by (nonlinear_arith)
            requires
                condition <= 1,
        ;
        key[i] = a * condition + b * (1 - condition);
        i = i + 1;
    }
    assert(condition == 1 ==> key@ =~= k0@);
    assert(condition == 0 ==> key@ =~= k1@);
    key
}

/// Puts a secret key together from a key pair and a seed, hashing the
/// public key.
fn assemble(public_key: [u8; PUBLIC_KEY_LEN], dh_secret: Scalar, seed: [u8; 32]) -> (keys: (
    [u8; PUBLIC_KEY_LEN],
    SecretKey,
))
    requires
        is_key_pair(public_key@, dh_secret@),
    ensures
        keys.0@ == public_key@,
        keys.1@.public_key == public_key@,
        keys.1@.dh_secret == dh_secret@,
        keys.1@.seed == seed@,
        keys.1@.is_valid(),
{
    let pkh = hash::<32>(&public_key);
    (public_key, SecretKey { sk: dh_secret, s: seed, pk: public_key, pkh })
}

/// Completes a key pair from its two secrets: computes the public key of
/// `dh_secret` and the hash of that public key.
pub fn keygen_derand(dh_secret: Scalar, seed: [u8; 32]) -> (keys: (
    [u8; PUBLIC_KEY_LEN],
    SecretKey,
))
    ensures
        keys.0@ == keys.1@.public_key,
        keys.1@.dh_secret == dh_secret@,
        keys.1@.seed == seed@,
        keys.1@.is_valid(),
{
    let pk = public_key(&dh_secret);
    assemble(pk, dh_secret, seed)
}

/// Generates a key pair: a fresh key pair of the encryption scheme and a
/// fresh seed, drawn independently of it.
pub fn keygen() -> (keys: ([u8; PUBLIC_KEY_LEN], SecretKey))
    ensures
        keys.0@ == keys.1@.public_key,
        keys.1@.is_valid(),
{
    let (pk, sk) = crate::elgamal_pke::keygen();
    let s = random_bytes::<32>();
    assemble(pk, sk, s)
}

/// Encapsulates to `public_key` with the seed `m`: the ciphertext and the
/// shared key are functions of the two.
pub fn encaps_derand(
    public_key: &[u8; PUBLIC_KEY_LEN],
    m: &ElGamalPlaintext<PLAINTEXT_LEN>,
) -> (out: (ElGamalCiphertext<PLAINTEXT_LEN>, [u8; SHARED_KEY_LEN]))
    ensures
        out.0@ == encaps_ciphertext(public_key@, m@),
        out.1@ == encaps_key(public_key@, m@),
{
    let pkh = hash::<32>(public_key);
    let h1: [u8; 96] = join(&pkh, &m.as_bytes());
    let rk = hash::<64>(&h1);
    let r = Scalar::from_bytes_mod_order(subarray(&rk, 0));
    let k: [u8; 32] = subarray(&rk, 32);

    let c = crate::elgamal_pke::encaps(m, public_key, &r);

    let d: [u8; 128] = join(c.as_bytes().as_slice(), &k);
    let shared_key = hash::<16>(&d);
    (c, shared_key)
}

/// Encapsulates to `public_key` with a fresh random seed, and returns the
/// ciphertext and the shared key.
pub fn encaps(public_key: &[u8; PUBLIC_KEY_LEN]) -> (out: (
    ElGamalCiphertext<PLAINTEXT_LEN>,
    [u8; SHARED_KEY_LEN],
))
    ensures
        exists|m: Seq<u8>|
            m.len() == 64 && out.0@ == #[trigger] encaps_ciphertext(public_key@, m) && out.1@
                == encaps_key(public_key@, m),
{
    let m = ElGamalPlaintext::from_bytes(random_bytes::<64>());
    let out = encaps_derand(public_key, &m);
    assert(m@.len() == 64 && out.0@ == encaps_ciphertext(public_key@, m@));
    out
}

/// Decapsulates `ciphertext`. Every ciphertext is answered with a key, and
/// neither the answer's shape nor the path taken tells whether the
/// ciphertext was accepted. Under a valid secret key, the ciphertext of an
/// encapsulation to the key's public key is answered with the key that was
/// encapsulated.
pub fn decaps(secret_key: &SecretKey, ciphertext: ElGamalCiphertext<PLAINTEXT_LEN>) -> (key: [
    u8;
    SHARED_KEY_LEN
])
    ensures
        key@ == decapsulated(secret_key@, ciphertext@),
        secret_key@.is_valid() ==> forall|m: Seq<u8>|
            ciphertext@ == #[trigger] encaps_ciphertext(secret_key@.public_key, m) ==> key@
                == encaps_key(secret_key@.public_key, m),
{
    proof {
        if secret_key@.is_valid() {
            assert forall|m: Seq<u8>|
                ciphertext@ == #[trigger] encaps_ciphertext(
                    secret_key@.public_key,
                    m,
                ) implies decapsulated(secret_key@, ciphertext@) == encaps_key(
                secret_key@.public_key,
                m,
            ) by {
                lemma_round_trip(secret_key@, m);
            }
        }
    }
    let m = crate::elgamal_pke::decaps(&ciphertext, &secret_key.sk);

    let h1: [u8; 96] = join(&secret_key.pkh, &m.as_bytes());
    let rk = hash::<64>(&h1);
    let r = Scalar::from_bytes_mod_order(subarray(&rk, 0));
    let k: [u8; 32] = subarray(&rk, 32);

    let encoded = ciphertext.as_bytes();
    let d0: [u8; 128] = join(encoded.as_slice(), &k);
    let k_0 = hash::<16>(&d0);
    let d1: [u8; 128] = join(encoded.as_slice(), &secret_key.s);
    let k_1 = hash::<16>(&d1);

    let c = crate::elgamal_pke::encaps(&m, &secret_key.pk, &r);
    let condition = c.ct_eq(&ciphertext);

    select(condition, &k_0, &k_1)
}

} // verus!
