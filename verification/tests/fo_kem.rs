use curve25519_kem::elgamal_pke::{ElGamalCiphertext, ElGamalPlaintext};
use curve25519_kem::error::Error;
use curve25519_kem::fo_kem::{
    decaps, encaps, encaps_derand, keygen, keygen_derand, select, SecretKey, CIPHERTEXT_LEN,
    PLAINTEXT_LEN, PUBLIC_KEY_LEN, SECRET_LEN, SHARED_KEY_LEN,
};
use curve25519_kem::scalar::Scalar;
use curve25519_kem::utils::{hex_decode, hex_encode, is_hex_str, to_array};

const DH_INPUT: [u8; 32] = [
    1, 2, 3, 4, 5, 6, 7, 8, 9, 10, 11, 12, 13, 14, 15, 16, 17, 18, 19, 20, 21, 22, 23, 24, 25, 26,
    27, 28, 29, 30, 31, 32,
];

const SEED: [u8; 32] = [0x55; 32];

const PK: [u8; 32] = [
    0xbc, 0xd6, 0x88, 0x6b, 0xb4, 0x11, 0x99, 0x43, 0xe0, 0xd7, 0x4e, 0xb7, 0x5f, 0xa4, 0x4d, 0x28,
    0xb1, 0x1e, 0x65, 0xd7, 0x8a, 0xa9, 0x8f, 0x94, 0x14, 0x9b, 0xb2, 0x61, 0x17, 0x4f, 0x38, 0x34,
];

const SK: [u8; 128] = [
    0x27, 0x5a, 0x17, 0x4a, 0xd0, 0x3f, 0xe2, 0x57, 0x5c, 0xd0, 0x1b, 0xc6, 0x4f, 0x1a, 0x51, 0xe6,
    0x10, 0x12, 0x13, 0x14, 0x15, 0x16, 0x17, 0x18, 0x19, 0x1a, 0x1b, 0x1c, 0x1d, 0x1e, 0x1f, 0x00,
    0x55, 0x55, 0x55, 0x55, 0x55, 0x55, 0x55, 0x55, 0x55, 0x55, 0x55, 0x55, 0x55, 0x55, 0x55, 0x55,
    0x55, 0x55, 0x55, 0x55, 0x55, 0x55, 0x55, 0x55, 0x55, 0x55, 0x55, 0x55, 0x55, 0x55, 0x55, 0x55,
    0xbc, 0xd6, 0x88, 0x6b, 0xb4, 0x11, 0x99, 0x43, 0xe0, 0xd7, 0x4e, 0xb7, 0x5f, 0xa4, 0x4d, 0x28,
    0xb1, 0x1e, 0x65, 0xd7, 0x8a, 0xa9, 0x8f, 0x94, 0x14, 0x9b, 0xb2, 0x61, 0x17, 0x4f, 0x38, 0x34,
    0xb8, 0x9d, 0x1c, 0xa5, 0xbb, 0xda, 0x58, 0xf7, 0x8c, 0x81, 0x9c, 0x09, 0x6b, 0xa9, 0x2f, 0x47,
    0xd5, 0x12, 0x5e, 0x1b, 0xbc, 0xe9, 0x15, 0x07, 0x6d, 0x60, 0x0f, 0xa6, 0x50, 0x18, 0x0b, 0xcb,
];

const C: [u8; 96] = [
    0x19, 0xb9, 0xf2, 0x39, 0x99, 0x7d, 0xd2, 0x74, 0x84, 0xd4, 0x7d, 0xe9, 0xeb, 0xc7, 0x09, 0x00,
    0xde, 0xc6, 0xc6, 0x34, 0x0c, 0x58, 0x5d, 0x69, 0x40, 0xa4, 0x22, 0xf4, 0xe6, 0x73, 0x85, 0x4f,
    0x74, 0x00, 0x99, 0x68, 0x36, 0x0b, 0x7f, 0xe8, 0x70, 0x8b, 0xc1, 0xe0, 0x3d, 0xce, 0x65, 0x46,
    0x1f, 0xbe, 0x6d, 0x90, 0x01, 0xaf, 0x7c, 0xf8, 0x4c, 0x57, 0x86, 0x76, 0xce, 0x63, 0x10, 0x35,
    0x5d, 0x82, 0x90, 0xb2, 0x7a, 0x9a, 0xca, 0x9c, 0x93, 0x33, 0x23, 0xce, 0x40, 0x58, 0x56, 0x41,
    0x68, 0x44, 0x19, 0x3e, 0xe0, 0x71, 0x2f, 0xde, 0x87, 0xd1, 0x79, 0x69, 0x8d, 0x29, 0x55, 0x2e,
];

const K: [u8; 16] = [
    0x0b, 0x9e, 0x87, 0x10, 0xba, 0x27, 0xc9, 0xd0, 0x8e, 0x4f, 0xaa, 0x56, 0x4d, 0xbd, 0xa5, 0x5c,
];

const K_REJECT_FIRST: [u8; 16] = [
    0xb3, 0x5a, 0xea, 0x5b, 0x98, 0x43, 0x78, 0xcd, 0xa7, 0x6c, 0xf0, 0xa9, 0x2c, 0x74, 0x2f, 0x7a,
];

const K_REJECT_LAST: [u8; 16] = [
    0x4c, 0xfe, 0xf1, 0xe5, 0x2a, 0x8f, 0xfb, 0xb6, 0xcb, 0x8e, 0x1f, 0x74, 0xb9, 0x58, 0x14, 0xbc,
];

fn message() -> ElGamalPlaintext<64> {
    let mut m = [0u8; 64];
    for (i, byte) in m.iter_mut().enumerate() {
        *byte = i as u8;
    }
    ElGamalPlaintext::from_bytes(m)
}

fn ciphertext(bytes: &[u8]) -> ElGamalCiphertext<64> {
    match ElGamalCiphertext::from_bytes(bytes) {
        Ok(c) => c,
        Err(_) => panic!("a 96-byte ciphertext was rejected"),
    }
}

/// Key generation, encapsulation and decapsulation, with every value passed
/// on the way a caller at the command line would: the public key, the
/// ciphertext and the keys as hexadecimal text, the secret key as 128 bytes.
#[test]
fn full_scenario() {
    // generate key pair
    let (pk, sk) = keygen();
    let private_file: Vec<u8> = sk.as_bytes().to_vec();
    let public_key_text = hex_encode(&pk);

    // encapsulate
    assert!(is_hex_str(&public_key_text));
    let public_key: [u8; 32] = to_array(&hex_decode(&public_key_text)).unwrap();
    let (c, k) = encaps(&public_key);
    let ciphertext_text = hex_encode(&c.as_bytes());
    let sym_key_1 = hex_decode(&hex_encode(&k));

    // decapsulate
    let secret_key: [u8; 128] = to_array(&private_file).unwrap();
    assert!(is_hex_str(&ciphertext_text));
    let sym_key = decaps(
        &SecretKey::from_bytes(secret_key),
        ciphertext(&hex_decode(&ciphertext_text)),
    );
    let sym_key_2 = hex_decode(&hex_encode(&sym_key));

    // verify that encapsulation and decapsulation yielded the same symmetric key
    assert!(sym_key_1 == sym_key_2);
}

#[test]
fn end_to_end_keys_agree_and_lengths_are_fixed() {
    let (pk, sk) = keygen();
    let (c, k_enc) = encaps(&pk);
    let encoded = c.as_bytes();
    let k_dec = decaps(&sk, c);
    assert_eq!(k_enc, k_dec);
    assert_eq!(encoded.len(), 96);
    assert_eq!(k_enc.len(), 16);
    assert_eq!(pk.len(), 32);
    assert_eq!(sk.as_bytes().len(), 128);
}

#[test]
fn named_lengths_are_the_fixed_ones() {
    assert_eq!(PUBLIC_KEY_LEN, 32);
    assert_eq!(SECRET_LEN, 128);
    assert_eq!(PLAINTEXT_LEN, 64);
    assert_eq!(CIPHERTEXT_LEN, 96);
    assert_eq!(SHARED_KEY_LEN, 16);
    assert_eq!(CIPHERTEXT_LEN, PUBLIC_KEY_LEN + PLAINTEXT_LEN);
}

#[test]
fn round_trip_holds_for_many_fresh_keys() {
    for _ in 0..16 {
        let (pk, sk) = keygen();
        for _ in 0..4 {
            let (c, k) = encaps(&pk);
            assert_eq!(decaps(&sk, c), k);
        }
    }
}

#[test]
fn flipped_first_byte_gives_another_key() {
    let (pk, sk) = keygen();
    let (c, k_enc) = encaps(&pk);
    let mut c2 = c.as_bytes();
    c2[0] ^= 0x01;
    assert_ne!(decaps(&sk, ciphertext(&c2)), k_enc);
}

#[test]
fn every_single_bit_flip_gives_another_key() {
    let (pk, sk) = keygen_derand(Scalar::from_bytes_mod_order(DH_INPUT), SEED);
    let (c, k) = encaps_derand(&pk, &message());
    let encoded = c.as_bytes();
    for byte in 0..96 {
        for bit in 0..8 {
            let mut tampered = encoded.clone();
            tampered[byte] ^= 1 << bit;
            assert_ne!(decaps(&sk, ciphertext(&tampered)), k);
        }
    }
}

#[test]
fn rejection_is_deterministic() {
    let (pk, sk) = keygen();
    let (c, k_enc) = encaps(&pk);
    let mut c2 = c.as_bytes();
    c2[40] ^= 0x10;
    let first = decaps(&sk, ciphertext(&c2));
    let second = decaps(&sk, ciphertext(&c2));
    assert_eq!(first, second);
    assert_ne!(first, k_enc);
}

#[test]
fn keygen_derand_known_answer() {
    let (pk, sk) = keygen_derand(Scalar::from_bytes_mod_order(DH_INPUT), SEED);
    assert_eq!(pk, PK);
    assert_eq!(sk.as_bytes(), SK);
}

#[test]
fn encaps_derand_known_answer() {
    let (c, k) = encaps_derand(&PK, &message());
    assert_eq!(c.as_bytes(), C.to_vec());
    assert_eq!(k, K);
}

#[test]
fn decaps_known_answer() {
    let sk = SecretKey::from_bytes(SK);
    assert_eq!(decaps(&sk, ciphertext(&C)), K);
}

#[test]
fn rejection_known_answers() {
    let sk = SecretKey::from_bytes(SK);
    let mut first = C;
    first[0] ^= 0x01;
    assert_eq!(decaps(&sk, ciphertext(&first)), K_REJECT_FIRST);
    let mut last = C;
    last[95] ^= 0x80;
    assert_eq!(decaps(&sk, ciphertext(&last)), K_REJECT_LAST);
}

#[test]
fn rejection_key_depends_on_the_seed() {
    let mut other = SK;
    other[32] ^= 0xff;
    let mut tampered = C;
    tampered[0] ^= 0x01;
    let k = decaps(&SecretKey::from_bytes(other), ciphertext(&tampered));
    assert_ne!(k, K_REJECT_FIRST);
    // the seed plays no part where the ciphertext is accepted
    assert_eq!(decaps(&SecretKey::from_bytes(other), ciphertext(&C)), K);
}

#[test]
fn secret_key_encoding_round_trips() {
    let (_, sk) = keygen();
    let bytes = sk.as_bytes();
    assert_eq!(SecretKey::from_bytes(bytes).as_bytes(), bytes);
    assert_eq!(SecretKey::from_bytes(SK).as_bytes(), SK);
}

#[test]
fn secret_key_decoding_reduces_the_scalar() {
    let mut bytes = SK;
    bytes[..32].copy_from_slice(&DH_INPUT);
    assert_eq!(SecretKey::from_bytes(bytes).as_bytes(), SK);
}

#[test]
fn generated_key_is_consistent() {
    let (pk, sk) = keygen();
    let bytes = sk.as_bytes();
    assert_eq!(&bytes[64..96], &pk);
    let (pk2, sk2) = keygen_derand(
        Scalar::from_bytes_mod_order(to_array(&bytes[..32]).unwrap()),
        to_array(&bytes[32..64]).unwrap(),
    );
    assert_eq!(pk2, pk);
    assert_eq!(sk2.as_bytes(), bytes);
}

#[test]
fn fresh_encapsulations_differ() {
    let (pk, _) = keygen();
    let (c1, k1) = encaps(&pk);
    let (c2, k2) = encaps(&pk);
    assert_ne!(c1.as_bytes(), c2.as_bytes());
    assert_ne!(k1, k2);
}

#[test]
fn select_takes_first_on_one_and_second_on_zero() {
    let k0 = [0xffu8, 0x00, 0x7f, 0x80, 1, 2, 3, 4, 5, 6, 7, 8, 9, 10, 11, 12];
    let k1 = [0x00u8, 0xff, 0x80, 0x7f, 21, 22, 23, 24, 25, 26, 27, 28, 29, 30, 31, 32];
    assert_eq!(select(1, &k0, &k1), k0);
    assert_eq!(select(0, &k0, &k1), k1);
    assert_eq!(select(1, &k0, &k0), k0);
    assert_eq!(select::<0>(1, &[], &[]), [0u8; 0]);
}

#[test]
fn ciphertext_decoding_rejects_other_lengths() {
    assert!(matches!(
        ElGamalCiphertext::<64>::from_bytes(&C[..95]),
        Err(Error::InvalidLength)
    ));
    let mut longer = C.to_vec();
    longer.push(0);
    assert!(matches!(
        ElGamalCiphertext::<64>::from_bytes(&longer),
        Err(Error::InvalidLength)
    ));
    assert!(matches!(
        ElGamalCiphertext::<64>::from_bytes(&[]),
        Err(Error::InvalidLength)
    ));
    assert!(matches!(
        ElGamalCiphertext::<64>::from_bytes(&C[..31]),
        Err(Error::InvalidLength)
    ));
    assert!(ElGamalCiphertext::<64>::from_bytes(&C).is_ok());
}
