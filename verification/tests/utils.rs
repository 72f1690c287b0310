use curve25519_kem::error::Error;
use curve25519_kem::utils::{hex_decode, hex_encode, is_hex_str, to_array};

#[test]
fn hex_encode_writes_upper_case_pairs() {
    assert_eq!(hex_encode(&[]), "");
    assert_eq!(hex_encode(&[0x00]), "00");
    assert_eq!(hex_encode(&[0xbe, 0xef]), "BEEF");
    assert_eq!(hex_encode(&[0x01, 0x23, 0x45, 0x67, 0x89, 0xab, 0xcd, 0xef]), "0123456789ABCDEF");
    assert_eq!(hex_encode(&[0x0a, 0xa0, 0xff]), "0AA0FF");
}

#[test]
fn hex_decode_reads_both_cases() {
    assert_eq!(hex_decode(""), Vec::<u8>::new());
    assert_eq!(hex_decode("00"), vec![0x00]);
    assert_eq!(hex_decode("BEEF"), vec![0xbe, 0xef]);
    assert_eq!(hex_decode("beef"), vec![0xbe, 0xef]);
    assert_eq!(hex_decode("bEeF"), vec![0xbe, 0xef]);
    assert_eq!(
        hex_decode("0123456789abcdefABCDEF"),
        vec![0x01, 0x23, 0x45, 0x67, 0x89, 0xab, 0xcd, 0xef, 0xab, 0xcd, 0xef]
    );
    assert_eq!(hex_decode("0aA0fF"), vec![0x0a, 0xa0, 0xff]);
}

#[test]
fn hex_round_trips_every_byte() {
    let all: Vec<u8> = (0..=255).collect();
    let text = hex_encode(&all);
    assert_eq!(text.len(), 512);
    assert!(is_hex_str(&text));
    assert_eq!(hex_decode(&text), all);
    assert_eq!(hex_decode(&text.to_lowercase()), all);
}

#[test]
fn is_hex_str_accepts_pairs_of_digits_only() {
    assert!(is_hex_str(""));
    assert!(is_hex_str("00"));
    assert!(is_hex_str("09afAF"));
    assert!(!is_hex_str("0"));
    assert!(!is_hex_str("abc"));
    assert!(!is_hex_str("0g"));
    assert!(!is_hex_str("G0"));
    assert!(!is_hex_str("+F"));
    assert!(!is_hex_str("-1"));
    assert!(!is_hex_str(" 0"));
    assert!(!is_hex_str("0x10"));
    assert!(!is_hex_str("/0"));
    assert!(!is_hex_str(":0"));
    assert!(!is_hex_str("@0"));
    assert!(!is_hex_str("`0"));
    assert!(!is_hex_str("0\n"));
    assert!(!is_hex_str("é"));
    assert!(!is_hex_str("ａｂ"));
    assert!(!is_hex_str("ab\u{0}\u{0}"));
}

#[test]
fn to_array_takes_the_exact_length_only() {
    assert_eq!(to_array::<3>(&[1, 2, 3]), Ok([1, 2, 3]));
    assert_eq!(to_array::<0>(&[]), Ok([]));
    assert_eq!(to_array::<3>(&[1, 2]), Err(Error::InvalidLength));
    assert_eq!(to_array::<3>(&[1, 2, 3, 4]), Err(Error::InvalidLength));
    assert_eq!(to_array::<32>(&[0u8; 31]), Err(Error::InvalidLength));
    assert_eq!(to_array::<128>(&[9u8; 128]), Ok([9u8; 128]));
    assert_eq!(to_array::<128>(&[9u8; 129]), Err(Error::InvalidLength));
    assert_eq!(to_array::<1>(&[]), Err(Error::InvalidLength));
}
