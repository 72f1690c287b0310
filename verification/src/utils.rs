//! The two symmetric primitives and the randomness source, all three taken
//! from outside crates, and hexadecimal transcoding.

use chacha20::cipher::{KeyIvInit, StreamCipher};
use chacha20::ChaCha20;
use rand::Rng;
use sha3::digest::{ExtendableOutput, Update, XofReader};
use sha3::Shake128;
use crate::error::Error;
use vstd::prelude::*;
use vstd::string::*;

verus! {

/// The first `len` bytes of the SHAKE128 output for the message `data`.
pub uninterp spec fn shake128(data: Seq<u8>, len: nat) -> Seq<u8>;

/// The first `len` bytes of the ChaCha20 keystream for `key`, with the
/// all-zero nonce and the block counter starting at zero.
pub uninterp spec fn chacha20_keystream(key: Seq<u8>, len: nat) -> Seq<u8>;

/// `data` with `pad` added bytewise modulo 2.
pub open spec fn xor_bytes(data: Seq<u8>, pad: Seq<u8>) -> Seq<u8> {
    Seq::new(data.len(), |i: int| data[i] ^ pad[i])
}

/// The symmetric transform: `data` with the keystream of `key` added.
pub open spec fn stream_xor(data: Seq<u8>, key: Seq<u8>) -> Seq<u8> {
    xor_bytes(data, chacha20_keystream(key, data.len()))
}

/// The most bytes one ChaCha20 keystream can cover: `2^32 - 1` blocks of 64.
pub const MAX_STREAM_LEN: u64 = 0x3f_ffff_ffc0;

/// Applying the transform twice with the same key gives the data back.
pub proof fn lemma_stream_xor_involution(data: Seq<u8>, key: Seq<u8>)
    ensures
        stream_xor(stream_xor(data, key), key) == data,
{
    let pad = chacha20_keystream(key, data.len());
    assert forall|i: int| 0 <= i < data.len() implies (data[i] ^ pad[i]) ^ pad[i] == data[i] by {
        let d = data[i];
        let p = pad[i];
        assert((d ^ p) ^ p == d) by (bit_vector);
    }
    assert(stream_xor(stream_xor(data, key), key) =~= data);
}

/// SHAKE128 from `sha3`: absorbs `bytes` with `update`, then reads the first
/// `N` bytes of output from the reader that `finalize_xof` returns. The
/// digest is a function of the message and of `N` alone, and the contract
/// gives it its name.
#[verifier::external_body]
pub(crate) fn hash<const N: usize>(bytes: &[u8]) -> (digest: [u8; N])
    ensures
        digest@ == shake128(bytes@, N as nat),
{
    let mut hasher = Shake128::default();
    hasher.update(bytes);
    let mut reader = hasher.finalize_xof();
    let mut digest = [0u8; N];
    reader.read(&mut digest);
    digest
}

/// `ChaCha20::apply_keystream` from `chacha20`, on a cipher made by
/// `ChaCha20::new` from `key` and the all-zero nonce. The call adds the
/// generated keystream to the buffer bytewise modulo 2, which is what the
/// contract says, with a name for the keystream. It panics where the
/// keystream would run out, so the `requires` keeps `N` below that.
#[verifier::external_body]
pub(crate) fn encrypt<const N: usize>(plaintext: &[u8; N], key: &[u8; 32]) -> (out: [u8; N])
    requires
        N <= MAX_STREAM_LEN,
    ensures
        out@ == xor_bytes(plaintext@, chacha20_keystream(key@, N as nat)),
{
    let nonce = [0u8; 12];
    let mut cipher = ChaCha20::new(key.into(), &nonce.into());
    let mut buffer = *plaintext;
    cipher.apply_keystream(&mut buffer);
    buffer
}

/// `Rng::fill` of `rand` on `rand::thread_rng()`: `N` bytes from the thread's
/// generator. Nothing is claimed of them. It panics only if the operating
/// system cannot seed the generator.
#[verifier::external_body]
pub(crate) fn random_bytes<const N: usize>() -> (out: [u8; N]) {
    let mut out = [0u8; N];
    rand::thread_rng().fill(&mut out[..]);
    out
}

/// Reads `bytes` as a buffer of exactly `N` bytes, and rejects any other
/// length.
pub fn to_array<const N: usize>(bytes: &[u8]) -> (result: Result<[u8; N], Error>)
    ensures
        result is Ok <==> bytes@.len() == N,
        result matches Ok(array) ==> array@ == bytes@,
        result matches Err(error) ==> error == Error::InvalidLength,
{
    if bytes.len() != N {
        return Err(Error::InvalidLength);
    }
    Ok(subarray(bytes, 0))
}

/// The `N` bytes of `bytes` from index `start` on.
pub(crate) fn subarray<const N: usize>(bytes: &[u8], start: usize) -> (out: [u8; N])
    requires
        start + N <= bytes@.len(),
    ensures
        out@ == bytes@.subrange(start as int, start + N),
{
    let len = bytes.len();
    let mut out = [0u8; N];
    let mut i: usize = 0;
    while i < N
        invariant
            i <= N,
            start + N <= len == bytes@.len(),
            forall|j: int| 0 <= j < i ==> out@[j] == bytes@[start + j],
        decreases N - i,
    {
        out[i] = bytes[start + i];
        i = i + 1;
    }
    assert(out@ =~= bytes@.subrange(start as int, start + N));
    out
}

/// `head` followed by `tail`, in a buffer of exactly their joint length.
pub(crate) fn join<const N: usize>(head: &[u8], tail: &[u8]) -> (out: [u8; N])
    requires
        head@.len() + tail@.len() == N,
    ensures
        out@ == head@ + tail@,
{
    let mut out = [0u8; N];
    let split = head.len();
    let mut i: usize = 0;
    while i < split
        invariant
            i <= split,
            split == head@.len(),
            split + tail@.len() == N,
            forall|j: int| 0 <= j < i ==> out@[j] == head@[j],
        decreases split - i,
    {
        out[i] = head[i];
        i = i + 1;
    }
    while i < N
        invariant
            split <= i <= N,
            split == head@.len(),
            split + tail@.len() == N,
            forall|j: int| 0 <= j < split ==> out@[j] == head@[j],
            forall|j: int| split <= j < i ==> out@[j] == tail@[j - split],
        decreases N - i,
    {
        out[i] = tail[i - split];
        i = i + 1;
    }
    assert(out@ =~= head@ + tail@);
    out
}

/// The upper-case hexadecimal digit for a value below 16.
pub open spec fn hex_digit(nibble: u8) -> char {
    seq![
        '0', '1', '2', '3', '4', '5', '6', '7', '8', '9', 'A', 'B', 'C', 'D', 'E', 'F',
    ][nibble as int]
}

/// The value of a hexadecimal digit of either case, and `None` for any other
/// character.
pub open spec fn hex_value(c: char) -> Option<u8> {
    if '0' <= c <= '9' {
        Some((c as u8 - 48) as u8)
    } else if 'A' <= c <= 'F' {
        Some((c as u8 - 55) as u8)
    } else if 'a' <= c <= 'f' {
        Some((c as u8 - 87) as u8)
    } else {
        None
    }
}

/// Two upper-case digits for each byte, the high half first.
pub open spec fn hex_encoded(bytes: Seq<u8>) -> Seq<char> {
    Seq::new(
        2 * bytes.len(),
        |i: int| hex_digit(if i % 2 == 0 { bytes[i / 2] >> 4 } else { bytes[i / 2] & 0xf }),
    )
}

/// Hexadecimal text: an even number of hexadecimal digits and nothing else.
pub open spec fn is_hex(text: Seq<char>) -> bool {
    &&& text.len() % 2 == 0
    &&& forall|i: int| 0 <= i < text.len() ==> hex_value(#[trigger] text[i]) is Some
}

/// One byte for each pair of digits, the first digit being the high half.
pub open spec fn hex_decoded(text: Seq<char>) -> Seq<u8> {
    Seq::new(
        text.len() / 2,
        |i: int| (16 * hex_value(text[2 * i]).unwrap() + hex_value(text[2 * i + 1]).unwrap()) as u8,
    )
}

/// What `hex_encode` writes is hexadecimal text, and decoding it gives the
/// bytes back.
pub proof fn lemma_hex_round_trip(bytes: Seq<u8>)
    ensures
        is_hex(hex_encoded(bytes)),
        hex_decoded(hex_encoded(bytes)) == bytes,
{
    let text = hex_encoded(bytes);
    assert forall|n: u8| n < 16 implies #[trigger] hex_value(hex_digit(n)) == Some(n) by {
        lemma_hex_digit_value(n);
    }
    assert forall|i: int| 0 <= i < bytes.len() implies (16 * (bytes[i] >> 4) + (bytes[i]
        & 0xf)) as u8 == bytes[i] && (#[trigger] bytes[i] >> 4) < 16 && (bytes[i] & 0xf) < 16 by {
        let b = bytes[i];
        assert(16 * (b >> 4) + (b & 0xf) == b && (b >> 4) < 16 && (b & 0xf) < 16)
            by (bit_vector);
    }
    assert forall|i: int| 0 <= i < text.len() implies hex_value(#[trigger] text[i]) is Some by {
        let b = bytes[i / 2];
        assert((b >> 4) < 16 && (b & 0xf) < 16);
    }
    assert forall|i: int| 0 <= i < bytes.len() implies hex_decoded(text)[i] == bytes[i] by {
        let b = bytes[i];
        assert((b >> 4) < 16 && (b & 0xf) < 16);
        assert(text[2 * i] == hex_digit(b >> 4));
        assert(text[2 * i + 1] == hex_digit(b & 0xf));
    }
    assert(hex_decoded(text) =~= bytes);
}

proof fn lemma_hex_digit_value(n: u8)
    requires
        n < 16,
    ensures
        hex_value(hex_digit(n)) == Some(n),
{
    let digits = seq![
        '0', '1', '2', '3', '4', '5', '6', '7', '8', '9', 'A', 'B', 'C', 'D', 'E', 'F',
    ];
    assert(digits[0] == '0' && digits[1] == '1' && digits[2] == '2' && digits[3] == '3');
    assert(digits[4] == '4' && digits[5] == '5' && digits[6] == '6' && digits[7] == '7');
    assert(digits[8] == '8' && digits[9] == '9' && digits[10] == 'A' && digits[11] == 'B');
    assert(digits[12] == 'C' && digits[13] == 'D' && digits[14] == 'E' && digits[15] == 'F');
}

/// The digit for a value below 16, as a string of one character.
fn hex_digit_str(nibble: u8) -> (digit: &'static str)
    requires
        nibble < 16,
    ensures
        digit@ == seq![hex_digit(nibble)],
{
    proof {
        reveal_strlit("0");
        reveal_strlit("1");
        reveal_strlit("2");
        reveal_strlit("3");
        reveal_strlit("4");
        reveal_strlit("5");
        reveal_strlit("6");
        reveal_strlit("7");
        reveal_strlit("8");
        reveal_strlit("9");
        reveal_strlit("A");
        reveal_strlit("B");
        reveal_strlit("C");
        reveal_strlit("D");
        reveal_strlit("E");
        reveal_strlit("F");
    }
    let digit = match nibble {
        0 => "0",
        1 => "1",
        2 => "2",
        3 => "3",
        4 => "4",
        5 => "5",
        6 => "6",
        7 => "7",
        8 => "8",
        9 => "9",
        10 => "A",
        11 => "B",
        12 => "C",
        13 => "D",
        14 => "E",
        _ => "F",
    };
    assert(digit@ =~= seq![hex_digit(nibble)]);
    digit
}

/// Writes `bytes` as upper-case hexadecimal text.
pub fn hex_encode(bytes: &[u8]) -> (text: String)
    ensures
        text@ == hex_encoded(bytes@),
{
    let mut text = String::new();
    let len = bytes.len();
    let mut i: usize = 0;
    while i < len
        invariant
            i <= len == bytes@.len(),
            text@ == hex_encoded(bytes@.subrange(0, i as int)),
        decreases len - i,
    {
        let byte = bytes[i];
        let high = byte >> 4;
        let low = byte & 0xf;
        assert(high < 16 && low < 16) by (bit_vector)
            requires
                high == byte >> 4,
                low == byte & 0xf,
        ;
        text.append(hex_digit_str(high));
        text.append(hex_digit_str(low));
        i = i + 1;
        assert(text@ =~= hex_encoded(bytes@.subrange(0, i as int)));
    }
    assert(bytes@.subrange(0, len as int) =~= bytes@);
    text
}

/// The value of a hexadecimal digit given as a byte, and 16 for any other
/// byte.
fn hex_digit_value(byte: u8) -> (value: u8)
    ensures
        value <= 16,
        byte < 128 ==> (match hex_value(byte as char) {
            Some(v) => value == v,
            None => value == 16,
        }),
        byte >= 128 ==> value == 16,
{
    if 48 <= byte && byte <= 57 {
        byte - 48
    } else if 65 <= byte && byte <= 70 {
        byte - 55
    } else if 97 <= byte && byte <= 102 {
        byte - 87
    } else {
        16
    }
}

/// Tells whether `text` is hexadecimal text, which is what `hex_decode`
/// asks of its input.
pub fn is_hex_str(text: &str) -> (ok: bool)
    ensures
        ok == is_hex(text@),
{
    if !text.is_ascii() {
        proof {
            let i = choose|i: int|
                0 <= i < text@.len() && !('\0' <= #[trigger] text@[i] <= '\u{7f}');
            assert(hex_value(text@[i]) is None);
        }
        return false;
    }
    let bytes = text.as_bytes();
    proof {
        is_ascii_spec_bytes(text);
    }
    let len = bytes.len();
    if len % 2 != 0 {
        return false;
    }
    let mut i: usize = 0;
    while i < len
        invariant
            i <= len == bytes@.len() == text@.len(),
            is_ascii(text),
            bytes@ == Seq::new(text@.len(), |j: int| text@[j] as u8),
            forall|j: int| 0 <= j < i ==> hex_value(#[trigger] text@[j]) is Some,
        decreases len - i,
    {
        let value = hex_digit_value(bytes[i]);
        assert(text@[i as int] as u8 as char == text@[i as int]);
        if value == 16 {
            assert(hex_value(text@[i as int]) is None);
            return false;
        }
        i = i + 1;
    }
    true
}

/// Reads hexadecimal text, of digits in either case, into bytes.
pub fn hex_decode(hex: &str) -> (bytes: Vec<u8>)
    requires
        is_hex(hex@),
    ensures
        bytes@ == hex_decoded(hex@),
{
    proof {
        assert(is_ascii(hex)) by {
            assert forall|i: int| 0 <= i < hex@.len() implies '\0' <= #[trigger] hex@[i]
                <= '\u{7f}' by {
                assert(hex_value(hex@[i]) is Some);
            }
        }
        is_ascii_spec_bytes(hex);
    }
    let digits = hex.as_bytes();
    let len = digits.len();
    let mut bytes: Vec<u8> = Vec::new();
    let mut i: usize = 0;
    while i < len
        invariant
            i <= len == digits@.len() == hex@.len(),
            i % 2 == 0,
            len % 2 == 0,
            is_hex(hex@),
            digits@ == Seq::new(hex@.len(), |j: int| hex@[j] as u8),
            bytes@ == hex_decoded(hex@).subrange(0, i as int / 2),
        decreases len - i,
    {
        assert(hex_value(hex@[i as int]) is Some);
        assert(hex_value(hex@[i + 1]) is Some);
        assert(hex@[i as int] as u8 as char == hex@[i as int]);
        assert(hex@[i + 1] as u8 as char == hex@[i + 1]);
        let high = hex_digit_value(digits[i]);
        let low = hex_digit_value(digits[i + 1]);
        bytes.push(high * 16 + low);
        i = i + 2;
        assert(bytes@ =~= hex_decoded(hex@).subrange(0, i as int / 2));
    }
    assert(hex_decoded(hex@).subrange(0, len as int / 2) =~= hex_decoded(hex@));
    bytes
}

} // verus!
