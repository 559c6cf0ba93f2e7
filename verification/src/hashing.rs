//! The content hash used everywhere identity is needed: the SHA-256 digest of
//! a string's UTF-8 bytes, hex-encoded to a fixed-length lowercase string.

use vstd::prelude::*;
use sha2::Digest;

verus! {

use vstd::utf8::encode_utf8;

/// What SHA-256 returns for a given byte sequence. The digest is not written
/// out here: callers rely only on it being a fixed function of the input
/// bytes with a 32-byte result.
pub uninterp spec fn sha256_of(bytes: Seq<u8>) -> Seq<u8>;

/// The lowercase hexadecimal digit for a value below 16.
pub open spec fn hex_digit(d: int) -> char {
    if d == 0 {
        '0'
    } else if d == 1 {
        '1'
    } else if d == 2 {
        '2'
    } else if d == 3 {
        '3'
    } else if d == 4 {
        '4'
    } else if d == 5 {
        '5'
    } else if d == 6 {
        '6'
    } else if d == 7 {
        '7'
    } else if d == 8 {
        '8'
    } else if d == 9 {
        '9'
    } else if d == 10 {
        'a'
    } else if d == 11 {
        'b'
    } else if d == 12 {
        'c'
    } else if d == 13 {
        'd'
    } else if d == 14 {
        'e'
    } else {
        'f'
    }
}

/// Lowercase hexadecimal encoding: two digits per byte, high nibble first.
pub open spec fn hex_of(bytes: Seq<u8>) -> Seq<char>
    decreases bytes.len(),
{
    if bytes.len() == 0 {
        Seq::empty()
    } else {
        seq![hex_digit(bytes[0] as int / 16), hex_digit(bytes[0] as int % 16)] + hex_of(
            bytes.drop_first(),
        )
    }
}

pub proof fn lemma_hex_of_len(bytes: Seq<u8>)
    ensures
        hex_of(bytes).len() == 2 * bytes.len(),
    decreases bytes.len(),
{
    if bytes.len() > 0 {
        lemma_hex_of_len(bytes.drop_first());
    }
}

/// The content hash of a string: SHA-256 of its UTF-8 bytes, hex-encoded.
pub open spec fn content_hash_of(s: Seq<char>) -> Seq<char> {
    hex_of(sha256_of(encode_utf8(s)))
}

/// Relies on sha2::Sha256 (`Digest::digest`): a deterministic 256-bit digest
/// of the input bytes alone, returned as 32 bytes.
#[verifier::external_body]
fn sha256_digest(input: &[u8]) -> (r: Vec<u8>)
    ensures
        r@ == sha256_of(input@),
        r@.len() == 32,
{
    sha2::Sha256::digest(input).to_vec()
}

/// Relies on hex::encode: lowercase hexadecimal, two digits per byte, high
/// nibble first.
#[verifier::external_body]
fn hex_encode(bytes: &[u8]) -> (r: String)
    ensures
        r@ == hex_of(bytes@),
{
    hex::encode(bytes)
}

/// The fixed-length content hash: 64 lowercase hex digits of the SHA-256
/// digest of the string's bytes.
pub fn content_hash(s: &str) -> (r: String)
    ensures
        r@ == content_hash_of(s@),
        r@.len() == 64,
{
    let digest = sha256_digest(s.as_bytes());
    let r = hex_encode(digest.as_slice());
    proof {
        lemma_hex_of_len(sha256_of(encode_utf8(s@)));
    }
    r
}

} // verus!
