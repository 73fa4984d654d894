//! Cryptographic digests (SHA-256, RIPEMD-160) from `rust-crypto`, and the
//! lowercase hexadecimal form in which `Digest::result_str` renders them.
use crypto::digest::Digest;
use crypto::ripemd160::Ripemd160;
use crypto::sha2::Sha256;
use vstd::prelude::*;
use vstd::utf8::{encode_utf8, is_ascii_chars, is_ascii_chars_encode_utf8};

verus! {

/// The SHA-256 digest of `data`, as computed by `crypto::sha2::Sha256`.
pub uninterp spec fn sha256_spec(data: Seq<u8>) -> Seq<u8>;

/// The RIPEMD-160 digest of `data`, as computed by `crypto::ripemd160::Ripemd160`.
pub uninterp spec fn ripemd160_spec(data: Seq<u8>) -> Seq<u8>;

/// The ASCII code of the lowercase hexadecimal digit for `n` (`n < 16`).
pub open spec fn hex_digit_byte(n: int) -> u8 {
    if n < 10 {
        (48 + n) as u8
    } else {
        (87 + n) as u8
    }
}

/// The lowercase hexadecimal rendering of `bytes`, two ASCII digits per byte,
/// high nibble first, as bytes.
pub open spec fn hex_ascii(bytes: Seq<u8>) -> Seq<u8> {
    Seq::new(
        2 * bytes.len(),
        |i: int|
            if i % 2 == 0 {
                hex_digit_byte(bytes[i / 2] as int / 16)
            } else {
                hex_digit_byte(bytes[i / 2] as int % 16)
            },
    )
}

/// The lowercase hexadecimal rendering of `bytes`, as characters.
pub open spec fn hex_chars(bytes: Seq<u8>) -> Seq<char> {
    hex_ascii(bytes).map_values(|b: u8| b as char)
}

/// Runs `Sha256::new`, `input` and `result` of `rust-crypto` on `data`.
/// Trusted: the result is the named SHA-256 digest of `data`, 32 bytes long.
#[verifier::external_body]
pub(crate) fn sha256_digest(data: &[u8]) -> (r: Vec<u8>)
    ensures
        r@ == sha256_spec(data@),
        r@.len() == 32,
{
    let mut hasher = Sha256::new();
    hasher.input(data);
    let mut out = vec![0u8; 32];
    hasher.result(&mut out);
    out
}

/// Runs `Sha256::new`, `input` and `Digest::result_str` of `rust-crypto` on
/// `data`. Trusted: `result_str` hex-encodes the digest with rustc-serialize's
/// lowercase table, so the string is `hex_chars` of the named SHA-256 digest,
/// two characters for each of its 32 bytes.
#[verifier::external_body]
pub(crate) fn sha256_hex(data: &[u8]) -> (r: String)
    ensures
        r@ == hex_chars(sha256_spec(data@)),
        r@.len() == 64,
{
    let mut hasher = Sha256::new();
    hasher.input(data);
    hasher.result_str()
}

/// Runs `Ripemd160::new`, `input` and `result` of `rust-crypto` on `data`.
/// Trusted: the result is the named RIPEMD-160 digest of `data`, 20 bytes long.
#[verifier::external_body]
pub(crate) fn ripemd160_digest(data: &[u8]) -> (r: Vec<u8>)
    ensures
        r@ == ripemd160_spec(data@),
        r@.len() == 20,
{
    let mut hasher = Ripemd160::new();
    hasher.input(data);
    let mut out = vec![0u8; 20];
    hasher.result(&mut out);
    out
}

/// The hexadecimal string is ASCII, so its UTF-8 bytes are `hex_ascii`.
pub proof fn lemma_hex_chars_utf8(bytes: Seq<u8>)
    ensures
        encode_utf8(hex_chars(bytes)) == hex_ascii(bytes),
        is_ascii_chars(hex_chars(bytes)),
{
    let c = hex_chars(bytes);
    assert forall|i: int| 0 <= i < c.len() implies (c[i] as u32) < 128 && (c[i] as u8) == hex_ascii(bytes)[i] by {
        let b = hex_ascii(bytes)[i];
        assert(b < 128);
    }
    assert(is_ascii_chars(c));
    is_ascii_chars_encode_utf8(c);
    assert(encode_utf8(c) =~= hex_ascii(bytes));
}

} // verus!
