//! The byte layout in which `bincode` (its default, fixed-width, little-endian
//! configuration) writes the plain values that the blockchain hashes.
use vstd::prelude::*;
use vstd::utf8::encode_utf8;

verus! {

/// The `bincode` error type.
#[verifier::external_type_specification]
#[verifier::external_body]
pub struct ExBincodeErrorKind(bincode::ErrorKind);

/// The `n` low-order bytes of `x`, least significant first.
pub open spec fn le_bytes(x: nat, n: nat) -> Seq<u8>
    decreases n,
{
    if n == 0 {
        Seq::empty()
    } else {
        seq![(x % 256) as u8] + le_bytes(x / 256, (n - 1) as nat)
    }
}

/// Four little-endian bytes determine a number below 2^32.
pub proof fn lemma_le_bytes_4_injective(x: nat, y: nat)
    requires
        x < 0x1_0000_0000,
        y < 0x1_0000_0000,
        le_bytes(x, 4) == le_bytes(y, 4),
    ensures
        x == y,
{
    reveal_with_fuel(le_bytes, 5);
    let bx = le_bytes(x, 4);
    let by = le_bytes(y, 4);
    assert(bx[0] == by[0]);
    assert(bx[1] == by[1]);
    assert(bx[2] == by[2]);
    assert(bx[3] == by[3]);
    assert(x % 256 == y % 256);
    assert((x / 256) % 256 == (y / 256) % 256);
    assert((x / 256 / 256) % 256 == (y / 256 / 256) % 256);
    assert((x / 256 / 256 / 256) % 256 == (y / 256 / 256 / 256) % 256);
    assert(x / 256 / 256 / 256 < 256);
    assert(y / 256 / 256 / 256 < 256);
}

/// Different `i32`s are written as different bytes.
pub proof fn lemma_i32_le_injective(a: i32, b: i32)
    requires
        i32_le(a) == i32_le(b),
    ensures
        a == b,
{
    let xa: nat = if a >= 0 { a as nat } else { (a + 0x1_0000_0000) as nat };
    let xb: nat = if b >= 0 { b as nat } else { (b + 0x1_0000_0000) as nat };
    lemma_le_bytes_4_injective(xa, xb);
}

/// A `u64` (and a length, and a `usize`) as bincode writes it.
pub open spec fn u64_le(x: nat) -> Seq<u8> {
    le_bytes(x, 8)
}

/// An `i32` as bincode writes it: its two's complement, little-endian.
pub open spec fn i32_le(x: i32) -> Seq<u8> {
    if x >= 0 {
        le_bytes(x as nat, 4)
    } else {
        le_bytes((x + 0x1_0000_0000) as nat, 4)
    }
}

/// A string as bincode writes it: the length of its UTF-8 encoding, then the encoding.
pub open spec fn bincode_str(s: Seq<char>) -> Seq<u8> {
    u64_le(encode_utf8(s).len()) + encode_utf8(s)
}

/// A byte vector as bincode writes it: its length, then its bytes.
pub open spec fn bincode_bytes(b: Seq<u8>) -> Seq<u8> {
    u64_le(b.len()) + b
}

/// The tuple `(prev_block_hash, merkle_root, timestamp, target, nonce)` that
/// a block hashes while it is mined.
pub open spec fn bincode_hash_content(
    prev: Seq<char>,
    root: Seq<u8>,
    timestamp: u128,
    target: nat,
    nonce: i32,
) -> Seq<u8> {
    bincode_str(prev) + bincode_bytes(root) + le_bytes(timestamp as nat, 16) + u64_le(target)
        + i32_le(nonce)
}

/// One transaction input `(txid, vout, signature, pub_key)` as bincode writes it.
pub open spec fn bincode_input(i: (Seq<char>, i32, Seq<u8>, Seq<u8>)) -> Seq<u8> {
    bincode_str(i.0) + i32_le(i.1) + bincode_bytes(i.2) + bincode_bytes(i.3)
}

/// One transaction output `(value, pub_key_hash)` as bincode writes it.
pub open spec fn bincode_output(o: (i32, Seq<u8>)) -> Seq<u8> {
    i32_le(o.0) + bincode_bytes(o.1)
}

/// A transaction `(id, inputs, outputs)` as bincode writes it: the id, then
/// each vector as its length followed by its elements.
pub open spec fn bincode_transaction(
    id: Seq<char>,
    ins: Seq<(Seq<char>, i32, Seq<u8>, Seq<u8>)>,
    outs: Seq<(i32, Seq<u8>)>,
) -> Seq<u8> {
    bincode_str(id) + u64_le(ins.len()) + ins.map_values(|i| bincode_input(i)).flatten()
        + u64_le(outs.len()) + outs.map_values(|o| bincode_output(o)).flatten()
}

/// Calls `bincode::serialize` on the tuple
/// `(prev_block_hash, merkle_root, timestamp, target, nonce)`.
/// Trusted: bincode's default options write strings and sequences as a `u64`
/// length and their contents, integers as fixed-width little-endian bytes,
/// and tuples as their fields in order; none of these types makes the
/// serializer fail, so the result is `Ok`.
#[verifier::external_body]
pub(crate) fn serialize_hash_content(
    prev: &String,
    root: &Vec<u8>,
    timestamp: u128,
    target: usize,
    nonce: i32,
) -> (r: Result<Vec<u8>, Box<bincode::ErrorKind>>)
    ensures
        r is Ok,
        r->Ok_0@ == bincode_hash_content(prev@, root@, timestamp, target as nat, nonce),
{
    bincode::serialize(&(prev, root, timestamp, target, nonce))
}

/// Calls `bincode::serialize` on the tuple `(id, inputs, outputs)`, each input
/// `(txid, vout, signature, pub_key)` and each output `(value, pub_key_hash)`.
/// Trusted: the layout is the one stated by `bincode_transaction` (the same
/// layout bincode gives a struct with these fields), and serializing these
/// types does not fail.
#[verifier::external_body]
pub(crate) fn serialize_transaction_record(
    id: &String,
    ins: &Vec<(String, i32, Vec<u8>, Vec<u8>)>,
    outs: &Vec<(i32, Vec<u8>)>,
) -> (r: Result<Vec<u8>, Box<bincode::ErrorKind>>)
    ensures
        r is Ok,
        r->Ok_0@ == bincode_transaction(id@, ins.deep_view(), outs.deep_view()),
{
    bincode::serialize(&(id, ins, outs))
}

} // verus!
