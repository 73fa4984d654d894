//! Bitcoin Cash addresses, through the `bitcoincash-addr` crate.
use bitcoincash_addr::{Address, HashType, Scheme};
use vstd::prelude::*;
use vstd::utf8::encode_utf8;

verus! {

/// The body (the hash bytes) that `Address::decode` finds in the address
/// string `s`, or `None` where it refuses `s`.
pub uninterp spec fn address_body_spec(s: Seq<char>) -> Option<Seq<u8>>;

/// The string that `Address::encode` gives for `body` with the Base58
/// scheme, the script hash type and the main network.
pub uninterp spec fn script_address_spec(body: Seq<u8>) -> Seq<char>;

/// Whether `bytes` hold exactly one ':' (byte 58) and fewer than 10 bytes
/// after it: a CashAddr string with a payload too short to hold the eight
/// checksum characters and a version byte, which `Address::decode` may index
/// past the end of. No valid CashAddr address has that shape.
pub open spec fn short_cashaddr_payload(bytes: Seq<u8>) -> bool {
    exists|i: int|
        0 <= i < bytes.len() && #[trigger] bytes[i] == 58 && (forall|j: int|
            0 <= j < bytes.len() && j != i ==> bytes[j] != 58) && bytes.len() - i - 1 < 10
}

/// Whether `Address::decode` can be asked about `s`: its UTF-8 bytes do not
/// have the short CashAddr shape.
pub open spec fn decodable_shape(s: Seq<char>) -> bool {
    !short_cashaddr_payload(encode_utf8(s))
}

/// Whether `addr` may be handed to the address decoder.
pub fn has_decodable_shape(addr: &str) -> (r: bool)
    ensures
        r == decodable_shape(addr@),
{
    let bytes = addr.as_bytes();
    let n: usize = bytes.len();
    let mut first: Option<usize> = None;
    let mut multiple = false;
    let mut i: usize = 0;
    while i < n
        invariant
            n == bytes@.len(),
            i <= n,
            first is None ==> !multiple && forall|k: int| 0 <= k < i ==> bytes@[k] != 58,
            first matches Some(p) ==> p < i && bytes@[p as int] == 58 && forall|k: int|
                0 <= k < p ==> bytes@[k] != 58,
            first matches Some(p) ==> (multiple <==> exists|k: int|
                p < k < i && #[trigger] bytes@[k] == 58),
        decreases n - i,
    {
        if bytes[i] == 58u8 {
            match first {
                None => {
                    first = Some(i);
                },
                Some(_) => {
                    multiple = true;
                },
            }
        }
        i = i + 1;
    }
    let r = match first {
        None => true,
        Some(p) => multiple || n - p - 1 >= 10,
    };
    proof {
        let b = encode_utf8(addr@);
        assert(b == bytes@);
        if short_cashaddr_payload(b) {
            let w = choose|w: int|
                0 <= w < b.len() && #[trigger] b[w] == 58 && (forall|j: int|
                    0 <= j < b.len() && j != w ==> b[j] != 58) && b.len() - w - 1 < 10;
            match first {
                None => {
                    assert(b[w] != 58);
                },
                Some(p) => {
                    assert(p == w);
                    if multiple {
                        let k = choose|k: int| p < k < n && #[trigger] bytes@[k] == 58;
                        assert(b[k] != 58);
                    }
                },
            }
        } else {
            match first {
                None => {},
                Some(p) => {
                    if !multiple {
                        assert forall|j: int| 0 <= j < b.len() && j != p implies b[j] != 58 by {
                            if j > p && b[j] == 58 {
                                assert(exists|k: int| p < k < n && #[trigger] bytes@[k] == 58);
                            }
                        }
                        assert(b[p as int] == 58);
                    }
                },
            }
        }
    }
    r
}

/// Calls `Address::decode` on `addr` and keeps the body of the address.
/// Trusted: the result is the named body of `addr`, `None` exactly where
/// decoding fails. `Address::decode` tries the CashAddr decoder first, which
/// on a string split by one ':' with a checksum of zero and a payload of
/// fewer than 10 characters slices or indexes past the end; `requires` leaves
/// that shape out (no valid CashAddr address has it; the Base58 decoder
/// refuses any string with a ':', and stops at the first byte above 127,
/// which in UTF-8 is a leading byte above 128, before it indexes its table).
#[verifier::external_body]
pub(crate) fn decode_address_body(addr: &str) -> (r: Option<Vec<u8>>)
    requires
        decodable_shape(addr@),
    ensures
        match r {
            Some(b) => address_body_spec(addr@) == Some(b@),
            None => address_body_spec(addr@) is None,
        },
{
    match Address::decode(addr) {
        Ok(address) => Some(address.body),
        Err(_) => None,
    }
}

/// Calls `Address::encode` on an address with body `body`, `Scheme::Base58`,
/// `HashType::Script` and the default (main) network.
/// Trusted: Base58 encoding does not fail (the crate says so and unwraps it),
/// so the result is the named string; and for a 20-byte body the Base58
/// string (version byte, body, four checksum bytes: the 25 bytes that the
/// Base58 decoder asks for, with no ':' so the CashAddr decoder refuses it
/// first) decodes back to the same body. The string is drawn from the Base58
/// alphabet, which has no ':', so it never has the short CashAddr shape.
#[verifier::external_body]
pub(crate) fn encode_script_address(body: &Vec<u8>) -> (r: String)
    ensures
        r@ == script_address_spec(body@),
        body@.len() == 20 ==> address_body_spec(r@) == Some(body@),
        decodable_shape(r@),
{
    let address = Address {
        body: body.clone(),
        scheme: Scheme::Base58,
        hash_type: HashType::Script,
        ..Default::default()
    };
    match address.encode() {
        Ok(s) => s,
        Err(_) => String::new(),
    }
}

} // verus!
