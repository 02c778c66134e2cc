//! Hex rendering and parsing of hashes. The chain displays hashes in
//! little-endian order, so a hash is reversed before encoding and after
//! decoding.

use vstd::prelude::*;

verus! {

/// The lowercase hex digit of a value below 16.
pub open spec fn hex_char(v: u8) -> char
    recommends
        v < 16,
{
    if v < 10 {
        ((48 + v) as u8) as char
    } else {
        ((87 + v) as u8) as char
    }
}

/// The lowercase hex rendering of a byte string: two digits per byte, high
/// nibble first.
pub open spec fn hex_of(b: Seq<u8>) -> Seq<char> {
    Seq::new(
        b.len() * 2,
        |i: int|
            if i % 2 == 0 {
                hex_char(b[i / 2] / 16)
            } else {
                hex_char(b[i / 2] % 16)
            },
    )
}

/// Relies on hex::encode: each byte becomes two lowercase hex digits, high
/// nibble first, so the result is twice as long as the input.
#[verifier::external_body]
pub fn hex_encode_bytes(b: &[u8]) -> (r: String)
    ensures
        r@ == hex_of(b@),
{
    hex::encode(b)
}

/// A byte that is an ASCII hex digit.
pub open spec fn is_hex_byte(c: u8) -> bool {
    (48 <= c <= 57) || (97 <= c <= 102) || (65 <= c <= 70)
}

/// The value of an ASCII hex digit, either case.
pub open spec fn hex_val(c: u8) -> u8
    recommends
        is_hex_byte(c),
{
    if 48 <= c <= 57 {
        (c - 48) as u8
    } else if 97 <= c <= 102 {
        (c - 87) as u8
    } else {
        (c - 55) as u8
    }
}

/// The bytes a hex string of even length decodes to.
pub open spec fn hex_decoded(s: Seq<u8>) -> Seq<u8> {
    Seq::new(s.len() / 2, |i: int| (hex_val(s[2 * i]) * 16 + hex_val(s[2 * i + 1])) as u8)
}

/// Why a hex string failed to parse.
#[derive(Debug, Clone, Copy, PartialEq, Eq, Structural)]
pub enum HexError {
    InvalidChar,
    OddLength,
}

/// Relies on hex::decode: accepts exactly the even-length strings of hex
/// digits (either case) and decodes pairwise, high nibble first.
#[verifier::external_body]
pub fn hex_decode_bytes(s: &[u8]) -> (r: Result<Vec<u8>, HexError>)
    ensures
        match r {
            Ok(v) => s@.len() % 2 == 0 && (forall|i: int|
                0 <= i < s@.len() ==> is_hex_byte(#[trigger] s@[i])) && v@ == hex_decoded(s@),
            Err(e) => !(s@.len() % 2 == 0 && (forall|i: int|
                0 <= i < s@.len() ==> is_hex_byte(#[trigger] s@[i]))) && (e == HexError::OddLength
                ==> s@.len() % 2 == 1),
        },
{
    match hex::decode(s) {
        Ok(v) => Ok(v),
        Err(hex::FromHexError::OddLength) => Err(HexError::OddLength),
        Err(_) => Err(HexError::InvalidChar),
    }
}

/// Renders a hash in display order: byte-reversed, lowercase hex.
pub fn to_le_hex(hash: &[u8; 32]) -> (r: String)
    ensures
        r@ == hex_of(hash@.reverse()),
{
    let mut rev: Vec<u8> = Vec::new();
    let mut i: usize = 32;
    while i > 0
        invariant
            0 <= i <= 32,
            hash@.len() == 32,
            rev@ == hash@.reverse().take(32 - i),
        decreases i,
    {
        rev.push(hash[i - 1]);
        proof {
            assert(hash@.reverse()[32 - (i as int)] == hash@[i - 1]);
            assert(rev@ =~= hash@.reverse().take(32 - (i as int) + 1));
        }
        i -= 1;
    }
    assert(rev@ =~= hash@.reverse());
    hex_encode_bytes(rev.as_slice())
}

/// Parses a display-order hash: 64 hex digits, byte-reversed into the
/// stored order. Anything else is `None`.
pub fn from_le_hex(s: &[u8]) -> (r: Option<[u8; 32]>)
    ensures
        match r {
            Some(h) => s@.len() == 64 && (forall|i: int|
                0 <= i < s@.len() ==> is_hex_byte(#[trigger] s@[i])) && h@ == hex_decoded(
                s@,
            ).reverse(),
            None => !(s@.len() == 64 && (forall|i: int|
                0 <= i < s@.len() ==> is_hex_byte(#[trigger] s@[i]))),
        },
{
    if s.len() != 64 {
        return None;
    }
    let v = match hex_decode_bytes(s) {
        Ok(v) => v,
        Err(_) => {
            return None;
        },
    };
    let mut h = [0u8; 32];
    let mut i: usize = 0;
    while i < 32
        invariant
            0 <= i <= 32,
            v@ == hex_decoded(s@),
            v@.len() == 32,
            s@.len() == 64,
            forall|k: int| 0 <= k < i ==> h@[k] == v@[31 - k],
        decreases 32 - i,
    {
        h.set(i, v[31 - i]);
        i += 1;
    }
    assert(h@ =~= hex_decoded(s@).reverse());
    Some(h)
}

} // verus!
