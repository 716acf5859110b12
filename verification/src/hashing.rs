//! SHA-256 digests and their hexadecimal text.
use vstd::prelude::*;
use sha2::Digest;

verus! {

/// The SHA-256 digest of `data`, as `sha2` computes it.
pub uninterp spec fn spec_sha256(data: Seq<u8>) -> Seq<u8>;

/// The lower-case hexadecimal digit for `d` (taken modulo sixteen).
pub open spec fn spec_hex_lower_char(d: nat) -> char {
    let d = d % 16;
    if d < 10 {
        ((48 + d) as u32) as char
    } else {
        ((87 + d) as u32) as char
    }
}

/// The bytes of `b` as lower-case hexadecimal text, two digits per byte.
pub open spec fn spec_hex_lower(b: Seq<u8>) -> Seq<char>
    decreases b.len(),
{
    if b.len() == 0 {
        Seq::empty()
    } else {
        spec_hex_lower(b.drop_last()) + seq![
            spec_hex_lower_char(b.last() as nat / 16),
            spec_hex_lower_char(b.last() as nat % 16),
        ]
    }
}

/// The value of a hexadecimal digit of either case.
pub open spec fn spec_hex_value(c: char) -> Option<nat> {
    let v = c as u32;
    if 48 <= v <= 57 {
        Some((v - 48) as nat)
    } else if 97 <= v <= 102 {
        Some((v - 87) as nat)
    } else if 65 <= v <= 70 {
        Some((v - 55) as nat)
    } else {
        None
    }
}

/// The bytes that hexadecimal text stands for: `None` when its length is
/// odd or a character is not a hexadecimal digit.
pub open spec fn spec_hex_decode(s: Seq<char>) -> Option<Seq<u8>>
    decreases s.len(),
{
    if s.len() == 0 {
        Some(Seq::empty())
    } else if s.len() == 1 {
        None
    } else {
        let n = s.len() as int;
        match (spec_hex_decode(s.subrange(0, n - 2)), spec_hex_value(s[n - 2]), spec_hex_value(s[n - 1])) {
            (Some(prefix), Some(hi), Some(lo)) => Some(prefix.push((hi * 16 + lo) as u8)),
            _ => None,
        }
    }
}

/// `sha2::Sha256::digest`: the digest of `data`, which depends on `data`
/// alone. Nothing is said of its bytes beyond their number.
#[verifier::external_body]
pub(crate) fn sha256(data: &[u8]) -> (r: [u8; 32])
    ensures
        r@ == spec_sha256(data@),
{
    sha2::Sha256::digest(data).into()
}

/// `hex::encode`: each byte as two lower-case hexadecimal digits.
#[verifier::external_body]
pub(crate) fn hex_encode(data: &[u8]) -> (r: String)
    ensures
        r@ == spec_hex_lower(data@),
{
    hex::encode(data)
}

/// `hex::decode` on the bytes of `s`: fails on an odd length or a byte
/// that is not a hexadecimal digit of either case.
#[verifier::external_body]
pub(crate) fn hex_decode(s: &str) -> (r: Option<Vec<u8>>)
    ensures
        match r {
            Some(v) => spec_hex_decode(s@) == Some(v@),
            None => spec_hex_decode(s@) is None,
        },
{
    hex::decode(s).ok()
}

/// The lower-case hexadecimal SHA-256 of `data`.
pub open spec fn spec_hash_hex(data: Seq<u8>) -> Seq<char> {
    spec_hex_lower(spec_sha256(data))
}

/// Hexadecimal text has two digits per byte.
pub proof fn lemma_hex_lower_len(b: Seq<u8>)
    ensures
        spec_hex_lower(b).len() == 2 * b.len(),
    decreases b.len(),
{
    if b.len() > 0 {
        lemma_hex_lower_len(b.drop_last());
    }
}

/// The lower-case hexadecimal SHA-256 of `data`: 64 characters.
pub fn hash_hex(data: &[u8]) -> (r: String)
    ensures
        r@ == spec_hash_hex(data@),
        r@.len() == 64,
{
    let digest = sha256(data);
    proof { lemma_hex_lower_len(digest@); }
    hex_encode(digest.as_slice())
}

} // verus!
