//! Content identifiers: lowercase hex of the BLAKE3 digest of canonical bytes.
use vstd::prelude::*;

verus! {

/// The BLAKE3 digest of `b`.
pub uninterp spec fn blake3_digest(b: Seq<u8>) -> Seq<u8>;

/// The lowercase hexadecimal digit for a value below 16.
pub open spec fn hex_digit(n: u8) -> char {
    if n < 10 {
        (('0' as u8) + n) as char
    } else {
        (('a' as u8) + (n - 10)) as char
    }
}

/// Two lowercase hex digits per byte, high nibble first, no separators.
pub open spec fn hex_lower(b: Seq<u8>) -> Seq<char>
    decreases b.len(),
{
    if b.len() == 0 {
        Seq::empty()
    } else {
        seq![hex_digit(b[0] / 16), hex_digit(b[0] % 16)] + hex_lower(b.drop_first())
    }
}

/// The content identifier of a canonical byte string.
pub open spec fn cid_of(b: Seq<u8>) -> Seq<char> {
    hex_lower(blake3_digest(b))
}

/// The length of a hex encoding is twice the number of bytes.
pub proof fn lemma_hex_lower_len(b: Seq<u8>)
    ensures
        hex_lower(b).len() == 2 * b.len(),
    decreases b.len(),
{
    if b.len() > 0 {
        lemma_hex_lower_len(b.drop_first());
    }
}

/// Every character is a lowercase hexadecimal digit.
pub open spec fn is_lower_hex(s: Seq<char>) -> bool {
    forall|i: int|
        0 <= i < s.len() ==> (48 <= (#[trigger] s[i]) as u32 <= 57) || (97 <= s[i] as u32 <= 102)
}

/// A hex encoding is made of lowercase hexadecimal digits only.
pub proof fn lemma_hex_lower_is_lower_hex(b: Seq<u8>)
    ensures
        is_lower_hex(hex_lower(b)),
    decreases b.len(),
{
    if b.len() > 0 {
        lemma_hex_lower_is_lower_hex(b.drop_first());
        let head = seq![hex_digit(b[0] / 16), hex_digit(b[0] % 16)];
        assert(is_lower_hex(head));
        let h = hex_lower(b);
        assert(h == head + hex_lower(b.drop_first()));
        assert forall|i: int| 0 <= i < h.len() implies (48 <= (#[trigger] h[i]) as u32 <= 57) || (
        97 <= h[i] as u32 <= 102) by {
            if i >= 2 {
                assert(h[i] == hex_lower(b.drop_first())[i - 2]);
            }
        }
    }
}

/// Every content identifier is written in lowercase hexadecimal digits.
pub proof fn lemma_cid_is_lower_hex(b: Seq<u8>)
    ensures
        is_lower_hex(cid_of(b)),
{
    lemma_hex_lower_is_lower_hex(blake3_digest(b));
}

/// Relies on blake3::hash: a 32-byte digest that depends on the input bytes alone.
#[verifier::external_body]
fn blake3_hash(b: &[u8]) -> (r: [u8; 32])
    ensures
        r@ == blake3_digest(b@),
{
    *blake3::hash(b).as_bytes()
}

/// Relies on hex::encode: two lowercase hex digits per byte, in order.
#[verifier::external_body]
fn hex_encode(b: &[u8]) -> (r: String)
    ensures
        r@ == hex_lower(b@),
{
    hex::encode(b)
}

/// Computes the content identifier of `canonical`: 64 lowercase hex digits.
pub fn compute_cid(canonical: &[u8]) -> (r: String)
    ensures
        r@ == cid_of(canonical@),
        r@.len() == 64,
        is_lower_hex(r@),
{
    let digest = blake3_hash(canonical);
    let r = hex_encode(digest.as_slice());
    proof {
        lemma_hex_lower_len(digest@);
        lemma_hex_lower_is_lower_hex(digest@);
    }
    r
}

} // verus!
