//! Content identifiers: the lowercase hex form of a SHA-256 digest.

use sha2::{Digest, Sha256};
use vstd::prelude::*;

verus! {

/// A content identifier, written as the lowercase hex digits of a 32-byte digest.
pub type ContentId = String;

/// Number of bytes in a digest.
pub const DIGEST_LEN: usize = 32;

/// The SHA-256 digest of a byte sequence.
pub uninterp spec fn sha256_of(b: Seq<u8>) -> Seq<u8>;

/// The lowercase hex digit for a value below 16.
pub open spec fn hex_digit(d: u8) -> char {
    seq!['0', '1', '2', '3', '4', '5', '6', '7', '8', '9', 'a', 'b', 'c', 'd', 'e', 'f'][d as int]
}

/// Two lowercase hex digits per byte, high half first.
pub open spec fn hex_of(b: Seq<u8>) -> Seq<char>
    decreases b.len(),
{
    if b.len() == 0 {
        Seq::empty()
    } else {
        seq![hex_digit(b[0] / 16), hex_digit(b[0] % 16)] + hex_of(b.drop_first())
    }
}

/// The identifier of a payload: the hex form of its digest.
pub open spec fn content_id_of(b: Seq<u8>) -> Seq<char> {
    hex_of(sha256_of(b))
}

/// Relies on sha2::Sha256::digest: the 32-byte SHA-256 digest of the input.
#[verifier::external_body]
pub(crate) fn sha256(b: &[u8]) -> (r: Vec<u8>)
    ensures
        r@ == sha256_of(b@),
        r@.len() == DIGEST_LEN,
{
    Sha256::digest(b).to_vec()
}

/// Relies on hex::encode: two lowercase hex digits for each byte, high half first.
#[verifier::external_body]
pub(crate) fn hex_encode(b: &[u8]) -> (r: String)
    ensures
        r@ == hex_of(b@),
{
    hex::encode(b)
}

/// Relies on hex::decode: a string that is the hex form of some bytes decodes
/// to those bytes, two digits per byte.
#[verifier::external_body]
pub(crate) fn hex_decode(s: &str) -> (r: Option<Vec<u8>>)
    ensures
        r is None ==> forall|b: Seq<u8>| hex_of(b) != s@,
        r matches Some(v) ==> 2 * v@.len() == s@.len() && ((exists|b: Seq<u8>| hex_of(b) == s@)
            ==> hex_of(v@) == s@),
{
    hex::decode(s).ok()
}

/// The hex form has two characters per byte.
pub proof fn lemma_hex_len(b: Seq<u8>)
    ensures
        hex_of(b).len() == 2 * b.len(),
    decreases b.len(),
{
    if b.len() > 0 {
        lemma_hex_len(b.drop_first());
    }
}

/// Different bytes have different hex forms.
pub proof fn lemma_hex_injective(a: Seq<u8>, b: Seq<u8>)
    requires
        hex_of(a) == hex_of(b),
    ensures
        a == b,
    decreases a.len(),
{
    lemma_hex_len(a);
    lemma_hex_len(b);
    if a.len() > 0 {
        let ha = hex_of(a);
        let hb = hex_of(b);
        let pa = seq![hex_digit(a[0] / 16), hex_digit(a[0] % 16)];
        let pb = seq![hex_digit(b[0] / 16), hex_digit(b[0] % 16)];
        assert(ha == pa + hex_of(a.drop_first()));
        assert(hb == pb + hex_of(b.drop_first()));
        assert(ha[0] == pa[0] && ha[1] == pa[1]);
        assert(hb[0] == pb[0] && hb[1] == pb[1]);
        assert(a[0] / 16 == b[0] / 16);
        assert(a[0] % 16 == b[0] % 16);
        assert(a[0] == b[0]);
        assert(hex_of(a.drop_first()) =~= ha.subrange(2, ha.len() as int));
        assert(hex_of(b.drop_first()) =~= hb.subrange(2, hb.len() as int));
        lemma_hex_injective(a.drop_first(), b.drop_first());
        assert(a =~= seq![a[0]] + a.drop_first());
        assert(b =~= seq![b[0]] + b.drop_first());
    }
}

/// The identifier of a payload.
pub fn content_id(payload: &[u8]) -> (r: ContentId)
    ensures
        r@ == content_id_of(payload@),
{
    let d = sha256(payload);
    hex_encode(d.as_slice())
}

} // verus!
