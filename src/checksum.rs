//! SHA-256 verification of downloaded archives.

use vstd::prelude::*;
use crate::text::{eq_ignore_ascii_case, is_ws, trim, trim_end, trim_start, equals_ignore_ascii_case, trim_str};

verus! {

/// The SHA-256 digest of `data`.
pub uninterp spec fn sha256_of(data: Seq<u8>) -> Seq<u8>;

/// Relies on `sha2::Sha256::digest` (through `digest::Digest`): the SHA-256
/// digest of the bytes, 32 bytes long (the hasher's `OutputSize` is `U32`).
#[verifier::external_body]
fn sha256_digest(data: &[u8]) -> (r: Vec<u8>)
    ensures
        r@ == sha256_of(data@),
        r@.len() == 32,
{
    <sha2::Sha256 as sha2::Digest>::digest(data).to_vec()
}

/// Lower case hex digit for a value below 16.
pub open spec fn hex_digit(n: int) -> char {
    seq!['0', '1', '2', '3', '4', '5', '6', '7', '8', '9', 'a', 'b', 'c', 'd', 'e', 'f'][n]
}

/// Lower case hex encoding of `b`, two digits per byte.
pub open spec fn hex_of(b: Seq<u8>) -> Seq<char>
    decreases b.len(),
{
    if b.len() == 0 {
        Seq::empty()
    } else {
        let last = b[b.len() - 1] as int;
        hex_of(b.subrange(0, b.len() - 1)) + seq![hex_digit(last / 16), hex_digit(last % 16)]
    }
}

/// An expected digest accepts `digest` when it is blank (no verification
/// asked), or equals its hex encoding ignoring ASCII case, once trimmed.
pub open spec fn checksum_accepts(digest: Seq<u8>, expected: Seq<char>) -> bool {
    let e = trim(expected);
    e.len() == 0 || eq_ignore_ascii_case(e, hex_of(digest))
}

/// A digest that did not match what was expected.
#[derive(Clone, Debug)]
pub struct ChecksumMismatch {
    /// The expected digest, trimmed.
    pub expected: String,
    /// The hex encoding of the digest computed.
    pub actual: String,
}

/// Lower case hex encoding of `bytes`.
pub fn hex_lower(bytes: &[u8]) -> (r: String)
    ensures
        r@ == hex_of(bytes@),
{
    let digits = "0123456789abcdef";
    proof {
        reveal_strlit("0123456789abcdef");
    }
    let mut out = String::new();
    let mut i: usize = 0;
    assert(bytes@.subrange(0, 0) =~= Seq::<u8>::empty());
    while i < bytes.len()
        invariant
            i <= bytes@.len(),
            digits@ =~= seq!['0', '1', '2', '3', '4', '5', '6', '7', '8', '9', 'a', 'b', 'c', 'd', 'e', 'f'],
            out@ == hex_of(bytes@.subrange(0, i as int)),
        decreases bytes@.len() - i,
    {
        let b = bytes[i];
        let hi = (b / 16) as usize;
        let lo = (b % 16) as usize;
        let ghost next = bytes@.subrange(0, i + 1);
        assert(next.subrange(0, next.len() - 1) =~= bytes@.subrange(0, i as int));
        out = out.concat(digits.substring_char(hi, hi + 1));
        out = out.concat(digits.substring_char(lo, lo + 1));
        assert(out@ =~= hex_of(next));
        i = i + 1;
    }
    assert(bytes@.subrange(0, bytes@.len() as int) =~= bytes@);
    out
}

/// Compares a computed digest with the expected hex text (trimmed, ASCII case
/// ignored); a blank expected text accepts any digest.
pub fn digest_matches(digest: &[u8], expected: &str) -> (r: Result<(), ChecksumMismatch>)
    ensures
        r.is_ok() == checksum_accepts(digest@, expected@),
        r matches Err(e) ==> e.expected@ == trim(expected@) && e.actual@ == hex_of(digest@),
{
    let actual = hex_lower(digest);
    let wanted = trim_str(expected);
    if wanted.unicode_len() == 0 {
        return Ok(());
    }
    if !equals_ignore_ascii_case(wanted.as_str(), actual.as_str()) {
        return Err(ChecksumMismatch { expected: wanted, actual });
    }
    Ok(())
}

/// Checks `content` against an expected SHA-256 hex digest; a blank expected
/// digest asks for no verification.
pub fn verify_sha256_checksum(content: &[u8], expected: &str) -> (r: Result<(), ChecksumMismatch>)
    ensures
        r.is_ok() == checksum_accepts(sha256_of(content@), expected@),
        r matches Err(e) ==> e.expected@ == trim(expected@) && e.actual@ == hex_of(
            sha256_of(content@),
        ),
{
    let digest = sha256_digest(content);
    digest_matches(digest.as_slice(), expected)
}

proof fn lemma_hex_digits_not_ws(b: Seq<u8>)
    ensures
        forall|i: int| 0 <= i < hex_of(b).len() ==> !is_ws(#[trigger] hex_of(b)[i]),
    decreases b.len(),
{
    if b.len() > 0 {
        let last = b[b.len() - 1] as int;
        let prev = b.subrange(0, b.len() - 1);
        lemma_hex_digits_not_ws(prev);
        let tail = seq![hex_digit(last / 16), hex_digit(last % 16)];
        assert forall|i: int| 0 <= i < hex_of(b).len() implies !is_ws(#[trigger] hex_of(b)[i]) by {
            if i < hex_of(prev).len() {
                assert(hex_of(b)[i] == hex_of(prev)[i]);
            } else {
                assert(hex_of(b)[i] == tail[i - hex_of(prev).len()]);
            }
        }
    }
}

/// The hex encoding of any digest, used as the expected value, is accepted for
/// that digest: the true digest of a file always verifies.
pub proof fn lemma_true_digest_accepted(data: Seq<u8>)
    ensures
        checksum_accepts(sha256_of(data), hex_of(sha256_of(data))),
{
    let h = hex_of(sha256_of(data));
    lemma_hex_digits_not_ws(sha256_of(data));
    assert(trim_start(h) == h);
    assert(trim_end(h) == h);
    assert(eq_ignore_ascii_case(h, h));
}

} // verus!
