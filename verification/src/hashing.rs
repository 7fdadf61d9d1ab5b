//! SHA-1 digests and their hexadecimal form.

use sha1::{Digest, Sha1};
use vstd::prelude::*;

verus! {

/// Number of bytes in a SHA-1 digest.
pub const DIGEST_LEN: usize = 20;

/// The SHA-1 digest of `data`.
///
/// The digest is computed by the `sha1` crate; this library does not model the
/// algorithm and only relies on the digest being a function of the input.
pub uninterp spec fn sha1_digest(data: Seq<u8>) -> Seq<u8>;

/// One hexadecimal digit in lower case; `n` is below 16.
pub open spec fn hex_digit(n: u8) -> char {
    if n < 10 {
        (48 + n) as char
    } else {
        (87 + n) as char
    }
}

/// The lower-case hexadecimal text of `data`: two digits per byte, high
/// nibble first.
pub open spec fn hex_lower(data: Seq<u8>) -> Seq<char> {
    Seq::new(
        2 * data.len(),
        |i: int|
            if i % 2 == 0 {
                hex_digit(data[i / 2] / 16)
            } else {
                hex_digit(data[i / 2] % 16)
            },
    )
}

/// Trusted: runs `Sha1::new`, `Digest::update` and `Digest::finalize` of the
/// `sha1` crate over `data`. The contract claims that the bytes returned are
/// the SHA-1 digest of `data`, and that there are twenty of them.
#[verifier::external_body]
pub(crate) fn sha1(data: &[u8]) -> (out: Vec<u8>)
    ensures
        out@ == sha1_digest(data@),
        out@.len() == DIGEST_LEN,
{
    let mut hasher = Sha1::new();
    hasher.update(data);
    hasher.finalize().to_vec()
}

/// Trusted: calls `hex::encode`. The contract claims that the text returned
/// holds two lower-case hexadecimal digits per input byte, high nibble first.
#[verifier::external_body]
pub(crate) fn hex_encode(data: &[u8]) -> (out: String)
    ensures
        out@ == hex_lower(data@),
{
    hex::encode(data)
}

/// The SHA-1 digest of `data` as forty lower-case hexadecimal digits.
pub fn sha1_hex(data: &[u8]) -> (out: String)
    ensures
        out@ == hex_lower(sha1_digest(data@)),
        out@.len() == 2 * DIGEST_LEN,
{
    let digest = sha1(data);
    hex_encode(digest.as_slice())
}

/// Whether two byte strings hold the same bytes.
pub fn bytes_equal(a: &[u8], b: &[u8]) -> (same: bool)
    ensures
        same == (a@ == b@),
{
    if a.len() != b.len() {
        return false;
    }
    let mut i: usize = 0;
    while i < a.len()
        invariant
            a@.len() == b@.len(),
            i <= a@.len(),
            forall|k: int| 0 <= k < i ==> a@[k] == b@[k],
        decreases a@.len() - i,
    {
        if a[i] != b[i] {
            return false;
        }
        i += 1;
    }
    assert(a@ =~= b@);
    true
}

} // verus!
