use vstd::prelude::*;
use sha2::{Digest, Sha256};

verus! {

/// The lower-case hexadecimal SHA-256 digest of a byte sequence.
pub uninterp spec fn sha256_hex(b: Seq<u8>) -> Seq<char>;

/// A lower-case hexadecimal digit.
pub open spec fn is_hex_digit(c: char) -> bool {
    ('0' <= c && c <= '9') || ('a' <= c && c <= 'f')
}

/// Relies on sha2's `Sha256` and the lower-hex rendering of its output:
/// the digest is a function of the bytes alone, and its 32 bytes print as
/// 64 lower-case hexadecimal digits.
#[verifier::external_body]
pub fn hash_content(content: &[u8]) -> (r: String)
    ensures
        r@ == sha256_hex(content@),
        r@.len() == 64,
        forall|i: int| 0 <= i < r@.len() ==> is_hex_digit(#[trigger] r@[i]),
{
    let mut hasher = Sha256::new();
    hasher.update(content);
    format!("{:x}", hasher.finalize())
}

} // verus!
