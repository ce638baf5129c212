//! SHA-256 content addressing and lowercase hexadecimal digests.

use crate::bytes::{hex, hex_text, lemma_hex_text_len};
use crate::keyspaces::{is_lower_hex_byte, is_sha256_text};
use vstd::string::StringSliceAdditionalSpecFns;
use sha2::Digest;
use vstd::prelude::*;

verus! {

/// The SHA-256 digest of a byte string.
pub uninterp spec fn sha256_digest(bytes: Seq<u8>) -> Seq<u8>;

/// `sha2::Sha256::digest`: the contract names the result `sha256_digest` of
/// the input bytes and states that it is 32 bytes long; nothing else about
/// the hash function is claimed.
#[verifier::external_body]
pub(crate) fn sha256(bytes: &[u8]) -> (d: Vec<u8>)
    ensures
        d@ == sha256_digest(bytes@),
        d@.len() == 32,
{
    sha2::Sha256::digest(bytes).to_vec()
}

/// The lowercase hexadecimal SHA-256 digest of a byte string.
pub open spec fn sha256_hex_text(bytes: Seq<u8>) -> Seq<char> {
    hex_text(sha256_digest(bytes))
}

/// Lowercase hexadecimal SHA-256 of `bytes`: 64 characters.
pub fn sha256_hex(bytes: &[u8]) -> (s: String)
    ensures
        s@ == sha256_hex_text(bytes@),
        s@.len() == 64,
{
    let digest = sha256(bytes);
    proof {
        lemma_hex_text_len(digest@);
    }
    hex(digest.as_slice())
}

/// Whether `bytes` are exactly 64 lowercase hexadecimal digits.
pub fn is_sha256_bytes(bytes: &[u8]) -> (ok: bool)
    ensures
        ok == is_sha256_text(bytes@),
{
    if bytes.len() != 64 {
        return false;
    }
    let mut i: usize = 0;
    while i < 64
        invariant
            bytes@.len() == 64,
            i <= 64,
            forall|j: int| 0 <= j < i ==> is_lower_hex_byte(#[trigger] bytes@[j]),
        decreases 64 - i,
    {
        let b = bytes[i];
        if !((48 <= b && b <= 57) || (97 <= b && b <= 102)) {
            return false;
        }
        i = i + 1;
    }
    true
}

/// Whether `value` is a lowercase hexadecimal SHA-256 digest.
pub fn is_sha256(value: &str) -> (ok: bool)
    ensures
        ok == is_sha256_text(value.spec_bytes()),
{
    is_sha256_bytes(value.as_bytes())
}

} // verus!
