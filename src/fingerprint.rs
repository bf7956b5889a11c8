//! Content fingerprints: the SHA-256 digest of a file's bytes, as lowercase hex.

use sha2::Digest;
use vstd::prelude::*;

verus! {

/// The lowercase hexadecimal rendering of the SHA-256 digest of `bytes`.
pub uninterp spec fn sha256_hex(bytes: Seq<u8>) -> Seq<char>;

/// Relies on `sha2::Sha256` through `digest::Digest::digest`, which hashes the
/// whole slice, and on generic-array's `LowerHex`, which writes each of the 32
/// digest bytes as two lowercase hex digits.
#[verifier::external_body]
fn sha256_hex_digest(bytes: &[u8]) -> (r: String)
    ensures
        r@ == sha256_hex(bytes@),
        r@.len() == 64,
{
    format!("{:x}", sha2::Sha256::digest(bytes))
}

/// The fingerprint of a file whose content is `content`.
pub fn fingerprint(content: &[u8]) -> (r: String)
    ensures
        r@ == sha256_hex(content@),
        r@.len() == 64,
{
    sha256_hex_digest(content)
}

} // verus!
