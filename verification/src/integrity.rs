//! Package integrity strings: `sha512-` and the base64 SHA-512 of the archive.
use vstd::prelude::*;

use crate::codec::{base64_encode, base64_text, sha512, sha512_digest};
use crate::text::concat_str;

verus! {

/// The integrity string of an archive's bytes.
pub open spec fn integrity_text(bytes: Seq<u8>) -> Seq<char> {
    "sha512-"@ + base64_text(sha512_digest(bytes))
}

/// Computes the integrity string that lockfiles record for an archive.
pub fn calculate_integrity(bytes: &[u8]) -> (r: String)
    ensures
        r@ == integrity_text(bytes@),
{
    let hash = sha512(bytes);
    let encoded = base64_encode(hash.as_slice());
    concat_str("sha512-", encoded.as_str())
}

/// Whether downloaded bytes match the integrity a lockfile records.
pub fn integrity_matches(bytes: &[u8], expected: &str) -> (r: bool)
    ensures
        r == (integrity_text(bytes@) == expected@),
{
    let actual = calculate_integrity(bytes);
    crate::text::same_text(actual.as_str(), expected)
}

} // verus!
