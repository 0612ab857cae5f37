//! Content hashes.

use sha2::{Digest, Sha256};
use vstd::prelude::*;

verus! {

/// The SHA-256 digest of a byte string.
pub uninterp spec fn sha256(data: Seq<u8>) -> Seq<u8>;

/// Computes the SHA-256 digest of `data` with `sha2::Sha256::digest`.
///
/// Trusted: the result is taken to be the digest of exactly these bytes,
/// the same for the same bytes on every call.
#[verifier::external_body]
pub(crate) fn sha256_digest(data: &[u8]) -> (digest: Vec<u8>)
    ensures
        digest@ == sha256(data@),
{
    Sha256::digest(data).to_vec()
}

} // verus!
