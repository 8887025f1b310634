//! SHA-256, from `sha2`.

use sha2::Digest;
use vstd::prelude::*;

verus! {

/// The SHA-256 digest of `data`.
pub uninterp spec fn sha256_of(data: Seq<u8>) -> Seq<u8>;

/// `sha2::Sha256::digest`: the digest depends on the bytes alone.
#[verifier::external_body]
pub(crate) fn sha256(data: &[u8]) -> (r: [u8; 32])
    ensures
        r@ == sha256_of(data@),
{
    sha2::Sha256::digest(data).into()
}

} // verus!
