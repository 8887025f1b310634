//! Ed25519 signatures, from `ed25519_dalek`.

use ed25519_dalek::Signer;
use vstd::prelude::*;

verus! {

/// The public key that belongs to a seed.
pub uninterp spec fn public_key_of(seed: Seq<u8>) -> Seq<u8>;

/// The signature over `msg` with the key of `seed`.
pub uninterp spec fn signature_of(seed: Seq<u8>, msg: Seq<u8>) -> Seq<u8>;

/// Whether the bytes are the encoding of a point of the curve.
pub uninterp spec fn is_public_key(key: Seq<u8>) -> bool;

/// Whether the strict rules accept `sig` for `msg` under `key`.
pub uninterp spec fn signature_accepted(key: Seq<u8>, msg: Seq<u8>, sig: Seq<u8>) -> bool;

/// Whether the first half of a signature encodes the neutral point of the
/// curve, which the strict rules reject.
pub open spec fn commits_to_identity(sig: Seq<u8>) -> bool {
    sig.len() >= 32 && sig[0] == 1 && forall|i: int| 1 <= i < 32 ==> sig[i] == 0
}

/// `ed25519_dalek::SigningKey::from_bytes` and its `verifying_key`: the public
/// key depends on the seed alone and parses.
#[verifier::external_body]
pub(crate) fn public_key(seed: &[u8; 32]) -> (r: [u8; 32])
    ensures
        r@ == public_key_of(seed@),
        is_public_key(r@),
{
    ed25519_dalek::SigningKey::from_bytes(seed).verifying_key().to_bytes()
}

/// `ed25519_dalek::SigningKey::sign`: the signature depends on the seed and the
/// message alone. The strict rules accept it under the seed's own public key,
/// unless its commitment happens to be the neutral point.
#[verifier::external_body]
pub(crate) fn sign(seed: &[u8; 32], msg: &[u8]) -> (r: [u8; 64])
    ensures
        r@ == signature_of(seed@, msg@),
        !commits_to_identity(r@) ==> signature_accepted(public_key_of(seed@), msg@, r@),
{
    ed25519_dalek::SigningKey::from_bytes(seed).sign(msg).to_bytes()
}

/// `ed25519_dalek::VerifyingKey::from_bytes`: whether the bytes parse depends
/// on them alone.
#[verifier::external_body]
pub(crate) fn key_parses(key: &[u8; 32]) -> (r: bool)
    ensures
        r == is_public_key(key@),
{
    ed25519_dalek::VerifyingKey::from_bytes(key).is_ok()
}

/// `ed25519_dalek::VerifyingKey::verify_strict`: the answer depends on the key,
/// the message and the signature alone.
#[verifier::external_body]
pub(crate) fn verify_strict(key: &[u8; 32], msg: &[u8], sig: &[u8; 64]) -> (r: bool)
    ensures
        r == signature_accepted(key@, msg@, sig@),
{
    match ed25519_dalek::VerifyingKey::from_bytes(key) {
        Ok(k) => k.verify_strict(msg, &ed25519_dalek::Signature::from_bytes(sig)).is_ok(),
        Err(_) => false,
    }
}

} // verus!
