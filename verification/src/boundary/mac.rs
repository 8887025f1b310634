//! HMAC-SHA-256, from `hmac`.

use hmac::{KeyInit, Mac};
use vstd::prelude::*;

verus! {

/// The HMAC-SHA-256 of a message under a key.
pub uninterp spec fn hmac_of(key: Seq<u8>, message: Seq<u8>) -> Seq<u8>;

/// `hmac::Hmac<sha2::Sha256>`, keyed, fed and asked to verify in constant time:
/// a tag is accepted exactly where it is the code of the message under the key.
/// Keys of every length are taken.
#[verifier::external_body]
pub(crate) fn tag_matches(key: &[u8], message: &[u8], tag: &[u8]) -> (r: bool)
    ensures
        r == (tag@ == hmac_of(key@, message@)),
{
    let mut mac = hmac::Hmac::<sha2::Sha256>::new_from_slice(key).unwrap();
    mac.update(message);
    mac.verify_slice(tag).is_ok()
}

} // verus!
