//! ChaCha20-Poly1305, from `chacha20poly1305`.

use chacha20poly1305::aead::{Aead, KeyInit};
use vstd::prelude::*;

verus! {

/// The ciphertext, tag included, of `plaintext`.
pub uninterp spec fn sealed_of(key: Seq<u8>, nonce: Seq<u8>, plaintext: Seq<u8>) -> Seq<u8>;

/// The plaintext of `ciphertext`; `None` where authentication fails.
pub uninterp spec fn opened_of(key: Seq<u8>, nonce: Seq<u8>, ciphertext: Seq<u8>) -> Option<
    Seq<u8>,
>;

/// The length from which on a message is refused: the block counter of the
/// cipher has 32 bits, and a block 64 bytes.
pub open spec fn refused_from() -> int {
    64int * 0xffff_ffff
}

/// Whether a message of this length fits the block counter or is refused; in
/// between the cipher would run out of blocks half way.
pub open spec fn length_is_handled(len: int) -> bool {
    len <= 64 * 0xffff_fffe || len >= refused_from()
}

/// `chacha20poly1305::ChaCha20Poly1305::encrypt`: only a message that is too
/// long is refused. The ciphertext depends on the arguments alone, is 16 bytes
/// longer than the message, and opens to it under the same key and nonce.
#[verifier::external_body]
pub(crate) fn seal(key: &[u8; 32], nonce: &[u8; 12], plaintext: &[u8]) -> (r: Option<Vec<u8>>)
    requires
        length_is_handled(plaintext@.len() as int),
    ensures
        r is Some <==> plaintext@.len() < refused_from(),
        r matches Some(c) ==> {
            &&& c@ == sealed_of(key@, nonce@, plaintext@)
            &&& c@.len() == plaintext@.len() + 16
            &&& opened_of(key@, nonce@, c@) == Some(plaintext@)
        },
{
    chacha20poly1305::ChaCha20Poly1305::new(chacha20poly1305::Key::from_slice(key)).encrypt(
        chacha20poly1305::Nonce::from_slice(nonce),
        plaintext,
    ).ok()
}

/// `chacha20poly1305::ChaCha20Poly1305::decrypt`: what comes out, or that
/// nothing does, depends on the arguments alone.
#[verifier::external_body]
pub(crate) fn open_sealed(key: &[u8; 32], nonce: &[u8; 12], ciphertext: &[u8]) -> (r: Option<
    Vec<u8>,
>)
    requires
        length_is_handled(ciphertext@.len() - 16),
    ensures
        r is Some <==> opened_of(key@, nonce@, ciphertext@) is Some,
        r matches Some(p) ==> opened_of(key@, nonce@, ciphertext@) == Some(p@),
{
    chacha20poly1305::ChaCha20Poly1305::new(chacha20poly1305::Key::from_slice(key)).decrypt(
        chacha20poly1305::Nonce::from_slice(nonce),
        ciphertext,
    ).ok()
}

} // verus!
