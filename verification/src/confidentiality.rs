//! Envelope encryption.
//!
//! ChaCha20-Poly1305 AEAD with 256-bit keys and 96-bit nonces. The same
//! primitive serves both payload encryption (DEK) and DEK wrapping (KEK); the
//! distinction is only in what plaintext is passed.
//!
//! This module does **not** defend against a malicious *assigned* runner
//! (they legitimately hold the DEK).

use crate::boundary::aead;
use vstd::prelude::*;

verus! {

/// 256-bit symmetric key. Used for both DEK and KEK.
pub type SymKey = [u8; 32];

/// 96-bit nonce. Must be unique per (key, message) pair for semantic
/// security; reuse under the same key breaks confidentiality.
pub type Nonce = [u8; 12];

/// Failure modes for `encrypt` / `decrypt` / `wrap_dek` / `unwrap_dek`.
#[derive(Clone, Copy, Debug, PartialEq, Eq, Structural)]
pub enum AeadError {
    /// Encryption or decryption failed. For decryption: tampered ciphertext,
    /// wrong key, wrong nonce, truncated input.
    Failed,
    /// Unwrap produced bytes of the wrong length to be a `SymKey`.
    BadKeyLength,
}

/// Encrypt `plaintext` under `key` with `nonce`. Returns ciphertext
/// including the Poly1305 tag, which decrypts to `plaintext` under the same
/// key and nonce.
///
/// # Errors
///
/// Returns `AeadError::Failed` if the plaintext is too long for the cipher.
pub fn encrypt(key: &SymKey, nonce: &Nonce, plaintext: &[u8]) -> (r: Result<Vec<u8>, AeadError>)
    requires
        aead::length_is_handled(plaintext@.len() as int),
    ensures
        r is Ok <==> plaintext@.len() < aead::refused_from(),
        r matches Ok(c) ==> {
            &&& c@ == aead::sealed_of(key@, nonce@, plaintext@)
            &&& c@.len() == plaintext@.len() + 16
            &&& decrypted(key@, nonce@, c@) == Some(plaintext@)
        },
        r matches Err(e) ==> e == AeadError::Failed,
{
    match aead::seal(key, nonce, plaintext) {
        Some(c) => Ok(c),
        None => Err(AeadError::Failed),
    }
}

/// What decryption gives. A ciphertext of a length that the cipher has no blocks
/// for was never sealed, and gives nothing.
pub open spec fn decrypted(key: Seq<u8>, nonce: Seq<u8>, ciphertext: Seq<u8>) -> Option<Seq<u8>> {
    if aead::length_is_handled(ciphertext.len() - 16) {
        aead::opened_of(key, nonce, ciphertext)
    } else {
        None
    }
}

/// Decrypt `ciphertext` under `key` and `nonce`.
///
/// # Errors
///
/// Returns `AeadError::Failed` if authentication fails, or if the ciphertext has
/// a length that nothing encrypts to.
pub fn decrypt(key: &SymKey, nonce: &Nonce, ciphertext: &[u8]) -> (r: Result<Vec<u8>, AeadError>)
    ensures
        r is Ok <==> decrypted(key@, nonce@, ciphertext@) is Some,
        r matches Ok(p) ==> decrypted(key@, nonce@, ciphertext@) == Some(p@),
        r matches Err(e) ==> e == AeadError::Failed,
{
    let n: u64 = ciphertext.len() as u64;
    if n > 64 * 0xffff_fffe + 16 && n < 64 * 0xffff_ffff + 16 {
        return Err(AeadError::Failed);
    }
    match aead::open_sealed(key, nonce, ciphertext) {
        Some(p) => Ok(p),
        None => Err(AeadError::Failed),
    }
}

/// Wrap a DEK under a KEK: `encrypt` applied to a 32-byte plaintext. It never
/// fails, and unwrapping under the same KEK and nonce gives the DEK back.
///
/// # Errors
///
/// Same as `encrypt`.
pub fn wrap_dek(kek: &SymKey, nonce: &Nonce, dek: &SymKey) -> (r: Result<Vec<u8>, AeadError>)
    ensures
        r matches Ok(c) && {
            &&& c@ == aead::sealed_of(kek@, nonce@, dek@)
            &&& c@.len() == 48
            &&& unwrapped(decrypted(kek@, nonce@, c@)) == Ok::<Seq<u8>, AeadError>(dek@)
        },
{
    encrypt(kek, nonce, dek)
}

/// What unwrapping gives, from what decryption gave.
pub open spec fn unwrapped(opened: Option<Seq<u8>>) -> Result<Seq<u8>, AeadError> {
    match opened {
        None => Err(AeadError::Failed),
        Some(p) => if p.len() == 32 {
            Ok(p)
        } else {
            Err(AeadError::BadKeyLength)
        },
    }
}

/// Unwrap a wrapped DEK using the KEK that wrapped it.
///
/// # Errors
///
/// `AeadError::Failed` on auth failure; `AeadError::BadKeyLength` where the
/// decrypted bytes are not exactly 32.
pub fn unwrap_dek(kek: &SymKey, nonce: &Nonce, wrapped: &[u8]) -> (r: Result<SymKey, AeadError>)
    ensures
        match r {
            Ok(k) => unwrapped(decrypted(kek@, nonce@, wrapped@)) == Ok::<
                Seq<u8>,
                AeadError,
            >(k@),
            Err(e) => unwrapped(decrypted(kek@, nonce@, wrapped@)) == Err::<
                Seq<u8>,
                AeadError,
            >(e),
        },
{
    match decrypt(kek, nonce, wrapped) {
        Ok(bytes) => key_from_bytes(&bytes),
        Err(e) => Err(e),
    }
}

/// Decrypted bytes taken as a key.
///
/// # Errors
///
/// `AeadError::BadKeyLength` unless there are exactly 32.
pub fn key_from_bytes(bytes: &Vec<u8>) -> (r: Result<SymKey, AeadError>)
    ensures
        match r {
            Ok(k) => unwrapped(Some(bytes@)) == Ok::<Seq<u8>, AeadError>(k@),
            Err(e) => unwrapped(Some(bytes@)) == Err::<Seq<u8>, AeadError>(e),
        },
{
    if bytes.len() != 32 {
        return Err(AeadError::BadKeyLength);
    }
    let mut out: SymKey = [0u8; 32];
    let mut i: usize = 0;
    while i < 32
        invariant
            i <= 32,
            bytes@.len() == 32,
            forall|k: int| 0 <= k < i ==> out@[k] == bytes@[k],
        decreases 32 - i,
    {
        out[i] = bytes[i];
        i = i + 1;
    }
    assert(out@ =~= bytes@);
    Ok(out)
}

/// A wrapped key is the plaintext, where that opens and has the length of a key.
pub proof fn law_wrapped_key_is_the_plaintext(opened: Option<Seq<u8>>, key: Seq<u8>)
    ensures
        unwrapped(opened) == Ok::<Seq<u8>, AeadError>(key) <==> opened == Some(key) && key.len()
            == 32,
        unwrapped(opened) == Err::<Seq<u8>, AeadError>(AeadError::Failed) <==> opened is None,
        unwrapped(opened) == Err::<Seq<u8>, AeadError>(AeadError::BadKeyLength) <==> opened is Some
            && opened->0.len() != 32,
{
}

/// Every ciphertext of a common length is opened, and comes to what the cipher
/// makes of it.
pub proof fn law_ciphertext_is_opened(key: Seq<u8>, nonce: Seq<u8>, ciphertext: Seq<u8>)
    requires
        ciphertext.len() <= 64 * 0xffff_fffe + 16,
    ensures
        decrypted(key, nonce, ciphertext) == aead::opened_of(key, nonce, ciphertext),
{
}

} // verus!
