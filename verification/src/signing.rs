//! Ed25519 signing: 32-byte seeds, raw-bytes signing, strict verification.

use crate::boundary::ed25519;
use vstd::prelude::*;

verus! {

/// A parsed Ed25519 public key.
#[derive(Clone, Copy, Debug, PartialEq, Eq)]
pub struct VerifyingKey {
    bytes: [u8; 32],
}

/// Ed25519 signature bytes.
#[derive(Clone, Copy, Debug, PartialEq, Eq)]
pub struct Signature {
    bytes: [u8; 64],
}

/// A key that does not parse, or a signature that the strict rules reject.
#[derive(Clone, Copy, Debug, PartialEq, Eq, Structural)]
pub struct SignatureError;

impl View for VerifyingKey {
    type V = Seq<u8>;

    closed spec fn view(&self) -> Seq<u8> {
        self.bytes@
    }
}

impl View for Signature {
    type V = Seq<u8>;

    closed spec fn view(&self) -> Seq<u8> {
        self.bytes@
    }
}

impl VerifyingKey {
    /// Parse a public key.
    ///
    /// # Errors
    ///
    /// Where the bytes are not the encoding of a point of the curve.
    pub fn from_bytes(bytes: &[u8; 32]) -> (r: Result<VerifyingKey, SignatureError>)
        ensures
            r is Ok <==> ed25519::is_public_key(bytes@),
            r matches Ok(k) ==> k@ == bytes@,
    {
        if ed25519::key_parses(bytes) {
            Ok(VerifyingKey { bytes: *bytes })
        } else {
            Err(SignatureError)
        }
    }

    /// The encoding of the key.
    #[must_use]
    pub fn to_bytes(&self) -> (r: [u8; 32])
        ensures
            r@ == self@,
    {
        self.bytes
    }
}

impl Signature {
    /// A signature from its bytes; nothing is checked before `verify`.
    #[must_use]
    pub fn from_bytes(bytes: &[u8; 64]) -> (r: Signature)
        ensures
            r@ == bytes@,
    {
        Signature { bytes: *bytes }
    }

    /// The bytes of the signature.
    #[must_use]
    pub fn to_bytes(&self) -> (r: [u8; 64])
        ensures
            r@ == self@,
    {
        self.bytes
    }
}

/// A keypair bound to a 32-byte seed.
#[derive(Clone)]
pub struct Keypair {
    seed: [u8; 32],
}

impl View for Keypair {
    type V = Seq<u8>;

    /// The seed.
    closed spec fn view(&self) -> Seq<u8> {
        self.seed@
    }
}

impl Keypair {
    /// Construct a keypair from a 32-byte seed: identical seeds yield identical
    /// public keys and signatures.
    #[must_use]
    pub fn from_seed(seed: [u8; 32]) -> (r: Self)
        ensures
            r@ == seed@,
    {
        Keypair { seed }
    }

    /// Verifying key (public half) of this keypair.
    #[must_use]
    pub fn verifying_key(&self) -> (r: VerifyingKey)
        ensures
            r@ == ed25519::public_key_of(self@),
            ed25519::is_public_key(r@),
    {
        VerifyingKey { bytes: ed25519::public_key(&self.seed) }
    }

    /// Sign a byte string. Deterministic: signing the same `msg` twice yields
    /// the same signature. The keypair's own verifying key accepts it, unless
    /// the commitment in it is the neutral point of the curve.
    #[must_use]
    pub fn sign(&self, msg: &[u8]) -> (r: Signature)
        ensures
            r@ == ed25519::signature_of(self@, msg@),
            !ed25519::commits_to_identity(r@) ==> ed25519::signature_accepted(
                ed25519::public_key_of(self@),
                msg@,
                r@,
            ),
    {
        Signature { bytes: ed25519::sign(&self.seed, msg) }
    }
}

/// Verify a signature with RFC 8032 strict rules (rejects non-canonical
/// signatures and low-order public-key components).
///
/// # Errors
///
/// Returns `Err(SignatureError)` if the signature is invalid for the given
/// `(pk, msg)` pair or fails strict canonicalization checks.
pub fn verify(pk: &VerifyingKey, msg: &[u8], sig: &Signature) -> (r: Result<(), SignatureError>)
    ensures
        r is Ok <==> ed25519::signature_accepted(pk@, msg@, sig@),
{
    if ed25519::verify_strict(&pk.bytes, msg, &sig.bytes) {
        Ok(())
    } else {
        Err(SignatureError)
    }
}

} // verus!
