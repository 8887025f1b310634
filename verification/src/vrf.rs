//! VRF-based assignment over a Ristretto-Schnorr VRF.
//!
//! The VRF gives a deterministic-but-unpredictable output per
//! `(secret_key, input)` with a short proof that a public key can verify. A
//! fixed context label prevents cross-protocol reuse.

use crate::boundary::vrf::{
    point_parses, vrf_key, vrf_key_parses, vrf_proof_parses, vrf_sign, vrf_verify,
};
use vstd::prelude::*;

verus! {

/// 32-byte seed used to derive a VRF keypair.
pub type Seed = [u8; 32];

/// VRF output bytes (32).
pub type VrfOutput = [u8; 32];

/// VRF proof bytes (64).
pub type VrfProofBytes = [u8; 64];

/// Serialized VRF public key (32 bytes).
pub type VrfPublicKeyBytes = [u8; 32];

/// Failure modes surfaced to callers.
#[derive(Clone, Copy, Debug, PartialEq, Eq, Structural)]
pub enum VrfError {
    /// Proof bytes couldn't be parsed, or verification failed.
    InvalidProof,
    /// Public-key bytes couldn't be parsed.
    InvalidPublicKey,
    /// VRF output bytes couldn't be parsed as a Ristretto compressed point.
    InvalidOutput,
}

/// The VRF output of the key of `seed` on `input`.
pub open spec fn output_of(seed: Seq<u8>, input: Seq<u8>) -> Seq<u8> {
    crate::boundary::vrf::vrf_output_of(seed, "cosaci-vrf"@, "input"@, input)
}

/// Whether `vrf_proof` shows that `output` is the VRF of `input` under `key`.
pub open spec fn accepted(
    key: Seq<u8>,
    input: Seq<u8>,
    output: Seq<u8>,
    vrf_proof: Seq<u8>,
) -> bool {
    crate::boundary::vrf::vrf_accepted(key, "cosaci-vrf"@, "input"@, input, output, vrf_proof)
}

/// What verification gives, from what each parse and the check gave.
pub open spec fn verdict(key: bool, output: bool, vrf_proof: bool, accepted: bool) -> Result<
    (),
    VrfError,
> {
    if !key {
        Err(VrfError::InvalidPublicKey)
    } else if !output {
        Err(VrfError::InvalidOutput)
    } else if !vrf_proof || !accepted {
        Err(VrfError::InvalidProof)
    } else {
        Ok(())
    }
}

/// The verdict on `(key, input, output, vrf_proof)`.
pub open spec fn verify_result(
    key: Seq<u8>,
    input: Seq<u8>,
    output: Seq<u8>,
    vrf_proof: Seq<u8>,
) -> Result<(), VrfError> {
    verdict(
        crate::boundary::vrf::is_vrf_key(key),
        crate::boundary::vrf::is_ristretto_point(output),
        crate::boundary::vrf::is_vrf_proof(vrf_proof),
        accepted(key, input, output, vrf_proof),
    )
}

/// A VRF keypair derived from a 32-byte seed.
pub struct VrfKeypair {
    seed: Seed,
}

impl View for VrfKeypair {
    type V = Seq<u8>;

    /// The seed.
    closed spec fn view(&self) -> Seq<u8> {
        self.seed@
    }
}

impl VrfKeypair {
    /// Deterministic keypair from a 32-byte seed. Same seed yields the
    /// same public key and the same VRF output for any given input.
    #[must_use]
    pub fn from_seed(seed: Seed) -> (r: Self)
        ensures
            r@ == seed@,
    {
        VrfKeypair { seed }
    }

    /// This keypair's public key, serialized.
    #[must_use]
    pub fn public_key_bytes(&self) -> (r: VrfPublicKeyBytes)
        ensures
            r@ == crate::boundary::vrf::vrf_key_of(self@),
            crate::boundary::vrf::is_vrf_key(r@),
    {
        vrf_key(&self.seed)
    }

    /// Evaluate the VRF at `input`. Returns `(output, proof)`. The output
    /// is a deterministic function of `(secret_key, input)`. The proof is *not*
    /// deterministic, but every proof from this `(key, input)` pair verifies
    /// under the keypair's public key, unless the output is the neutral point.
    #[must_use]
    pub fn evaluate(&self, input: &[u8]) -> (r: (VrfOutput, VrfProofBytes))
        requires
            input@.len() <= u32::MAX,
        ensures
            r.0@ == output_of(self@, input@),
            !crate::boundary::vrf::is_neutral_point(r.0@) ==> verify_result(
                crate::boundary::vrf::vrf_key_of(self@),
                input@,
                r.0@,
                r.1@,
            ) is Ok,
    {
        vrf_sign(&self.seed, "cosaci-vrf", "input", input)
    }
}

/// Verify that `output` is the VRF of `input` under the key `pk_bytes`,
/// given `proof_bytes` as the non-interactive witness.
///
/// # Errors
///
/// Returns `VrfError::InvalidPublicKey` if the key bytes are not a valid
/// Ristretto compressed point, `VrfError::InvalidOutput` if the output
/// bytes aren't a valid point, or `VrfError::InvalidProof` if the proof
/// bytes are malformed or verification fails.
pub fn verify(
    pk_bytes: &VrfPublicKeyBytes,
    input: &[u8],
    output: &VrfOutput,
    proof_bytes: &VrfProofBytes,
) -> (r: Result<(), VrfError>)
    requires
        input@.len() <= u32::MAX,
    ensures
        r == verify_result(pk_bytes@, input@, output@, proof_bytes@),
{
    if !vrf_key_parses(pk_bytes) {
        return Err(VrfError::InvalidPublicKey);
    }
    if !point_parses(output) {
        return Err(VrfError::InvalidOutput);
    }
    if !vrf_proof_parses(proof_bytes) {
        return Err(VrfError::InvalidProof);
    }
    if vrf_verify(pk_bytes, "cosaci-vrf", "input", input, output, proof_bytes) {
        Ok(())
    } else {
        Err(VrfError::InvalidProof)
    }
}

/// A claim holds exactly if its key, its output and its proof can be read and the
/// proof proves the output for this input under this key.
pub proof fn law_claim_needs_its_proof(
    key: Seq<u8>,
    input: Seq<u8>,
    output: Seq<u8>,
    vrf_proof: Seq<u8>,
)
    ensures
        verify_result(key, input, output, vrf_proof) is Ok <==> {
            &&& crate::boundary::vrf::is_vrf_key(key)
            &&& crate::boundary::vrf::is_ristretto_point(output)
            &&& crate::boundary::vrf::is_vrf_proof(vrf_proof)
            &&& crate::boundary::vrf::vrf_accepted(
                key,
                "cosaci-vrf"@,
                "input"@,
                input,
                output,
                vrf_proof,
            )
        },
{
}

/// A claim is refused for its key first, then for its output, then for its proof.
pub proof fn law_claim_is_refused_for_the_first_fault(
    key: Seq<u8>,
    input: Seq<u8>,
    output: Seq<u8>,
    vrf_proof: Seq<u8>,
)
    ensures
        verify_result(key, input, output, vrf_proof) == Err::<(), VrfError>(
            VrfError::InvalidPublicKey,
        ) <==> !crate::boundary::vrf::is_vrf_key(key),
        verify_result(key, input, output, vrf_proof) == Err::<(), VrfError>(VrfError::InvalidOutput)
            <==> crate::boundary::vrf::is_vrf_key(key) && !crate::boundary::vrf::is_ristretto_point(
            output,
        ),
        verify_result(key, input, output, vrf_proof) == Err::<(), VrfError>(VrfError::InvalidProof)
            <==> crate::boundary::vrf::is_vrf_key(key) && crate::boundary::vrf::is_ristretto_point(
            output,
        ) && !(crate::boundary::vrf::is_vrf_proof(vrf_proof)
            && crate::boundary::vrf::vrf_accepted(
            key,
            "cosaci-vrf"@,
            "input"@,
            input,
            output,
            vrf_proof,
        )),
{
}

} // verus!
