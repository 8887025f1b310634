//! The Ristretto-Schnorr VRF, from `schnorrkel` and `merlin`.

use vstd::prelude::*;

verus! {

/// The public key that belongs to a seed.
pub uninterp spec fn vrf_key_of(seed: Seq<u8>) -> Seq<u8>;

/// The VRF output of the key of `seed` on `input`, in the given context.
pub uninterp spec fn vrf_output_of(
    seed: Seq<u8>,
    context: Seq<char>,
    label: Seq<char>,
    input: Seq<u8>,
) -> Seq<u8>;

/// Whether the bytes parse as a public key.
pub uninterp spec fn is_vrf_key(key: Seq<u8>) -> bool;

/// Whether the bytes parse as a compressed Ristretto point.
pub uninterp spec fn is_ristretto_point(bytes: Seq<u8>) -> bool;

/// Whether the bytes parse as a proof.
pub uninterp spec fn is_vrf_proof(bytes: Seq<u8>) -> bool;

/// Whether `vrf_proof` shows that `output` is the VRF output of `key` on `input`.
pub uninterp spec fn vrf_accepted(
    key: Seq<u8>,
    context: Seq<char>,
    label: Seq<char>,
    input: Seq<u8>,
    output: Seq<u8>,
    vrf_proof: Seq<u8>,
) -> bool;

/// Whether the bytes encode the neutral point, which is no valid VRF output.
pub open spec fn is_neutral_point(bytes: Seq<u8>) -> bool {
    forall|i: int| 0 <= i < bytes.len() ==> bytes[i] == 0
}

/// `schnorrkel::MiniSecretKey::expand_to_keypair` and the keypair's public
/// key: it depends on the seed alone and parses.
#[verifier::external_body]
pub(crate) fn vrf_key(seed: &[u8; 32]) -> (r: [u8; 32])
    ensures
        r@ == vrf_key_of(seed@),
        is_vrf_key(r@),
{
    schnorrkel::MiniSecretKey::from_bytes(seed).unwrap().expand_to_keypair(
        schnorrkel::ExpansionMode::Uniform,
    ).public.to_bytes()
}

/// `schnorrkel::Keypair::vrf_sign`: the output depends on the seed and the
/// transcript alone and is a point. The proof is drawn at random; it parses,
/// and unless the output is the neutral point, it is accepted for this output.
#[verifier::external_body]
pub(crate) fn vrf_sign(
    seed: &[u8; 32],
    context: &'static str,
    label: &'static str,
    input: &[u8],
) -> (r: ([u8; 32], [u8; 64]))
    requires
        input@.len() <= u32::MAX,
    ensures
        r.0@ == vrf_output_of(seed@, context@, label@, input@),
        is_ristretto_point(r.0@),
        is_vrf_proof(r.1@),
        !is_neutral_point(r.0@) ==> is_vrf_key(vrf_key_of(seed@)) && vrf_accepted(
            vrf_key_of(seed@),
            context@,
            label@,
            input@,
            r.0@,
            r.1@,
        ),
{
    let keypair = schnorrkel::MiniSecretKey::from_bytes(seed).unwrap().expand_to_keypair(
        schnorrkel::ExpansionMode::Uniform,
    );
    let mut t = merlin::Transcript::new(context.as_bytes());
    t.append_message(label.as_bytes(), input);
    let (signed, vrf_proof, _) = keypair.vrf_sign(t);
    (*signed.as_output_bytes(), vrf_proof.to_bytes())
}

/// `schnorrkel::PublicKey::from_bytes`: whether the bytes parse depends on
/// them alone.
#[verifier::external_body]
pub(crate) fn vrf_key_parses(key: &[u8; 32]) -> (r: bool)
    ensures
        r == is_vrf_key(key@),
{
    schnorrkel::PublicKey::from_bytes(key).is_ok()
}

/// `schnorrkel::points::RistrettoBoth::from_bytes`: whether the bytes parse
/// depends on them alone.
#[verifier::external_body]
pub(crate) fn point_parses(bytes: &[u8; 32]) -> (r: bool)
    ensures
        r == is_ristretto_point(bytes@),
{
    schnorrkel::points::RistrettoBoth::from_bytes(bytes).is_ok()
}

/// `schnorrkel::vrf::VRFProof::from_bytes`: whether the bytes parse depends on
/// them alone.
#[verifier::external_body]
pub(crate) fn vrf_proof_parses(bytes: &[u8; 64]) -> (r: bool)
    ensures
        r == is_vrf_proof(bytes@),
{
    schnorrkel::vrf::VRFProof::from_bytes(bytes).is_ok()
}

/// `schnorrkel::PublicKey::vrf_verify`: the answer depends on the arguments
/// alone. Key, output and proof are handed over parsed.
#[verifier::external_body]
pub(crate) fn vrf_verify(
    key: &[u8; 32],
    context: &'static str,
    label: &'static str,
    input: &[u8],
    output: &[u8; 32],
    vrf_proof: &[u8; 64],
) -> (r: bool)
    requires
        is_vrf_key(key@),
        is_vrf_proof(vrf_proof@),
        input@.len() <= u32::MAX,
    ensures
        r == vrf_accepted(key@, context@, label@, input@, output@, vrf_proof@),
{
    let key = schnorrkel::PublicKey::from_bytes(key).unwrap();
    let output = schnorrkel::vrf::VRFPreOut::from_bytes(output).unwrap();
    let vrf_proof = schnorrkel::vrf::VRFProof::from_bytes(vrf_proof).unwrap();
    let mut t = merlin::Transcript::new(context.as_bytes());
    t.append_message(label.as_bytes(), input);
    key.vrf_verify(t, &output, &vrf_proof).is_ok()
}

} // verus!
