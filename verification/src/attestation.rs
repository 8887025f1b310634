//! Signed attestations: what one runner saw when it executed a job.

use crate::boundary::cbor::encode;
use crate::boundary::sha::sha256;
use crate::cbor;
use crate::signing::{verify, Keypair, Signature, VerifyingKey};
use vstd::prelude::*;

verus! {

/// What the runner claims about the job.
#[derive(Clone, Copy, Debug, PartialEq, Eq, Structural)]
pub enum AttestationResult {
    /// The job passed.
    Pass,
    /// The job failed.
    Fail,
}

/// One runner's signed statement about one job.
#[derive(Clone, Copy, Debug, PartialEq, Eq)]
pub struct Attestation {
    /// Layout version.
    pub version: u8,
    /// Job identifier, widened to 16 bytes.
    pub job_id: [u8; 16],
    /// Commit the job ran on.
    pub commit: [u8; 32],
    /// The runner.
    pub runner_id: u64,
    /// What the runner claims.
    pub result: AttestationResult,
    /// Hash of the environment the job ran in.
    pub environment_hash: [u8; 32],
    /// Hash of what the job produced.
    pub artifact_hash: [u8; 32],
    /// When the runner signed (unix nanoseconds).
    pub timestamp_unix_ns: i64,
    /// Signature over everything above.
    pub signature: [u8; 64],
}

/// The document of a result.
pub open spec fn result_item(r: AttestationResult) -> cbor::Item {
    match r {
        AttestationResult::Pass => cbor::Item::Text("Pass"@),
        AttestationResult::Fail => cbor::Item::Text("Fail"@),
    }
}

/// The fields that a runner signs.
pub open spec fn unsigned_fields(a: Attestation) -> Seq<(cbor::Item, cbor::Item)> {
    seq![
        cbor::field("version"@, cbor::Item::Uint(a.version as nat)),
        cbor::field("job_id"@, cbor::byte_items(a.job_id@)),
        cbor::field("commit"@, cbor::byte_items(a.commit@)),
        cbor::field("runner_id"@, cbor::Item::Uint(a.runner_id as nat)),
        cbor::field("result"@, result_item(a.result)),
        cbor::field("environment_hash"@, cbor::byte_items(a.environment_hash@)),
        cbor::field("artifact_hash"@, cbor::byte_items(a.artifact_hash@)),
        cbor::field("timestamp_unix_ns"@, cbor::int_item(a.timestamp_unix_ns as int)),
    ]
}

/// The document of an attestation.
pub open spec fn attestation_item(a: Attestation) -> cbor::Item {
    cbor::Item::Entries(
        unsigned_fields(a).push(cbor::field("signature"@, cbor::byte_items(a.signature@))),
    )
}

/// The bytes that a runner signs.
pub open spec fn canonical_of(a: Attestation) -> Seq<u8> {
    crate::boundary::cbor::encoding_of(cbor::Item::Entries(unsigned_fields(a)))
}

fn unsigned_record(a: &Attestation) -> (r: cbor::Record)
    ensures
        r@ == unsigned_fields(*a),
{
    let result = match a.result {
        AttestationResult::Pass => cbor::text("Pass"),
        AttestationResult::Fail => cbor::text("Fail"),
    };
    let r = cbor::Record::new().with("version", cbor::uint(a.version as u64)).with(
        "job_id",
        cbor::bytes(&a.job_id),
    ).with("commit", cbor::bytes(&a.commit)).with("runner_id", cbor::uint(a.runner_id)).with(
        "result",
        result,
    ).with("environment_hash", cbor::bytes(&a.environment_hash)).with(
        "artifact_hash",
        cbor::bytes(&a.artifact_hash),
    ).with("timestamp_unix_ns", cbor::signed(a.timestamp_unix_ns));
    assert(r@ =~= unsigned_fields(*a));
    r
}

/// The bytes that a runner signs: the canonical encoding of everything but the
/// signature.
#[must_use]
pub fn canonicalize(a: &Attestation) -> (r: Vec<u8>)
    ensures
        r@ == canonical_of(*a),
{
    proof {
        let m = unsigned_fields(*a);
        cbor::lemma_bytes_are_encodable(a.job_id@, 63);
        cbor::lemma_bytes_are_encodable(a.commit@, 63);
        cbor::lemma_bytes_are_encodable(a.environment_hash@, 63);
        cbor::lemma_bytes_are_encodable(a.artifact_hash@, 63);
        assert forall|i: int| 0 <= i < m.len() implies cbor::is_encodable((#[trigger] m[i]).0, 63)
            && cbor::is_encodable(m[i].1, 63) by {}
    }
    encode(&unsigned_record(a).done())
}

/// SHA-256 of the bytes that a runner signs.
#[must_use]
pub fn hash(a: &Attestation) -> (r: [u8; 32])
    ensures
        r@ == crate::boundary::sha::sha256_of(canonical_of(*a)),
{
    let bytes = canonicalize(a);
    sha256(bytes.as_slice())
}

/// The document of an attestation.
#[must_use]
pub fn to_cbor(a: &Attestation) -> (r: cbor::Cbor)
    ensures
        r.item() == attestation_item(*a),
{
    unsigned_record(a).with("signature", cbor::bytes(&a.signature)).done()
}

impl Attestation {
    /// The layout version that new attestations carry.
    pub const VERSION: u8 = 1;

    /// Sign with the runner's key. Everything but the signature stays as it
    /// is, and the key's public half accepts the signature unless the
    /// commitment in it is the neutral point of the curve.
    pub fn sign_with(&mut self, keypair: &Keypair)
        ensures
            *final(self) == (Attestation { signature: final(self).signature, ..*old(self) }),
            final(self).signature@ == crate::boundary::ed25519::signature_of(
                keypair@,
                canonical_of(*old(self)),
            ),
            canonical_of(*final(self)) == canonical_of(*old(self)),
            !crate::boundary::ed25519::commits_to_identity(final(self).signature@)
                ==> crate::boundary::ed25519::signature_accepted(
                crate::boundary::ed25519::public_key_of(keypair@),
                canonical_of(*final(self)),
                final(self).signature@,
            ),
    {
        let bytes = canonicalize(self);
        self.signature = keypair.sign(bytes.as_slice()).to_bytes();
        assert(unsigned_fields(*self) =~= unsigned_fields(*old(self)));
    }

    /// Whether the signature is the key's over this attestation, under the
    /// strict rules.
    #[must_use]
    pub fn verify_signature(&self, key: &VerifyingKey) -> (r: bool)
        ensures
            r == crate::boundary::ed25519::signature_accepted(
                key@,
                canonical_of(*self),
                self.signature@,
            ),
    {
        let bytes = canonicalize(self);
        verify(key, bytes.as_slice(), &Signature::from_bytes(&self.signature)).is_ok()
    }
}

/// A copy of a list of attestations.
pub fn copy_all(list: &Vec<Attestation>) -> (r: Vec<Attestation>)
    ensures
        r@ == list@,
{
    let mut out: Vec<Attestation> = Vec::new();
    let mut i: usize = 0;
    while i < list.len()
        invariant
            i <= list.len(),
            out@ == list@.take(i as int),
        decreases list.len() - i,
    {
        out.push(list[i]);
        i = i + 1;
        assert(out@ =~= list@.take(i as int));
    }
    assert(out@ =~= list@);
    out
}

/// A signature covers everything: attestations that a runner signs alike agree in
/// every field but the signature.
pub proof fn law_signature_covers_every_field(a: Attestation, b: Attestation)
    requires
        canonical_of(a) == canonical_of(b),
    ensures
        ({
            ||| exists|x: cbor::Item, y: cbor::Item|
                x != y && #[trigger] crate::boundary::cbor::encoding_of(x)
                    == #[trigger] crate::boundary::cbor::encoding_of(y)
            ||| {
                &&& a.version == b.version
                &&& a.job_id@ == b.job_id@
                &&& a.commit@ == b.commit@
                &&& a.runner_id == b.runner_id
                &&& a.result == b.result
                &&& a.environment_hash@ == b.environment_hash@
                &&& a.artifact_hash@ == b.artifact_hash@
                &&& a.timestamp_unix_ns == b.timestamp_unix_ns
            }
        }),
{
    let (m, n) = (unsigned_fields(a), unsigned_fields(b));
    let (x, y) = (cbor::Item::Entries(m), cbor::Item::Entries(n));
    if x == y {
        assert(m == n);
        assert(m[0].1 == n[0].1 && m[1].1 == n[1].1 && m[2].1 == n[2].1 && m[3].1 == n[3].1);
        assert(m[4].1 == n[4].1 && m[5].1 == n[5].1 && m[6].1 == n[6].1 && m[7].1 == n[7].1);
        cbor::lemma_bytes_differ(a.job_id@, b.job_id@);
        cbor::lemma_bytes_differ(a.commit@, b.commit@);
        cbor::lemma_bytes_differ(a.environment_hash@, b.environment_hash@);
        cbor::lemma_bytes_differ(a.artifact_hash@, b.artifact_hash@);
        reveal_strlit("Pass");
        reveal_strlit("Fail");
        assert("Pass"@[0] == 'P' && "Fail"@[0] == 'F');
    } else {
        assert(crate::boundary::cbor::encoding_of(x) == crate::boundary::cbor::encoding_of(y));
    }
}

/// The document of an attestation carries every field, its signature among them:
/// attestations with one document are the same.
pub proof fn law_document_carries_every_field(a: Attestation, b: Attestation)
    requires
        attestation_item(a) == attestation_item(b),
    ensures
        a.version == b.version,
        a.job_id@ == b.job_id@,
        a.commit@ == b.commit@,
        a.runner_id == b.runner_id,
        a.result == b.result,
        a.environment_hash@ == b.environment_hash@,
        a.artifact_hash@ == b.artifact_hash@,
        a.timestamp_unix_ns == b.timestamp_unix_ns,
        a.signature@ == b.signature@,
{
    let (m, n) = (attestation_item(a)->Entries_0, attestation_item(b)->Entries_0);
    assert(m == n);
    assert(m[0].1 == n[0].1 && m[1].1 == n[1].1 && m[2].1 == n[2].1 && m[3].1 == n[3].1);
    assert(m[4].1 == n[4].1 && m[5].1 == n[5].1 && m[6].1 == n[6].1 && m[7].1 == n[7].1);
    assert(m[8].1 == n[8].1);
    cbor::lemma_bytes_differ(a.job_id@, b.job_id@);
    cbor::lemma_bytes_differ(a.commit@, b.commit@);
    cbor::lemma_bytes_differ(a.environment_hash@, b.environment_hash@);
    cbor::lemma_bytes_differ(a.artifact_hash@, b.artifact_hash@);
    cbor::lemma_bytes_differ(a.signature@, b.signature@);
    reveal_strlit("Pass");
    reveal_strlit("Fail");
    assert("Pass"@[0] == 'P' && "Fail"@[0] == 'F');
}

} // verus!
