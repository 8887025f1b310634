//! Read-side retrieval: pure functions over a job registry + Merkle log that
//! produce verifiable bundles for external auditors.
//!
//! Every produced bundle verifies under
//! [`crate::merkle_log::verify_inclusion`] against the bundle's own
//! `log_root`.

use crate::attestation::{copy_all, Attestation};
use crate::merkle_log::{InclusionProof, MerkleLog};
use std::collections::HashMap;
use vstd::prelude::*;

verus! {

broadcast use vstd::std_specs::hash::group_hash_axioms;

/// One coordinator-side record per committed job.
///
/// The pair `(log_position, log_length_at_anchor)` is the freeze-frame
/// that lets every future retrieval rebuild the same proof.
#[derive(Clone, Debug, PartialEq, Eq)]
pub struct JobRecord {
    /// Job identifier.
    pub job_id: u64,
    /// SHA-256 of the canonical CBOR encoding of the executed pipeline.
    pub pipeline_hash: [u8; 32],
    /// Every signed attestation the committee returned (signature-valid
    /// only).
    pub committee_attestations: Vec<Attestation>,
    /// The artifact hash the quorum agreed on.
    pub consensus_artifact: [u8; 32],
    /// 0-indexed position of the consensus artifact in the Merkle log.
    pub log_position: u64,
    /// Length of the Merkle log at the moment this job was anchored.
    pub log_length_at_anchor: u64,
}

/// Verifiable retrieval bundle. An external auditor with no other context can
/// verify it by checking every signature in `committee_attestations` against
/// the registered runner pubkeys, and `merkle_proof` against `log_root`.
#[derive(Clone, Debug, PartialEq, Eq)]
pub struct JobBundle {
    /// Job identifier.
    pub job_id: u64,
    /// SHA-256 of the canonical CBOR encoding of the executed pipeline.
    pub pipeline_hash: [u8; 32],
    /// Every signature-valid attestation the committee returned.
    pub committee_attestations: Vec<Attestation>,
    /// The artifact hash the quorum agreed on.
    pub consensus_artifact: [u8; 32],
    /// Inclusion proof of the log entry at `log_position` against
    /// the Merkle root over the first `log_length_at_anchor` entries.
    pub merkle_proof: InclusionProof,
    /// The Merkle root that `merkle_proof` verifies against.
    pub log_root: [u8; 32],
    /// 0-indexed position of `consensus_artifact` in the log.
    pub log_position: u64,
    /// Log length the proof + root were frozen at.
    pub log_length_at_anchor: u64,
}

/// Whether a record's place in the log is consistent with a log of this length.
pub open spec fn place_is_valid(record: JobRecord, log_len: int) -> bool {
    record.log_position < record.log_length_at_anchor <= log_len
}

/// Whether a bundle is the one for a record and a log.
pub open spec fn is_bundle_of(bundle: JobBundle, record: JobRecord, entries: Seq<[u8; 32]>) -> bool {
    let length = record.log_length_at_anchor as int;
    &&& bundle.job_id == record.job_id
    &&& bundle.pipeline_hash == record.pipeline_hash
    &&& bundle.committee_attestations@ == record.committee_attestations@
    &&& bundle.consensus_artifact == record.consensus_artifact
    &&& bundle.log_position == record.log_position
    &&& bundle.log_length_at_anchor == record.log_length_at_anchor
    &&& bundle.log_root@ == crate::merkle_log::prefix_root(entries, length)
    &&& bundle.merkle_proof.position == record.log_position
    &&& bundle.merkle_proof.entry == entries[record.log_position as int]
    &&& bundle.merkle_proof.length_at_proof == record.log_length_at_anchor
    &&& bundle.merkle_proof.proof_hashes@ == crate::boundary::merkle::tree_proof_of(
        entries.take(length),
        record.log_position as int,
    )
}

/// Build a [`JobBundle`] for `job_id` from a registry + log snapshot.
/// Returns `None` if the job isn't recorded, or if the recorded
/// `(log_position, log_length_at_anchor)` is inconsistent with the
/// log (e.g. the log was truncated externally).
#[must_use]
pub fn build_bundle(records: &HashMap<u64, JobRecord>, log: &MerkleLog, job_id: u64) -> (r: Option<
    JobBundle,
>)
    ensures
        r is Some <==> records@.contains_key(job_id) && place_is_valid(
            records@[job_id],
            log@.len() as int,
        ),
        r matches Some(b) ==> is_bundle_of(b, records@[job_id], log@)
            && crate::merkle_log::proof_accepted(b.merkle_proof, b.log_root@),
{
    let record = match records.get(&job_id) {
        Some(r) => r,
        None => return None,
    };
    let merkle_proof = match log.inclusion_proof_at(
        record.log_position,
        record.log_length_at_anchor,
    ) {
        Some(p) => p,
        None => return None,
    };
    let log_root = match log.root_at(record.log_length_at_anchor) {
        Some(h) => h,
        None => return None,
    };
    Some(
        JobBundle {
            job_id: record.job_id,
            pipeline_hash: record.pipeline_hash,
            committee_attestations: copy_all(&record.committee_attestations),
            consensus_artifact: record.consensus_artifact,
            merkle_proof,
            log_root,
            log_position: record.log_position,
            log_length_at_anchor: record.log_length_at_anchor,
        },
    )
}

/// A bundle never changes: what was the bundle of a job is the bundle of that
/// job in every longer log.
pub proof fn law_bundle_is_stable(
    bundle: JobBundle,
    record: JobRecord,
    entries: Seq<[u8; 32]>,
    more: Seq<[u8; 32]>,
)
    requires
        place_is_valid(record, entries.len() as int),
        is_bundle_of(bundle, record, entries),
    ensures
        place_is_valid(record, (entries + more).len() as int),
        is_bundle_of(bundle, record, entries + more),
{
    let length = record.log_length_at_anchor as int;
    crate::merkle_log::law_prefix_root_is_stable(entries, more, length);
    assert((entries + more).take(length) =~= entries.take(length));
}

/// Retrieval is pure: two bundles for one record and one log agree in every
/// field.
pub proof fn law_bundle_is_determined(
    a: JobBundle,
    b: JobBundle,
    record: JobRecord,
    entries: Seq<[u8; 32]>,
)
    requires
        is_bundle_of(a, record, entries),
        is_bundle_of(b, record, entries),
    ensures
        a.job_id == b.job_id,
        a.pipeline_hash == b.pipeline_hash,
        a.committee_attestations@ == b.committee_attestations@,
        a.consensus_artifact == b.consensus_artifact,
        a.log_root@ == b.log_root@,
        a.log_position == b.log_position,
        a.log_length_at_anchor == b.log_length_at_anchor,
        a.merkle_proof.position == b.merkle_proof.position,
        a.merkle_proof.entry == b.merkle_proof.entry,
        a.merkle_proof.proof_hashes@ == b.merkle_proof.proof_hashes@,
        a.merkle_proof.length_at_proof == b.merkle_proof.length_at_proof,
{
}

/// A bundle tells everything that was recorded of a job, and proves the entry at
/// its position in the log of that time.
pub proof fn law_bundle_tells_the_record(
    bundle: JobBundle,
    record: JobRecord,
    entries: Seq<[u8; 32]>,
)
    requires
        is_bundle_of(bundle, record, entries),
        record.log_length_at_anchor > 0,
    ensures
        bundle.job_id == record.job_id,
        bundle.pipeline_hash == record.pipeline_hash,
        bundle.committee_attestations@ == record.committee_attestations@,
        bundle.consensus_artifact == record.consensus_artifact,
        bundle.log_position == record.log_position,
        bundle.log_length_at_anchor == record.log_length_at_anchor,
        bundle.log_root@ == crate::boundary::merkle::tree_root_of(
            entries.take(record.log_length_at_anchor as int),
        ),
        bundle.merkle_proof.position == record.log_position,
        bundle.merkle_proof.length_at_proof == record.log_length_at_anchor,
        bundle.merkle_proof.entry == entries[record.log_position as int],
        bundle.merkle_proof.proof_hashes@ == crate::boundary::merkle::tree_proof_of(
            entries.take(record.log_length_at_anchor as int),
            record.log_position as int,
        ),
        place_is_valid(record, entries.len() as int) <==> record.log_position
            < record.log_length_at_anchor && record.log_length_at_anchor <= entries.len(),
{
}

} // verus!
