//! The auditor: what it makes of the bundle that a coordinator returns.

use crate::bytes;
use crate::merkle_log::verify_inclusion;
use crate::proto::Envelope;
use crate::retrieval::JobBundle;
use vstd::prelude::*;

verus! {

/// What a bundle is found to be.
#[derive(Clone, Copy, Debug, PartialEq, Eq, Structural)]
pub enum Finding {
    /// The proof is of another entry than the artifact.
    EntryMismatch,
    /// The proof is for another position.
    PositionMismatch,
    /// The proof is for another length.
    LengthMismatch,
    /// The log is shorter than it was when the job was anchored.
    LogShrank,
    /// The proof does not hold.
    ProofRejected,
    /// The bundle holds.
    Verified,
}

impl Finding {
    /// The finding in words.
    #[must_use]
    pub fn message(self) -> (r: &'static str)
        ensures
            r@ == match self {
                Finding::EntryMismatch => "bundle entry mismatch"@,
                Finding::PositionMismatch => "bundle position mismatch"@,
                Finding::LengthMismatch => "bundle length mismatch"@,
                Finding::LogShrank => "log length shrank?"@,
                Finding::ProofRejected => "verify_inclusion rejected the bundle"@,
                Finding::Verified => "OK"@,
            },
    {
        match self {
            Finding::EntryMismatch => "bundle entry mismatch",
            Finding::PositionMismatch => "bundle position mismatch",
            Finding::LengthMismatch => "bundle length mismatch",
            Finding::LogShrank => "log length shrank?",
            Finding::ProofRejected => "verify_inclusion rejected the bundle",
            Finding::Verified => "OK",
        }
    }
}

/// What a bundle is found to be, against the length of the log now.
pub open spec fn finding_of(b: JobBundle, current_length: u64) -> Finding {
    if b.merkle_proof.entry != b.consensus_artifact {
        Finding::EntryMismatch
    } else if b.merkle_proof.position != b.log_position {
        Finding::PositionMismatch
    } else if b.merkle_proof.length_at_proof != b.log_length_at_anchor {
        Finding::LengthMismatch
    } else if current_length < b.log_length_at_anchor {
        Finding::LogShrank
    } else if !crate::merkle_log::proof_accepted(b.merkle_proof, b.log_root@) {
        Finding::ProofRejected
    } else {
        Finding::Verified
    }
}

/// Examine a bundle: its parts have to agree, the log must not have shrunk, and
/// the proof has to hold.
#[must_use]
pub fn examine(b: &JobBundle, current_length: u64) -> (r: Finding)
    ensures
        r == finding_of(*b, current_length),
{
    if !bytes::bytes_eq(b.merkle_proof.entry.as_slice(), b.consensus_artifact.as_slice()) {
        return Finding::EntryMismatch;
    }
    assert(b.merkle_proof.entry == b.consensus_artifact);
    if b.merkle_proof.position != b.log_position {
        return Finding::PositionMismatch;
    }
    if b.merkle_proof.length_at_proof != b.log_length_at_anchor {
        return Finding::LengthMismatch;
    }
    if current_length < b.log_length_at_anchor {
        return Finding::LogShrank;
    }
    if !verify_inclusion(&b.merkle_proof, b.log_root) {
        return Finding::ProofRejected;
    }
    Finding::Verified
}

/// What a reply to a request for a job says.
pub enum JobReply {
    /// Here is the bundle.
    Found(JobBundle),
    /// There is no such job yet.
    NotYet,
    /// The reply is of another kind.
    Unexpected,
}

/// What a reply to a request for a job says.
#[must_use]
pub fn read_job_reply(reply: Envelope) -> (r: JobReply)
    ensures
        r == match reply {
            Envelope::JobBundleResponse(b) => JobReply::Found(b),
            Envelope::JobNotFound { .. } => JobReply::NotYet,
            _ => JobReply::Unexpected,
        },
{
    match reply {
        Envelope::JobBundleResponse(b) => JobReply::Found(b),
        Envelope::JobNotFound { .. } => JobReply::NotYet,
        _ => JobReply::Unexpected,
    }
}

/// The root and length that a reply gives, if it gives them.
#[must_use]
pub fn read_root_reply(reply: &Envelope) -> (r: Option<(Option<[u8; 32]>, u64)>)
    ensures
        r == match *reply {
            Envelope::LogRoot { root, length } => Some((root, length)),
            _ => None,
        },
{
    match reply {
        Envelope::LogRoot { root, length } => Some((*root, *length)),
        _ => None,
    }
}

/// How an attempt to get a bundle went.
#[derive(Clone, Copy, Debug, PartialEq, Eq, Structural)]
pub enum Attempt {
    /// The job is not there yet.
    NotYet,
    /// Something failed.
    Failed,
}

/// What to do after an attempt that gave no bundle.
#[derive(Clone, Copy, Debug, PartialEq, Eq, Structural)]
pub struct NextMove {
    /// Wait first.
    pub wait: bool,
    /// Try again.
    pub again: bool,
}

/// What to do after attempt number `attempt`, counted from one: after the last
/// one no more is made, and no time is lost on a job that is not there.
#[must_use]
pub fn after_attempt(attempt: u32, max_attempts: u32, how: Attempt) -> (r: NextMove)
    ensures
        r.again == (attempt < max_attempts),
        r.wait == (how == Attempt::Failed || attempt < max_attempts),
{
    let again = attempt < max_attempts;
    let wait = match how {
        Attempt::NotYet => again,
        Attempt::Failed => true,
    };
    NextMove { wait, again }
}

/// An honest coordinator is believed: the bundle that it returns for a job that
/// it anchored verifies, against the log as it then is or any longer one.
pub proof fn law_honest_bundle_verifies(
    b: JobBundle,
    rec: crate::retrieval::JobRecord,
    log: Seq<[u8; 32]>,
    current_length: u64,
)
    requires
        crate::retrieval::place_is_valid(rec, log.len() as int),
        crate::retrieval::is_bundle_of(b, rec, log),
        crate::merkle_log::proof_accepted(b.merkle_proof, b.log_root@),
        log[rec.log_position as int] == rec.consensus_artifact,
        current_length >= rec.log_length_at_anchor,
    ensures
        finding_of(b, current_length) == Finding::Verified,
{
}

/// A bundle is verified exactly if everything fits: the proof is of the artifact,
/// at the position and for the length that the bundle names, it holds under the
/// root, and the log has not shrunk since.
pub proof fn law_verified_bundle_fits(b: JobBundle, current_length: u64)
    ensures
        finding_of(b, current_length) == Finding::Verified <==> {
            &&& b.merkle_proof.entry == b.consensus_artifact
            &&& b.merkle_proof.position == b.log_position
            &&& b.merkle_proof.length_at_proof == b.log_length_at_anchor
            &&& current_length >= b.log_length_at_anchor
            &&& crate::merkle_log::proof_accepted(b.merkle_proof, b.log_root@)
        },
        finding_of(b, current_length) == Finding::EntryMismatch ==> b.merkle_proof.entry
            != b.consensus_artifact,
        finding_of(b, current_length) == Finding::PositionMismatch ==> b.merkle_proof.position
            != b.log_position,
        finding_of(b, current_length) == Finding::LengthMismatch ==> b.merkle_proof.length_at_proof
            != b.log_length_at_anchor,
        finding_of(b, current_length) == Finding::LogShrank ==> current_length
            < b.log_length_at_anchor,
        finding_of(b, current_length) == Finding::ProofRejected
            ==> !crate::merkle_log::proof_accepted(b.merkle_proof, b.log_root@),
{
}

/// A bundle is refused for the first thing that does not fit: the entry, then the
/// position, then the length, then a log that shrank, then the proof.
pub proof fn law_first_misfit_is_found(b: JobBundle, current_length: u64)
    ensures
        ({
            let entry = b.merkle_proof.entry == b.consensus_artifact;
            let position = b.merkle_proof.position == b.log_position;
            let length = b.merkle_proof.length_at_proof == b.log_length_at_anchor;
            let grown = current_length >= b.log_length_at_anchor;
            let proved = crate::merkle_log::proof_accepted(b.merkle_proof, b.log_root@);
            let found = finding_of(b, current_length);
            &&& found == Finding::EntryMismatch <==> !entry
            &&& found == Finding::PositionMismatch <==> entry && !position
            &&& found == Finding::LengthMismatch <==> entry && position && !length
            &&& found == Finding::LogShrank <==> entry && position && length && !grown
            &&& found == Finding::ProofRejected <==> entry && position && length && grown
                && !proved
        }),
{
}

} // verus!
