//! The read API: what the coordinator answers to auditors.

use crate::merkle_log::MerkleLog;
use crate::proto::Envelope;
use crate::retrieval::{build_bundle, JobRecord};
use std::collections::HashMap;
use vstd::prelude::*;

verus! {

broadcast use vstd::std_specs::hash::group_hash_axioms;

/// Whether this answers a request, from the records and the log.
pub open spec fn is_answer(
    request: Envelope,
    records: Map<u64, JobRecord>,
    log: Seq<[u8; 32]>,
    r: Option<Envelope>,
) -> bool {
    match request {
        Envelope::GetJob { job_id } => if records.contains_key(job_id)
            && crate::retrieval::place_is_valid(records[job_id], log.len() as int) {
            &&& r matches Some(Envelope::JobBundleResponse(b))
            &&& crate::retrieval::is_bundle_of(b, records[job_id], log)
            &&& crate::merkle_log::proof_accepted(b.merkle_proof, b.log_root@)
        } else {
            r matches Some(Envelope::JobNotFound { job_id: id }) && id == job_id
        },
        Envelope::GetLogRoot => {
            &&& r matches Some(Envelope::LogRoot { root, length })
            &&& length == log.len()
            &&& root is Some <==> log.len() > 0
            &&& root is Some ==> root->0@ == crate::merkle_log::prefix_root(log, log.len() as int)
        },
        _ => r is None,
    }
}

/// Answer one request: the bundle of a job, or that there is none; the root and
/// length of the log. Any other message is not answered.
#[must_use]
pub fn answer(request: &Envelope, records: &HashMap<u64, JobRecord>, log: &MerkleLog) -> (r: Option<
    Envelope,
>)
    ensures
        is_answer(*request, records@, log@, r),
{
    match request {
        Envelope::GetJob { job_id } => match build_bundle(records, log, *job_id) {
            Some(b) => Some(Envelope::JobBundleResponse(b)),
            None => Some(Envelope::JobNotFound { job_id: *job_id }),
        },
        Envelope::GetLogRoot => Some(Envelope::LogRoot { root: log.root(), length: log.len() }),
        _ => None,
    }
}

/// The read API only reads: a message that is no read request gets no answer.
pub proof fn law_only_reads_are_answered(
    request: Envelope,
    records: Map<u64, JobRecord>,
    log: Seq<[u8; 32]>,
    r: Option<Envelope>,
)
    requires
        is_answer(request, records, log, r),
        r is Some,
    ensures
        request is GetJob || request is GetLogRoot,
{
}

/// A job that is on record is answered with its bundle, any other with its number;
/// the root is that of the whole log.
pub proof fn law_recorded_job_is_answered(
    request: Envelope,
    records: Map<u64, JobRecord>,
    log: Seq<[u8; 32]>,
    r: Option<Envelope>,
)
    requires
        is_answer(request, records, log, r),
    ensures
        request matches Envelope::GetJob { job_id } ==> {
            &&& r matches Some(reply) && (reply is JobBundleResponse || reply is JobNotFound)
            &&& r->0 is JobBundleResponse <==> records.contains_key(job_id)
                && records[job_id].log_position < records[job_id].log_length_at_anchor
                && records[job_id].log_length_at_anchor <= log.len()
            &&& r matches Some(Envelope::JobNotFound { job_id: id }) ==> id == job_id
            &&& r matches Some(Envelope::JobBundleResponse(b)) ==> b.job_id
                == records[job_id].job_id && b.consensus_artifact
                == records[job_id].consensus_artifact && b.committee_attestations@
                == records[job_id].committee_attestations@ && b.merkle_proof.entry
                == log[records[job_id].log_position as int]
        },
        request is GetLogRoot ==> (r matches Some(Envelope::LogRoot { root, length }) && length
            == log.len() && (log.len() > 0 ==> (root matches Some(h) && h@
            == crate::boundary::merkle::tree_root_of(log)))),
{
    if request is GetLogRoot {
        assert(log.take(log.len() as int) =~= log);
    }
}

} // verus!
