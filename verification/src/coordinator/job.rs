//! One job, from seed to anchor.
//!
//! Every member of the fleet is sent a seed and answers with a VRF claim. The
//! claims whose proof holds rank the members that can do the job; the first of
//! them are the committee. The committee is assigned the job and returns signed
//! attestations. Whoever returns none that holds is missing; the others are
//! tallied by stake. On a definite outcome dissenters are slashed, and a passed
//! job is anchored in the log.

use crate::attestation::{copy_all, Attestation, AttestationResult};
use crate::bytes;
use crate::capabilities::{
    select_capability_aware_committee, Candidate, Capabilities, JobRequirements, Platform, Runtime,
    RuntimeSet,
};
use crate::coordinator::registration::Runner;
use crate::coordinator::submission::JobKind;
use crate::jobs::{canonical_encoding, Limits, Pipeline, Step};
use crate::journal::{JournalEntry, JournalOutcome};
use crate::merkle_log::{hash_bytes, MerkleLog};
use crate::proto::Envelope;
use crate::quorum::{aggregate, Outcome, Vote, VoteResult, Weight};
use crate::retrieval::JobRecord;
use crate::stake_ledger::{SlashEvent, StakeLedger};
use crate::text;
use crate::vrf;
use crate::vrf::VrfError;
use std::collections::HashMap;
use vstd::prelude::*;

verus! {

broadcast use vstd::std_specs::hash::group_hash_axioms;

/// How long after it is made an assignment is due, in nanoseconds.
pub const ASSIGNMENT_WINDOW_NS: i64 = 60_000_000_000;

// ── What to run ────────────────────────────────────────────────────────────
/// The number of the next job; none once `max_jobs` are done or the coordinator
/// drains.
#[must_use]
pub fn next_job(completed: u64, max_jobs: u64, draining: bool) -> (r: Option<u64>)
    ensures
        r == (if completed < max_jobs && !draining {
            Some((completed + 1) as u64)
        } else {
            None
        }),
{
    if completed < max_jobs && !draining {
        Some(completed + 1)
    } else {
        None
    }
}

/// Which module a job runs when nobody submits any: they take turns, addition
/// first.
#[must_use]
pub fn kind_in_turn(job_id: u64) -> (r: JobKind)
    ensures
        r == (if job_id % 2 == 1 {
            JobKind::Add
        } else {
            JobKind::Mul
        }),
{
    if job_id % 2 == 1 {
        JobKind::Add
    } else {
        JobKind::Mul
    }
}

/// The pipeline of a canned job: one WASM step without limits of its own.
#[must_use]
pub fn canned_pipeline(module: Vec<u8>, args_cbor: Vec<u8>) -> (r: Pipeline)
    ensures
        r.steps@.len() == 1,
        r.steps@[0] matches Step::ExecWasm { module: m, args_cbor: a, limits } && m == module && a
            == args_cbor && limits.cpu_seconds == 0 && limits.memory_mb == 0
            && limits.wall_seconds == 0 && limits.network@ == crate::network::denies_all(),
{
    let mut steps: Vec<Step> = Vec::new();
    steps.push(Step::ExecWasm { module, args_cbor, limits: Limits::default() });
    Pipeline { steps }
}

/// What a canned job asks of a runner.
#[must_use]
pub fn canned_requirements() -> (r: JobRequirements)
    ensures
        r.cpu == 1,
        r.memory_mb == 256,
        r.platform == Platform::LinuxX86_64,
        r.runtimes@ == set![Runtime::Wasm],
{
    let mut runtimes = RuntimeSet::new();
    runtimes.insert(Runtime::Wasm);
    JobRequirements { cpu: 1, memory_mb: 256, platform: Platform::LinuxX86_64, runtimes }
}

// ── The VRF round ──────────────────────────────────────────────────────────
/// The seed of a job: its number, zeros, and a closing mark.
pub open spec fn seed_of(job_id: u64) -> Seq<u8> {
    bytes::le_of(job_id as nat, 8) + Seq::new(23, |i: int| 0u8) + seq![0xabu8]
}

/// The seed of a job.
#[must_use]
pub fn job_seed_bytes(job_id: u64) -> (r: [u8; 32])
    ensures
        r@ == seed_of(job_id),
{
    let mut number: Vec<u8> = Vec::new();
    bytes::append_le(&mut number, job_id as u128, 8);
    proof {
        bytes::law_le_round_trip(job_id as nat, 8);
    }
    let mut seed: [u8; 32] = [0u8; 32];
    let mut i: usize = 0;
    while i < 8
        invariant
            i <= 8,
            number@.len() == 8,
            forall|k: int| 0 <= k < i ==> seed@[k] == number@[k],
            forall|k: int| i <= k < 32 ==> seed@[k] == 0,
        decreases 8 - i,
    {
        let b: u8 = number[i];
        seed[i] = b;
        i = i + 1;
    }
    seed[31] = 0xab;
    assert(seed@ =~= seed_of(job_id));
    seed
}

/// The message that opens a job.
#[must_use]
pub fn seed_message(job_id: u64) -> (r: Envelope)
    ensures
        r matches Envelope::JobSeed { job_id: id, seed } && id == job_id && seed@ == seed_of(
            job_id,
        ),
{
    Envelope::JobSeed { job_id, seed: job_seed_bytes(job_id) }
}

/// What becomes of a reply to the seed.
#[derive(Clone, Copy, Debug, PartialEq, Eq)]
pub enum ClaimVerdict {
    /// The claim holds; carries the VRF output.
    Counted([u8; 32]),
    /// The reply is no claim.
    NotAClaim,
    /// The claim is for another job.
    OtherJob(u64),
    /// The proof does not hold.
    ProofRejected(VrfError),
}

/// What becomes of a member's reply to the seed.
pub open spec fn claim_of(job_id: u64, runner: Runner, reply: Envelope) -> ClaimVerdict {
    match reply {
        Envelope::VrfClaim { job_id: id, vrf_output, vrf_proof } => if id != job_id {
            ClaimVerdict::OtherJob(id)
        } else {
            match vrf::verify_result(runner.vrf_pk@, seed_of(job_id), vrf_output@, vrf_proof@) {
                Err(e) => ClaimVerdict::ProofRejected(e),
                Ok(_) => ClaimVerdict::Counted(vrf_output),
            }
        },
        _ => ClaimVerdict::NotAClaim,
    }
}

/// Judge a member's reply to the seed.
#[must_use]
pub fn judge_claim(job_id: u64, runner: &Runner, reply: &Envelope) -> (r: ClaimVerdict)
    ensures
        r == claim_of(job_id, *runner, *reply),
{
    match reply {
        Envelope::VrfClaim { job_id: id, vrf_output, vrf_proof } => {
            if *id != job_id {
                return ClaimVerdict::OtherJob(*id);
            }
            let seed = job_seed_bytes(job_id);
            match vrf::verify(&runner.vrf_pk, seed.as_slice(), vrf_output, vrf_proof) {
                Err(e) => ClaimVerdict::ProofRejected(e),
                Ok(_) => ClaimVerdict::Counted(*vrf_output),
            }
        },
        _ => ClaimVerdict::NotAClaim,
    }
}

/// The claims that count, of the first `n` members, in fleet order.
pub open spec fn claims_of(
    job_id: u64,
    fleet: Seq<Runner>,
    replies: Seq<Envelope>,
    n: nat,
) -> Seq<(u64, [u8; 32])>
    decreases n,
{
    if n == 0 {
        Seq::empty()
    } else {
        let i = n - 1;
        let earlier = claims_of(job_id, fleet, replies, i as nat);
        match claim_of(job_id, fleet[i], replies[i]) {
            ClaimVerdict::Counted(output) => earlier.push((fleet[i].runner_id, output)),
            _ => earlier,
        }
    }
}

/// What the fleet offers, by runner; the last to register counts for a runner
/// that registered more than once.
pub open spec fn offers_of(fleet: Seq<Runner>) -> Map<u64, Capabilities>
    decreases fleet.len(),
{
    if fleet.len() == 0 {
        Map::empty()
    } else {
        offers_of(fleet.drop_last()).insert(fleet.last().runner_id, fleet.last().capabilities)
    }
}

/// The candidates that claims make, of the first `n` claims.
pub open spec fn candidates_of(
    offers: Map<u64, Capabilities>,
    claims: Seq<(u64, [u8; 32])>,
    n: nat,
) -> Seq<Candidate<u64>>
    decreases n,
{
    if n == 0 {
        Seq::empty()
    } else {
        let (id, vrf_output) = claims[n - 1];
        let earlier = candidates_of(offers, claims, (n - 1) as nat);
        if offers.contains_key(id) {
            earlier.push(Candidate { id, capabilities: offers[id], vrf_output })
        } else {
            earlier
        }
    }
}

/// The candidates of a job, from the replies to its seed.
pub open spec fn candidates_for(
    job_id: u64,
    fleet: Seq<Runner>,
    replies: Seq<Envelope>,
) -> Seq<Candidate<u64>> {
    let claims = claims_of(job_id, fleet, replies, fleet.len());
    candidates_of(offers_of(fleet), claims, claims.len())
}

fn collect_claims(job_id: u64, fleet: &[Runner], replies: &[Envelope]) -> (r: Vec<(u64, [u8; 32])>)
    requires
        replies@.len() == fleet@.len(),
    ensures
        r@ == claims_of(job_id, fleet@, replies@, fleet@.len()),
{
    let mut claims: Vec<(u64, [u8; 32])> = Vec::new();
    let mut i: usize = 0;
    while i < fleet.len()
        invariant
            i <= fleet@.len(),
            replies@.len() == fleet@.len(),
            claims@ == claims_of(job_id, fleet@, replies@, i as nat),
        decreases fleet@.len() - i,
    {
        match judge_claim(job_id, &fleet[i], &replies[i]) {
            ClaimVerdict::Counted(output) => {
                claims.push((fleet[i].runner_id, output));
            },
            _ => {},
        }
        i = i + 1;
    }
    claims
}

fn collect_offers(fleet: &[Runner]) -> (r: HashMap<u64, Capabilities>)
    ensures
        r@ == offers_of(fleet@),
{
    let mut offers: HashMap<u64, Capabilities> = HashMap::new();
    let mut i: usize = 0;
    assert(fleet@.take(0) =~= Seq::<Runner>::empty());
    while i < fleet.len()
        invariant
            i <= fleet@.len(),
            offers@ == offers_of(fleet@.take(i as int)),
        decreases fleet@.len() - i,
    {
        offers.insert(fleet[i].runner_id, fleet[i].capabilities);
        assert(fleet@.take(i + 1).drop_last() =~= fleet@.take(i as int));
        i = i + 1;
    }
    assert(fleet@.take(i as int) =~= fleet@);
    offers
}

/// The candidates of a job, from the replies to its seed, one per member.
#[must_use]
pub fn collect_candidates(job_id: u64, fleet: &[Runner], replies: &[Envelope]) -> (r: Vec<
    Candidate<u64>,
>)
    requires
        replies@.len() == fleet@.len(),
    ensures
        r@ == candidates_for(job_id, fleet@, replies@),
{
    let claims = collect_claims(job_id, fleet, replies);
    let offers = collect_offers(fleet);
    let mut candidates: Vec<Candidate<u64>> = Vec::new();
    let mut i: usize = 0;
    while i < claims.len()
        invariant
            i <= claims@.len(),
            candidates@ == candidates_of(offers@, claims@, i as nat),
        decreases claims@.len() - i,
    {
        let (id, vrf_output) = claims[i];
        match offers.get(&id) {
            Some(c) => {
                candidates.push(Candidate { id, capabilities: *c, vrf_output });
            },
            None => {},
        }
        i = i + 1;
    }
    candidates
}

/// Why no committee was formed.
#[derive(Clone, Copy, Debug, PartialEq, Eq, Structural)]
pub struct Shortfall {
    /// Candidates that can do the job.
    pub eligible: usize,
    /// Candidates there are.
    pub candidates: usize,
}

/// Whether this is the committee of a job, or why there is none.
pub open spec fn is_selection(
    candidates: Seq<Candidate<u64>>,
    requirements: JobRequirements,
    committee_size: usize,
    r: Result<Vec<u64>, Shortfall>,
) -> bool {
    let eligible = crate::capabilities::eligible_count(candidates, requirements);
    match r {
        Ok(ids) => eligible >= committee_size && exists|order: Seq<int>| #[trigger]
            crate::capabilities::is_ranking(order, candidates, requirements) && ids@
                == crate::capabilities::ids_at(candidates, order.take(committee_size as int)),
        Err(s) => eligible < committee_size && s.eligible == eligible && s.candidates
            == candidates.len(),
    }
}

/// Choose the committee of a job: of the members whose claim holds and that can
/// do the job, those with the smallest VRF outputs.
///
/// # Errors
///
/// Where fewer than `committee_size` members qualify; the job is then aborted.
pub fn choose_committee(
    job_id: u64,
    fleet: &[Runner],
    replies: &[Envelope],
    requirements: &JobRequirements,
    committee_size: usize,
) -> (r: Result<Vec<u64>, Shortfall>)
    requires
        replies@.len() == fleet@.len(),
    ensures
        is_selection(
            candidates_for(job_id, fleet@, replies@),
            *requirements,
            committee_size,
            r,
        ),
{
    let candidates = collect_candidates(job_id, fleet, replies);
    match select_capability_aware_committee(candidates.as_slice(), requirements, committee_size) {
        Some(ids) => Ok(ids),
        None => {
            let mut eligible: usize = 0;
            let mut i: usize = 0;
            assert(candidates@.take(0) =~= Seq::<Candidate<u64>>::empty());
            while i < candidates.len()
                invariant
                    i <= candidates@.len(),
                    eligible <= i,
                    eligible == crate::capabilities::eligible_count(
                        candidates@.take(i as int),
                        *requirements,
                    ),
                decreases candidates@.len() - i,
            {
                assert(candidates@.take(i + 1).drop_last() =~= candidates@.take(i as int));
                if crate::capabilities::matches(&candidates[i].capabilities, requirements) {
                    eligible = eligible + 1;
                }
                i = i + 1;
            }
            assert(candidates@.take(i as int) =~= candidates@);
            Err(Shortfall { eligible, candidates: candidates.len() })
        },
    }
}

/// Whether a runner is on a committee.
#[must_use]
pub fn is_on(committee: &[u64], runner_id: u64) -> (r: bool)
    ensures
        r == committee@.contains(runner_id),
{
    let mut i: usize = 0;
    while i < committee.len()
        invariant
            i <= committee@.len(),
            forall|k: int| 0 <= k < i ==> committee@[k] != runner_id,
        decreases committee@.len() - i,
    {
        if committee[i] == runner_id {
            return true;
        }
        i = i + 1;
    }
    false
}

/// The message that assigns a job to a member of its committee, made at `now`.
#[must_use]
pub fn assign_message(
    job_id: u64,
    pipeline: Pipeline,
    requirements: JobRequirements,
    now_unix_ns: i64,
) -> (r: Envelope)
    requires
        now_unix_ns <= i64::MAX - ASSIGNMENT_WINDOW_NS,
    ensures
        r == (Envelope::Assign {
            job_id,
            pipeline,
            requirements,
            deadline_unix_ns: (now_unix_ns + ASSIGNMENT_WINDOW_NS) as i64,
        }),
{
    Envelope::Assign {
        job_id,
        pipeline,
        requirements,
        deadline_unix_ns: now_unix_ns + ASSIGNMENT_WINDOW_NS,
    }
}

// ── The attestation round ──────────────────────────────────────────────────
/// The attestation that a member returned, if it returned one and signed it.
/// None stands for a reply that did not come in time or could not be read.
pub open spec fn attestation_in(runner: Runner, reply: Option<Envelope>) -> Option<Attestation> {
    match reply {
        Some(Envelope::SubmitAttestation(b)) => if crate::boundary::ed25519::signature_accepted(
            runner.signing_pk@,
            crate::attestation::canonical_of(b.attestation),
            b.attestation.signature@,
        ) {
            Some(b.attestation)
        } else {
            None
        },
        _ => None,
    }
}

/// What a committee returned.
pub struct Returns {
    /// Attestations whose signature holds, in fleet order.
    pub attestations: Seq<Attestation>,
    /// Who returned them.
    pub received: Seq<u64>,
    /// Who returned none that holds.
    pub missing: Seq<u64>,
}

/// What the committee members among the first `n` of the fleet returned.
pub open spec fn returns_of(
    fleet: Seq<Runner>,
    committee: Seq<u64>,
    replies: Seq<Option<Envelope>>,
    n: nat,
) -> Returns
    decreases n,
{
    if n == 0 {
        Returns { attestations: Seq::empty(), received: Seq::empty(), missing: Seq::empty() }
    } else {
        let i = n - 1;
        let earlier = returns_of(fleet, committee, replies, i as nat);
        let id = fleet[i].runner_id;
        if !committee.contains(id) {
            earlier
        } else {
            match attestation_in(fleet[i], replies[i]) {
                Some(a) => Returns {
                    attestations: earlier.attestations.push(a),
                    received: earlier.received.push(id),
                    missing: earlier.missing,
                },
                None => Returns { missing: earlier.missing.push(id), ..earlier },
            }
        }
    }
}

/// What a committee returned.
#[derive(Clone, Debug, PartialEq, Eq)]
pub struct Collected {
    /// Attestations whose signature holds, in fleet order.
    pub attestations: Vec<Attestation>,
    /// Who returned them.
    pub received: Vec<u64>,
    /// Who returned none that holds.
    pub missing: Vec<u64>,
}

impl View for Collected {
    type V = Returns;

    open spec fn view(&self) -> Returns {
        Returns {
            attestations: self.attestations@,
            received: self.received@,
            missing: self.missing@,
        }
    }
}

/// Take what the committee returned, one reply per member of the fleet; of those
/// that are not on the committee none is read. A member that returned nothing in
/// time, something else, or an attestation whose signature does not hold, is
/// missing.
#[must_use]
pub fn collect_attestations(
    fleet: &[Runner],
    committee: &[u64],
    replies: &[Option<Envelope>],
) -> (r: Collected)
    requires
        replies@.len() == fleet@.len(),
    ensures
        r@ == returns_of(fleet@, committee@, replies@, fleet@.len()),
{
    let mut out = Collected {
        attestations: Vec::new(),
        received: Vec::new(),
        missing: Vec::new(),
    };
    let mut i: usize = 0;
    while i < fleet.len()
        invariant
            i <= fleet@.len(),
            replies@.len() == fleet@.len(),
            out@ == returns_of(fleet@, committee@, replies@, i as nat),
        decreases fleet@.len() - i,
    {
        let ghost before = out@;
        let id: u64 = fleet[i].runner_id;
        if is_on(committee, id) {
            let mut taken: Option<Attestation> = None;
            if let Some(env) = &replies[i] {
                if let Envelope::SubmitAttestation(b) = env {
                    if b.attestation.verify_signature(&fleet[i].signing_pk) {
                        taken = Some(b.attestation);
                    }
                }
            }
            assert(taken == attestation_in(fleet@[i as int], replies@[i as int]));
            match taken {
                Some(a) => {
                    out.attestations.push(a);
                    out.received.push(id);
                },
                None => {
                    out.missing.push(id);
                },
            }
        }
        i = i + 1;
    }
    out
}

// ── The tally ──────────────────────────────────────────────────────────────
/// The vote that an attestation casts.
pub open spec fn vote_of(a: Attestation) -> Vote {
    Vote {
        runner_id: a.runner_id,
        result: match a.result {
            AttestationResult::Pass => VoteResult::Pass,
            AttestationResult::Fail => VoteResult::Fail,
        },
    }
}

/// The votes that attestations cast.
pub open spec fn votes_of(atts: Seq<Attestation>) -> Seq<Vote> {
    Seq::new(atts.len(), |i: int| vote_of(atts[i]))
}

/// How many attestations carry an artifact.
pub open spec fn support(atts: Seq<Attestation>, artifact: Seq<u8>) -> nat
    decreases atts.len(),
{
    if atts.len() == 0 {
        0
    } else {
        support(atts.drop_last(), artifact) + if atts.last().artifact_hash@ == artifact {
            1nat
        } else {
            0
        }
    }
}

/// Whether the artifact of an attestation has the most support; of several, the
/// one that came first.
pub open spec fn leads(atts: Seq<Attestation>, i: int) -> bool {
    &&& 0 <= i < atts.len()
    &&& forall|j: int|
        0 <= j < atts.len() ==> support(atts, (#[trigger] atts[j]).artifact_hash@) <= support(
            atts,
            atts[i].artifact_hash@,
        )
    &&& forall|j: int|
        0 <= j < i ==> support(atts, (#[trigger] atts[j]).artifact_hash@) < support(
            atts,
            atts[i].artifact_hash@,
        )
}

/// Whether this is the artifact that a committee agrees on: the one with the most
/// support, and zeros where there is none at all.
pub open spec fn is_consensus(atts: Seq<Attestation>, artifact: Seq<u8>) -> bool {
    if atts.len() == 0 {
        artifact == Seq::new(32, |i: int| 0u8)
    } else {
        exists|i: int| #[trigger] leads(atts, i) && artifact == atts[i].artifact_hash@
    }
}

/// The stake of a committee.
pub open spec fn committee_stake(committee: Seq<u64>, stakes: Map<u64, u64>) -> nat
    decreases committee.len(),
{
    if committee.len() == 0 {
        0
    } else {
        committee_stake(committee.drop_last(), stakes) + crate::quorum::stake_or_zero(
            stakes,
            committee.last(),
        )
    }
}

/// The stake that decides: two thirds of the committee's, rounded up.
pub open spec fn threshold_of(committee: Seq<u64>, stakes: Map<u64, u64>) -> nat {
    (2 * committee_stake(committee, stakes) + 2) / 3
}

/// The result of a job.
#[derive(Clone, Copy, Debug, PartialEq, Eq)]
pub struct Tally {
    /// Outcome of the vote.
    pub outcome: Outcome,
    /// Stake that decides.
    pub threshold: Weight,
    /// Stake of the committee.
    pub committee_stake: Weight,
    /// Artifact that the committee agrees on.
    pub consensus_artifact: [u8; 32],
}

/// Whether this is the result of a job.
pub open spec fn is_tally(
    t: Tally,
    committee: Seq<u64>,
    atts: Seq<Attestation>,
    stakes: Map<u64, u64>,
) -> bool {
    &&& t.committee_stake == committee_stake(committee, stakes)
    &&& t.threshold == threshold_of(committee, stakes)
    &&& t.outcome == crate::quorum::quorum_outcome(votes_of(atts), t.threshold, stakes)
    &&& is_consensus(atts, t.consensus_artifact@)
}

/// Whether the sums of a tally fit a `Weight`.
pub open spec fn stakes_fit(
    committee: Seq<u64>,
    atts: Seq<Attestation>,
    stakes: Map<u64, u64>,
) -> bool {
    &&& 2 * committee_stake(committee, stakes) <= u64::MAX
    &&& crate::quorum::sums_fit(
        votes_of(atts),
        threshold_of(committee, stakes) as u64,
        stakes,
    )
}

fn count_support(atts: &[Attestation], artifact: &[u8; 32]) -> (r: usize)
    ensures
        r == support(atts@, artifact@),
{
    let mut n: usize = 0;
    let mut i: usize = 0;
    assert(atts@.take(0) =~= Seq::<Attestation>::empty());
    while i < atts.len()
        invariant
            i <= atts@.len(),
            n <= i,
            n == support(atts@.take(i as int), artifact@),
        decreases atts@.len() - i,
    {
        assert(atts@.take(i + 1).drop_last() =~= atts@.take(i as int));
        if bytes::bytes_eq(atts[i].artifact_hash.as_slice(), artifact.as_slice()) {
            n = n + 1;
        }
        i = i + 1;
    }
    assert(atts@.take(i as int) =~= atts@);
    n
}

/// The artifact that attestations agree on.
#[must_use]
pub fn consensus_artifact(atts: &[Attestation]) -> (r: [u8; 32])
    ensures
        is_consensus(atts@, r@),
{
    if atts.len() == 0 {
        let zeros: [u8; 32] = [0u8; 32];
        assert(zeros@ =~= Seq::new(32, |i: int| 0u8));
        return zeros;
    }
    let mut best: usize = 0;
    let mut most: usize = count_support(atts, &atts[0].artifact_hash);
    let mut i: usize = 1;
    while i < atts.len()
        invariant
            best < i <= atts@.len(),
            most == support(atts@, atts@[best as int].artifact_hash@),
            forall|j: int|
                0 <= j < i ==> support(atts@, (#[trigger] atts@[j]).artifact_hash@) <= most,
            forall|j: int|
                0 <= j < best ==> support(atts@, (#[trigger] atts@[j]).artifact_hash@) < most,
        decreases atts@.len() - i,
    {
        let n: usize = count_support(atts, &atts[i].artifact_hash);
        if n > most {
            best = i;
            most = n;
        }
        i = i + 1;
    }
    assert(leads(atts@, best as int));
    atts[best].artifact_hash
}

fn collect_votes(atts: &[Attestation]) -> (r: Vec<Vote>)
    ensures
        r@ == votes_of(atts@),
{
    let mut votes: Vec<Vote> = Vec::new();
    let mut i: usize = 0;
    while i < atts.len()
        invariant
            i <= atts@.len(),
            votes@.len() == i,
            forall|k: int| 0 <= k < i ==> votes@[k] == vote_of(atts@[k]),
        decreases atts@.len() - i,
    {
        let result = match atts[i].result {
            AttestationResult::Pass => VoteResult::Pass,
            AttestationResult::Fail => VoteResult::Fail,
        };
        votes.push(Vote { runner_id: atts[i].runner_id, result });
        i = i + 1;
    }
    assert(votes@ =~= votes_of(atts@));
    votes
}

proof fn lemma_stake_grows(committee: Seq<u64>, stakes: Map<u64, u64>, n: int)
    requires
        0 <= n <= committee.len(),
    ensures
        committee_stake(committee.take(n), stakes) <= committee_stake(committee, stakes),
    decreases committee.len(),
{
    if n < committee.len() {
        lemma_stake_grows(committee.drop_last(), stakes, n);
        assert(committee.drop_last().take(n) =~= committee.take(n));
    } else {
        assert(committee.take(n) =~= committee);
    }
}

/// Tally the attestations of a committee against the stakes as they stand.
///
/// The sums of stake must fit a `Weight`.
pub fn tally(committee: &[u64], atts: &[Attestation], ledger: &StakeLedger) -> (r: Tally)
    requires
        stakes_fit(committee@, atts@, ledger@),
    ensures
        is_tally(r, committee@, atts@, ledger@),
{
    let mut stake: Weight = 0;
    let mut i: usize = 0;
    assert(committee@.take(0) =~= Seq::<u64>::empty());
    while i < committee.len()
        invariant
            i <= committee@.len(),
            2 * committee_stake(committee@, ledger@) <= u64::MAX,
            stake == committee_stake(committee@.take(i as int), ledger@),
        decreases committee@.len() - i,
    {
        proof {
            assert(committee@.take(i + 1).drop_last() =~= committee@.take(i as int));
            lemma_stake_grows(committee@, ledger@, i + 1);
        }
        stake = stake + ledger.stake_of(committee[i]);
        i = i + 1;
    }
    assert(committee@.take(i as int) =~= committee@);
    let twice: Weight = stake * 2;
    let threshold: Weight = twice / 3 + if twice % 3 == 0 {
        0
    } else {
        1
    };
    let votes = collect_votes(atts);
    let stakes = ledger.as_stake_map();
    Tally {
        outcome: aggregate(votes.as_slice(), threshold, &stakes),
        threshold,
        committee_stake: stake,
        consensus_artifact: consensus_artifact(atts),
    }
}

/// The outcome as the journal writes it.
pub open spec fn journaled(o: Outcome) -> JournalOutcome {
    match o {
        Outcome::Pass => JournalOutcome::Pass,
        Outcome::Fail => JournalOutcome::Fail,
        Outcome::Retry => JournalOutcome::Retry,
        Outcome::Escalate => JournalOutcome::Escalate,
    }
}

/// The outcome as the journal writes it.
#[must_use]
pub fn outcome_to_journal(o: Outcome) -> (r: JournalOutcome)
    ensures
        r == journaled(o),
{
    match o {
        Outcome::Pass => JournalOutcome::Pass,
        Outcome::Fail => JournalOutcome::Fail,
        Outcome::Retry => JournalOutcome::Retry,
        Outcome::Escalate => JournalOutcome::Escalate,
    }
}

/// The journal entry of a tally: the outcome, and the artifact in hex.
#[must_use]
pub fn aggregated_entry(job_id: u64, t: &Tally) -> (r: JournalEntry)
    ensures
        r@ == (crate::journal::EntryFact::Aggregated {
            job_id,
            outcome: journaled(t.outcome),
            artifact_hex: text::hex_of(t.consensus_artifact@),
        }),
{
    JournalEntry::Aggregated {
        job_id,
        outcome: outcome_to_journal(t.outcome),
        artifact_hex: text::hex(t.consensus_artifact.as_slice()),
    }
}

// ── Slashing ───────────────────────────────────────────────────────────────
/// Whether an outcome is definite enough to slash for.
pub open spec fn is_definite(o: Outcome) -> bool {
    o == Outcome::Pass || o == Outcome::Fail
}

/// Whether this is how the dissenters of a job were slashed: on a definite
/// outcome, and where slashing is on, everyone whose artifact is not the
/// consensus lost the amount that `amount_of` gives for their stake. Otherwise
/// nothing happened.
pub open spec fn is_settled<F: Fn(Weight) -> Weight>(
    t: Tally,
    atts: Seq<Attestation>,
    before: Map<u64, u64>,
    slashing: bool,
    amount_of: F,
    after: Map<u64, u64>,
    events: Seq<SlashEvent>,
) -> bool {
    if slashing && is_definite(t.outcome) {
        exists|amounts: Seq<u64>|
            {
                &&& amounts.len() == atts.len()
                &&& forall|i: int|
                    0 <= i < amounts.len() ==> crate::stake_ledger::amount_is_owed(
                        amount_of,
                        crate::stake_ledger::slash_run(
                            before,
                            t.consensus_artifact@,
                            atts.take(i),
                            amounts.take(i),
                        ).stakes,
                        atts[i],
                        t.consensus_artifact@,
                        #[trigger] amounts[i],
                    )
                &&& (crate::stake_ledger::SlashRun { stakes: after, events })
                    == #[trigger] crate::stake_ledger::slash_run(
                    before,
                    t.consensus_artifact@,
                    atts,
                    amounts,
                )
            }
    } else {
        events.len() == 0 && after == before
    }
}

/// Slash the dissenters of a job.
pub fn settle<F: Fn(Weight) -> Weight>(
    t: &Tally,
    atts: &[Attestation],
    ledger: &mut StakeLedger,
    slashing: bool,
    amount_of: F,
) -> (r: Vec<SlashEvent>)
    requires
        forall|w: u64| #[trigger] call_requires(amount_of, (w,)),
    ensures
        is_settled(*t, atts@, old(ledger)@, slashing, amount_of, final(ledger)@, r@),
{
    if !slashing {
        return Vec::new();
    }
    match t.outcome {
        Outcome::Pass | Outcome::Fail => {
            ledger.slash_minority(t.consensus_artifact, atts, amount_of)
        },
        _ => Vec::new(),
    }
}

// ── Anchoring ──────────────────────────────────────────────────────────────
/// Whether this is the record of a job that was anchored at the end of a log of
/// `position` entries.
pub open spec fn is_record_of(
    rec: JobRecord,
    job_id: u64,
    pipeline: Pipeline,
    atts: Seq<Attestation>,
    artifact: [u8; 32],
    position: int,
) -> bool {
    &&& rec.job_id == job_id
    &&& rec.pipeline_hash@ == crate::boundary::merkle::leaf_hash_of(
        crate::boundary::cbor::encoding_of(crate::jobs::pipeline_item(pipeline)),
    )
    &&& rec.committee_attestations@ == atts
    &&& rec.consensus_artifact == artifact
    &&& rec.log_position == position
    &&& rec.log_length_at_anchor == position + 1
}

/// Anchor a passed job: its artifact goes to the end of the log, and its record
/// to the records. Returns the position.
pub fn anchor(
    job_id: u64,
    pipeline: &Pipeline,
    atts: &Vec<Attestation>,
    artifact: [u8; 32],
    log: &mut MerkleLog,
    records: &mut HashMap<u64, JobRecord>,
) -> (r: u64)
    ensures
        r == old(log)@.len(),
        final(log)@ == old(log)@.push(artifact),
        final(records)@ == old(records)@.insert(job_id, final(records)@[job_id]),
        is_record_of(
            final(records)@[job_id],
            job_id,
            *pipeline,
            atts@,
            artifact,
            old(log)@.len() as int,
        ),
{
    let pipeline_bytes = match canonical_encoding(pipeline) {
        Ok(b) => b,
        Err(_) => Vec::new(),
    };
    let pipeline_hash = hash_bytes(pipeline_bytes.as_slice());
    let position: u64 = log.append(artifact);
    let length: u64 = log.len();
    let record = JobRecord {
        job_id,
        pipeline_hash,
        committee_attestations: copy_all(atts),
        consensus_artifact: artifact,
        log_position: position,
        log_length_at_anchor: length,
    };
    records.insert(job_id, record);
    position
}

// ── Laws ───────────────────────────────────────────────────────────────────
/// Every committee member is accounted for: it returned an attestation that holds
/// or it is missing, and nobody else is counted.
pub proof fn law_committee_is_accounted_for(
    fleet: Seq<Runner>,
    committee: Seq<u64>,
    replies: Seq<Option<Envelope>>,
    n: nat,
    i: int,
)
    requires
        0 <= i < n <= fleet.len(),
        replies.len() == fleet.len(),
        committee.contains(fleet[i].runner_id),
    ensures
        ({
            let r = returns_of(fleet, committee, replies, n);
            if attestation_in(fleet[i], replies[i]) is Some {
                r.received.contains(fleet[i].runner_id)
            } else {
                r.missing.contains(fleet[i].runner_id)
            }
        }),
    decreases n,
{
    let before = returns_of(fleet, committee, replies, (n - 1) as nat);
    let after = returns_of(fleet, committee, replies, n);
    let id = fleet[i].runner_id;
    if i == n - 1 {
        if attestation_in(fleet[i], replies[i]) is Some {
            assert(after.received[before.received.len() as int] == id);
        } else {
            assert(after.missing[before.missing.len() as int] == id);
        }
    } else {
        law_committee_is_accounted_for(fleet, committee, replies, (n - 1) as nat, i);
        if before.received.contains(id) {
            let k = choose|k: int| 0 <= k < before.received.len() && before.received[k] == id;
            assert(after.received[k] == id);
        }
        if before.missing.contains(id) {
            let k = choose|k: int| 0 <= k < before.missing.len() && before.missing[k] == id;
            assert(after.missing[k] == id);
        }
    }
}

/// What counts was signed: every attestation that is tallied came from a member
/// of the committee and holds under the key that the member registered.
pub proof fn law_only_signed_attestations_count(
    fleet: Seq<Runner>,
    committee: Seq<u64>,
    replies: Seq<Option<Envelope>>,
    n: nat,
    k: int,
)
    requires
        n <= fleet.len(),
        replies.len() == fleet.len(),
        0 <= k < returns_of(fleet, committee, replies, n).attestations.len(),
    ensures
        returns_of(fleet, committee, replies, n).received.len() == returns_of(
            fleet,
            committee,
            replies,
            n,
        ).attestations.len(),
        exists|i: int|
            0 <= i < n && committee.contains(#[trigger] fleet[i].runner_id) && returns_of(
                fleet,
                committee,
                replies,
                n,
            ).received[k] == fleet[i].runner_id && attestation_in(fleet[i], replies[i]) == Some(
                returns_of(fleet, committee, replies, n).attestations[k],
            ),
    decreases n,
{
    let before = returns_of(fleet, committee, replies, (n - 1) as nat);
    lemma_as_many_received(fleet, committee, replies, n);
    lemma_as_many_received(fleet, committee, replies, (n - 1) as nat);
    if k < before.attestations.len() {
        law_only_signed_attestations_count(fleet, committee, replies, (n - 1) as nat, k);
    } else {
        assert(committee.contains(fleet[n - 1].runner_id));
    }
}

proof fn lemma_as_many_received(
    fleet: Seq<Runner>,
    committee: Seq<u64>,
    replies: Seq<Option<Envelope>>,
    n: nat,
)
    ensures
        returns_of(fleet, committee, replies, n).received.len() == returns_of(
            fleet,
            committee,
            replies,
            n,
        ).attestations.len(),
    decreases n,
{
    if n > 0 {
        lemma_as_many_received(fleet, committee, replies, (n - 1) as nat);
    }
}

/// A claim that counts was proved, for this job, by the member that made it.
pub proof fn law_only_proved_claims_count(
    job_id: u64,
    fleet: Seq<Runner>,
    replies: Seq<Envelope>,
    n: nat,
    k: int,
)
    requires
        n <= fleet.len(),
        replies.len() == fleet.len(),
        0 <= k < claims_of(job_id, fleet, replies, n).len(),
    ensures
        exists|i: int|
            0 <= i < n && claims_of(job_id, fleet, replies, n)[k].0 == (
            #[trigger] fleet[i]).runner_id && (replies[i] matches Envelope::VrfClaim {
                job_id: id,
                vrf_output,
                vrf_proof,
            } && id == job_id && vrf_output == claims_of(job_id, fleet, replies, n)[k].1
                && vrf::verify_result(
                fleet[i].vrf_pk@,
                seed_of(job_id),
                vrf_output@,
                vrf_proof@,
            ) is Ok),
    decreases n,
{
    let before = claims_of(job_id, fleet, replies, (n - 1) as nat);
    if k < before.len() {
        law_only_proved_claims_count(job_id, fleet, replies, (n - 1) as nat, k);
    } else {
        assert(fleet[n - 1].runner_id == claims_of(job_id, fleet, replies, n)[k].0);
    }
}

/// Seeds of two jobs differ.
pub proof fn law_seeds_differ(a: u64, b: u64)
    requires
        seed_of(a) == seed_of(b),
    ensures
        a == b,
{
    bytes::law_le_round_trip(a as nat, 8);
    bytes::law_le_round_trip(b as nat, 8);
    assert(seed_of(a).take(8) =~= bytes::le_of(a as nat, 8));
    assert(seed_of(b).take(8) =~= bytes::le_of(b as nat, 8));
    vstd::arithmetic::power2::lemma_pow2_unfold(64);
    reveal_with_fuel(vstd::arithmetic::power::pow, 9);
}

/// An anchored job can be retrieved: its place in the log is valid, and the entry
/// there is its artifact, now and after any number of further appends.
pub proof fn law_anchored_job_is_retrievable(
    rec: JobRecord,
    job_id: u64,
    pipeline: Pipeline,
    atts: Seq<Attestation>,
    artifact: [u8; 32],
    log: Seq<[u8; 32]>,
    more: Seq<[u8; 32]>,
)
    requires
        is_record_of(rec, job_id, pipeline, atts, artifact, log.len() as int),
    ensures
        crate::retrieval::place_is_valid(rec, (log.push(artifact) + more).len() as int),
        (log.push(artifact) + more)[rec.log_position as int] == rec.consensus_artifact,
{
}

/// The journal of a job that ran to its end: its submission, its committee, the
/// attestations received, the tally and, where it was anchored, the anchor.
pub open spec fn trail_of(
    job_id: u64,
    committee: Seq<u64>,
    received: Seq<u64>,
    outcome: JournalOutcome,
    artifact_hex: Seq<char>,
    position: Option<u64>,
) -> Seq<crate::journal::EntryFact> {
    let tallied = seq![
        crate::journal::EntryFact::JobSubmitted { job_id },
        crate::journal::EntryFact::CommitteeSelected { job_id, committee },
    ] + received.map_values(
        |runner_id: u64| crate::journal::EntryFact::AttestationReceived { job_id, runner_id },
    ) + seq![crate::journal::EntryFact::Aggregated { job_id, outcome, artifact_hex }];
    match position {
        Some(position) => tallied.push(crate::journal::EntryFact::Anchored { job_id, position }),
        None => tallied,
    }
}

/// After a crash the journal tells where a job that ran to its end was left: it
/// is done if it was anchored, and else waits for its anchor.
pub proof fn law_trail_tells_where_a_job_was_left(
    earlier: Seq<crate::journal::EntryFact>,
    job_id: u64,
    committee: Seq<u64>,
    received: Seq<u64>,
    outcome: JournalOutcome,
    artifact_hex: Seq<char>,
    position: Option<u64>,
)
    ensures
        ({
            let state = crate::journal::state_of(
                earlier + trail_of(job_id, committee, received, outcome, artifact_hex, position),
            );
            &&& state.dom().contains(job_id)
            &&& state[job_id] == match position {
                Some(position) => crate::journal::Progress::Anchored { position },
                None => crate::journal::Progress::AggregatedNotAnchored { outcome, artifact_hex },
            }
        }),
{
    let trail = trail_of(job_id, committee, received, outcome, artifact_hex, position);
    let all = earlier + trail;
    assert(all.last() == trail.last());
    assert(all.len() > 0);
}

/// The stake of a committee is that of its members, whatever their order: each
/// member counts with its own stake, once for each time it is named.
pub proof fn law_committee_stake_is_that_of_its_members(
    committee: Seq<u64>,
    stakes: Map<u64, u64>,
    i: int,
)
    requires
        0 <= i < committee.len(),
    ensures
        committee_stake(Seq::empty(), stakes) == 0,
        committee_stake(committee, stakes) == committee_stake(committee.remove(i), stakes) + (
        if stakes.contains_key(committee[i]) {
            stakes[committee[i]] as nat
        } else {
            0
        }),
    decreases committee.len(),
{
    let n = committee.len() - 1;
    if i < n {
        law_committee_stake_is_that_of_its_members(committee.drop_last(), stakes, i);
        assert(committee.remove(i).drop_last() =~= committee.drop_last().remove(i));
        assert(committee.remove(i).last() == committee.last());
    } else {
        assert(committee.remove(i) =~= committee.drop_last());
    }
}

/// Swapping two members leaves the stake of a committee as it was.
pub proof fn law_committee_stake_has_no_order(
    committee: Seq<u64>,
    stakes: Map<u64, u64>,
    i: int,
    j: int,
)
    requires
        0 <= i < j < committee.len(),
    ensures
        committee_stake(
            committee.update(i, committee[j]).update(j, committee[i]),
            stakes,
        ) == committee_stake(committee, stakes),
{
    let swapped = committee.update(i, committee[j]).update(j, committee[i]);
    law_committee_stake_is_that_of_its_members(committee, stakes, j);
    law_committee_stake_is_that_of_its_members(committee.remove(j), stakes, i);
    law_committee_stake_is_that_of_its_members(swapped, stakes, j);
    law_committee_stake_is_that_of_its_members(swapped.remove(j), stakes, i);
    assert(committee.remove(j).remove(i) =~= swapped.remove(j).remove(i));
}

/// The stake of a committee that names nobody twice is the stake of the set of
/// its members.
pub proof fn law_committee_stake_is_that_of_a_set(committee: Seq<u64>, stakes: Map<u64, u64>)
    requires
        committee.no_duplicates(),
    ensures
        committee_stake(committee, stakes) == crate::quorum::stake_of_set(
            stakes,
            committee.to_set(),
        ),
    decreases committee.len(),
{
    if committee.len() == 0 {
        assert(committee.to_set() =~= Set::<u64>::empty());
    } else {
        let less = committee.drop_last();
        let last = committee.last();
        law_committee_stake_is_that_of_a_set(less, stakes);
        assert(!less.contains(last));
        assert(committee.to_set() =~= less.to_set().insert(last)) by {
            assert forall|x: u64| committee.contains(x) <==> less.contains(x) || x == last by {
                if committee.contains(x) {
                    let k = choose|k: int| 0 <= k < committee.len() && committee[k] == x;
                    if k < less.len() {
                        assert(less[k] == x);
                    }
                }
                if less.contains(x) {
                    let k = choose|k: int| 0 <= k < less.len() && less[k] == x;
                    assert(committee[k] == x);
                }
                if x == last {
                    assert(committee[committee.len() - 1] == x);
                }
            }
        }
        vstd::seq_lib::seq_to_set_is_finite(less);
        crate::quorum::law_stake_is_counted_once(stakes, less.to_set(), last);
    }
}

/// Whether no attestation behind this one is of the same runner.
pub open spec fn is_last_word(atts: Seq<Attestation>, i: int) -> bool {
    0 <= i < atts.len() && forall|j: int|
        i < j < atts.len() ==> (#[trigger] atts[j]).runner_id != atts[i].runner_id
}

proof fn lemma_last_words(atts: Seq<Attestation>, i: int)
    ensures
        is_last_word(atts, i) == crate::quorum::is_last_vote(votes_of(atts), i),
{
    let votes = votes_of(atts);
    if is_last_word(atts, i) {
        assert forall|j: int| i < j < votes.len() implies (#[trigger] votes[j]).runner_id
            != votes[i].runner_id by {
            assert(votes[j] == vote_of(atts[j]));
        }
    }
    if crate::quorum::is_last_vote(votes, i) {
        assert forall|j: int| i < j < atts.len() implies (#[trigger] atts[j]).runner_id
            != atts[i].runner_id by {
            assert(votes[j] == vote_of(atts[j]));
        }
    }
}

proof fn lemma_sides(
    atts: Seq<Attestation>,
    said: AttestationResult,
    result: VoteResult,
    runners: Set<u64>,
)
    requires
        said == AttestationResult::Pass <==> result == VoteResult::Pass,
        forall|r: u64| #[trigger]
            runners.contains(r) <==> exists|i: int| #[trigger]
                is_last_word(atts, i) && atts[i].runner_id == r && atts[i].result == said,
    ensures
        forall|r: u64| #[trigger]
            runners.contains(r) <==> exists|i: int| #[trigger]
                crate::quorum::is_last_vote(votes_of(atts), i) && votes_of(atts)[i].runner_id == r
                    && votes_of(atts)[i].result == result,
{
    let votes = votes_of(atts);
    assert forall|r: u64| #[trigger]
        runners.contains(r) <==> exists|i: int| #[trigger]
            crate::quorum::is_last_vote(votes, i) && votes[i].runner_id == r && votes[i].result
                == result by {
        if runners.contains(r) {
            let i = choose|i: int| #[trigger]
                is_last_word(atts, i) && atts[i].runner_id == r && atts[i].result == said;
            lemma_last_words(atts, i);
            assert(crate::quorum::is_last_vote(votes, i));
        }
        if exists|i: int| #[trigger]
            crate::quorum::is_last_vote(votes, i) && votes[i].runner_id == r && votes[i].result
                == result {
            let i = choose|i: int| #[trigger]
                crate::quorum::is_last_vote(votes, i) && votes[i].runner_id == r && votes[i].result
                    == result;
            lemma_last_words(atts, i);
            assert(is_last_word(atts, i));
        }
    }
}

/// Two thirds of the committee's stake decide a job: it failed where the runners
/// whose last attestation says so hold that much, passed where only those who say
/// it passed do, and is beyond resolving where neither side could still get there.
pub proof fn law_two_thirds_decide(
    t: Tally,
    committee: Seq<u64>,
    atts: Seq<Attestation>,
    stakes: Map<u64, u64>,
    passers: Set<u64>,
    failers: Set<u64>,
)
    requires
        is_tally(t, committee, atts, stakes),
        committee.no_duplicates(),
        stakes.dom().finite(),
        forall|r: u64| #[trigger]
            passers.contains(r) <==> exists|i: int| #[trigger]
                is_last_word(atts, i) && atts[i].runner_id == r && atts[i].result
                    == AttestationResult::Pass,
        forall|r: u64| #[trigger]
            failers.contains(r) <==> exists|i: int| #[trigger]
                is_last_word(atts, i) && atts[i].runner_id == r && atts[i].result
                    == AttestationResult::Fail,
    ensures
        ({
            let needed = 2 * crate::quorum::stake_of_set(stakes, committee.to_set());
            let pass = crate::quorum::stake_of_set(stakes, passers);
            let fail = crate::quorum::stake_of_set(stakes, failers);
            let all = crate::quorum::stake_of_set(stakes, stakes.dom());
            &&& 2 * t.committee_stake == needed
            &&& 3 * t.threshold >= needed
            &&& 3 * (t.threshold - 1) < needed
            &&& t.outcome == Outcome::Fail <==> 3 * fail >= needed
            &&& t.outcome == Outcome::Pass <==> 3 * fail < needed <= 3 * pass
            &&& t.outcome == Outcome::Escalate <==> 3 * (all - fail) < needed && 3 * (all - pass)
                < needed
        }),
{
    law_committee_stake_is_that_of_a_set(committee, stakes);
    let votes = votes_of(atts);
    lemma_sides(atts, AttestationResult::Pass, VoteResult::Pass, passers);
    lemma_sides(atts, AttestationResult::Fail, VoteResult::Fail, failers);
    crate::quorum::law_last_vote_decides_the_side(votes, stakes, VoteResult::Pass, passers);
    crate::quorum::law_last_vote_decides_the_side(votes, stakes, VoteResult::Fail, failers);
    crate::quorum::law_outcome_follows_the_stake(votes, t.threshold, stakes);
}

/// Support is counted attestation by attestation: each adds one to the artifact it
/// carries, and to no other.
pub proof fn law_support_counts_attestations(
    atts: Seq<Attestation>,
    artifact: Seq<u8>,
    i: int,
)
    requires
        0 <= i < atts.len(),
    ensures
        support(Seq::empty(), artifact) == 0,
        support(atts, artifact) == support(atts.remove(i), artifact) + (
        if atts[i].artifact_hash@ == artifact {
            1nat
        } else {
            0
        }),
    decreases atts.len(),
{
    let n = atts.len() - 1;
    if i < n {
        law_support_counts_attestations(atts.drop_last(), artifact, i);
        assert(atts.remove(i).drop_last() =~= atts.drop_last().remove(i));
        assert(atts.remove(i).last() == atts.last());
    } else {
        assert(atts.remove(i) =~= atts.drop_last());
    }
}

/// The artifact that a committee agrees on is one that it returned, and none has
/// more support; of several with as much, it came first. Nothing returned is
/// zeros.
pub proof fn law_consensus_has_the_most_support(
    atts: Seq<Attestation>,
    artifact: Seq<u8>,
    j: int,
)
    requires
        is_consensus(atts, artifact),
    ensures
        atts.len() == 0 ==> artifact.len() == 32 && forall|k: int|
            0 <= k < 32 ==> #[trigger] artifact[k] == 0u8,
        atts.len() > 0 ==> exists|i: int|
            0 <= i < atts.len() && (#[trigger] atts[i]).artifact_hash@ == artifact,
        0 <= j < atts.len() && atts[j].artifact_hash@ != artifact ==> {
            ||| support(atts, atts[j].artifact_hash@) < support(atts, artifact)
            ||| support(atts, atts[j].artifact_hash@) == support(atts, artifact) && exists|i: int|
                0 <= i < j && (#[trigger] atts[i]).artifact_hash@ == artifact
        },
{
    if atts.len() > 0 {
        let i = choose|i: int| #[trigger] leads(atts, i) && artifact == atts[i].artifact_hash@;
        assert(atts[i].artifact_hash@ == artifact);
        if 0 <= j < atts.len() && atts[j].artifact_hash@ != artifact {
            assert(support(atts, atts[j].artifact_hash@) <= support(atts, artifact));
        }
    }
}

proof fn lemma_supports_add_up(atts: Seq<Attestation>, a: Seq<u8>, b: Seq<u8>)
    requires
        a != b,
    ensures
        support(atts, a) + support(atts, b) <= atts.len(),
    decreases atts.len(),
{
    if atts.len() > 0 {
        lemma_supports_add_up(atts.drop_last(), a, b);
    }
}

proof fn lemma_support_needs_a_carrier(atts: Seq<Attestation>, a: Seq<u8>)
    requires
        support(atts, a) > 0,
    ensures
        exists|i: int| 0 <= i < atts.len() && (#[trigger] atts[i]).artifact_hash@ == a,
    decreases atts.len(),
{
    if atts.last().artifact_hash@ == a {
        assert(atts[atts.len() - 1].artifact_hash@ == a);
    } else {
        lemma_support_needs_a_carrier(atts.drop_last(), a);
        let i = choose|i: int|
            0 <= i < atts.drop_last().len() && (#[trigger] atts.drop_last()[i]).artifact_hash@ == a;
        assert(atts[i].artifact_hash@ == a);
    }
}

/// The majority has its way: an artifact that more than half of the attestations
/// carry is the one that the committee agrees on.
pub proof fn law_majority_is_the_consensus(
    atts: Seq<Attestation>,
    artifact: Seq<u8>,
    carried: Seq<u8>,
)
    requires
        is_consensus(atts, artifact),
        2 * support(atts, carried) > atts.len(),
    ensures
        artifact == carried,
{
    if artifact != carried {
        lemma_supports_add_up(atts, artifact, carried);
        lemma_support_needs_a_carrier(atts, carried);
        let j = choose|j: int|
            0 <= j < atts.len() && (#[trigger] atts[j]).artifact_hash@ == carried;
        law_consensus_has_the_most_support(atts, artifact, j);
    }
}

/// Every claim that holds counts: a member that answers the seed of a job with a
/// claim for that job whose proof holds under its key is among the claims, with
/// its output.
pub proof fn law_every_claim_that_holds_counts(
    job_id: u64,
    fleet: Seq<Runner>,
    replies: Seq<Envelope>,
    n: nat,
    i: int,
)
    requires
        0 <= i < n <= fleet.len(),
        replies.len() == fleet.len(),
        replies[i] matches Envelope::VrfClaim { job_id: id, vrf_output, vrf_proof } && id == job_id
            && vrf::verify_result(
            fleet[i].vrf_pk@,
            seed_of(job_id),
            vrf_output@,
            vrf_proof@,
        ) is Ok,
    ensures
        claims_of(job_id, fleet, replies, n).contains(
            (fleet[i].runner_id, replies[i]->VrfClaim_vrf_output),
        ),
    decreases n,
{
    let earlier = claims_of(job_id, fleet, replies, (n - 1) as nat);
    let all = claims_of(job_id, fleet, replies, n);
    let claim = (fleet[i].runner_id, replies[i]->VrfClaim_vrf_output);
    if i == n - 1 {
        assert(all[earlier.len() as int] == claim);
    } else {
        law_every_claim_that_holds_counts(job_id, fleet, replies, (n - 1) as nat, i);
        let k = choose|k: int| 0 <= k < earlier.len() && earlier[k] == claim;
        assert(all[k] == claim);
    }
}

/// The claims that count are those of the members whose claim holds: one for each
/// of them, in the order of the fleet.
pub proof fn law_claims_are_in_fleet_order(
    job_id: u64,
    fleet: Seq<Runner>,
    replies: Seq<Envelope>,
    n: nat,
) -> (order: Seq<int>)
    requires
        n <= fleet.len(),
        replies.len() == fleet.len(),
    ensures
        order.len() == claims_of(job_id, fleet, replies, n).len(),
        forall|k: int|
            0 <= k < order.len() ==> 0 <= #[trigger] order[k] < n && claims_of(
                job_id,
                fleet,
                replies,
                n,
            )[k] == (fleet[order[k]].runner_id, replies[order[k]]->VrfClaim_vrf_output),
        forall|k: int, l: int| 0 <= k < l < order.len() ==> order[k] < order[l],
        forall|i: int|
            0 <= i < n ==> (order.contains(i) <==> ((#[trigger] replies[i]) matches
                Envelope::VrfClaim { job_id: id, vrf_output, vrf_proof } && id == job_id
                && vrf::verify_result(
                fleet[i].vrf_pk@,
                seed_of(job_id),
                vrf_output@,
                vrf_proof@,
            ) is Ok)),
    decreases n,
{
    if n == 0 {
        Seq::empty()
    } else {
        let less = law_claims_are_in_fleet_order(job_id, fleet, replies, (n - 1) as nat);
        let counted = claim_of(job_id, fleet[n - 1], replies[n - 1]) is Counted;
        let order = if counted {
            less.push(n - 1)
        } else {
            less
        };
        assert forall|i: int| 0 <= i < n implies (order.contains(i) <==> less.contains(i) || (
        counted && i == n - 1)) by {
            if less.contains(i) {
                let k = choose|k: int| 0 <= k < less.len() && less[k] == i;
                assert(order[k] == i);
            }
            if counted && i == n - 1 {
                assert(order[less.len() as int] == i);
            }
        }
        assert(!less.contains(n - 1));
        order
    }
}

/// What a runner offers is what it registered with last.
pub proof fn law_last_registration_is_the_offer(fleet: Seq<Runner>, id: u64)
    ensures
        offers_of(fleet).contains_key(id) <==> exists|i: int|
            0 <= i < fleet.len() && (#[trigger] fleet[i]).runner_id == id,
        offers_of(fleet).contains_key(id) ==> exists|i: int|
            {
                &&& 0 <= i < fleet.len()
                &&& (#[trigger] fleet[i]).runner_id == id
                &&& fleet[i].capabilities == offers_of(fleet)[id]
                &&& forall|j: int| i < j < fleet.len() ==> fleet[j].runner_id != id
            },
    decreases fleet.len(),
{
    if fleet.len() > 0 {
        let less = fleet.drop_last();
        let n = fleet.len() - 1;
        law_last_registration_is_the_offer(less, id);
        if fleet[n].runner_id != id {
            if offers_of(less).contains_key(id) {
                let i = choose|i: int|
                    {
                        &&& 0 <= i < less.len()
                        &&& (#[trigger] less[i]).runner_id == id
                        &&& less[i].capabilities == offers_of(less)[id]
                        &&& forall|j: int| i < j < less.len() ==> less[j].runner_id != id
                    };
                assert(fleet[i] == less[i]);
                assert forall|j: int| i < j < fleet.len() implies fleet[j].runner_id != id by {
                    if j < n {
                        assert(fleet[j] == less[j]);
                    }
                }
            }
            if exists|i: int| 0 <= i < fleet.len() && (#[trigger] fleet[i]).runner_id == id {
                let i = choose|i: int|
                    0 <= i < fleet.len() && (#[trigger] fleet[i]).runner_id == id;
                assert(less[i].runner_id == id);
            }
        }
    }
}

proof fn lemma_candidates(
    offers: Map<u64, Capabilities>,
    claims: Seq<(u64, [u8; 32])>,
    n: nat,
)
    requires
        n <= claims.len(),
        forall|k: int| 0 <= k < claims.len() ==> offers.contains_key((#[trigger] claims[k]).0),
    ensures
        candidates_of(offers, claims, n).len() == n,
        forall|k: int|
            0 <= k < n ==> #[trigger] candidates_of(offers, claims, n)[k] == (Candidate {
                id: claims[k].0,
                capabilities: offers[claims[k].0],
                vrf_output: claims[k].1,
            }),
    decreases n,
{
    if n > 0 {
        lemma_candidates(offers, claims, (n - 1) as nat);
        assert(offers.contains_key(claims[n - 1].0));
    }
}

/// Every member whose claim holds is a candidate, with the output it proved and
/// what it registered with last; nobody else is one, and no claim makes two.
pub proof fn law_claims_make_the_candidates(
    job_id: u64,
    fleet: Seq<Runner>,
    replies: Seq<Envelope>,
)
    requires
        replies.len() == fleet.len(),
    ensures
        ({
            let claims = claims_of(job_id, fleet, replies, fleet.len());
            let candidates = candidates_for(job_id, fleet, replies);
            &&& candidates.len() == claims.len()
            &&& forall|k: int|
                0 <= k < claims.len() ==> {
                    &&& (#[trigger] candidates[k]).id == claims[k].0
                    &&& candidates[k].vrf_output == claims[k].1
                    &&& exists|i: int|
                        {
                            &&& 0 <= i < fleet.len()
                            &&& (#[trigger] fleet[i]).runner_id == claims[k].0
                            &&& fleet[i].capabilities == candidates[k].capabilities
                            &&& forall|j: int|
                                i < j < fleet.len() ==> fleet[j].runner_id != claims[k].0
                        }
                }
        }),
{
    let claims = claims_of(job_id, fleet, replies, fleet.len());
    let offers = offers_of(fleet);
    let order = law_claims_are_in_fleet_order(job_id, fleet, replies, fleet.len());
    assert forall|k: int| 0 <= k < claims.len() implies offers.contains_key(
        (#[trigger] claims[k]).0,
    ) by {
        assert(fleet[order[k]].runner_id == claims[k].0);
        law_last_registration_is_the_offer(fleet, claims[k].0);
    }
    lemma_candidates(offers, claims, claims.len());
    let candidates = candidates_for(job_id, fleet, replies);
    assert forall|k: int| 0 <= k < claims.len() implies {
        &&& (#[trigger] candidates[k]).id == claims[k].0
        &&& candidates[k].vrf_output == claims[k].1
        &&& exists|i: int|
            {
                &&& 0 <= i < fleet.len()
                &&& (#[trigger] fleet[i]).runner_id == claims[k].0
                &&& fleet[i].capabilities == candidates[k].capabilities
                &&& forall|j: int| i < j < fleet.len() ==> fleet[j].runner_id != claims[k].0
            }
    } by {
        assert(offers.contains_key(claims[k].0));
        law_last_registration_is_the_offer(fleet, claims[k].0);
    }
}

/// Attestations that hold are taken one for each member of the committee that
/// returned one, in the order of the fleet, each beside the member it came from.
pub proof fn law_attestations_are_in_fleet_order(
    fleet: Seq<Runner>,
    committee: Seq<u64>,
    replies: Seq<Option<Envelope>>,
    n: nat,
) -> (order: Seq<int>)
    requires
        n <= fleet.len(),
        replies.len() == fleet.len(),
    ensures
        ({
            let r = returns_of(fleet, committee, replies, n);
            &&& order.len() == r.attestations.len()
            &&& order.len() == r.received.len()
            &&& forall|k: int|
                0 <= k < order.len() ==> 0 <= #[trigger] order[k] < n && r.received[k]
                    == fleet[order[k]].runner_id && (replies[order[k]] matches Some(
                    Envelope::SubmitAttestation(b),
                ) && r.attestations[k] == b.attestation)
        }),
        forall|k: int, l: int| 0 <= k < l < order.len() ==> order[k] < order[l],
        forall|i: int|
            0 <= i < n ==> (order.contains(i) <==> committee.contains(fleet[i].runner_id) && ((
            #[trigger] replies[i]) matches Some(Envelope::SubmitAttestation(b))
                && crate::boundary::ed25519::signature_accepted(
                fleet[i].signing_pk@,
                crate::attestation::canonical_of(b.attestation),
                b.attestation.signature@,
            ))),
    decreases n,
{
    if n == 0 {
        Seq::empty()
    } else {
        let less = law_attestations_are_in_fleet_order(fleet, committee, replies, (n - 1) as nat);
        let taken = committee.contains(fleet[n - 1].runner_id) && attestation_in(
            fleet[n - 1],
            replies[n - 1],
        ) is Some;
        let order = if taken {
            less.push(n - 1)
        } else {
            less
        };
        assert forall|i: int| 0 <= i < n implies (order.contains(i) <==> less.contains(i) || (taken
            && i == n - 1)) by {
            if less.contains(i) {
                let k = choose|k: int| 0 <= k < less.len() && less[k] == i;
                assert(order[k] == i);
            }
            if taken && i == n - 1 {
                assert(order[less.len() as int] == i);
            }
        }
        assert(!less.contains(n - 1));
        order
    }
}

/// The missing are the members of the committee that returned no attestation that
/// holds, one for each of them, in the order of the fleet.
pub proof fn law_missing_are_in_fleet_order(
    fleet: Seq<Runner>,
    committee: Seq<u64>,
    replies: Seq<Option<Envelope>>,
    n: nat,
) -> (order: Seq<int>)
    requires
        n <= fleet.len(),
        replies.len() == fleet.len(),
    ensures
        order.len() == returns_of(fleet, committee, replies, n).missing.len(),
        forall|k: int|
            0 <= k < order.len() ==> 0 <= #[trigger] order[k] < n && returns_of(
                fleet,
                committee,
                replies,
                n,
            ).missing[k] == fleet[order[k]].runner_id,
        forall|k: int, l: int| 0 <= k < l < order.len() ==> order[k] < order[l],
        forall|i: int|
            0 <= i < n ==> (order.contains(i) <==> committee.contains(fleet[i].runner_id) && !((
            #[trigger] replies[i]) matches Some(Envelope::SubmitAttestation(b))
                && crate::boundary::ed25519::signature_accepted(
                fleet[i].signing_pk@,
                crate::attestation::canonical_of(b.attestation),
                b.attestation.signature@,
            ))),
    decreases n,
{
    if n == 0 {
        Seq::empty()
    } else {
        let less = law_missing_are_in_fleet_order(fleet, committee, replies, (n - 1) as nat);
        let lost = committee.contains(fleet[n - 1].runner_id) && attestation_in(
            fleet[n - 1],
            replies[n - 1],
        ) is None;
        let order = if lost {
            less.push(n - 1)
        } else {
            less
        };
        assert forall|i: int| 0 <= i < n implies (order.contains(i) <==> less.contains(i) || (lost
            && i == n - 1)) by {
            if less.contains(i) {
                let k = choose|k: int| 0 <= k < less.len() && less[k] == i;
                assert(order[k] == i);
            }
            if lost && i == n - 1 {
                assert(order[less.len() as int] == i);
            }
        }
        assert(!less.contains(n - 1));
        order
    }
}

/// A committee is formed exactly if enough candidates can do the job. It then has
/// the size asked for, and no candidate that can do the job and was left out has a
/// smaller VRF output than a member.
pub proof fn law_committee_is_the_best(
    candidates: Seq<Candidate<u64>>,
    requirements: JobRequirements,
    committee_size: usize,
    r: Result<Vec<u64>, Shortfall>,
)
    requires
        is_selection(candidates, requirements, committee_size, r),
    ensures
        r is Ok <==> crate::capabilities::eligible_count(candidates, requirements)
            >= committee_size,
        r matches Ok(ids) ==> {
            &&& ids@.len() == committee_size
            &&& forall|k: int, p: int|
                #![trigger ids@[k], candidates[p]]
                0 <= k < ids@.len() && 0 <= p < candidates.len()
                    && crate::capabilities::capable(candidates[p].capabilities, requirements)
                    && !ids@.contains(candidates[p].id) ==> exists|q: int|
                    {
                        &&& 0 <= q < candidates.len()
                        &&& (#[trigger] candidates[q]).id == ids@[k]
                        &&& crate::capabilities::capable(
                            candidates[q].capabilities,
                            requirements,
                        )
                        &&& !crate::bytes::lex_less(
                            candidates[p].vrf_output@,
                            candidates[q].vrf_output@,
                        )
                    }
        },
        r matches Err(s) ==> s.candidates == candidates.len() && s.eligible
            == crate::capabilities::eligible_count(candidates, requirements),
{
    if let Ok(ids) = r {
        let size = committee_size as int;
        let order = choose|order: Seq<int>| #[trigger]
            crate::capabilities::is_ranking(order, candidates, requirements) && ids@
                == crate::capabilities::ids_at(candidates, order.take(size));
        lemma_ranking_len(order, candidates, requirements);
        assert forall|k: int, p: int|
            #![trigger ids@[k], candidates[p]]
            0 <= k < ids@.len() && 0 <= p < candidates.len() && crate::capabilities::capable(
                candidates[p].capabilities,
                requirements,
            ) && !ids@.contains(candidates[p].id) implies exists|q: int|
            {
                &&& 0 <= q < candidates.len()
                &&& (#[trigger] candidates[q]).id == ids@[k]
                &&& crate::capabilities::capable(candidates[q].capabilities, requirements)
                &&& !crate::bytes::lex_less(
                    candidates[p].vrf_output@,
                    candidates[q].vrf_output@,
                )
            } by {
            let q = crate::capabilities::law_committee_holds_the_smallest_outputs(
                order,
                candidates,
                requirements,
                size,
                k,
                p,
            );
            assert(candidates[q].id == ids@[k]);
        }
    }
}

proof fn lemma_ranking_len(
    order: Seq<int>,
    candidates: Seq<Candidate<u64>>,
    requirements: JobRequirements,
)
    requires
        crate::capabilities::is_ranking(order, candidates, requirements),
    ensures
        order.len() == crate::capabilities::eligible_count(candidates, requirements),
    decreases candidates.len(),
{
    if candidates.len() == 0 {
        if order.len() > 0 {
            assert(0 <= order[0] < candidates.len());
        }
    } else {
        let n = candidates.len() - 1;
        let less = candidates.drop_last();
        if crate::capabilities::capable(candidates[n].capabilities, requirements) {
            assert(order.contains(n));
            let at = choose|at: int| 0 <= at < order.len() && order[at] == n;
            let few = order.remove(at);
            assert forall|i: int| 0 <= i < few.len() implies 0 <= #[trigger] few[i] < less.len()
                && crate::capabilities::capable(less[few[i]].capabilities, requirements) by {
                let k = if i < at {
                    i
                } else {
                    i + 1
                };
                assert(few[i] == order[k]);
                if k < at {
                    crate::capabilities::law_committee_is_ranked(
                        order,
                        candidates,
                        requirements,
                        k,
                        at,
                    );
                } else {
                    crate::capabilities::law_committee_is_ranked(
                        order,
                        candidates,
                        requirements,
                        at,
                        k,
                    );
                }
            }
            assert forall|p: int| 0 <= p < less.len() && crate::capabilities::capable(
                (#[trigger] less[p]).capabilities,
                requirements,
            ) implies few.contains(p) by {
                assert(less[p] == candidates[p]);
                assert(order.contains(p));
                let k = choose|k: int| 0 <= k < order.len() && order[k] == p;
                assert(few[if k < at { k } else { k - 1 }] == p);
            }
            assert forall|i: int, j: int|
                0 <= i < j < few.len() implies crate::capabilities::ranks_before(
                less,
                #[trigger] few[i],
                #[trigger] few[j],
            ) by {
                let a = if i < at { i } else { i + 1 };
                let b = if j < at { j } else { j + 1 };
                assert(few[i] == order[a] && few[j] == order[b]);
                assert(crate::capabilities::ranks_before(candidates, order[a], order[b]));
            }
            lemma_ranking_len(few, less, requirements);
        } else {
            assert forall|i: int| 0 <= i < order.len() implies 0 <= #[trigger] order[i]
                < less.len() && crate::capabilities::capable(
                less[order[i]].capabilities,
                requirements,
            ) by {}
            assert forall|p: int| 0 <= p < less.len() && crate::capabilities::capable(
                (#[trigger] less[p]).capabilities,
                requirements,
            ) implies order.contains(p) by {
                assert(less[p] == candidates[p]);
            }
            assert forall|i: int, j: int|
                0 <= i < j < order.len() implies crate::capabilities::ranks_before(
                less,
                #[trigger] order[i],
                #[trigger] order[j],
            ) by {
                assert(crate::capabilities::ranks_before(candidates, order[i], order[j]));
            }
            lemma_ranking_len(order, less, requirements);
        }
    }
}

/// On a definite outcome every dissenter of a job pays what its stake makes it owe,
/// and who agrees keeps everything; on any other outcome, or where slashing is
/// off, nobody pays.
pub proof fn law_settlement_slashes_the_dissenters<F: Fn(Weight) -> Weight>(
    t: Tally,
    atts: Seq<Attestation>,
    before: Map<u64, u64>,
    slashing: bool,
    amount_of: F,
    after: Map<u64, u64>,
    events: Seq<SlashEvent>,
    i: int,
)
    requires
        is_settled(t, atts, before, slashing, amount_of, after, events),
        0 <= i < atts.len(),
        before.contains_key(atts[i].runner_id),
        forall|j: int|
            0 <= j < atts.len() && j != i ==> (#[trigger] atts[j]).runner_id
                != atts[i].runner_id,
    ensures
        after.contains_key(atts[i].runner_id),
        slashing && (t.outcome == Outcome::Pass || t.outcome == Outcome::Fail)
            && atts[i].artifact_hash@ != t.consensus_artifact@ ==> exists|amount: u64|
            {
                &&& #[trigger] call_ensures(amount_of, (before[atts[i].runner_id],), amount)
                &&& after[atts[i].runner_id] == (if amount <= before[atts[i].runner_id] {
                    before[atts[i].runner_id] - amount
                } else {
                    0
                })
                &&& amount > 0 ==> exists|k: int|
                    0 <= k < events.len() && (#[trigger] events[k]).runner_id
                        == atts[i].runner_id && events[k].stake_after
                        == after[atts[i].runner_id]
            },
        !slashing || t.outcome == Outcome::Retry || t.outcome == Outcome::Escalate
            || atts[i].artifact_hash@ == t.consensus_artifact@ ==> after[atts[i].runner_id]
            == before[atts[i].runner_id],
{
    if slashing && is_definite(t.outcome) {
        let consensus = t.consensus_artifact@;
        let amounts = choose|amounts: Seq<u64>|
            {
                &&& amounts.len() == atts.len()
                &&& forall|i: int|
                    0 <= i < amounts.len() ==> crate::stake_ledger::amount_is_owed(
                        amount_of,
                        crate::stake_ledger::slash_run(
                            before,
                            t.consensus_artifact@,
                            atts.take(i),
                            amounts.take(i),
                        ).stakes,
                        atts[i],
                        t.consensus_artifact@,
                        #[trigger] amounts[i],
                    )
                &&& (crate::stake_ledger::SlashRun { stakes: after, events })
                    == #[trigger] crate::stake_ledger::slash_run(
                    before,
                    t.consensus_artifact@,
                    atts,
                    amounts,
                )
            };
        let id = atts[i].runner_id;
        crate::stake_ledger::law_stakes_never_grow(before, consensus, atts, amounts, id);
        let amount = amounts[i];
        if atts[i].artifact_hash@ != consensus {
            crate::stake_ledger::law_dissenter_owes_by_its_stake(
                amount_of,
                before,
                consensus,
                atts,
                amounts,
                i,
            );
            assert(call_ensures(amount_of, (before[id],), amount));
            if amount > 0 {
                crate::stake_ledger::law_every_dissenter_pays(
                    before,
                    consensus,
                    atts,
                    amounts,
                    i,
                );
            } else {
                lemma_unowed_is_untouched(before, consensus, atts, amounts, i);
            }
        } else {
            assert forall|j: int| 0 <= j < atts.len() && (#[trigger] atts[j]).runner_id
                == id implies atts[j].artifact_hash@ == consensus by {}
            crate::stake_ledger::law_majority_is_untouched(before, consensus, atts, amounts, id);
        }
    }
}

proof fn lemma_unowed_is_untouched(
    stakes: Map<u64, u64>,
    consensus: Seq<u8>,
    atts: Seq<Attestation>,
    amounts: Seq<u64>,
    i: int,
)
    requires
        atts.len() == amounts.len(),
        0 <= i < atts.len(),
        stakes.contains_key(atts[i].runner_id),
        forall|j: int|
            0 <= j < atts.len() && j != i ==> (#[trigger] atts[j]).runner_id
                != atts[i].runner_id,
        amounts[i] == 0,
    ensures
        crate::stake_ledger::slash_run(stakes, consensus, atts, amounts).stakes[atts[i].runner_id]
            == stakes[atts[i].runner_id],
    decreases atts.len(),
{
    let n = atts.len() - 1;
    let (less, few) = (atts.drop_last(), amounts.drop_last());
    let id = atts[i].runner_id;
    if i < n {
        assert(less[i] == atts[i]);
        assert forall|j: int| 0 <= j < less.len() && j != i implies (
        #[trigger] less[j]).runner_id != less[i].runner_id by {
            assert(less[j] == atts[j]);
        }
        lemma_unowed_is_untouched(stakes, consensus, less, few, i);
        assert(atts[n].runner_id != id);
    } else {
        assert forall|j: int| 0 <= j < less.len() && (#[trigger] less[j]).runner_id
            == id implies less[j].artifact_hash@ == consensus by {
            assert(less[j] == atts[j]);
        }
        crate::stake_ledger::law_majority_is_untouched(stakes, consensus, less, few, id);
    }
}

/// A claim counts with its output exactly if it is one for this job and its proof
/// holds; otherwise what is wrong with it is said.
pub proof fn law_claim_is_judged(job_id: u64, runner: Runner, reply: Envelope)
    ensures
        claim_of(job_id, runner, reply) is NotAClaim <==> !(reply is VrfClaim),
        reply matches Envelope::VrfClaim { job_id: id, vrf_output, vrf_proof } ==> {
            let proved = vrf::verify_result(
                runner.vrf_pk@,
                seed_of(job_id),
                vrf_output@,
                vrf_proof@,
            );
            &&& id != job_id ==> claim_of(job_id, runner, reply) == ClaimVerdict::OtherJob(id)
            &&& id == job_id && proved is Ok ==> claim_of(job_id, runner, reply)
                == ClaimVerdict::Counted(vrf_output)
            &&& id == job_id && proved is Err ==> claim_of(job_id, runner, reply)
                == ClaimVerdict::ProofRejected(proved->Err_0)
        },
{
}

/// A record holds its job: the number, the attestations, the artifact, the place in
/// the log, and a hash of the pipeline that tells it from every other one.
pub proof fn law_record_holds_the_job(
    rec: JobRecord,
    job_id: u64,
    pipeline: Pipeline,
    atts: Seq<Attestation>,
    artifact: [u8; 32],
    position: int,
    other: JobRecord,
    other_pipeline: Pipeline,
    i: int,
)
    requires
        is_record_of(rec, job_id, pipeline, atts, artifact, position),
        is_record_of(other, job_id, other_pipeline, atts, artifact, position),
    ensures
        rec.job_id == job_id,
        rec.committee_attestations@ == atts,
        rec.consensus_artifact == artifact,
        rec.log_position == position,
        rec.log_length_at_anchor == position + 1,
        rec.pipeline_hash@ == other.pipeline_hash@ ==> {
            ||| exists|x: Seq<u8>, y: Seq<u8>|
                x != y && #[trigger] crate::boundary::merkle::leaf_hash_of(x)
                    == #[trigger] crate::boundary::merkle::leaf_hash_of(y)
            ||| exists|x: crate::cbor::Item, y: crate::cbor::Item|
                x != y && #[trigger] crate::boundary::cbor::encoding_of(x)
                    == #[trigger] crate::boundary::cbor::encoding_of(y)
            ||| {
                &&& pipeline.steps@.len() == other_pipeline.steps@.len()
                &&& 0 <= i < pipeline.steps@.len() ==> crate::jobs::steps_alike(
                    pipeline.steps@[i],
                    other_pipeline.steps@[i],
                )
            }
        },
{
    if rec.pipeline_hash@ == other.pipeline_hash@ {
        let (p, q) = (
            crate::jobs::pipeline_item(pipeline),
            crate::jobs::pipeline_item(other_pipeline),
        );
        let (x, y) = (
            crate::boundary::cbor::encoding_of(p),
            crate::boundary::cbor::encoding_of(q),
        );
        assert(crate::boundary::merkle::leaf_hash_of(x)
            == crate::boundary::merkle::leaf_hash_of(y));
        if x == y && p == q {
            crate::jobs::law_pipeline_document_carries_every_step(pipeline, other_pipeline, i);
        }
    }
}

} // verus!
