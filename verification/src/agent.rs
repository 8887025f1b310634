//! The agent: how it registers, what it answers to each message, and what it
//! attests.

use crate::attestation::{Attestation, AttestationResult};
use crate::bytes;
use crate::capabilities::{
    select_capability_aware_committee, Candidate, Capabilities, JobRequirements, Platform, Runtime,
    RuntimeSet,
};
use crate::jobs::{CapturedOutput, Pipeline};
use crate::proto::{registration_challenge, AttestationBundle, Envelope};
use crate::signing::Keypair;
use crate::vrf;
use crate::vrf::VrfKeypair;
use vstd::prelude::*;

verus! {

/// Commit that an attestation names.
pub open spec fn commit_bytes() -> Seq<u8> {
    Seq::new(32, |i: int| 0x42u8)
}

/// Environment that an attestation names.
pub open spec fn environment_bytes() -> Seq<u8> {
    Seq::new(32, |i: int| 0xeeu8)
}

/// A number in the first bytes, then a mark, then zeros.
pub open spec fn numbered_seed(id: u64, mark: u8) -> Seq<u8> {
    bytes::le_of(id as nat, 8) + seq![mark] + Seq::new(23, |i: int| 0u8)
}

fn make_seed(id: u64, mark: u8) -> (r: [u8; 32])
    ensures
        r@ == numbered_seed(id, mark),
{
    let mut number: Vec<u8> = Vec::new();
    bytes::append_le(&mut number, id as u128, 8);
    proof {
        bytes::law_le_round_trip(id as nat, 8);
    }
    let mut seed: [u8; 32] = [0u8; 32];
    let mut i: usize = 0;
    while i < 8
        invariant
            i <= 8,
            number@.len() == 8,
            forall|k: int| 0 <= k < i ==> seed@[k] == number@[k],
            forall|k: int| i <= k < 32 ==> seed@[k] == 0,
        decreases 8 - i,
    {
        let b: u8 = number[i];
        seed[i] = b;
        i = i + 1;
    }
    seed[8] = mark;
    assert(seed@ =~= numbered_seed(id, mark));
    seed
}

/// A job number as the job field of an attestation has it.
pub open spec fn uuid_of(id: u64) -> Seq<u8> {
    bytes::le_of(id as nat, 8) + Seq::new(8, |i: int| 0u8)
}

/// A job number as the job field of an attestation has it.
#[must_use]
pub fn u64_to_uuid(id: u64) -> (r: [u8; 16])
    ensures
        r@ == uuid_of(id),
{
    let mut number: Vec<u8> = Vec::new();
    bytes::append_le(&mut number, id as u128, 8);
    proof {
        bytes::law_le_round_trip(id as nat, 8);
    }
    let mut out: [u8; 16] = [0u8; 16];
    let mut i: usize = 0;
    while i < 8
        invariant
            i <= 8,
            number@.len() == 8,
            forall|k: int| 0 <= k < i ==> out@[k] == number@[k],
            forall|k: int| i <= k < 16 ==> out@[k] == 0,
        decreases 8 - i,
    {
        let b: u8 = number[i];
        out[i] = b;
        i = i + 1;
    }
    assert(out@ =~= uuid_of(id));
    out
}

/// An agent with its keys.
pub struct Agent {
    id: u64,
    stake: u64,
    signing: Keypair,
    vrf: VrfKeypair,
}

/// What an agent does on a message.
pub enum Action {
    /// Send this message.
    Reply(Envelope),
    /// Run this pipeline, and attest.
    Execute {
        /// Job to attest under.
        job_id: u64,
        /// What to run.
        pipeline: Pipeline,
        /// When the attestation is due.
        deadline_unix_ns: i64,
    },
    /// Stop.
    Stop,
    /// Go on.
    Ignore,
}

impl Agent {
    /// The agent's number.
    pub closed spec fn id(&self) -> u64 {
        self.id
    }

    /// The stake it commits.
    pub closed spec fn stake(&self) -> u64 {
        self.stake
    }

    /// The seed of its signing key.
    pub closed spec fn signing_seed(&self) -> Seq<u8> {
        self.signing@
    }

    /// The seed of its VRF key.
    pub closed spec fn vrf_seed(&self) -> Seq<u8> {
        self.vrf@
    }

    /// An agent whose keys follow from its number.
    #[must_use]
    pub fn new(id: u64, stake: u64) -> (r: Self)
        ensures
            r.id() == id,
            r.stake() == stake,
            r.signing_seed() == numbered_seed(id, 0),
            r.vrf_seed() == numbered_seed(id, 0xff),
    {
        Agent {
            id,
            stake,
            signing: Keypair::from_seed(make_seed(id, 0)),
            vrf: VrfKeypair::from_seed(make_seed(id, 0xff)),
        }
    }

    /// The agent's number.
    #[must_use]
    pub fn runner_id(&self) -> (r: u64)
        ensures
            r == self.id(),
    {
        self.id
    }

    /// The key that its attestations are verified with.
    #[must_use]
    pub fn signing_key(&self) -> (r: [u8; 32])
        ensures
            r@ == crate::boundary::ed25519::public_key_of(self.signing_seed()),
            crate::boundary::ed25519::is_public_key(r@),
    {
        self.signing.verifying_key().to_bytes()
    }

    /// The key that its VRF claims are verified with.
    #[must_use]
    pub fn vrf_key(&self) -> (r: [u8; 32])
        ensures
            r@ == crate::boundary::vrf::vrf_key_of(self.vrf_seed()),
    {
        self.vrf.public_key_bytes()
    }

    /// What the agent offers.
    #[must_use]
    pub fn capabilities() -> (r: Capabilities)
        ensures
            r.cpu == 4,
            r.memory_mb == 4096,
            r.platform == Platform::LinuxX86_64,
            r.runtimes@ == set![Runtime::Wasm],
    {
        let mut runtimes = RuntimeSet::new();
        runtimes.insert(Runtime::Wasm);
        Capabilities { cpu: 4, memory_mb: 4096, platform: Platform::LinuxX86_64, runtimes }
    }

    /// The message that registers the agent: its keys, a proof that it owns the
    /// VRF key, its stake and what it offers.
    #[must_use]
    pub fn register_message(&self) -> (r: Envelope)
        ensures
            is_registration(*self, r),
    {
        let (vrf_output, vrf_proof) = self.vrf.evaluate(registration_challenge());
        Envelope::Register {
            runner_id: self.id,
            signing_pubkey: self.signing_key(),
            vrf_pubkey: self.vrf_key(),
            vrf_output,
            vrf_proof,
            stake: self.stake,
            capabilities: Agent::capabilities(),
        }
    }

    /// What the agent does on a message: it answers a seed with its claim, runs
    /// what it is assigned, and stops when told to.
    #[must_use]
    pub fn react(&self, env: Envelope) -> (r: Action)
        ensures
            match env {
                Envelope::JobSeed { job_id, seed } => r matches Action::Reply(claim) && is_claim(
                    *self,
                    job_id,
                    seed@,
                    claim,
                ),
                Envelope::Assign { job_id, pipeline, deadline_unix_ns, .. } => r == (
                Action::Execute { job_id, pipeline, deadline_unix_ns }),
                Envelope::Shutdown => r == Action::Stop,
                _ => r == Action::Ignore,
            },
    {
        match env {
            Envelope::JobSeed { job_id, seed } => {
                let (vrf_output, vrf_proof) = self.vrf.evaluate(seed.as_slice());
                Action::Reply(Envelope::VrfClaim { job_id, vrf_output, vrf_proof })
            },
            Envelope::Assign { job_id, pipeline, deadline_unix_ns, .. } => {
                Action::Execute { job_id, pipeline, deadline_unix_ns }
            },
            Envelope::Shutdown => Action::Stop,
            _ => Action::Ignore,
        }
    }

    /// The message that attests to a job that ran: the artifact, signed, and
    /// beside it what was captured. The deadline stands in for the time, so that
    /// two runs of one job attest to the same.
    #[must_use]
    pub fn attest(
        &self,
        job_id: u64,
        deadline_unix_ns: i64,
        artifact_hash: [u8; 32],
        captures: Vec<CapturedOutput>,
    ) -> (r: Envelope)
        ensures
            is_attested(*self, job_id, deadline_unix_ns, artifact_hash, captures, r),
    {
        let commit: [u8; 32] = [0x42u8; 32];
        let environment_hash: [u8; 32] = [0xeeu8; 32];
        assert(commit@ =~= commit_bytes());
        assert(environment_hash@ =~= environment_bytes());
        let mut attestation = Attestation {
            version: Attestation::VERSION,
            job_id: u64_to_uuid(job_id),
            commit,
            runner_id: self.id,
            result: AttestationResult::Pass,
            environment_hash,
            artifact_hash,
            timestamp_unix_ns: deadline_unix_ns,
            signature: [0u8; 64],
        };
        attestation.sign_with(&self.signing);
        Envelope::SubmitAttestation(AttestationBundle { attestation, captures })
    }
}

/// Whether a message registers an agent.
pub open spec fn is_registration(a: Agent, env: Envelope) -> bool {
    env matches Envelope::Register {
        runner_id,
        signing_pubkey,
        vrf_pubkey,
        vrf_output,
        vrf_proof,
        stake,
        capabilities,
    } && {
        &&& runner_id == a.id()
        &&& signing_pubkey@ == crate::boundary::ed25519::public_key_of(a.signing_seed())
        &&& crate::boundary::ed25519::is_public_key(signing_pubkey@)
        &&& vrf_pubkey@ == crate::boundary::vrf::vrf_key_of(a.vrf_seed())
        &&& vrf_output@ == vrf::output_of(a.vrf_seed(), crate::proto::challenge_bytes())
        &&& !crate::boundary::vrf::is_neutral_point(vrf_output@) ==> vrf::verify_result(
            vrf_pubkey@,
            crate::proto::challenge_bytes(),
            vrf_output@,
            vrf_proof@,
        ) is Ok
        &&& stake == a.stake()
        &&& capabilities.cpu == 4
        &&& capabilities.memory_mb == 4096
        &&& capabilities.platform == Platform::LinuxX86_64
        &&& capabilities.runtimes@ == set![Runtime::Wasm]
    }
}

/// Whether a message is an agent's claim on a seed.
pub open spec fn is_claim(a: Agent, job_id: u64, seed: Seq<u8>, env: Envelope) -> bool {
    env matches Envelope::VrfClaim { job_id: id, vrf_output, vrf_proof } && {
        &&& id == job_id
        &&& vrf_output@ == vrf::output_of(a.vrf_seed(), seed)
        &&& !crate::boundary::vrf::is_neutral_point(vrf_output@) ==> vrf::verify_result(
            crate::boundary::vrf::vrf_key_of(a.vrf_seed()),
            seed,
            vrf_output@,
            vrf_proof@,
        ) is Ok
    }
}

/// Whether a message attests to a job that an agent ran.
pub open spec fn is_attested(
    a: Agent,
    job_id: u64,
    deadline_unix_ns: i64,
    artifact_hash: [u8; 32],
    captures: Vec<CapturedOutput>,
    env: Envelope,
) -> bool {
    env matches Envelope::SubmitAttestation(b) && {
        &&& b.captures == captures
        &&& b.attestation.version == 1
        &&& b.attestation.job_id@ == uuid_of(job_id)
        &&& b.attestation.commit@ == commit_bytes()
        &&& b.attestation.runner_id == a.id()
        &&& b.attestation.result == AttestationResult::Pass
        &&& b.attestation.environment_hash@ == environment_bytes()
        &&& b.attestation.artifact_hash == artifact_hash
        &&& b.attestation.timestamp_unix_ns == deadline_unix_ns
        &&& b.attestation.signature@ == crate::boundary::ed25519::signature_of(
            a.signing_seed(),
            crate::attestation::canonical_of(b.attestation),
        )
        &&& !crate::boundary::ed25519::commits_to_identity(b.attestation.signature@)
            ==> crate::boundary::ed25519::signature_accepted(
            crate::boundary::ed25519::public_key_of(a.signing_seed()),
            crate::attestation::canonical_of(b.attestation),
            b.attestation.signature@,
        )
    }
}

/// Agents as candidates for a seed, alike in what they offer.
pub open spec fn are_candidates(
    candidates: Seq<Candidate<u64>>,
    agents: Seq<Agent>,
    seed: Seq<u8>,
) -> bool {
    &&& candidates.len() == agents.len()
    &&& forall|i: int|
        0 <= i < agents.len() ==> (#[trigger] candidates[i]).id == agents[i].id()
            && candidates[i].vrf_output@ == vrf::output_of(agents[i].vrf_seed(), seed)
}

/// Whether a list of places goes through all candidates by their VRF outputs.
pub open spec fn is_lottery(order: Seq<int>, candidates: Seq<Candidate<u64>>) -> bool {
    &&& order.len() == candidates.len()
    &&& forall|i: int| 0 <= i < order.len() ==> 0 <= #[trigger] order[i] < candidates.len()
    &&& forall|i: int, j: int|
        0 <= i < j < order.len() ==> crate::capabilities::ranks_before(
            candidates,
            #[trigger] order[i],
            #[trigger] order[j],
        )
}

/// The committee of a seed among agents that can all do the job: those with the
/// smallest VRF outputs, or all of them where there are no more than `k`.
#[must_use]
pub fn vrf_assign_committee(agents: &[Agent], seed: &[u8; 32], k: usize) -> (r: Vec<u64>)
    ensures
        exists|order: Seq<int>, candidates: Seq<Candidate<u64>>|
            are_candidates(candidates, agents@, seed@) && #[trigger] is_lottery(order, candidates)
                && r@ == crate::capabilities::ids_at(
                candidates,
                order.take(
                    if k <= agents@.len() {
                        k as int
                    } else {
                        agents@.len() as int
                    },
                ),
            ),
{
    let offer = Agent::capabilities();
    let mut candidates: Vec<Candidate<u64>> = Vec::new();
    let mut i: usize = 0;
    while i < agents.len()
        invariant
            i <= agents@.len(),
            candidates@.len() == i,
            forall|j: int|
                0 <= j < i ==> (#[trigger] candidates@[j]).id == agents@[j].id()
                    && candidates@[j].vrf_output@ == vrf::output_of(agents@[j].vrf_seed(), seed@)
                    && candidates@[j].capabilities == offer,
        decreases agents@.len() - i,
    {
        let (vrf_output, _) = agents[i].vrf.evaluate(seed.as_slice());
        candidates.push(Candidate { id: agents[i].id, capabilities: offer, vrf_output });
        i = i + 1;
    }
    let any = JobRequirements {
        cpu: 0,
        memory_mb: 0,
        platform: offer.platform,
        runtimes: RuntimeSet::new(),
    };
    let size: usize = if k <= agents.len() {
        k
    } else {
        agents.len()
    };
    proof {
        assert forall|j: int| 0 <= j < candidates@.len() implies crate::capabilities::capable(
            (#[trigger] candidates@[j]).capabilities,
            any,
        ) by {
            assert(any.runtimes@ =~= Set::<Runtime>::empty());
        }
        lemma_all_eligible(candidates@, any);
    }
    match select_capability_aware_committee(candidates.as_slice(), &any, size) {
        Some(ids) => {
            proof {
                let order = choose|order: Seq<int>| #[trigger]
                    crate::capabilities::is_ranking(order, candidates@, any) && ids@
                        == crate::capabilities::ids_at(candidates@, order.take(size as int));
                lemma_ranks_all(order, candidates@, any);
                assert(is_lottery(order, candidates@));
            }
            ids
        },
        None => Vec::new(),
    }
}

proof fn lemma_all_eligible(candidates: Seq<Candidate<u64>>, any: JobRequirements)
    requires
        forall|j: int|
            0 <= j < candidates.len() ==> crate::capabilities::capable(
                (#[trigger] candidates[j]).capabilities,
                any,
            ),
    ensures
        crate::capabilities::eligible_count(candidates, any) == candidates.len(),
    decreases candidates.len(),
{
    if candidates.len() > 0 {
        let less = candidates.drop_last();
        assert forall|j: int| 0 <= j < less.len() implies crate::capabilities::capable(
            (#[trigger] less[j]).capabilities,
            any,
        ) by {
            assert(less[j] == candidates[j]);
        }
        lemma_all_eligible(less, any);
        assert(crate::capabilities::capable(candidates[candidates.len() - 1].capabilities, any));
    }
}

proof fn lemma_ranks_all(order: Seq<int>, candidates: Seq<Candidate<u64>>, any: JobRequirements)
    requires
        crate::capabilities::is_ranking(order, candidates, any),
        forall|j: int|
            0 <= j < candidates.len() ==> crate::capabilities::capable(
                (#[trigger] candidates[j]).capabilities,
                any,
            ),
    ensures
        order.len() == candidates.len(),
{
    let all = Set::new(|p: int| 0 <= p < candidates.len());
    vstd::set_lib::lemma_int_range(0, candidates.len() as int);
    assert(all =~= vstd::set_lib::set_int_range(0, candidates.len() as int));
    assert(order.no_duplicates()) by {
        assert forall|i: int, j: int| 0 <= i < order.len() && 0 <= j < order.len() && i
            != j implies order[i] != order[j] by {
            let (a, b) = if i < j {
                (i, j)
            } else {
                (j, i)
            };
            assert(crate::capabilities::ranks_before(candidates, order[a], order[b]));
            bytes::lemma_lex_irreflexive(candidates[order[a]].vrf_output@);
        }
    }
    order.unique_seq_to_set();
    assert(order.to_set() =~= all) by {
        assert forall|p: int| order.to_set().contains(p) <==> all.contains(p) by {
            if all.contains(p) {
                assert(crate::capabilities::capable(candidates[p].capabilities, any));
                assert(order.contains(p));
            }
            if order.to_set().contains(p) {
                let i = choose|i: int| 0 <= i < order.len() && order[i] == p;
                assert(0 <= order[i] < candidates.len());
            }
        }
    }
}

// ── Laws ───────────────────────────────────────────────────────────────────
/// A coordinator without an enrollment list takes every agent that registers,
/// unless its VRF output is the neutral point.
pub proof fn law_agent_is_taken(
    a: Agent,
    env: Envelope,
    r: Result<crate::coordinator::registration::Runner, crate::coordinator::registration::Refusal>,
)
    requires
        is_registration(a, env),
        !crate::boundary::vrf::is_neutral_point(
            vrf::output_of(a.vrf_seed(), crate::proto::challenge_bytes()),
        ),
        crate::coordinator::registration::is_decision(env, None, r),
    ensures
        r is Ok,
        r->Ok_0.runner_id == a.id(),
        r->Ok_0.signing_pk@ == crate::boundary::ed25519::public_key_of(a.signing_seed()),
        r->Ok_0.vrf_pk@ == crate::boundary::vrf::vrf_key_of(a.vrf_seed()),
        r->Ok_0.stake == a.stake(),
{
}

/// A coordinator counts the claim of every agent it took, unless its VRF output
/// is the neutral point.
pub proof fn law_claim_of_agent_counts(
    a: Agent,
    runner: crate::coordinator::registration::Runner,
    job_id: u64,
    env: Envelope,
)
    requires
        runner.vrf_pk@ == crate::boundary::vrf::vrf_key_of(a.vrf_seed()),
        is_claim(a, job_id, crate::coordinator::job::seed_of(job_id), env),
        !crate::boundary::vrf::is_neutral_point(
            vrf::output_of(a.vrf_seed(), crate::coordinator::job::seed_of(job_id)),
        ),
    ensures
        crate::coordinator::job::claim_of(job_id, runner, env)
            is Counted,
{
}

/// A coordinator counts the attestation of every agent it took, unless the
/// signature commits to the identity.
pub proof fn law_attestation_of_agent_counts(
    a: Agent,
    runner: crate::coordinator::registration::Runner,
    job_id: u64,
    deadline_unix_ns: i64,
    artifact_hash: [u8; 32],
    captures: Vec<CapturedOutput>,
    env: Envelope,
)
    requires
        runner.signing_pk@ == crate::boundary::ed25519::public_key_of(a.signing_seed()),
        is_attested(a, job_id, deadline_unix_ns, artifact_hash, captures, env),
        env matches Envelope::SubmitAttestation(b)
            && !crate::boundary::ed25519::commits_to_identity(b.attestation.signature@),
    ensures
        crate::coordinator::job::attestation_in(runner, Some(env)) matches Some(att)
            && att.artifact_hash == artifact_hash && att.runner_id == a.id(),
{
}

/// What an agent offers is enough for a canned job.
pub proof fn law_agent_can_do_canned_jobs(offer: Capabilities, job: JobRequirements)
    requires
        offer.cpu == 4,
        offer.memory_mb == 4096,
        offer.platform == Platform::LinuxX86_64,
        offer.runtimes@ == set![Runtime::Wasm],
        job.cpu == 1,
        job.memory_mb == 256,
        job.platform == Platform::LinuxX86_64,
        job.runtimes@ == set![Runtime::Wasm],
    ensures
        crate::capabilities::capable(offer, job),
{
}

/// Different agents have different seeds, and an agent's two seeds differ.
pub proof fn law_seeds_of_agents_differ(a: u64, m: u8, b: u64, n: u8)
    requires
        numbered_seed(a, m) == numbered_seed(b, n),
    ensures
        a == b,
        m == n,
{
    let (s, t) = (numbered_seed(a, m), numbered_seed(b, n));
    bytes::law_le_round_trip(a as nat, 8);
    bytes::law_le_round_trip(b as nat, 8);
    lemma_eight_bytes();
    assert(s.take(8) =~= bytes::le_of(a as nat, 8));
    assert(t.take(8) =~= bytes::le_of(b as nat, 8));
    assert(s[8] == m && t[8] == n);
}

/// Different jobs have different identifiers.
pub proof fn law_job_identifiers_differ(a: u64, b: u64)
    requires
        uuid_of(a) == uuid_of(b),
    ensures
        a == b,
{
    bytes::law_le_round_trip(a as nat, 8);
    bytes::law_le_round_trip(b as nat, 8);
    lemma_eight_bytes();
    assert(uuid_of(a).take(8) =~= bytes::le_of(a as nat, 8));
    assert(uuid_of(b).take(8) =~= bytes::le_of(b as nat, 8));
}

proof fn lemma_eight_bytes()
    ensures
        vstd::arithmetic::power::pow(256, 8) == 0x1_0000_0000_0000_0000,
{
    reveal(vstd::arithmetic::power::pow);
    reveal_with_fuel(vstd::arithmetic::power::pow, 9);
}

/// A lottery ranks every agent once, and nobody stands before one with a smaller
/// output.
pub proof fn law_lottery_ranks_everyone(
    order: Seq<int>,
    candidates: Seq<Candidate<u64>>,
    agents: Seq<Agent>,
    seed: Seq<u8>,
    i: int,
    j: int,
)
    requires
        are_candidates(candidates, agents, seed),
        is_lottery(order, candidates),
        0 <= i < j < order.len(),
    ensures
        order.len() == agents.len(),
        order[i] != order[j],
        0 <= order[i] < agents.len() && 0 <= order[j] < agents.len(),
        !bytes::lex_less(
            vrf::output_of(agents[order[j]].vrf_seed(), seed),
            vrf::output_of(agents[order[i]].vrf_seed(), seed),
        ),
        candidates[order[i]].id == agents[order[i]].id(),
{
    assert(crate::capabilities::ranks_before(candidates, order[i], order[j]));
    let (x, y) = (candidates[order[i]].vrf_output@, candidates[order[j]].vrf_output@);
    bytes::lemma_lex_irreflexive(x);
    if bytes::lex_less(y, x) && bytes::lex_less(x, y) {
        bytes::lemma_lex_transitive(x, y, x);
    }
}

} // verus!
