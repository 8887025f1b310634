//! The course of one job: what the coordinator sends and journals at each stage,
//! and what it waits for.
//!
//! A job is opened, and the fleet answers the seed with claims. It is assigned,
//! and the committee returns attestations. It is settled, and if it passed it is
//! anchored. What is journaled on the way tells after a crash where the job was
//! left.

use crate::capabilities::JobRequirements;
use crate::coordinator::job;
use crate::coordinator::job::{
    aggregated_entry, anchor, assign_message, choose_committee, seed_message, settle, tally,
    Collected, Shortfall, Tally,
};
use crate::coordinator::registration::Runner;
use crate::jobs::Pipeline;
use crate::journal;
use crate::journal::JournalEntry;
use crate::merkle_log::MerkleLog;
use crate::proto::Envelope;
use crate::quorum::{Outcome, Weight};
use crate::retrieval::JobRecord;
use crate::stake_ledger::{SlashEvent, StakeLedger};
use std::collections::HashMap;
use vstd::prelude::*;

verus! {

broadcast use vstd::std_specs::hash::group_hash_axioms;

// ── Opening ────────────────────────────────────────────────────────────────
/// What a job is opened with.
#[derive(Clone, Debug, PartialEq, Eq)]
pub struct Opening {
    /// To journal first.
    pub entry: JournalEntry,
    /// To send to the whole fleet.
    pub message: Envelope,
}

/// Whether a job is opened with this.
pub open spec fn is_opening(job_id: u64, o: Opening) -> bool {
    &&& o.entry@ == (journal::EntryFact::JobSubmitted { job_id })
    &&& o.message matches Envelope::JobSeed { job_id: id, seed } && id == job_id && seed@
        == job::seed_of(job_id)
}

/// Open a job.
#[must_use]
pub fn open_job(job_id: u64) -> (r: Opening)
    ensures
        is_opening(job_id, r),
{
    Opening { entry: JournalEntry::JobSubmitted { job_id }, message: seed_message(job_id) }
}

// ── Assigning ──────────────────────────────────────────────────────────────
/// What a job is assigned with.
#[derive(Clone, Debug, PartialEq, Eq)]
pub struct Assignment {
    /// Who runs it.
    pub committee: Vec<u64>,
    /// To journal before it is sent.
    pub entry: JournalEntry,
    /// To send to the committee.
    pub message: Envelope,
}

/// Whether a committee is journaled and sent a job like this.
pub open spec fn is_assignment(
    job_id: u64,
    pipeline: Pipeline,
    requirements: JobRequirements,
    now_unix_ns: i64,
    a: Assignment,
) -> bool {
    &&& a.entry@ == (journal::EntryFact::CommitteeSelected { job_id, committee: a.committee@ })
    &&& a.message == (Envelope::Assign {
        job_id,
        pipeline,
        requirements,
        deadline_unix_ns: (now_unix_ns + job::ASSIGNMENT_WINDOW_NS) as i64,
    })
}

/// Assign a job to the committee that the fleet's claims make.
///
/// # Errors
///
/// Where too few runners that can do the job made a claim that holds.
pub fn assign_job(
    job_id: u64,
    fleet: &[Runner],
    claims: &[Envelope],
    committee_size: usize,
    pipeline: Pipeline,
    requirements: JobRequirements,
    now_unix_ns: i64,
) -> (r: Result<Assignment, Shortfall>)
    requires
        claims@.len() == fleet@.len(),
        now_unix_ns <= i64::MAX - job::ASSIGNMENT_WINDOW_NS,
    ensures
        ({
            let candidates = job::candidates_for(job_id, fleet@, claims@);
            match r {
                Ok(a) => {
                    &&& job::is_selection(candidates, requirements, committee_size, Ok(a.committee))
                    &&& is_assignment(job_id, pipeline, requirements, now_unix_ns, a)
                },
                Err(short) => job::is_selection(
                    candidates,
                    requirements,
                    committee_size,
                    Err(short),
                ),
            }
        }),
{
    match choose_committee(job_id, fleet, claims, &requirements, committee_size) {
        Err(short) => Err(short),
        Ok(committee) => {
            let listed = committee.clone();
            assert(listed@ =~= committee@);
            let entry = JournalEntry::CommitteeSelected { job_id, committee: listed };
            let message = assign_message(job_id, pipeline, requirements, now_unix_ns);
            Ok(Assignment { committee, entry, message })
        },
    }
}

// ── Settling ───────────────────────────────────────────────────────────────
/// What becomes of a job.
#[derive(Clone, Debug, PartialEq, Eq)]
pub struct Settlement {
    /// How it was decided.
    pub tally: Tally,
    /// To journal, in this order.
    pub entries: Vec<JournalEntry>,
    /// Who was slashed.
    pub slashed: Vec<SlashEvent>,
}

/// What is journaled of the attestations of a job and their tally.
pub open spec fn settlement_facts(
    job_id: u64,
    received: Seq<u64>,
    t: Tally,
) -> Seq<journal::EntryFact> {
    received.map_values(
        |runner_id: u64| journal::EntryFact::AttestationReceived { job_id, runner_id },
    ).push(
        journal::EntryFact::Aggregated {
            job_id,
            outcome: job::journaled(t.outcome),
            artifact_hex: crate::text::hex_of(t.consensus_artifact@),
        },
    )
}

/// Settle a job: tally the attestations of its committee, and slash who dissents
/// from a definite outcome.
pub fn settle_job<F: Fn(Weight) -> Weight>(
    job_id: u64,
    committee: &[u64],
    collected: &Collected,
    ledger: &mut StakeLedger,
    slashing: bool,
    amount_of: F,
) -> (r: Settlement)
    requires
        job::stakes_fit(committee@, collected.attestations@, old(ledger)@),
        forall|w: u64| #[trigger] call_requires(amount_of, (w,)),
    ensures
        job::is_tally(r.tally, committee@, collected.attestations@, old(ledger)@),
        journal::facts(r.entries@) == settlement_facts(job_id, collected.received@, r.tally),
        job::is_settled(
            r.tally,
            collected.attestations@,
            old(ledger)@,
            slashing,
            amount_of,
            final(ledger)@,
            r.slashed@,
        ),
{
    let t = tally(committee, collected.attestations.as_slice(), ledger);
    let mut entries: Vec<JournalEntry> = Vec::new();
    let mut i: usize = 0;
    while i < collected.received.len()
        invariant
            i <= collected.received@.len(),
            entries@.len() == i,
            forall|k: int|
                0 <= k < i ==> (#[trigger] entries@[k])@ == (
                journal::EntryFact::AttestationReceived {
                    job_id,
                    runner_id: collected.received@[k],
                }),
        decreases collected.received@.len() - i,
    {
        let runner_id: u64 = collected.received[i];
        entries.push(JournalEntry::AttestationReceived { job_id, runner_id });
        i = i + 1;
    }
    entries.push(aggregated_entry(job_id, &t));
    assert(journal::facts(entries@) =~= settlement_facts(job_id, collected.received@, t));
    let slashed = settle(&t, collected.attestations.as_slice(), ledger, slashing, amount_of);
    Settlement { tally: t, entries, slashed }
}

// ── Anchoring ──────────────────────────────────────────────────────────────
/// Anchor a job that passed; returns what to journal. One that did not pass
/// leaves the log and the records as they are.
pub fn anchor_job(
    job_id: u64,
    pipeline: &Pipeline,
    collected: &Collected,
    t: &Tally,
    log: &mut MerkleLog,
    records: &mut HashMap<u64, JobRecord>,
) -> (r: Option<JournalEntry>)
    ensures
        t.outcome == Outcome::Pass ==> {
            &&& r matches Some(e) && e@ == (journal::EntryFact::Anchored {
                job_id,
                position: old(log)@.len() as u64,
            })
            &&& old(log)@.len() <= u64::MAX
            &&& final(log)@ == old(log)@.push(t.consensus_artifact)
            &&& final(records)@ == old(records)@.insert(job_id, final(records)@[job_id])
            &&& job::is_record_of(
                final(records)@[job_id],
                job_id,
                *pipeline,
                collected.attestations@,
                t.consensus_artifact,
                old(log)@.len() as int,
            )
        },
        t.outcome != Outcome::Pass ==> r is None && final(log)@ == old(log)@ && final(records)@
            == old(records)@,
{
    match t.outcome {
        Outcome::Pass => {
            let position: u64 = anchor(
                job_id,
                pipeline,
                &collected.attestations,
                t.consensus_artifact,
                log,
                records,
            );
            Some(JournalEntry::Anchored { job_id, position })
        },
        _ => None,
    }
}

// ── Laws ───────────────────────────────────────────────────────────────────
/// What a job that runs to its end journals is its trail: the submission, the
/// committee, the attestations received, the tally, and the anchor if it passed.
pub proof fn law_run_leaves_its_trail(
    job_id: u64,
    opening: Opening,
    pipeline: Pipeline,
    requirements: JobRequirements,
    now_unix_ns: i64,
    assigned: Assignment,
    received: Seq<u64>,
    settled: Settlement,
    position: u64,
)
    requires
        is_opening(job_id, opening),
        is_assignment(job_id, pipeline, requirements, now_unix_ns, assigned),
        journal::facts(settled.entries@) == settlement_facts(job_id, received, settled.tally),
    ensures
        ({
            let tallied = seq![opening.entry@, assigned.entry@] + journal::facts(settled.entries@);
            let outcome = job::journaled(settled.tally.outcome);
            let hex = crate::text::hex_of(settled.tally.consensus_artifact@);
            &&& tallied == job::trail_of(
                job_id,
                assigned.committee@,
                received,
                outcome,
                hex,
                None,
            )
            &&& tallied.push(journal::EntryFact::Anchored { job_id, position }) == job::trail_of(
                job_id,
                assigned.committee@,
                received,
                outcome,
                hex,
                Some(position),
            )
        }),
{
    let tallied = seq![opening.entry@, assigned.entry@] + journal::facts(settled.entries@);
    assert(tallied =~= job::trail_of(
        job_id,
        assigned.committee@,
        received,
        job::journaled(settled.tally.outcome),
        crate::text::hex_of(settled.tally.consensus_artifact@),
        None,
    ));
}

/// Nothing is anchored without a quorum: a job passes only if runners whose
/// attestations hold, with two thirds of the committee's stake or more, say so,
/// and those that say it failed have less.
pub proof fn law_passing_takes_a_quorum(
    t: Tally,
    committee: Seq<u64>,
    atts: Seq<crate::attestation::Attestation>,
    stakes: Map<u64, u64>,
)
    requires
        job::is_tally(t, committee, atts, stakes),
        t.outcome == Outcome::Pass,
    ensures
        3 * crate::quorum::weight_for(
            job::votes_of(atts),
            stakes,
            crate::quorum::VoteResult::Pass,
        ) >= 2 * job::committee_stake(committee, stakes),
        3 * crate::quorum::weight_for(
            job::votes_of(atts),
            stakes,
            crate::quorum::VoteResult::Fail,
        ) < 2 * job::committee_stake(committee, stakes),
{
}

} // verus!
