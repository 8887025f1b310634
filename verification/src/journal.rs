//! Append-only job journal for crash recovery.
//!
//! Every externally visible transition of a job gets one line in the journal;
//! on restart the coordinator replays the journal to reconstruct what was in
//! flight.
//!
//! # File format
//!
//! Newline-delimited JSON, one [`JournalEntry`] per line. Lines are
//! `\n`-terminated; an unterminated trailing line is the trace of a crash in
//! the middle of a write and is skipped on replay.
//!
//! ```text
//! {"k":"JobSubmitted","job_id":42}
//! {"k":"CommitteeSelected","job_id":42,"committee":[2,4,5]}
//! {"k":"AttestationReceived","job_id":42,"runner_id":2}
//! {"k":"Aggregated","job_id":42,"outcome":"Pass","artifact_hex":"…"}
//! {"k":"Anchored","job_id":42,"position":137}
//! ```
//!
//! # Replay semantics
//!
//! - Jobs that were submitted or had a committee at the crash are run again
//!   from scratch.
//! - Jobs that were aggregated but not anchored are anchored on recovery.
//! - Jobs that were anchored are done.

use crate::boundary;
use crate::json;
use crate::json::{Json, JsonItem, Members};
use crate::maps::keys_of;
use crate::text;
use std::collections::{HashMap, HashSet};
use vstd::prelude::*;

verus! {

broadcast use vstd::std_specs::hash::group_hash_axioms;

/// Outcome of a job's quorum aggregation.
#[derive(Clone, Copy, Debug, PartialEq, Eq, Structural)]
pub enum JournalOutcome {
    /// Quorum agreed Pass.
    Pass,
    /// Quorum agreed Fail.
    Fail,
    /// Quorum couldn't reach a definitive outcome; needs review.
    Escalate,
    /// Job should be retried from scratch.
    Retry,
}

/// One state transition in a job's lifecycle.
#[derive(Clone, Debug, PartialEq, Eq)]
pub enum JournalEntry {
    /// Operator (or webhook) submitted a job. The earliest event for
    /// a given `job_id`.
    JobSubmitted {
        /// Job identifier.
        job_id: u64,
    },
    /// VRF round picked the committee.
    CommitteeSelected {
        /// Job identifier.
        job_id: u64,
        /// Runner IDs in the committee, in selection order.
        committee: Vec<u64>,
    },
    /// One committee member returned a (signature-valid) attestation. The
    /// attestation itself is not in the journal.
    AttestationReceived {
        /// Job identifier.
        job_id: u64,
        /// Runner who submitted.
        runner_id: u64,
    },
    /// Quorum aggregator produced a definitive outcome.
    Aggregated {
        /// Job identifier.
        job_id: u64,
        /// Outcome reached.
        outcome: JournalOutcome,
        /// Consensus artifact hash, lowercase hex.
        artifact_hex: String,
    },
    /// Consensus artifact appended to the Merkle log.
    Anchored {
        /// Job identifier.
        job_id: u64,
        /// 0-indexed log position.
        position: u64,
    },
}

/// What a journal entry says.
pub enum EntryFact {
    /// A job was submitted.
    JobSubmitted {
        /// Job identifier.
        job_id: u64,
    },
    /// A committee was picked.
    CommitteeSelected {
        /// Job identifier.
        job_id: u64,
        /// Runner IDs, in selection order.
        committee: Seq<u64>,
    },
    /// An attestation came in.
    AttestationReceived {
        /// Job identifier.
        job_id: u64,
        /// Runner who submitted.
        runner_id: u64,
    },
    /// An outcome was reached.
    Aggregated {
        /// Job identifier.
        job_id: u64,
        /// Outcome reached.
        outcome: JournalOutcome,
        /// Consensus artifact hash.
        artifact_hex: Seq<char>,
    },
    /// The artifact was anchored.
    Anchored {
        /// Job identifier.
        job_id: u64,
        /// Log position.
        position: u64,
    },
}

impl View for JournalEntry {
    type V = EntryFact;

    open spec fn view(&self) -> EntryFact {
        match *self {
            JournalEntry::JobSubmitted { job_id } => EntryFact::JobSubmitted { job_id },
            JournalEntry::CommitteeSelected { job_id, committee } => EntryFact::CommitteeSelected {
                job_id,
                committee: committee@,
            },
            JournalEntry::AttestationReceived { job_id, runner_id } => {
                EntryFact::AttestationReceived { job_id, runner_id }
            },
            JournalEntry::Aggregated { job_id, outcome, artifact_hex } => EntryFact::Aggregated {
                job_id,
                outcome,
                artifact_hex: artifact_hex@,
            },
            JournalEntry::Anchored { job_id, position } => EntryFact::Anchored {
                job_id,
                position,
            },
        }
    }
}

/// What a list of entries says.
pub open spec fn facts(entries: Seq<JournalEntry>) -> Seq<EntryFact> {
    entries.map_values(|e: JournalEntry| e@)
}

/// Per-job state derived from the journal up to some replay point.
#[derive(Clone, Debug, PartialEq, Eq)]
pub enum JobState {
    /// Submitted but no committee yet: run again from scratch.
    Submitted,
    /// Committee picked; some attestations may have been received
    /// but not yet aggregated. Run again from scratch.
    InFlight,
    /// Aggregated but not anchored: anchor on recovery.
    AggregatedNotAnchored {
        /// Outcome the aggregator reached.
        outcome: JournalOutcome,
        /// Hex-encoded consensus artifact.
        artifact_hex: String,
    },
    /// Fully anchored. Done.
    Anchored {
        /// Log position the artifact was anchored at.
        position: u64,
    },
}

/// How far a job is.
pub enum Progress {
    /// Submitted.
    Submitted,
    /// With a committee.
    InFlight,
    /// Aggregated but not anchored.
    AggregatedNotAnchored {
        /// Outcome reached.
        outcome: JournalOutcome,
        /// Consensus artifact hash.
        artifact_hex: Seq<char>,
    },
    /// Anchored.
    Anchored {
        /// Log position.
        position: u64,
    },
}

impl View for JobState {
    type V = Progress;

    open spec fn view(&self) -> Progress {
        match *self {
            JobState::Submitted => Progress::Submitted,
            JobState::InFlight => Progress::InFlight,
            JobState::AggregatedNotAnchored { outcome, artifact_hex } => {
                Progress::AggregatedNotAnchored { outcome, artifact_hex: artifact_hex@ }
            },
            JobState::Anchored { position } => Progress::Anchored { position },
        }
    }
}

/// Snapshot of journal-derived state.
#[derive(Clone, Debug, PartialEq, Eq)]
pub struct JournalState {
    /// Job → its current state.
    pub jobs: HashMap<u64, JobState>,
}

impl View for JournalState {
    type V = Map<u64, Progress>;

    open spec fn view(&self) -> Map<u64, Progress> {
        self.jobs@.map_values(|s: JobState| s@)
    }
}

/// The jobs of a state that are as far as `which` says.
pub open spec fn jobs_that(state: Map<u64, Progress>, which: spec_fn(Progress) -> bool) -> Set<
    u64,
> {
    state.dom().filter(|id: u64| which(state[id]))
}

/// Whether a job has to be anchored.
pub open spec fn must_anchor(p: Progress) -> bool {
    p is AggregatedNotAnchored
}

/// Whether a job has to be run again.
pub open spec fn must_run(p: Progress) -> bool {
    p is Submitted || p is InFlight
}

/// Whether a job is done.
pub open spec fn is_done(p: Progress) -> bool {
    p is Anchored
}

/// The state after one more entry.
pub open spec fn applied(state: Map<u64, Progress>, e: EntryFact) -> Map<u64, Progress> {
    match e {
        EntryFact::JobSubmitted { job_id } => state.insert(job_id, Progress::Submitted),
        EntryFact::CommitteeSelected { job_id, .. } => state.insert(job_id, Progress::InFlight),
        EntryFact::AttestationReceived { job_id, .. } => if state.dom().contains(job_id) {
            state
        } else {
            state.insert(job_id, Progress::InFlight)
        },
        EntryFact::Aggregated { job_id, outcome, artifact_hex } => state.insert(
            job_id,
            Progress::AggregatedNotAnchored { outcome, artifact_hex },
        ),
        EntryFact::Anchored { job_id, position } => state.insert(
            job_id,
            Progress::Anchored { position },
        ),
    }
}

/// The state after all entries, in order.
pub open spec fn state_of(entries: Seq<EntryFact>) -> Map<u64, Progress>
    decreases entries.len(),
{
    if entries.len() == 0 {
        Map::empty()
    } else {
        applied(state_of(entries.drop_last()), entries.last())
    }
}

impl Default for JournalState {
    fn default() -> (r: Self)
        ensures
            r@ == Map::<u64, Progress>::empty(),
    {
        Self::new()
    }
}

/// The kinds of jobs that recovery tells apart.
#[derive(Clone, Copy, Debug, PartialEq, Eq, Structural)]
enum Recovery {
    Anchor,
    Run,
    Nothing,
}

spec fn recovery_of(p: Progress) -> Recovery {
    match p {
        Progress::Submitted | Progress::InFlight => Recovery::Run,
        Progress::AggregatedNotAnchored { .. } => Recovery::Anchor,
        Progress::Anchored { .. } => Recovery::Nothing,
    }
}

impl JournalState {
    /// Empty state.
    #[must_use]
    pub fn new() -> (r: Self)
        ensures
            r@ == Map::<u64, Progress>::empty(),
    {
        let r = JournalState { jobs: HashMap::new() };
        assert(r@ =~= Map::<u64, Progress>::empty());
        r
    }

    fn jobs_with(&self, want: Recovery) -> (r: Vec<u64>)
        ensures
            r@.no_duplicates(),
            forall|id: u64|
                r@.contains(id) <==> self@.dom().contains(id) && recovery_of(self@[id]) == want,
    {
        let keys = keys_of(&self.jobs);
        let mut out: Vec<u64> = Vec::new();
        let mut i: usize = 0;
        while i < keys.len()
            invariant
                i <= keys.len(),
                keys@.no_duplicates(),
                keys@.to_set() == self.jobs@.dom(),
                out@.no_duplicates(),
                forall|id: u64| #[trigger]
                    out@.contains(id) <==> keys@.take(i as int).contains(id) && recovery_of(
                        self@[id],
                    ) == want,
            decreases keys.len() - i,
        {
            let id: u64 = keys[i];
            assert(keys@.to_set().contains(id));
            let found: Recovery = match self.jobs.get(&id) {
                Some(JobState::Submitted) | Some(JobState::InFlight) => Recovery::Run,
                Some(JobState::AggregatedNotAnchored { .. }) => Recovery::Anchor,
                _ => Recovery::Nothing,
            };
            assert(found == recovery_of(self@[id]));
            let ghost held = out@;
            let ghost seen = keys@.take(i as int);
            let ghost next = keys@.take(i + 1);
            proof {
                assert(!seen.contains(id)) by {
                    if seen.contains(id) {
                        let j = choose|j: int| 0 <= j < seen.len() && seen[j] == id;
                        assert(keys@[j] == keys@[i as int]);
                    }
                }
                assert(!held.contains(id));
                assert forall|x: u64| next.contains(x) <==> seen.contains(x) || x == id by {
                    crate::maps::lemma_take_next(keys@, i as int, x);
                }
            }
            if found == want {
                out.push(id);
                proof {
                    assert forall|x: u64| #[trigger] out@.contains(x) <==> held.contains(x) || x == id by {
                        crate::maps::lemma_take_next(out@, held.len() as int, x);
                        assert(out@.take(held.len() as int) =~= held);
                        assert(out@.take(held.len() as int + 1) =~= out@);
                    }
                }
            }
            assert forall|x: u64| #[trigger]
                out@.contains(x) <==> next.contains(x) && recovery_of(self@[x]) == want by {
                assert(held.contains(x) <==> seen.contains(x) && recovery_of(self@[x]) == want);
            }
            i = i + 1;
            assert(next =~= keys@.take(i as int));
        }
        proof {
            assert(keys@.take(i as int) =~= keys@);
            assert forall|id: u64| keys@.contains(id) <==> self@.dom().contains(id) by {
                assert(keys@.to_set().contains(id) <==> keys@.contains(id));
            }
        }
        out
    }

    /// The jobs that have to be anchored on startup, each once. Order is
    /// unspecified.
    #[must_use]
    pub fn pending_re_anchor(&self) -> (r: Vec<u64>)
        ensures
            r@.no_duplicates(),
            r@.to_set() == jobs_that(self@, |p: Progress| must_anchor(p)),
    {
        let r = self.jobs_with(Recovery::Anchor);
        assert(r@.to_set() =~= jobs_that(self@, |p: Progress| must_anchor(p)));
        r
    }

    /// The jobs that have to be run again from scratch, each once. Order is
    /// unspecified.
    #[must_use]
    pub fn pending_re_run(&self) -> (r: Vec<u64>)
        ensures
            r@.no_duplicates(),
            r@.to_set() == jobs_that(self@, |p: Progress| must_run(p)),
    {
        let r = self.jobs_with(Recovery::Run);
        assert(r@.to_set() =~= jobs_that(self@, |p: Progress| must_run(p)));
        r
    }

    /// The jobs that are fully anchored.
    #[must_use]
    pub fn anchored_jobs(&self) -> (r: HashSet<u64>)
        ensures
            r@ == jobs_that(self@, |p: Progress| is_done(p)),
    {
        let done = self.jobs_with(Recovery::Nothing);
        let mut out: HashSet<u64> = HashSet::new();
        let mut i: usize = 0;
        while i < done.len()
            invariant
                i <= done.len(),
                out@ == done@.take(i as int).to_set(),
            decreases done.len() - i,
        {
            out.insert(done[i]);
            proof {
                assert forall|x: u64| out@.contains(x) <==> done@.take(i + 1).contains(x) by {
                    crate::maps::lemma_take_next(done@, i as int, x);
                }
                assert(out@ =~= done@.take(i + 1).to_set());
            }
            i = i + 1;
        }
        proof {
            assert(done@.take(i as int) =~= done@);
            assert(out@ =~= jobs_that(self@, |p: Progress| is_done(p)));
        }
        out
    }

    fn put(&mut self, job_id: u64, s: JobState)
        ensures
            final(self)@ == old(self)@.insert(job_id, s@),
    {
        let ghost before = self@;
        self.jobs.insert(job_id, s);
        assert(self@ =~= before.insert(job_id, s@));
    }
}

/// Reconstruct journal state from a sequence of entries, processed in order.
/// Entries that are out of order (an `Anchored` for a job that never appeared
/// as submitted) are still applied, since the journal is append-only and
/// trusted.
#[must_use]
pub fn reconstruct_state(entries: &[JournalEntry]) -> (r: JournalState)
    ensures
        r@ == state_of(facts(entries@)),
{
    let mut state = JournalState::new();
    let ghost all = facts(entries@);
    let mut i: usize = 0;
    assert(all.take(0) =~= Seq::<EntryFact>::empty());
    while i < entries.len()
        invariant
            i <= entries.len(),
            all == facts(entries@),
            state@ == state_of(all.take(i as int)),
        decreases entries.len() - i,
    {
        assert(all.take(i + 1).drop_last() =~= all.take(i as int));
        assert(all.take(i + 1).last() == entries@[i as int]@);
        match &entries[i] {
            JournalEntry::JobSubmitted { job_id } => {
                state.put(*job_id, JobState::Submitted);
            },
            JournalEntry::CommitteeSelected { job_id, .. } => {
                state.put(*job_id, JobState::InFlight);
            },
            JournalEntry::AttestationReceived { job_id, .. } => {
                // Receiving an attestation does not move a known job; only
                // the aggregation does.
                if !state.jobs.contains_key(job_id) {
                    state.put(*job_id, JobState::InFlight);
                }
            },
            JournalEntry::Aggregated { job_id, outcome, artifact_hex } => {
                state.put(
                    *job_id,
                    JobState::AggregatedNotAnchored {
                        outcome: *outcome,
                        artifact_hex: artifact_hex.clone(),
                    },
                );
            },
            JournalEntry::Anchored { job_id, position } => {
                state.put(*job_id, JobState::Anchored { position: *position });
            },
        }
        i = i + 1;
    }
    assert(all.take(i as int) =~= all);
    state
}

// ── Lines ──────────────────────────────────────────────────────────────────
/// The name of an outcome in the file.
pub open spec fn outcome_name(o: JournalOutcome) -> Seq<char> {
    match o {
        JournalOutcome::Pass => "Pass"@,
        JournalOutcome::Fail => "Fail"@,
        JournalOutcome::Escalate => "Escalate"@,
        JournalOutcome::Retry => "Retry"@,
    }
}

/// The outcome of a name, if it is one.
pub open spec fn outcome_of(name: Option<Seq<char>>) -> Option<JournalOutcome> {
    match name {
        None => None,
        Some(s) => if s == "Pass"@ {
            Some(JournalOutcome::Pass)
        } else if s == "Fail"@ {
            Some(JournalOutcome::Fail)
        } else if s == "Escalate"@ {
            Some(JournalOutcome::Escalate)
        } else if s == "Retry"@ {
            Some(JournalOutcome::Retry)
        } else {
            None
        },
    }
}

fn name_outcome(o: JournalOutcome) -> (r: &'static str)
    ensures
        r@ == outcome_name(o),
{
    match o {
        JournalOutcome::Pass => "Pass",
        JournalOutcome::Fail => "Fail",
        JournalOutcome::Escalate => "Escalate",
        JournalOutcome::Retry => "Retry",
    }
}

/// The name of the outcome that a document writes: a string, or an object of one
/// member with that name and nothing in it.
pub open spec fn outcome_text(doc: Option<JsonItem>) -> Option<Seq<char>> {
    match doc {
        Some(JsonItem::Text(s)) => Some(s),
        Some(JsonItem::Object(m)) => if m.len() == 1 && is_nothing(m[0].1) {
            Some(m[0].0)
        } else {
            None
        },
        _ => None,
    }
}

/// Whether a document holds nothing: `null`, or an object without members.
pub open spec fn is_nothing(doc: JsonItem) -> bool {
    match doc {
        JsonItem::Null => true,
        JsonItem::Object(m) => m.len() == 0,
        _ => false,
    }
}

fn read_outcome_text(doc: &Json) -> (r: Option<&String>)
    ensures
        r is Some <==> outcome_text(Some(doc.item())) is Some,
        r matches Some(s) ==> outcome_text(Some(doc.item())) == Some(s@),
{
    match doc {
        Json::Text(s) => Some(s),
        Json::Object(m) => {
            proof {
                json::lemma_object_item(*m);
            }
            if m.len() != 1 {
                return None;
            }
            assert(doc.item()->Object_0[0] == (m@[0].0@, m@[0].1.item()));
            let nothing = match &m[0].1 {
                Json::Null => true,
                Json::Object(x) => x.len() == 0,
                _ => false,
            };
            if nothing {
                Some(&m[0].0)
            } else {
                None
            }
        },
        _ => None,
    }
}

fn read_outcome(doc: &Json) -> (r: Option<JournalOutcome>)
    ensures
        r == outcome_of(outcome_text(Some(doc.item()))),
{
    match read_outcome_text(doc) {
        None => None,
        Some(s) => if text::str_eq(s.as_str(), "Pass") {
            Some(JournalOutcome::Pass)
        } else if text::str_eq(s.as_str(), "Fail") {
            Some(JournalOutcome::Fail)
        } else if text::str_eq(s.as_str(), "Escalate") {
            Some(JournalOutcome::Escalate)
        } else if text::str_eq(s.as_str(), "Retry") {
            Some(JournalOutcome::Retry)
        } else {
            None
        },
    }
}

/// The document that stands for an entry: its tag under `k`, then its fields.
pub open spec fn entry_item(e: EntryFact) -> JsonItem {
    match e {
        EntryFact::JobSubmitted { job_id } => JsonItem::Object(
            seq![
                ("k"@, JsonItem::Text("JobSubmitted"@)),
                ("job_id"@, JsonItem::Uint(job_id as nat)),
            ],
        ),
        EntryFact::CommitteeSelected { job_id, committee } => JsonItem::Object(
            seq![
                ("k"@, JsonItem::Text("CommitteeSelected"@)),
                ("job_id"@, JsonItem::Uint(job_id as nat)),
                ("committee"@, json::uint_items(committee)),
            ],
        ),
        EntryFact::AttestationReceived { job_id, runner_id } => JsonItem::Object(
            seq![
                ("k"@, JsonItem::Text("AttestationReceived"@)),
                ("job_id"@, JsonItem::Uint(job_id as nat)),
                ("runner_id"@, JsonItem::Uint(runner_id as nat)),
            ],
        ),
        EntryFact::Aggregated { job_id, outcome, artifact_hex } => JsonItem::Object(
            seq![
                ("k"@, JsonItem::Text("Aggregated"@)),
                ("job_id"@, JsonItem::Uint(job_id as nat)),
                ("outcome"@, JsonItem::Text(outcome_name(outcome))),
                ("artifact_hex"@, JsonItem::Text(artifact_hex)),
            ],
        ),
        EntryFact::Anchored { job_id, position } => JsonItem::Object(
            seq![
                ("k"@, JsonItem::Text("Anchored"@)),
                ("job_id"@, JsonItem::Uint(job_id as nat)),
                ("position"@, JsonItem::Uint(position as nat)),
            ],
        ),
    }
}

/// The number under a name, or at a place, if the document holds one of 64 bits
/// there.
pub open spec fn number_at(doc: JsonItem, name: Seq<char>, place: int) -> Option<u64> {
    match json::uint_of(json::part_of(doc, name, place)) {
        Some(n) => if n <= u64::MAX {
            Some(n as u64)
        } else {
            None
        },
        None => None,
    }
}

/// How many elements an entry with this tag has where it is an array.
pub open spec fn places(k: Seq<char>) -> int {
    if k == "JobSubmitted"@ {
        2
    } else if k == "Aggregated"@ {
        4
    } else {
        3
    }
}

/// The entry that a document stands for, if it is one: an object that has the
/// tag and each field once, or an array of the tag and the fields in order.
/// Members that the entry does not have are ignored.
pub open spec fn entry_of(doc: JsonItem) -> Option<EntryFact> {
    let k = json::text_of(json::part_of(doc, "k"@, 0));
    match (k, number_at(doc, "job_id"@, 1)) {
        (Some(k), Some(job_id)) => if !json::fits(doc, places(k)) {
            None
        } else if k == "JobSubmitted"@ {
            Some(EntryFact::JobSubmitted { job_id })
        } else if k == "CommitteeSelected"@ {
            match json::uints_of(json::part_of(doc, "committee"@, 2)) {
                Some(committee) => Some(EntryFact::CommitteeSelected { job_id, committee }),
                None => None,
            }
        } else if k == "AttestationReceived"@ {
            match number_at(doc, "runner_id"@, 2) {
                Some(runner_id) => Some(EntryFact::AttestationReceived { job_id, runner_id }),
                None => None,
            }
        } else if k == "Aggregated"@ {
            match (
                outcome_of(outcome_text(json::part_of(doc, "outcome"@, 2))),
                json::text_of(json::part_of(doc, "artifact_hex"@, 3)),
            ) {
                (Some(outcome), Some(artifact_hex)) => Some(
                    EntryFact::Aggregated { job_id, outcome, artifact_hex },
                ),
                _ => None,
            }
        } else if k == "Anchored"@ {
            match number_at(doc, "position"@, 2) {
                Some(position) => Some(EntryFact::Anchored { job_id, position }),
                None => None,
            }
        } else {
            None
        },
        _ => None,
    }
}

fn read_number(doc: &Json, name: &str, place: usize) -> (r: Option<u64>)
    ensures
        r == number_at(doc.item(), name@, place as int),
{
    match doc.part(name, place) {
        Some(x) => x.as_uint(),
        None => None,
    }
}

fn read_text<'a>(doc: &'a Json, name: &str, place: usize) -> (r: Option<&'a String>)
    ensures
        r is Some <==> json::text_of(json::part_of(doc.item(), name@, place as int)) is Some,
        r matches Some(s) ==> json::text_of(json::part_of(doc.item(), name@, place as int))
            == Some(s@),
{
    match doc.part(name, place) {
        Some(x) => x.as_text(),
        None => None,
    }
}

/// The entry that a document stands for, if it is one.
fn read_entry(doc: &Json) -> (r: Option<JournalEntry>)
    ensures
        match r {
            Some(e) => entry_of(doc.item()) == Some(e@),
            None => entry_of(doc.item()) is None,
        },
{
    let k: &String = match read_text(doc, "k", 0) {
        Some(k) => k,
        None => return None,
    };
    let job_id: u64 = match read_number(doc, "job_id", 1) {
        Some(n) => n,
        None => return None,
    };
    let n: usize = if text::str_eq(k.as_str(), "JobSubmitted") {
        2
    } else if text::str_eq(k.as_str(), "Aggregated") {
        4
    } else {
        3
    };
    if !doc.fits(n) {
        return None;
    }
    if text::str_eq(k.as_str(), "JobSubmitted") {
        Some(JournalEntry::JobSubmitted { job_id })
    } else if text::str_eq(k.as_str(), "CommitteeSelected") {
        match doc.part("committee", 2) {
            Some(x) => match x.as_uints() {
                Some(committee) => Some(JournalEntry::CommitteeSelected { job_id, committee }),
                None => None,
            },
            None => None,
        }
    } else if text::str_eq(k.as_str(), "AttestationReceived") {
        match read_number(doc, "runner_id", 2) {
            Some(runner_id) => Some(JournalEntry::AttestationReceived { job_id, runner_id }),
            None => None,
        }
    } else if text::str_eq(k.as_str(), "Aggregated") {
        match (doc.part("outcome", 2), read_text(doc, "artifact_hex", 3)) {
            (Some(x), Some(artifact_hex)) => match read_outcome(x) {
                Some(outcome) => Some(
                    JournalEntry::Aggregated { job_id, outcome, artifact_hex: artifact_hex.clone() },
                ),
                None => None,
            },
            _ => None,
        }
    } else if text::str_eq(k.as_str(), "Anchored") {
        match read_number(doc, "position", 2) {
            Some(position) => Some(JournalEntry::Anchored { job_id, position }),
            None => None,
        }
    } else {
        None
    }
}

/// Whether a line, without its line feed, is the line of an entry: one object
/// on one line that reads back as the entry's document.
pub open spec fn writes(line: Seq<char>, e: EntryFact) -> bool {
    &&& line.len() >= 2
    &&& line[0] == '{'
    &&& line.last() == '}'
    &&& !line.contains('\n')
    &&& boundary::json::members_of(vstd::utf8::encode_utf8(line)) == Ok::<JsonItem, Seq<char>>(
        entry_item(e),
    )
}

proof fn lemma_entry_item_is_flat(e: EntryFact)
    ensures
        json::is_flat(entry_item(e)),
{
    reveal_strlit("k");
    reveal_strlit("job_id");
    reveal_strlit("committee");
    reveal_strlit("runner_id");
    reveal_strlit("outcome");
    reveal_strlit("artifact_hex");
    reveal_strlit("position");
    assert("k"@.len() == 1);
    assert("job_id"@.len() == 6);
    assert("committee"@.len() == 9 && "committee"@[0] == 'c');
    assert("runner_id"@.len() == 9);
    assert("outcome"@.len() == 7);
    assert("artifact_hex"@.len() == 12);
    assert("position"@.len() == 8);
}

proof fn lemma_entry_reads_back(e: EntryFact)
    ensures
        entry_of(entry_item(e)) == Some(e),
{
    reveal_strlit("k");
    reveal_strlit("job_id");
    reveal_strlit("committee");
    reveal_strlit("runner_id");
    reveal_strlit("outcome");
    reveal_strlit("artifact_hex");
    reveal_strlit("position");
    reveal_strlit("JobSubmitted");
    reveal_strlit("CommitteeSelected");
    reveal_strlit("AttestationReceived");
    reveal_strlit("Aggregated");
    reveal_strlit("Anchored");
    reveal_strlit("Pass");
    reveal_strlit("Fail");
    reveal_strlit("Escalate");
    reveal_strlit("Retry");
    assert("Pass"@[0] == 'P' && "Fail"@[0] == 'F');
    assert("k"@.len() == 1 && "job_id"@.len() == 6 && "committee"@.len() == 9
        && "runner_id"@.len() == 9 && "outcome"@.len() == 7 && "artifact_hex"@.len() == 12
        && "position"@.len() == 8);
    assert("Pass"@.len() == 4 && "Fail"@.len() == 4 && "Escalate"@.len() == 8 && "Retry"@.len()
        == 5);
    assert("JobSubmitted"@.len() == 12 && "CommitteeSelected"@.len() == 17
        && "AttestationReceived"@.len() == 19 && "Aggregated"@.len() == 10 && "Anchored"@.len()
        == 8);
    assert("committee"@[0] == 'c' && "runner_id"@[0] == 'r');
    let doc = entry_item(e);
    let m = doc->Object_0;
    json::lemma_sole(m, "k"@, 0);
    json::lemma_sole(m, "job_id"@, 1);
    match e {
        EntryFact::CommitteeSelected { committee, .. } => {
            json::lemma_sole(m, "committee"@, 2);
            assert(json::uints_of(Some(json::uint_items(committee)))->0 =~= committee);
        },
        EntryFact::AttestationReceived { .. } => {
            json::lemma_sole(m, "runner_id"@, 2);
        },
        EntryFact::Aggregated { outcome, .. } => {
            json::lemma_sole(m, "outcome"@, 2);
            json::lemma_sole(m, "artifact_hex"@, 3);
            assert(outcome_of(Some(outcome_name(outcome))) == Some(outcome));
        },
        EntryFact::Anchored { .. } => {
            json::lemma_sole(m, "position"@, 2);
        },
        _ => {},
    }
}

fn entry_doc(e: &JournalEntry) -> (r: Json)
    ensures
        r.item() == entry_item(e@),
{
    let start = Members::new();
    let r = match e {
        JournalEntry::JobSubmitted { job_id } => start.with("k", json::text("JobSubmitted")).with(
            "job_id",
            Json::Uint(*job_id),
        ).done(),
        JournalEntry::CommitteeSelected { job_id, committee } => start.with(
            "k",
            json::text("CommitteeSelected"),
        ).with("job_id", Json::Uint(*job_id)).with("committee", json::uints(committee)).done(),
        JournalEntry::AttestationReceived { job_id, runner_id } => start.with(
            "k",
            json::text("AttestationReceived"),
        ).with("job_id", Json::Uint(*job_id)).with("runner_id", Json::Uint(*runner_id)).done(),
        JournalEntry::Aggregated { job_id, outcome, artifact_hex } => start.with(
            "k",
            json::text("Aggregated"),
        ).with("job_id", Json::Uint(*job_id)).with(
            "outcome",
            json::text(name_outcome(*outcome)),
        ).with("artifact_hex", json::text(artifact_hex.as_str())).done(),
        JournalEntry::Anchored { job_id, position } => start.with(
            "k",
            json::text("Anchored"),
        ).with("job_id", Json::Uint(*job_id)).with("position", Json::Uint(*position)).done(),
    };
    assert(r.item()->Object_0 =~= entry_item(e@)->Object_0);
    r
}

/// The line that an entry appends to the journal, with its line feed.
#[must_use]
pub fn entry_line(entry: &JournalEntry) -> (r: String)
    ensures
        r@ == boundary::json::json_text_of(entry_item(entry@)).push('\n'),
        writes(r@.drop_last(), entry@),
{
    let doc = entry_doc(entry);
    proof {
        lemma_entry_item_is_flat(entry@);
    }
    let mut line = boundary::json::print(&doc);
    let ghost held = line@;
    line.push('\n');
    assert(line@.drop_last() =~= held);
    line
}

/// The entry of a line, if it holds one.
pub open spec fn line_entry(line: Seq<char>) -> Option<EntryFact> {
    let t = text::trimmed(line);
    if t.len() == 0 {
        None
    } else {
        match boundary::json::members_of(vstd::utf8::encode_utf8(t)) {
            Ok(doc) => entry_of(doc),
            Err(_) => None,
        }
    }
}

/// The entries of the lines that hold one, in order.
pub open spec fn entries_of(lines: Seq<Seq<char>>) -> Seq<EntryFact>
    decreases lines.len(),
{
    if lines.len() == 0 {
        Seq::empty()
    } else {
        match line_entry(lines.last()) {
            Some(e) => entries_of(lines.drop_last()).push(e),
            None => entries_of(lines.drop_last()),
        }
    }
}

/// The entries of a journal: those of its whole lines, in order.
pub open spec fn journal_of(file: Seq<char>) -> Seq<EntryFact> {
    entries_of(text::lines_of(text::whole_lines(file)))
}

/// Replay a journal, returning every entry in append order. Blank lines, lines
/// that hold no entry, and what a crashed write left after the last line feed
/// are skipped.
#[must_use]
pub fn replay(file: &str) -> (r: Vec<JournalEntry>)
    ensures
        facts(r@) == journal_of(file@),
{
    let chars = text::chars_of(file);
    let whole = text::keep_whole_lines(chars.as_slice());
    let all = text::lines(whole.as_slice());
    let mut out: Vec<JournalEntry> = Vec::new();
    let mut i: usize = 0;
    assert(text::texts(all@).take(0) =~= Seq::<Seq<char>>::empty());
    assert(facts(out@) =~= Seq::<EntryFact>::empty());
    while i < all.len()
        invariant
            i <= all.len(),
            facts(out@) == entries_of(text::texts(all@).take(i as int)),
        decreases all.len() - i,
    {
        let t = text::trim(all[i].as_slice());
        let ghost held = facts(out@);
        assert(text::texts(all@).take(i + 1).drop_last() =~= text::texts(all@).take(i as int));
        assert(text::texts(all@)[i as int] == all@[i as int]@);
        if t.len() > 0 {
            let s = text::string_of(t.as_slice());
            if let Ok(doc) = boundary::json::parse_members(s.as_str().as_bytes()) {
                if let Some(e) = read_entry(&doc) {
                    let ghost ev = e@;
                    out.push(e);
                    assert(facts(out@) =~= held.push(ev));
                }
            }
        }
        i = i + 1;
    }
    assert(text::texts(all@).take(i as int) =~= text::texts(all@));
    out
}

// ── Laws ───────────────────────────────────────────────────────────────────
proof fn lemma_entries_concat(a: Seq<Seq<char>>, b: Seq<Seq<char>>)
    ensures
        entries_of(a + b) == entries_of(a) + entries_of(b),
    decreases b.len(),
{
    if b.len() == 0 {
        assert(a + b =~= a);
        assert(entries_of(a) + entries_of(b) =~= entries_of(a));
    } else {
        assert((a + b).drop_last() =~= a + b.drop_last());
        lemma_entries_concat(a, b.drop_last());
        assert(entries_of(a + b) =~= entries_of(a) + entries_of(b));
    }
}

/// What is appended to a journal of whole lines is read back: after the line
/// of one more entry, replay returns one more entry, that one.
pub proof fn law_append_then_replay(file: Seq<char>, line: Seq<char>, e: EntryFact)
    requires
        text::is_whole(file),
        writes(line, e),
    ensures
        journal_of(file + line.push('\n')) == journal_of(file).push(e),
        text::is_whole(file + line.push('\n')),
{
    let end = line.push('\n');
    assert((file + end).last() == '\n');
    text::lemma_lines_concat(file, end);
    text::lemma_one_line(line);
    text::lemma_trimmed_self(line);
    lemma_entry_reads_back(e);
    assert(text::without_cr(line) == line);
    lemma_entries_concat(text::lines_of(file), seq![line]);
    let one = seq![line];
    assert(one.drop_last() =~= Seq::<Seq<char>>::empty());
    assert(line_entry(line) == Some(e));
    reveal_with_fuel(entries_of, 2);
    assert(entries_of(one) =~= seq![e]);
    assert(journal_of(file) + seq![e] =~= journal_of(file).push(e));
}

/// What a crash left of a line that was being written changes nothing: the
/// entries that were appended before it are all there, and no other.
pub proof fn law_torn_write_is_skipped(file: Seq<char>, tail: Seq<char>)
    requires
        text::is_whole(file),
        !tail.contains('\n'),
    ensures
        journal_of(file + tail) == journal_of(file),
{
    text::lemma_whole_lines(file, tail);
}

/// A job that was anchored last is done, whatever came before.
pub proof fn law_anchored_is_done(entries: Seq<EntryFact>, job_id: u64, position: u64)
    ensures
        jobs_that(
            state_of(entries.push(EntryFact::Anchored { job_id, position })),
            |p: Progress| is_done(p),
        ).contains(job_id),
{
    let e = EntryFact::Anchored { job_id, position };
    assert(entries.push(e).drop_last() =~= entries);
}

/// Every job that the journal knows is run again, anchored again or done, and
/// no job is two of these.
pub proof fn law_recovery_covers_every_job(entries: Seq<EntryFact>, job_id: u64)
    ensures
        ({
            let s = state_of(entries);
            let run = jobs_that(s, |p: Progress| must_run(p)).contains(job_id);
            let anchor = jobs_that(s, |p: Progress| must_anchor(p)).contains(job_id);
            let done = jobs_that(s, |p: Progress| is_done(p)).contains(job_id);
            &&& s.dom().contains(job_id) <==> run || anchor || done
            &&& !(run && anchor) && !(run && done) && !(anchor && done)
        }),
{
}

/// An entry changes the state of its own job only.
pub proof fn law_entries_touch_their_job(entries: Seq<EntryFact>, e: EntryFact, other: u64)
    requires
        other != job_of(e),
    ensures
        state_of(entries.push(e)).dom().contains(other) <==> state_of(entries).dom().contains(
            other,
        ),
        state_of(entries.push(e))[other] == state_of(entries)[other],
{
    assert(entries.push(e).drop_last() =~= entries);
}

/// The job that an entry is about.
pub open spec fn job_of(e: EntryFact) -> u64 {
    match e {
        EntryFact::JobSubmitted { job_id } => job_id,
        EntryFact::CommitteeSelected { job_id, .. } => job_id,
        EntryFact::AttestationReceived { job_id, .. } => job_id,
        EntryFact::Aggregated { job_id, .. } => job_id,
        EntryFact::Anchored { job_id, .. } => job_id,
    }
}

/// Anchoring a job again at the same position changes nothing.
pub proof fn law_re_anchor_is_idempotent(entries: Seq<EntryFact>, job_id: u64, position: u64)
    ensures
        ({
            let e = EntryFact::Anchored { job_id, position };
            state_of(entries.push(e).push(e)) == state_of(entries.push(e))
        }),
{
    let e = EntryFact::Anchored { job_id, position };
    assert(entries.push(e).drop_last() =~= entries);
    assert(entries.push(e).push(e).drop_last() =~= entries.push(e));
    assert(state_of(entries.push(e).push(e)) =~= state_of(entries.push(e)));
}

/// An entry moves its job: to submitted, to in flight, to aggregated with what was
/// aggregated, or to anchored where it was anchored. An attestation moves only a
/// job that is not known yet.
pub proof fn law_entry_moves_its_job(entries: Seq<EntryFact>, e: EntryFact)
    ensures
        ({
            let before = state_of(entries);
            let after = state_of(entries.push(e));
            match e {
                EntryFact::JobSubmitted { job_id } => after.dom().contains(job_id) && after[job_id]
                    == Progress::Submitted,
                EntryFact::CommitteeSelected { job_id, .. } => after.dom().contains(job_id)
                    && after[job_id] == Progress::InFlight,
                EntryFact::AttestationReceived { job_id, .. } => after.dom().contains(job_id)
                    && after[job_id] == (if before.dom().contains(job_id) {
                    before[job_id]
                } else {
                    Progress::InFlight
                }),
                EntryFact::Aggregated { job_id, outcome, artifact_hex } => after.dom().contains(
                    job_id,
                ) && (after[job_id] matches Progress::AggregatedNotAnchored {
                    outcome: o,
                    artifact_hex: h,
                } && o == outcome && h == artifact_hex),
                EntryFact::Anchored { job_id, position } => after.dom().contains(job_id) && (
                after[job_id] matches Progress::Anchored { position: p } && p == position),
            }
        }),
        state_of(Seq::empty()).dom() == Set::<u64>::empty(),
{
    assert(entries.push(e).drop_last() =~= entries);
    assert(state_of(Seq::<EntryFact>::empty()).dom() =~= Set::<u64>::empty());
}

/// A journal is read line by line: whole lines hold their entries whatever follows
/// them, in order, and a line that holds none is skipped.
pub proof fn law_journal_is_read_line_by_line(file: Seq<char>, line: Seq<char>, more: Seq<char>)
    requires
        text::is_whole(file),
        text::is_whole(more),
        !line.contains('\n'),
    ensures
        journal_of(file + more) == journal_of(file) + journal_of(more),
        journal_of(line.push('\n')) == match line_entry(
            if line.len() > 0 && line.last() == '\r' {
                line.drop_last()
            } else {
                line
            },
        ) {
            Some(e) => seq![e],
            None => Seq::empty(),
        },
{
    assert(text::is_whole(file + more)) by {
        if more.len() == 0 {
            assert(file + more =~= file);
        } else {
            assert((file + more).last() == more.last());
        }
    }
    text::lemma_lines_concat(file, more);
    lemma_entries_concat(text::lines_of(file), text::lines_of(more));
    let s = line.push('\n');
    assert(text::whole_lines(s) == s);
    text::lemma_one_line(line);
    let one = seq![text::without_cr(line)];
    assert(one.drop_last() =~= Seq::<Seq<char>>::empty());
    reveal_with_fuel(entries_of, 2);
    assert(entries_of(one) =~= journal_of(s));
    match line_entry(text::without_cr(line)) {
        Some(e) => {
            assert(entries_of(one) =~= seq![e]);
        },
        None => {
            assert(entries_of(one) =~= Seq::<EntryFact>::empty());
        },
    }
}

} // verus!
