//! Vote-aggregation lifecycle over the pure `quorum::aggregate` function.
//!
//! Wraps `quorum::aggregate` with a stateful collector. `Retry` from the
//! pure function maps back to `Pending` here: the lifecycle stays open
//! until a terminal outcome is reached or the coordinator times out.
//!
//! `trigger_aggregation` is the explicit re-aggregation entrypoint (e.g.,
//! driven by a timer). Each call that meets `Retry` increments an internal
//! counter; once the counter exceeds `max_retries`, the aggregator forces
//! `Escalate`. The default `new` constructor disables this.

use crate::quorum::{self, Outcome as QuorumOutcome, StakeMap, Vote, Weight};
use vstd::prelude::*;

verus! {

broadcast use vstd::std_specs::hash::group_hash_axioms;

/// Externally-visible state of an aggregating job.
#[derive(Clone, Copy, Debug, PartialEq, Eq, Structural)]
pub enum AggregationState {
    /// Still collecting votes.
    Pending,
    /// Pass quorum reached.
    Pass,
    /// Fail quorum reached.
    Fail,
    /// Structurally unresolvable or forced by timeout / retry-budget-exhausted.
    Escalate,
}

/// Stateful wrapper around `quorum::aggregate`.
pub struct Aggregator {
    state: AggregationState,
    votes: Vec<Vote>,
    threshold: Weight,
    stake: StakeMap,
    retries: u32,
    max_retries: u32,
}

/// What an aggregator holds.
#[verifier::ext_equal]
pub struct Collected {
    /// Externally-visible state.
    pub state: AggregationState,
    /// Votes received before a terminal state.
    pub votes: Seq<Vote>,
    /// Weight that decides.
    pub threshold: u64,
    /// Weight per runner.
    pub stake: Map<u64, u64>,
    /// Retry rounds consumed.
    pub retries: u32,
    /// Retry budget.
    pub max_retries: u32,
}

/// The state that an outcome leads to.
pub open spec fn state_of(outcome: QuorumOutcome) -> AggregationState {
    match outcome {
        QuorumOutcome::Pass => AggregationState::Pass,
        QuorumOutcome::Fail => AggregationState::Fail,
        QuorumOutcome::Escalate => AggregationState::Escalate,
        QuorumOutcome::Retry => AggregationState::Pending,
    }
}

impl Collected {
    /// Whether a terminal state is reached.
    pub open spec fn terminal(self) -> bool {
        self.state != AggregationState::Pending
    }

    /// The outcome of the votes held.
    pub open spec fn outcome(self) -> QuorumOutcome {
        quorum::quorum_outcome(self.votes, self.threshold, self.stake)
    }

    /// Whether the weights of the votes held can be summed.
    pub open spec fn summable(self) -> bool {
        quorum::sums_fit(self.votes, self.threshold, self.stake)
    }

    /// With one vote more, not yet aggregated.
    pub open spec fn with_vote(self, vote: Vote) -> Collected {
        Collected { votes: self.votes.push(vote), ..self }
    }

    /// After a vote was received.
    pub open spec fn after_vote(self, vote: Vote) -> Collected {
        if self.terminal() {
            self
        } else {
            let next = self.with_vote(vote);
            Collected { state: state_of(next.outcome()), ..next }
        }
    }

    /// After an explicit re-aggregation.
    pub open spec fn after_trigger(self) -> Collected {
        if self.terminal() {
            self
        } else if self.outcome() != QuorumOutcome::Retry {
            Collected { state: state_of(self.outcome()), ..self }
        } else {
            let retries = if self.retries < u32::MAX {
                (self.retries + 1) as u32
            } else {
                u32::MAX
            };
            Collected {
                retries,
                state: if retries > self.max_retries {
                    AggregationState::Escalate
                } else {
                    AggregationState::Pending
                },
                ..self
            }
        }
    }

    /// After a timeout.
    pub open spec fn after_timeout(self) -> Collected {
        if self.terminal() {
            self
        } else {
            Collected {
                state: match self.outcome() {
                    QuorumOutcome::Pass => AggregationState::Pass,
                    QuorumOutcome::Fail => AggregationState::Fail,
                    _ => AggregationState::Escalate,
                },
                ..self
            }
        }
    }
}

impl View for Aggregator {
    type V = Collected;

    closed spec fn view(&self) -> Collected {
        Collected {
            state: self.state,
            votes: self.votes@,
            threshold: self.threshold,
            stake: self.stake@,
            retries: self.retries,
            max_retries: self.max_retries,
        }
    }
}

impl Aggregator {
    /// Default constructor: max-retries enforcement disabled.
    #[must_use]
    pub fn new(threshold: Weight, stake: StakeMap) -> (r: Self)
        ensures
            r@ == (Collected {
                state: AggregationState::Pending,
                votes: Seq::empty(),
                threshold,
                stake: stake@,
                retries: 0,
                max_retries: u32::MAX,
            }),
    {
        Self::with_max_retries(threshold, stake, u32::MAX)
    }

    /// Constructor with explicit `max_retries`. Once `trigger_aggregation`
    /// has met `Retry` outcomes more than `max_retries` times, the
    /// aggregator forces `Escalate`.
    #[must_use]
    pub fn with_max_retries(threshold: Weight, stake: StakeMap, max_retries: u32) -> (r: Self)
        ensures
            r@ == (Collected {
                state: AggregationState::Pending,
                votes: Seq::empty(),
                threshold,
                stake: stake@,
                retries: 0,
                max_retries,
            }),
    {
        Aggregator {
            state: AggregationState::Pending,
            votes: Vec::new(),
            threshold,
            stake,
            retries: 0,
            max_retries,
        }
    }

    /// Append a vote and re-run quorum aggregation. Ignored if terminal.
    /// Does not increment the retry counter: a vote is fresh evidence,
    /// not a retry.
    pub fn receive_vote(&mut self, vote: Vote) -> (r: AggregationState)
        requires
            old(self)@.terminal() || old(self)@.with_vote(vote).summable(),
        ensures
            final(self)@ == old(self)@.after_vote(vote),
            r == final(self)@.state,
    {
        if self.is_terminal() {
            return self.state;
        }
        self.votes.push(vote);
        self.state = match quorum::aggregate(
            self.votes.as_slice(),
            self.threshold,
            &self.stake,
        ) {
            QuorumOutcome::Pass => AggregationState::Pass,
            QuorumOutcome::Fail => AggregationState::Fail,
            QuorumOutcome::Escalate => AggregationState::Escalate,
            QuorumOutcome::Retry => AggregationState::Pending,
        };
        self.state
    }

    /// Explicit re-aggregation (no new evidence; driven by a timer or
    /// external tick). Increments the retry counter when the pure
    /// function returns `Retry`; once counter exceeds `max_retries`,
    /// forces `Escalate`.
    pub fn trigger_aggregation(&mut self) -> (r: AggregationState)
        requires
            old(self)@.terminal() || old(self)@.summable(),
        ensures
            final(self)@ == old(self)@.after_trigger(),
            r == final(self)@.state,
    {
        if self.is_terminal() {
            return self.state;
        }
        self.state = match quorum::aggregate(
            self.votes.as_slice(),
            self.threshold,
            &self.stake,
        ) {
            QuorumOutcome::Pass => AggregationState::Pass,
            QuorumOutcome::Fail => AggregationState::Fail,
            QuorumOutcome::Escalate => AggregationState::Escalate,
            QuorumOutcome::Retry => {
                self.retries = self.retries.saturating_add(1);
                if self.retries > self.max_retries {
                    AggregationState::Escalate
                } else {
                    AggregationState::Pending
                }
            },
        };
        self.state
    }

    /// Force terminal resolution. If the current vote slice already resolves
    /// Pass/Fail, that is the outcome; otherwise the aggregator escalates.
    /// Ignored if already terminal.
    pub fn timeout(&mut self) -> (r: AggregationState)
        requires
            old(self)@.terminal() || old(self)@.summable(),
        ensures
            final(self)@ == old(self)@.after_timeout(),
            r == final(self)@.state,
    {
        if self.is_terminal() {
            return self.state;
        }
        self.state = match quorum::aggregate(
            self.votes.as_slice(),
            self.threshold,
            &self.stake,
        ) {
            QuorumOutcome::Pass => AggregationState::Pass,
            QuorumOutcome::Fail => AggregationState::Fail,
            _ => AggregationState::Escalate,
        };
        self.state
    }

    /// Externally-visible state.
    #[must_use]
    pub fn state(&self) -> (r: AggregationState)
        ensures
            r == self@.state,
    {
        self.state
    }

    /// Whether the aggregator has reached a terminal state.
    #[must_use]
    pub fn is_terminal(&self) -> (r: bool)
        ensures
            r == self@.terminal(),
    {
        match self.state {
            AggregationState::Pending => false,
            _ => true,
        }
    }

    /// Number of votes received so far (post-terminal votes are not counted).
    #[must_use]
    pub fn vote_count(&self) -> (r: usize)
        ensures
            r == self@.votes.len(),
    {
        self.votes.len()
    }

    /// Number of retry rounds the aggregator has consumed.
    #[must_use]
    pub fn retries(&self) -> (r: u32)
        ensures
            r == self@.retries,
    {
        self.retries
    }

    /// Configured retry budget; once `retries() > max_retries()` the
    /// aggregator forces `Escalate`.
    #[must_use]
    pub fn max_retries(&self) -> (r: u32)
        ensures
            r == self@.max_retries,
    {
        self.max_retries
    }
}

/// A terminal state is final: no vote, trigger or timeout changes anything.
pub proof fn law_terminal_sticks(c: Collected, vote: Vote)
    requires
        c.terminal(),
    ensures
        c.after_vote(vote) == c,
        c.after_trigger() == c,
        c.after_timeout() == c,
{
}

/// A timeout always ends the job.
pub proof fn law_timeout_is_terminal(c: Collected)
    ensures
        c.after_timeout().terminal(),
{
}

/// A vote is no retry: the budget is untouched.
pub proof fn law_votes_cost_no_retry(c: Collected, vote: Vote)
    ensures
        c.after_vote(vote).retries == c.retries,
{
}

/// A job that the votes decided says what the quorum says.
pub proof fn law_pass_and_fail_come_from_the_quorum(c: Collected, vote: Vote)
    requires
        !c.terminal(),
    ensures
        c.after_vote(vote).state == AggregationState::Pass <==> c.with_vote(vote).outcome()
            == QuorumOutcome::Pass,
        c.after_vote(vote).state == AggregationState::Fail <==> c.with_vote(vote).outcome()
            == QuorumOutcome::Fail,
        c.after_trigger().state == AggregationState::Pass <==> c.outcome()
            == QuorumOutcome::Pass,
        c.after_trigger().state == AggregationState::Fail <==> c.outcome()
            == QuorumOutcome::Fail,
        c.after_timeout().state == AggregationState::Pass <==> c.outcome()
            == QuorumOutcome::Pass,
        c.after_timeout().state == AggregationState::Fail <==> c.outcome()
            == QuorumOutcome::Fail,
{
}

/// The state after `n` triggers.
pub open spec fn after_triggers(c: Collected, n: nat) -> Collected
    decreases n,
{
    if n == 0 {
        c
    } else {
        after_triggers(c, (n - 1) as nat).after_trigger()
    }
}

/// The retry budget is enforced: without new votes an undecided job stays
/// pending for exactly `max_retries` triggers and escalates at the next.
pub proof fn law_retry_budget(c: Collected, n: nat)
    requires
        !c.terminal(),
        c.retries == 0,
        c.max_retries < u32::MAX,
        c.outcome() == QuorumOutcome::Retry,
    ensures
        n <= c.max_retries ==> after_triggers(c, n) == (Collected { retries: n as u32, ..c }),
        n > c.max_retries ==> after_triggers(c, n).state == AggregationState::Escalate,
    decreases n,
{
    if n > 0 {
        law_retry_budget(c, (n - 1) as nat);
    }
}

/// Every vote is kept until the outcome is known, behind those before it, and
/// nothing else changes what the outcome rests on.
pub proof fn law_votes_are_kept(c: Collected, vote: Vote)
    requires
        !c.terminal(),
    ensures
        c.after_vote(vote).votes == c.votes.push(vote),
        c.after_vote(vote).threshold == c.threshold && c.after_vote(vote).stake == c.stake
            && c.after_vote(vote).max_retries == c.max_retries,
        c.after_trigger().votes == c.votes && c.after_trigger().threshold == c.threshold
            && c.after_trigger().stake == c.stake && c.after_trigger().max_retries
            == c.max_retries,
        c.after_timeout().votes == c.votes && c.after_timeout().threshold == c.threshold
            && c.after_timeout().stake == c.stake && c.after_timeout().retries == c.retries,
{
}

/// A vote that leaves the outcome open leaves the job pending, and one that makes
/// it unresolvable escalates it; when time is up, an open outcome escalates.
pub proof fn law_open_outcomes_wait_or_escalate(c: Collected, vote: Vote)
    requires
        !c.terminal(),
    ensures
        c.after_vote(vote).state == AggregationState::Pending <==> quorum::quorum_outcome(
            c.votes.push(vote),
            c.threshold,
            c.stake,
        ) == QuorumOutcome::Retry,
        c.after_vote(vote).state == AggregationState::Escalate <==> quorum::quorum_outcome(
            c.votes.push(vote),
            c.threshold,
            c.stake,
        ) == QuorumOutcome::Escalate,
        c.after_timeout().state == AggregationState::Escalate <==> quorum::quorum_outcome(
            c.votes,
            c.threshold,
            c.stake,
        ) == QuorumOutcome::Escalate || quorum::quorum_outcome(c.votes, c.threshold, c.stake)
            == QuorumOutcome::Retry,
{
}

} // verus!
