//! SCM-visible status lifecycle.
//!
//! The external-contract state machine that is published to the SCM
//! (GitHub/GitLab). Internal states (shard migration, vote collection, etc.)
//! aggregate into exactly these externally.

use vstd::prelude::*;

verus! {

/// External states published to the SCM.
#[derive(Clone, Copy, Debug, PartialEq, Eq, Structural)]
pub enum Status {
    /// Not started.
    Pending,
    /// Committee is executing.
    Running,
    /// Votes are being aggregated.
    QuorumVerifying,
    /// Terminal: the quorum passed the job.
    Success,
    /// Terminal: the quorum failed the job.
    Failure,
}

/// Reasons `transition` can reject a transition attempt.
#[derive(Clone, Copy, Debug, PartialEq, Eq, Structural)]
pub enum TransitionError {
    /// The `(from, to)` pair is not in the allowed edge set.
    IllegalTransition {
        /// Current state.
        from: Status,
        /// State asked for.
        to: Status,
    },
    /// Attempted to transition out of a terminal state (`Success` or `Failure`).
    AlreadyTerminal {
        /// Current state.
        current: Status,
    },
}

/// The externally allowed edges: `Pending → Running → QuorumVerifying`, and
/// from there to `Success` or `Failure`.
pub open spec fn allowed_edge(from: Status, to: Status) -> bool {
    match from {
        Status::Pending => to == Status::Running,
        Status::Running => to == Status::QuorumVerifying,
        Status::QuorumVerifying => to == Status::Success || to == Status::Failure,
        Status::Success => false,
        Status::Failure => false,
    }
}

/// Whether a state is final.
pub open spec fn terminal_status(s: Status) -> bool {
    s == Status::Success || s == Status::Failure
}

/// Whether the edge `from → to` is in the externally-allowed transition set.
/// No skips, no backward transitions, and no egress from `Success` or
/// `Failure`.
#[must_use]
pub fn is_allowed(from: Status, to: Status) -> (r: bool)
    ensures
        r == allowed_edge(from, to),
{
    match (from, to) {
        (Status::Pending, Status::Running) => true,
        (Status::Running, Status::QuorumVerifying) => true,
        (Status::QuorumVerifying, Status::Success) => true,
        (Status::QuorumVerifying, Status::Failure) => true,
        _ => false,
    }
}

/// Whether `s` is a terminal state.
#[must_use]
pub fn is_terminal(s: Status) -> (r: bool)
    ensures
        r == terminal_status(s),
{
    match s {
        Status::Success => true,
        Status::Failure => true,
        _ => false,
    }
}

/// Mutable wrapper that enforces `is_allowed` on every transition.
#[derive(Clone, Copy, Debug)]
pub struct StatusMachine {
    current: Status,
}

impl View for StatusMachine {
    type V = Status;

    closed spec fn view(&self) -> Status {
        self.current
    }
}

impl Default for StatusMachine {
    fn default() -> (r: Self)
        ensures
            r@ == Status::Pending,
    {
        StatusMachine { current: Status::Pending }
    }
}

/// What a transition attempt gives.
pub open spec fn transition_result(current: Status, to: Status) -> Result<
    Status,
    TransitionError,
> {
    if terminal_status(current) {
        Err(TransitionError::AlreadyTerminal { current })
    } else if !allowed_edge(current, to) {
        Err(TransitionError::IllegalTransition { from: current, to })
    } else {
        Ok(to)
    }
}

/// Where a sequence of attempts leads; a rejected one changes nothing.
pub open spec fn status_after(current: Status, attempts: Seq<Status>) -> Status
    decreases attempts.len(),
{
    if attempts.len() == 0 {
        current
    } else {
        let before = status_after(current, attempts.drop_last());
        match transition_result(before, attempts.last()) {
            Ok(to) => to,
            Err(_) => before,
        }
    }
}

impl StatusMachine {
    /// A machine in `Pending`.
    #[must_use]
    pub fn new() -> (r: Self)
        ensures
            r@ == Status::Pending,
    {
        StatusMachine { current: Status::Pending }
    }

    /// Attempt `current → to`. Returns the new state on success.
    ///
    /// # Errors
    ///
    /// Returns `AlreadyTerminal` if the current state is terminal, or
    /// `IllegalTransition` if the edge is not in the allowed set.
    pub fn transition(&mut self, to: Status) -> (r: Result<Status, TransitionError>)
        ensures
            r == transition_result(old(self)@, to),
            final(self)@ == (if r is Ok {
                to
            } else {
                old(self)@
            }),
    {
        if is_terminal(self.current) {
            return Err(TransitionError::AlreadyTerminal { current: self.current });
        }
        if !is_allowed(self.current, to) {
            return Err(TransitionError::IllegalTransition { from: self.current, to });
        }
        self.current = to;
        Ok(self.current)
    }

    /// The current state.
    #[must_use]
    pub fn current(&self) -> (r: Status)
        ensures
            r == self@,
    {
        self.current
    }

    /// Whether the current state is terminal.
    #[must_use]
    pub fn is_terminal(&self) -> (r: bool)
        ensures
            r == terminal_status(self@),
    {
        is_terminal(self.current)
    }
}

/// How far along the lifecycle a state is.
pub open spec fn stage(s: Status) -> int {
    match s {
        Status::Pending => 0,
        Status::Running => 1,
        Status::QuorumVerifying => 2,
        Status::Success => 3,
        Status::Failure => 3,
    }
}

/// No attempts whatever lead out of a terminal state.
pub proof fn law_terminal_is_forever(current: Status, attempts: Seq<Status>)
    requires
        terminal_status(current),
    ensures
        status_after(current, attempts) == current,
    decreases attempts.len(),
{
    if attempts.len() > 0 {
        law_terminal_is_forever(current, attempts.drop_last());
    }
}

/// Every allowed edge goes exactly one stage on: no skips, no way back.
pub proof fn law_no_skips_no_way_back(from: Status, to: Status)
    requires
        allowed_edge(from, to),
    ensures
        stage(to) == stage(from) + 1,
{
}

/// A job that ended was run and was verified: from `Pending`, a terminal state
/// is reached only through `Running` and `QuorumVerifying`.
pub proof fn law_terminal_passes_every_stage(attempts: Seq<Status>)
    requires
        terminal_status(status_after(Status::Pending, attempts)),
    ensures
        exists|i: int, j: int|
            0 <= i < j <= attempts.len() && #[trigger] status_after(
                Status::Pending,
                attempts.take(i),
            ) == Status::Running && #[trigger] status_after(Status::Pending, attempts.take(j))
                == Status::QuorumVerifying,
{
    let j = lemma_stage_reached(attempts, 2);
    assert(attempts.take(j).take(j) =~= attempts.take(j));
    let i = lemma_stage_reached(attempts.take(j), 1);
    assert(attempts.take(j).take(i) =~= attempts.take(i));
    if i == j {
        assert(false);
    }
}

proof fn lemma_stage_reached(attempts: Seq<Status>, s: int) -> (i: int)
    requires
        0 < s < 3,
        stage(status_after(Status::Pending, attempts)) >= s,
    ensures
        0 <= i <= attempts.len(),
        stage(status_after(Status::Pending, attempts.take(i))) == s,
    decreases attempts.len(),
{
    assert(attempts.take(attempts.len() as int) =~= attempts);
    if stage(status_after(Status::Pending, attempts)) == s {
        attempts.len() as int
    } else {
        let i = lemma_stage_reached(attempts.drop_last(), s);
        assert(attempts.drop_last().take(i) =~= attempts.take(i));
        i
    }
}

/// Every next stage can be reached: a status moves to each status one stage on,
/// and a refused move leaves it where it was.
pub proof fn law_next_stage_is_allowed(from: Status, to: Status)
    ensures
        transition_result(from, to) is Ok <==> (from == Status::Pending && to == Status::Running)
            || (from == Status::Running && to == Status::QuorumVerifying) || (from
            == Status::QuorumVerifying && (to == Status::Success || to == Status::Failure)),
        transition_result(from, to) is Ok ==> status_after(from, seq![to]) == to,
        transition_result(from, to) is Err ==> status_after(from, seq![to]) == from,
{
    let one = seq![to];
    assert(one.drop_last() =~= Seq::<Status>::empty());
    reveal_with_fuel(status_after, 2);
}

/// Attempts are made in order: those behind start from where those before led.
pub proof fn law_attempts_follow_one_another(current: Status, a: Seq<Status>, b: Seq<Status>)
    ensures
        status_after(current, a + b) == status_after(status_after(current, a), b),
    decreases b.len(),
{
    if b.len() == 0 {
        assert(a + b =~= a);
    } else {
        law_attempts_follow_one_another(current, a, b.drop_last());
        assert((a + b).drop_last() =~= a + b.drop_last());
        assert((a + b).last() == b.last());
    }
}

/// A refused step names where the job stands: at its end, or on the way, with the
/// step that was asked for.
pub proof fn law_refused_step_says_why(from: Status, to: Status)
    ensures
        transition_result(from, to) == Err::<Status, TransitionError>(
            TransitionError::AlreadyTerminal { current: from },
        ) <==> from == Status::Success || from == Status::Failure,
        transition_result(from, to) is Err && from != Status::Success && from != Status::Failure
            ==> transition_result(from, to) == Err::<Status, TransitionError>(
            TransitionError::IllegalTransition { from, to },
        ),
        transition_result(from, to) is Ok ==> transition_result(from, to) == Ok::<
            Status,
            TransitionError,
        >(to),
{
}

} // verus!
