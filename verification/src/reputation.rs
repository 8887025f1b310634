//! Runner reputation scoring.
//!
//! Reputation is a monotone function of a runner's historical agreement rate
//! with quorum outcomes.

use vstd::prelude::*;

verus! {

/// Outcome of one of a runner's prior votes, compared against the quorum's
/// final decision for that job.
#[derive(Clone, Copy, Debug, PartialEq, Eq, Structural)]
pub enum AgreementOutcome {
    /// The runner voted with the quorum.
    Agree,
    /// The runner voted against it.
    Disagree,
}

/// A score: the fraction `agrees / total`, from 0 to 1.
#[derive(Clone, Copy, Debug, PartialEq, Eq, Structural)]
pub struct Rate {
    /// Numerator.
    pub agrees: u64,
    /// Denominator, never zero.
    pub total: u64,
}

/// Reputation assigned to a runner with no recorded history yet: one half.
/// Neutral prior, neither the floor nor the ceiling, so that a new runner is
/// neither trusted nor penalized on entry.
#[must_use]
pub fn initial_reputation() -> (r: Rate)
    ensures
        r == one_half(),
{
    Rate { agrees: 1, total: 2 }
}

/// The fraction one half.
pub open spec fn one_half() -> Rate {
    Rate { agrees: 1, total: 2 }
}

/// How many of the outcomes are agreements.
pub open spec fn agreements(history: Seq<AgreementOutcome>) -> nat
    decreases history.len(),
{
    if history.len() == 0 {
        0
    } else {
        agreements(history.drop_last()) + if history.last() == AgreementOutcome::Agree {
            1nat
        } else {
            0nat
        }
    }
}

/// The rate of a history, one half where there is none.
pub open spec fn rate_of(history: Seq<AgreementOutcome>) -> Rate {
    if history.len() == 0 {
        one_half()
    } else {
        Rate { agrees: agreements(history) as u64, total: history.len() as u64 }
    }
}

/// Whether the fraction `a` is at most the fraction `b`.
pub open spec fn rate_le(a: Rate, b: Rate) -> bool {
    a.agrees * b.total <= b.agrees * a.total
}

/// Fraction of a runner's prior votes that agreed with the quorum outcome.
/// Empty history returns one half.
#[must_use]
pub fn agreement_rate(history: &[AgreementOutcome]) -> (r: Rate)
    ensures
        r == rate_of(history@),
        history@.len() > 0 ==> r.agrees == agreements(history@) && r.total == history@.len(),
        0 < r.total,
        r.agrees <= r.total,
{
    if history.len() == 0 {
        return initial_reputation();
    }
    let mut agrees: u64 = 0;
    let mut i: usize = 0;
    while i < history.len()
        invariant
            i <= history.len(),
            agrees == agreements(history@.take(i as int)),
            agrees <= i,
        decreases history.len() - i,
    {
        assert(history@.take(i + 1).drop_last() =~= history@.take(i as int));
        if history[i] == AgreementOutcome::Agree {
            agrees = agrees + 1;
        }
        i = i + 1;
    }
    assert(history@.take(i as int) =~= history@);
    Rate { agrees, total: history.len() as u64 }
}

/// Reputation score from 0 to 1: the agreement rate itself.
#[must_use]
pub fn reputation(history: &[AgreementOutcome]) -> (r: Rate)
    ensures
        r == rate_of(history@),
        history@.len() > 0 ==> r.agrees == agreements(history@) && r.total == history@.len(),
        0 < r.total,
        r.agrees <= r.total,
{
    agreement_rate(history)
}

proof fn lemma_agreements_bounded(history: Seq<AgreementOutcome>)
    ensures
        agreements(history) <= history.len(),
    decreases history.len(),
{
    if history.len() > 0 {
        lemma_agreements_bounded(history.drop_last());
    }
}

/// Reputation is monotone in the agreement rate: of two histories of one
/// length, the one with more agreements scores no lower.
pub proof fn law_reputation_is_monotone(a: Seq<AgreementOutcome>, b: Seq<AgreementOutcome>)
    requires
        a.len() == b.len() <= u64::MAX,
        agreements(a) <= agreements(b),
    ensures
        rate_le(rate_of(a), rate_of(b)),
{
    lemma_agreements_bounded(a);
    lemma_agreements_bounded(b);
    if a.len() > 0 {
        let (x, y, n) = (agreements(a) as int, agreements(b) as int, a.len() as int);
        assert(x * n <= y * n) by (nonlinear_arith)
            requires
                x <= y,
                0 <= n,
        ;
    }
}

/// Turning one disagreement into an agreement never lowers the score.
pub proof fn law_one_more_agreement_never_hurts(history: Seq<AgreementOutcome>, i: int)
    requires
        0 <= i < history.len() <= u64::MAX,
    ensures
        rate_le(rate_of(history), rate_of(history.update(i, AgreementOutcome::Agree))),
{
    lemma_update_agreements(history, i);
    law_reputation_is_monotone(history, history.update(i, AgreementOutcome::Agree));
}

proof fn lemma_update_agreements(history: Seq<AgreementOutcome>, i: int)
    requires
        0 <= i < history.len(),
    ensures
        agreements(history) <= agreements(history.update(i, AgreementOutcome::Agree)),
    decreases history.len(),
{
    let up = history.update(i, AgreementOutcome::Agree);
    if i == history.len() - 1 {
        assert(up.drop_last() =~= history.drop_last());
    } else {
        lemma_update_agreements(history.drop_last(), i);
        assert(up.drop_last() =~= history.drop_last().update(i, AgreementOutcome::Agree));
    }
}

/// A further agreement never lowers the score of a runner with a history.
pub proof fn law_agreeing_never_hurts(history: Seq<AgreementOutcome>)
    requires
        0 < history.len() < u64::MAX,
    ensures
        rate_le(rate_of(history), rate_of(history.push(AgreementOutcome::Agree))),
{
    lemma_agreements_bounded(history);
    let more = history.push(AgreementOutcome::Agree);
    assert(more.drop_last() =~= history);
    let (x, n) = (agreements(history) as int, history.len() as int);
    assert(x * (n + 1) <= (x + 1) * n) by (nonlinear_arith)
        requires
            0 <= x <= n,
    ;
}

/// A further disagreement never raises the score.
pub proof fn law_disagreeing_never_helps(history: Seq<AgreementOutcome>)
    requires
        0 < history.len() < u64::MAX,
    ensures
        rate_le(rate_of(history.push(AgreementOutcome::Disagree)), rate_of(history)),
{
    lemma_agreements_bounded(history);
    let more = history.push(AgreementOutcome::Disagree);
    assert(more.drop_last() =~= history);
    let (x, n) = (agreements(history) as int, history.len() as int);
    assert(x * n <= x * (n + 1)) by (nonlinear_arith)
        requires
            0 <= x,
    ;
}

/// A reputation is the share of agreements in the history: each agreement counts
/// one, wherever it stands, and everything counts in the total. Without a history
/// it is one half.
pub proof fn law_rate_counts_agreements(history: Seq<AgreementOutcome>, i: int)
    requires
        history.len() <= u64::MAX,
    ensures
        rate_of(Seq::empty()).agrees == 1 && rate_of(Seq::empty()).total == 2,
        agreements(Seq::empty()) == 0,
        agreements(history) <= history.len(),
        0 <= i < history.len() ==> agreements(history) == agreements(history.remove(i)) + (
        if history[i] == AgreementOutcome::Agree {
            1nat
        } else {
            0
        }),
        history.len() > 0 ==> rate_of(history).total == history.len() && rate_of(history).agrees
            == agreements(history),
    decreases history.len(),
{
    if history.len() > 0 {
        let n = history.len() - 1;
        let less = history.drop_last();
        law_rate_counts_agreements(less, i);
        if 0 <= i < n {
            assert(history.remove(i).drop_last() =~= less.remove(i));
            assert(history.remove(i).last() == history.last());
        } else if i == n {
            assert(history.remove(i) =~= less);
        }
    }
}

} // verus!
