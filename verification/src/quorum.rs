//! Quorum aggregation.
//!
//! [`aggregate`] collapses a slice of stake-weighted votes into a terminal or
//! transient outcome.

use crate::maps::keys_of;
use std::collections::HashMap;
use vstd::prelude::*;

verus! {

broadcast use vstd::std_specs::hash::group_hash_axioms;

/// Identity of a runner casting a vote in the quorum.
pub type RunnerId = u64;

/// Voting weight derived from a runner's stake.
pub type Weight = u64;

/// Map of `RunnerId` to current voting weight. Runners absent from the map
/// contribute zero weight if they vote.
pub type StakeMap = HashMap<RunnerId, Weight>;

/// A runner's claim about a job's outcome.
#[derive(Clone, Copy, Debug, PartialEq, Eq, Structural)]
pub enum VoteResult {
    /// Runner observed the job pass.
    Pass,
    /// Runner observed the job fail.
    Fail,
}

/// One vote submission.
#[derive(Clone, Copy, Debug, PartialEq, Eq, Structural)]
pub struct Vote {
    /// Identifier of the runner casting the vote.
    pub runner_id: RunnerId,
    /// Pass / Fail claim from this runner.
    pub result: VoteResult,
}

/// Quorum outcome.
#[derive(Clone, Copy, Debug, PartialEq, Eq, Hash, Structural)]
#[must_use]
pub enum Outcome {
    /// Stake-weighted pass votes reached the threshold.
    Pass,
    /// Stake-weighted fail votes reached the threshold. Fail-fast: takes
    /// priority over a simultaneous pass-threshold crossing.
    Fail,
    /// Below threshold; unvoted stake could still carry either side over.
    Retry,
    /// Below threshold and unvoted stake cannot reach threshold on either
    /// side: the vote is structurally unresolvable.
    Escalate,
}

/// The vote that counts for each runner: its last one in slice order.
pub open spec fn latest_votes(votes: Seq<Vote>) -> Map<u64, VoteResult>
    decreases votes.len(),
{
    if votes.len() == 0 {
        Map::empty()
    } else {
        latest_votes(votes.drop_last()).insert(votes.last().runner_id, votes.last().result)
    }
}

/// The stake of one runner; zero for a runner that the map does not hold.
pub open spec fn stake_or_zero(stake: Map<u64, u64>, runner: u64) -> nat {
    if stake.contains_key(runner) {
        stake[runner] as nat
    } else {
        0
    }
}

/// The stake of a set of runners together.
pub open spec fn stake_of_set(stake: Map<u64, u64>, runners: Set<u64>) -> nat {
    crate::sums::sum_over(runners, |r: u64| stake_or_zero(stake, r))
}

/// The runners whose counting vote is `result`.
pub open spec fn voters_for(latest: Map<u64, VoteResult>, result: VoteResult) -> Set<u64> {
    latest.dom().filter(|r: u64| latest[r] == result)
}

/// The stake behind `result`.
pub open spec fn weight_for(votes: Seq<Vote>, stake: Map<u64, u64>, result: VoteResult) -> nat {
    stake_of_set(stake, voters_for(latest_votes(votes), result))
}

/// All the stake in the map.
pub open spec fn total_stake(stake: Map<u64, u64>) -> nat {
    stake_of_set(stake, stake.dom())
}

/// The outcome of a vote, from the stake behind each side and in total.
pub open spec fn outcome_of(pass: nat, fail: nat, total: nat, threshold: nat) -> Outcome {
    if fail >= threshold {
        Outcome::Fail
    } else if pass >= threshold {
        Outcome::Pass
    } else {
        let remaining = total - (pass + fail);
        if pass + remaining < threshold && fail + remaining < threshold {
            Outcome::Escalate
        } else {
            Outcome::Retry
        }
    }
}

/// The outcome that [`aggregate`] owes for these votes.
pub open spec fn quorum_outcome(
    votes: Seq<Vote>,
    threshold: u64,
    stake: Map<u64, u64>,
) -> Outcome {
    outcome_of(
        weight_for(votes, stake, VoteResult::Pass),
        weight_for(votes, stake, VoteResult::Fail),
        total_stake(stake),
        threshold as nat,
    )
}

/// Whether the sums that the outcome rests on fit a `Weight`: the total counts
/// only where neither side reaches the threshold.
pub open spec fn sums_fit(votes: Seq<Vote>, threshold: u64, stake: Map<u64, u64>) -> bool {
    ||| weight_for(votes, stake, VoteResult::Pass) >= threshold
    ||| weight_for(votes, stake, VoteResult::Fail) >= threshold
    ||| total_stake(stake) <= u64::MAX
}

/// Aggregate a vote slice into a quorum outcome.
///
/// - **Dedup.** Repeated votes from the same `runner_id` collapse to the last
///   entry in slice order (last-write-wins).
/// - **Weighting.** Each surviving vote contributes `stake[runner_id]` to its
///   side. Missing stake entries contribute zero.
/// - **Fail-fast.** If the fail weight reaches the threshold, the outcome is
///   `Fail` whatever the pass weight.
/// - **Escalate.** Returned only when the unvoted stake can lift neither side
///   to the threshold.
///
/// Where neither side reaches the threshold, the stake in the map must add up
/// to a `Weight`.
pub fn aggregate(votes: &[Vote], threshold: Weight, stake: &StakeMap) -> (r: Outcome)
    requires
        sums_fit(votes@, threshold, stake@),
    ensures
        r == quorum_outcome(votes@, threshold, stake@),
{
    let mut latest: HashMap<RunnerId, VoteResult> = HashMap::with_capacity(votes.len());
    let mut i: usize = 0;
    while i < votes.len()
        invariant
            i <= votes.len(),
            latest@ == latest_votes(votes@.take(i as int)),
        decreases votes.len() - i,
    {
        let v = votes[i];
        latest.insert(v.runner_id, v.result);
        assert(votes@.take(i + 1).drop_last() =~= votes@.take(i as int));
        i = i + 1;
    }
    assert(votes@.take(i as int) =~= votes@);

    let keys = keys_of(&latest);
    let mut pass_weight: Weight = 0;
    let mut fail_weight: Weight = 0;
    let ghost mut passed: Set<u64> = Set::empty();
    let ghost mut failed: Set<u64> = Set::empty();
    let ghost f = |r: u64| stake_or_zero(stake@, r);
    let mut n: usize = 0;
    while n < keys.len()
        invariant
            n <= keys.len(),
            keys@.no_duplicates(),
            keys@.to_set() == latest@.dom(),
            f == (|r: u64| stake_or_zero(stake@, r)),
            passed.finite(),
            failed.finite(),
            forall|r: u64| #[trigger]
                passed.contains(r) <==> (keys@.take(n as int).contains(r) && latest@[r]
                    == VoteResult::Pass),
            forall|r: u64| #[trigger]
                failed.contains(r) <==> (keys@.take(n as int).contains(r) && latest@[r]
                    == VoteResult::Fail),
            pass_weight == saturated(crate::sums::sum_over(passed, f)),
            fail_weight == saturated(crate::sums::sum_over(failed, f)),
        decreases keys.len() - n,
    {
        let rid: u64 = keys[n];
        proof {
            assert(keys@.to_set().contains(rid));
            assert(latest@.contains_key(rid));
            assert forall|r: u64| #[trigger]
                keys@.take(n + 1).contains(r) <==> (keys@.take(n as int).contains(r) || r == rid) by {
                crate::maps::lemma_take_next(keys@, n as int, r);
            }
            assert(!keys@.take(n as int).contains(rid));
        }
        let w: Weight = match stake.get(&rid) {
            Some(w) => *w,
            None => 0,
        };
        assert(w == f(rid));
        match latest.get(&rid) {
            Some(result) => match *result {
                VoteResult::Pass => {
                    proof {
                        crate::sums::lemma_sum_insert(passed, f, rid);
                        passed = passed.insert(rid);
                    }
                    pass_weight = pass_weight.saturating_add(w);
                },
                VoteResult::Fail => {
                    proof {
                        crate::sums::lemma_sum_insert(failed, f, rid);
                        failed = failed.insert(rid);
                    }
                    fail_weight = fail_weight.saturating_add(w);
                },
            },
            None => {},
        }
        n = n + 1;
    }
    proof {
        assert(keys@.take(n as int) =~= keys@);
        let pass_set = voters_for(latest@, VoteResult::Pass);
        let fail_set = voters_for(latest@, VoteResult::Fail);
        assert forall|r: u64| keys@.contains(r) == latest@.dom().contains(r) by {
            assert(keys@.to_set().contains(r) == keys@.contains(r));
        }
        assert(passed =~= pass_set);
        assert(failed =~= fail_set);
    }
    let ghost pass = weight_for(votes@, stake@, VoteResult::Pass);
    let ghost fail = weight_for(votes@, stake@, VoteResult::Fail);
    assert(pass_weight == saturated(pass));
    assert(fail_weight == saturated(fail));

    // Fail-fast takes priority over a simultaneous pass-threshold crossing.
    if fail_weight >= threshold {
        return Outcome::Fail;
    }
    if pass_weight >= threshold {
        return Outcome::Pass;
    }
    proof {
        lemma_voted_at_most_total(votes@, stake@);
    }
    let total: Weight = sum_of_stake(stake);
    let voted: Weight = pass_weight.saturating_add(fail_weight);
    let remaining: Weight = total.saturating_sub(voted);
    let pass_reachable = pass_weight.saturating_add(remaining) >= threshold;
    let fail_reachable = fail_weight.saturating_add(remaining) >= threshold;
    if !pass_reachable && !fail_reachable {
        Outcome::Escalate
    } else {
        Outcome::Retry
    }
}

/// What a saturating sum of a number holds.
pub open spec fn saturated(n: nat) -> nat {
    if n <= u64::MAX {
        n
    } else {
        u64::MAX as nat
    }
}

/// All the stake in the map.
pub fn sum_of_stake(stake: &StakeMap) -> (r: Weight)
    requires
        total_stake(stake@) <= u64::MAX,
    ensures
        r == total_stake(stake@),
{
    let keys = keys_of(stake);
    let mut total: Weight = 0;
    let ghost f = |r: u64| stake_or_zero(stake@, r);
    let ghost mut done: Set<u64> = Set::empty();
    let mut n: usize = 0;
    while n < keys.len()
        invariant
            n <= keys.len(),
            keys@.no_duplicates(),
            keys@.to_set() == stake@.dom(),
            f == (|r: u64| stake_or_zero(stake@, r)),
            done.finite(),
            forall|r: u64| #[trigger] done.contains(r) <==> keys@.take(n as int).contains(r),
            total == crate::sums::sum_over(done, f),
            total_stake(stake@) <= u64::MAX,
        decreases keys.len() - n,
    {
        let rid: u64 = keys[n];
        proof {
            assert(keys@.to_set().contains(rid));
            assert(!keys@.take(n as int).contains(rid));
            crate::sums::lemma_sum_insert(done, f, rid);
            assert forall|r: u64| #[trigger]
                keys@.take(n + 1).contains(r) <==> (keys@.take(n as int).contains(r) || r == rid) by {
                crate::maps::lemma_take_next(keys@, n as int, r);
            }
            done = done.insert(rid);
            assert forall|r: u64| done.contains(r) implies stake@.dom().contains(r) by {
                assert(keys@.take(n + 1).contains(r));
                assert(keys@.contains(r));
                assert(keys@.to_set().contains(r));
            }
            crate::sums::lemma_sum_subset(done, stake@.dom(), f);
        }
        match stake.get(&rid) {
            Some(w) => {
                total = total + *w;
            },
            None => {},
        }
        n = n + 1;
    }
    proof {
        assert(keys@.take(n as int) =~= keys@);
        assert forall|r: u64| keys@.contains(r) == stake@.dom().contains(r) by {
            assert(keys@.to_set().contains(r) == keys@.contains(r));
        }
        assert(done =~= stake@.dom());
    }
    total
}

/// The keys of the counting votes are finite in number.
proof fn lemma_latest_finite(votes: Seq<Vote>)
    ensures
        latest_votes(votes).dom().finite(),
    decreases votes.len(),
{
    if votes.len() > 0 {
        lemma_latest_finite(votes.drop_last());
    }
}

/// The two sides together hold no more than the stake in the map.
pub proof fn lemma_voted_at_most_total(votes: Seq<Vote>, stake: Map<u64, u64>)
    requires
        stake.dom().finite(),
    ensures
        weight_for(votes, stake, VoteResult::Pass) + weight_for(votes, stake, VoteResult::Fail)
            <= total_stake(stake),
{
    lemma_latest_finite(votes);
    let latest = latest_votes(votes);
    let p = voters_for(latest, VoteResult::Pass);
    let q = voters_for(latest, VoteResult::Fail);
    let f = |r: u64| stake_or_zero(stake, r);
    assert(p.disjoint(q));
    crate::sums::lemma_sum_disjoint(p, q, f);
    lemma_stake_within(stake, p.union(q));
}

/// No set of runners holds more than the stake in the map.
pub proof fn lemma_stake_within(stake: Map<u64, u64>, runners: Set<u64>)
    requires
        stake.dom().finite(),
        runners.finite(),
    ensures
        stake_of_set(stake, runners) <= total_stake(stake),
{
    let f = |r: u64| stake_or_zero(stake, r);
    let inside = runners.intersect(stake.dom());
    let outside = runners.difference(stake.dom());
    assert(runners =~= inside.union(outside));
    crate::sums::lemma_sum_disjoint(inside, outside, f);
    crate::sums::lemma_sum_subset(inside, stake.dom(), f);
    lemma_sum_zero(outside, f);
}

proof fn lemma_sum_zero(s: Set<u64>, f: spec_fn(u64) -> nat)
    requires
        s.finite(),
        forall|a: u64| #[trigger] s.contains(a) ==> f(a) == 0,
    ensures
        crate::sums::sum_over(s, f) == 0,
    decreases s.len(),
{
    if s.len() > 0 {
        let a = s.choose();
        assert(s.contains(a));
        lemma_sum_zero(s.remove(a), f);
    }
}

/// The counting vote of a runner is the last one it cast.
pub proof fn law_last_write_wins(votes: Seq<Vote>, i: int)
    requires
        0 <= i < votes.len(),
        forall|j: int| i < j < votes.len() ==> votes[j].runner_id != votes[i].runner_id,
    ensures
        latest_votes(votes).contains_key(votes[i].runner_id),
        latest_votes(votes)[votes[i].runner_id] == votes[i].result,
    decreases votes.len(),
{
    if i < votes.len() - 1 {
        assert(votes[votes.len() - 1].runner_id != votes[i].runner_id);
        assert(votes.drop_last()[i] == votes[i]);
        law_last_write_wins(votes.drop_last(), i);
    }
}

/// A vote that the same runner overrides later does not count: taking it out
/// leaves the outcome as it was.
pub proof fn law_superseded_vote_is_ignored(
    votes: Seq<Vote>,
    i: int,
    j: int,
    threshold: u64,
    stake: Map<u64, u64>,
)
    requires
        0 <= i < j < votes.len(),
        votes[i].runner_id == votes[j].runner_id,
    ensures
        quorum_outcome(votes.remove(i), threshold, stake) == quorum_outcome(
            votes,
            threshold,
            stake,
        ),
{
    lemma_latest_without(votes, i, j);
}

proof fn lemma_latest_without(votes: Seq<Vote>, i: int, j: int)
    requires
        0 <= i < j < votes.len(),
        votes[i].runner_id == votes[j].runner_id,
    ensures
        latest_votes(votes.remove(i)) == latest_votes(votes),
    decreases votes.len(),
{
    let short = votes.remove(i);
    let last = votes.last();
    assert(short.last() == last);
    assert(short.drop_last() =~= votes.drop_last().remove(i));
    if j < votes.len() - 1 {
        lemma_latest_without(votes.drop_last(), i, j);
    } else {
        lemma_latest_differs(votes.drop_last(), i);
        let r = last.runner_id;
        assert(latest_votes(short) =~= latest_votes(votes)) by {
            assert(latest_votes(votes.drop_last().remove(i)).remove(r) == latest_votes(
                votes.drop_last(),
            ).remove(r));
            let a = latest_votes(votes.drop_last().remove(i));
            let b = latest_votes(votes.drop_last());
            assert(a.insert(r, last.result) =~= a.remove(r).insert(r, last.result));
            assert(b.insert(r, last.result) =~= b.remove(r).insert(r, last.result));
        }
    }
}

/// Taking one vote out touches no runner but the one that cast it.
proof fn lemma_latest_differs(votes: Seq<Vote>, i: int)
    requires
        0 <= i < votes.len(),
    ensures
        latest_votes(votes.remove(i)).remove(votes[i].runner_id) == latest_votes(votes).remove(
            votes[i].runner_id,
        ),
    decreases votes.len(),
{
    let r = votes[i].runner_id;
    if i == votes.len() - 1 {
        assert(votes.remove(i) =~= votes.drop_last());
        assert(latest_votes(votes).remove(r) =~= latest_votes(votes.drop_last()).remove(r));
    } else {
        lemma_latest_differs(votes.drop_last(), i);
        assert(votes.remove(i).drop_last() =~= votes.drop_last().remove(i));
        assert(votes.remove(i).last() == votes.last());
        let a = latest_votes(votes.drop_last().remove(i));
        let b = latest_votes(votes.drop_last());
        let (k, v) = (votes.last().runner_id, votes.last().result);
        if k == r {
            assert(a.insert(k, v).remove(r) =~= a.remove(r));
            assert(b.insert(k, v).remove(r) =~= b.remove(r));
        } else {
            assert(a.insert(k, v).remove(r) =~= a.remove(r).insert(k, v));
            assert(b.insert(k, v).remove(r) =~= b.remove(r).insert(k, v));
        }
    }
}

/// Votes of runners that had not voted leave the counting votes of the others alone.
proof fn lemma_latest_extended(votes: Seq<Vote>, more: Seq<Vote>)
    requires
        forall|i: int|
            0 <= i < more.len() ==> !latest_votes(votes).contains_key(
                #[trigger] more[i].runner_id,
            ),
    ensures
        forall|r: u64|
            latest_votes(votes).contains_key(r) ==> #[trigger] latest_votes(
                votes + more,
            ).contains_key(r) && latest_votes(votes + more)[r] == latest_votes(votes)[r],
    decreases more.len(),
{
    if more.len() == 0 {
        assert(votes + more =~= votes);
    } else {
        let less = more.drop_last();
        assert forall|i: int| 0 <= i < less.len() implies !latest_votes(votes).contains_key(
            #[trigger] less[i].runner_id,
        ) by {
            assert(less[i] == more[i]);
        }
        lemma_latest_extended(votes, less);
        assert((votes + more).drop_last() =~= votes + less);
        assert((votes + more).last() == more.last());
        assert(!latest_votes(votes).contains_key(more[more.len() - 1].runner_id));
        let (small, big) = (latest_votes(votes + less), latest_votes(votes + more));
        assert(big == small.insert(more.last().runner_id, more.last().result));
        assert forall|r: u64| latest_votes(votes).contains_key(r) implies #[trigger]
            big.contains_key(r) && big[r] == latest_votes(votes)[r] by {
            assert(small.contains_key(r));
        }
    }
}

/// `Escalate` is final: whatever the runners that have not voted yet still
/// vote, neither side reaches the threshold.
pub proof fn law_escalate_is_unresolvable(
    votes: Seq<Vote>,
    more: Seq<Vote>,
    threshold: u64,
    stake: Map<u64, u64>,
)
    requires
        stake.dom().finite(),
        quorum_outcome(votes, threshold, stake) == Outcome::Escalate,
        forall|i: int|
            0 <= i < more.len() ==> !latest_votes(votes).contains_key(
                #[trigger] more[i].runner_id,
            ),
    ensures
        quorum_outcome(votes + more, threshold, stake) == Outcome::Escalate,
{
    lemma_latest_extended(votes, more);
    lemma_latest_finite(votes + more);
    lemma_latest_finite(votes);
    let f = |r: u64| stake_or_zero(stake, r);
    let (a, b) = (latest_votes(votes), latest_votes(votes + more));
    assert(voters_for(a, VoteResult::Pass).subset_of(voters_for(b, VoteResult::Pass)));
    assert(voters_for(a, VoteResult::Fail).subset_of(voters_for(b, VoteResult::Fail)));
    crate::sums::lemma_sum_subset(
        voters_for(a, VoteResult::Pass),
        voters_for(b, VoteResult::Pass),
        f,
    );
    crate::sums::lemma_sum_subset(
        voters_for(a, VoteResult::Fail),
        voters_for(b, VoteResult::Fail),
        f,
    );
    lemma_voted_at_most_total(votes + more, stake);
    lemma_voted_at_most_total(votes, stake);
}

/// A runner without stake cannot move the outcome.
pub proof fn law_unstaked_vote_has_no_weight(
    votes: Seq<Vote>,
    vote: Vote,
    threshold: u64,
    stake: Map<u64, u64>,
)
    requires
        stake_or_zero(stake, vote.runner_id) == 0,
    ensures
        quorum_outcome(votes.push(vote), threshold, stake) == quorum_outcome(
            votes,
            threshold,
            stake,
        ),
{
    let f = |r: u64| stake_or_zero(stake, r);
    lemma_latest_finite(votes);
    lemma_latest_finite(votes.push(vote));
    assert(votes.push(vote).drop_last() =~= votes);
    let (a, b) = (latest_votes(votes), latest_votes(votes.push(vote)));
    assert forall|result: VoteResult| #[trigger]
        crate::sums::sum_over(voters_for(a, result), f) == crate::sums::sum_over(
            voters_for(b, result),
            f,
        ) by {
        let (p, q) = (voters_for(a, result), voters_for(b, result));
        let r = vote.runner_id;
        assert(p.remove(r) =~= q.remove(r));
        if p.contains(r) {
            crate::sums::lemma_sum_remove(p, f, r);
        } else {
            assert(p.remove(r) =~= p);
        }
        if q.contains(r) {
            crate::sums::lemma_sum_remove(q, f, r);
        } else {
            assert(q.remove(r) =~= q);
        }
    }
    assert(crate::sums::sum_over(voters_for(a, VoteResult::Pass), f) == crate::sums::sum_over(
        voters_for(b, VoteResult::Pass),
        f,
    ));
    assert(crate::sums::sum_over(voters_for(a, VoteResult::Fail), f) == crate::sums::sum_over(
        voters_for(b, VoteResult::Fail),
        f,
    ));
}

/// Stake is counted runner by runner: no runners hold none, and one more runner
/// brings what the map holds for it.
pub proof fn law_stake_is_counted_once(stake: Map<u64, u64>, runners: Set<u64>, r: u64)
    requires
        runners.finite(),
        !runners.contains(r),
    ensures
        stake_of_set(stake, Set::empty()) == 0,
        stake_of_set(stake, runners.insert(r)) == stake_of_set(stake, runners) + (
        if stake.contains_key(r) {
            stake[r] as nat
        } else {
            0
        }),
{
    crate::sums::lemma_sum_insert(runners, |x: u64| stake_or_zero(stake, x), r);
}

/// Whether no vote behind this one is of the same runner.
pub open spec fn is_last_vote(votes: Seq<Vote>, i: int) -> bool {
    0 <= i < votes.len() && forall|j: int|
        i < j < votes.len() ==> (#[trigger] votes[j]).runner_id != votes[i].runner_id
}

/// The side of a runner is the one its last vote names, and the weight of a side
/// is the stake of the runners on it.
pub proof fn law_last_vote_decides_the_side(
    votes: Seq<Vote>,
    stake: Map<u64, u64>,
    result: VoteResult,
    backers: Set<u64>,
)
    requires
        forall|r: u64| #[trigger]
            backers.contains(r) <==> exists|i: int| #[trigger]
                is_last_vote(votes, i) && votes[i].runner_id == r && votes[i].result == result,
    ensures
        backers.finite(),
        weight_for(votes, stake, result) == stake_of_set(stake, backers),
{
    lemma_latest_finite(votes);
    let latest = latest_votes(votes);
    assert forall|r: u64| voters_for(latest, result).contains(r) <==> backers.contains(r) by {
        if backers.contains(r) {
            let i = choose|i: int| #[trigger]
                is_last_vote(votes, i) && votes[i].runner_id == r && votes[i].result == result;
            law_last_write_wins(votes, i);
        }
        if latest.contains_key(r) {
            lemma_latest_was_cast(votes, r);
        }
    }
    assert(voters_for(latest, result) =~= backers);
}

proof fn lemma_latest_was_cast(votes: Seq<Vote>, r: u64)
    requires
        latest_votes(votes).contains_key(r),
    ensures
        exists|i: int| #[trigger]
            is_last_vote(votes, i) && votes[i].runner_id == r && votes[i].result
                == latest_votes(votes)[r],
    decreases votes.len(),
{
    let n = votes.len() - 1;
    if votes[n].runner_id == r {
        assert(is_last_vote(votes, n));
    } else {
        let less = votes.drop_last();
        lemma_latest_was_cast(less, r);
        let i = choose|i: int| #[trigger]
            is_last_vote(less, i) && less[i].runner_id == r && less[i].result == latest_votes(
                less,
            )[r];
        assert forall|j: int| i < j < votes.len() implies (#[trigger] votes[j]).runner_id
            != votes[i].runner_id by {
            if j < n {
                assert(votes[j] == less[j]);
            }
        }
        assert(is_last_vote(votes, i));
    }
}

/// The outcome follows the stake: the vote failed where those who say so reach
/// the threshold, passed where only the others do, and is beyond resolving exactly
/// if neither side could reach it with all the stake that has not gone to the
/// other.
pub proof fn law_outcome_follows_the_stake(
    votes: Seq<Vote>,
    threshold: u64,
    stake: Map<u64, u64>,
)
    requires
        stake.dom().finite(),
    ensures
        ({
            let pass = weight_for(votes, stake, VoteResult::Pass);
            let fail = weight_for(votes, stake, VoteResult::Fail);
            let all = stake_of_set(stake, stake.dom());
            let o = quorum_outcome(votes, threshold, stake);
            &&& o == Outcome::Fail <==> fail >= threshold
            &&& o == Outcome::Pass <==> fail < threshold <= pass
            &&& o == Outcome::Escalate <==> all - fail < threshold && all - pass < threshold
            &&& o == Outcome::Retry <==> fail < threshold && pass < threshold && (all - fail
                >= threshold || all - pass >= threshold)
        }),
{
    lemma_voted_at_most_total(votes, stake);
}

} // verus!
