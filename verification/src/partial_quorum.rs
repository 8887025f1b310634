//! Partial-committee quorum resolution.
//!
//! When a committee member fails to respond within the per-runner deadline,
//! their vote is missing from the aggregator's input. The job still produces
//! a deterministic outcome computed against the responding subset, with the
//! missing runners recorded for downstream reputation accounting.

use crate::quorum::{aggregate, Outcome, RunnerId, StakeMap, Vote, Weight};
use std::collections::{HashMap, HashSet};
use vstd::prelude::*;

verus! {

broadcast use vstd::std_specs::hash::group_hash_axioms;

/// Result of resolving a job under partial-response conditions.
#[derive(Clone, Debug, PartialEq, Eq)]
pub struct PartialOutcome {
    /// The aggregated outcome from the responding subset.
    pub outcome: Outcome,
    /// Committee members who responded, in committee order.
    pub responding: Vec<RunnerId>,
    /// Committee members who did NOT respond, in committee order.
    pub missing: Vec<RunnerId>,
    /// Sum of stake the responding members carried into the round.
    pub responding_stake: Weight,
    /// The threshold that was applied.
    pub threshold: Weight,
}

/// Whether a runner is among the voters.
pub open spec fn has_voted(votes: Seq<Vote>, id: u64) -> bool {
    exists|i: int| 0 <= i < votes.len() && (#[trigger] votes[i]).runner_id == id
}

/// The committee members that responded, or those that did not, in order.
pub open spec fn members_who(committee: Seq<u64>, votes: Seq<Vote>, responded: bool) -> Seq<u64>
    decreases committee.len(),
{
    if committee.len() == 0 {
        committee
    } else {
        let rest = members_who(committee.drop_last(), votes, responded);
        if has_voted(votes, committee.last()) == responded {
            rest.push(committee.last())
        } else {
            rest
        }
    }
}

/// The stake of the listed runners together.
pub open spec fn listed_stake(ids: Seq<u64>, stake: Map<u64, u64>) -> nat
    decreases ids.len(),
{
    if ids.len() == 0 {
        0
    } else {
        listed_stake(ids.drop_last(), stake) + crate::quorum::stake_or_zero(stake, ids.last())
    }
}

/// Resolve a job's outcome from a (possibly incomplete) vote set against the
/// original committee.
///
/// - `committee`: every runner who was asked to attest.
/// - `votes`: votes from the runners who actually responded.
/// - `stake_map`: voting weight per runner. Runners not in the map
///   contribute 0.
/// - `threshold_fn`: how the threshold is computed from the
///   *responding* committee's stake, typically a 2/3 weighted majority of who
///   actually showed up.
///
/// Pure: no I/O, no clock. The stake of the responding members, and the sums
/// that the outcome rests on, must fit a `Weight`.
#[must_use]
pub fn resolve_with_dropouts<F: Fn(Weight) -> Weight>(
    committee: &[RunnerId],
    votes: &[Vote],
    stake_map: &StakeMap,
    threshold_fn: F,
) -> (r: PartialOutcome)
    requires
        listed_stake(members_who(committee@, votes@, true), stake_map@) <= u64::MAX,
        call_requires(
            threshold_fn,
            (listed_stake(members_who(committee@, votes@, true), stake_map@) as u64,),
        ),
        forall|t: u64|
            call_ensures(
                threshold_fn,
                (listed_stake(members_who(committee@, votes@, true), stake_map@) as u64,),
                t,
            ) ==> #[trigger] crate::quorum::sums_fit(votes@, t, stake_map@),
    ensures
        r.responding@ == members_who(committee@, votes@, true),
        r.missing@ == members_who(committee@, votes@, false),
        r.responding_stake == listed_stake(r.responding@, stake_map@),
        call_ensures(threshold_fn, (r.responding_stake,), r.threshold),
        r.outcome == crate::quorum::quorum_outcome(votes@, r.threshold, stake_map@),
{
    let mut responded: HashSet<RunnerId> = HashSet::new();
    let mut n: usize = 0;
    while n < votes.len()
        invariant
            n <= votes.len(),
            forall|id: u64| #[trigger]
                responded@.contains(id) <==> has_voted(votes@.take(n as int), id),
        decreases votes.len() - n,
    {
        let ghost before = responded@;
        responded.insert(votes[n].runner_id);
        proof {
            assert forall|id: u64| #[trigger]
                responded@.contains(id) <==> has_voted(votes@.take(n + 1), id) by {
                lemma_voted_next(votes@, n as int, id);
                assert(before.contains(id) <==> has_voted(votes@.take(n as int), id));
            }
        }
        n = n + 1;
    }
    assert(votes@.take(n as int) =~= votes@);

    let mut responding: Vec<RunnerId> = Vec::new();
    let mut missing: Vec<RunnerId> = Vec::new();
    let mut i: usize = 0;
    while i < committee.len()
        invariant
            i <= committee.len(),
            forall|id: u64| #[trigger] responded@.contains(id) <==> has_voted(votes@, id),
            responding@ == members_who(committee@.take(i as int), votes@, true),
            missing@ == members_who(committee@.take(i as int), votes@, false),
        decreases committee.len() - i,
    {
        let id: u64 = committee[i];
        assert(committee@.take(i + 1).drop_last() =~= committee@.take(i as int));
        if responded.contains(&id) {
            responding.push(id);
        } else {
            missing.push(id);
        }
        i = i + 1;
    }
    assert(committee@.take(i as int) =~= committee@);

    let mut responding_stake: Weight = 0;
    let mut k: usize = 0;
    while k < responding.len()
        invariant
            k <= responding.len(),
            responding_stake == listed_stake(responding@.take(k as int), stake_map@),
            listed_stake(responding@, stake_map@) <= u64::MAX,
        decreases responding.len() - k,
    {
        let id: u64 = responding[k];
        let w: Weight = match stake_map.get(&id) {
            Some(w) => *w,
            None => 0,
        };
        proof {
            assert(responding@.take(k + 1).drop_last() =~= responding@.take(k as int));
            lemma_listed_monotone(responding@, stake_map@, k + 1);
        }
        responding_stake = responding_stake + w;
        k = k + 1;
    }
    assert(responding@.take(k as int) =~= responding@);

    let threshold = threshold_fn(responding_stake);
    assert(crate::quorum::sums_fit(votes@, threshold, stake_map@));
    let outcome = aggregate(votes, threshold, stake_map);
    PartialOutcome { outcome, responding, missing, responding_stake, threshold }
}

proof fn lemma_voted_next(votes: Seq<Vote>, n: int, id: u64)
    requires
        0 <= n < votes.len(),
    ensures
        has_voted(votes.take(n + 1), id) <==> has_voted(votes.take(n), id)
            || votes[n].runner_id == id,
{
    let (a, b) = (votes.take(n), votes.take(n + 1));
    if has_voted(a, id) {
        let i = choose|i: int| 0 <= i < a.len() && (#[trigger] a[i]).runner_id == id;
        assert(b[i].runner_id == id);
    }
    assert(b[n] == votes[n]);
    if has_voted(b, id) && votes[n].runner_id != id {
        let i = choose|i: int| 0 <= i < b.len() && (#[trigger] b[i]).runner_id == id;
        assert(a[i].runner_id == id);
    }
}

proof fn lemma_listed_monotone(ids: Seq<u64>, stake: Map<u64, u64>, k: int)
    requires
        0 <= k <= ids.len(),
    ensures
        listed_stake(ids.take(k), stake) <= listed_stake(ids, stake),
    decreases ids.len(),
{
    if k == ids.len() {
        assert(ids.take(k) =~= ids);
    } else {
        lemma_listed_monotone(ids.drop_last(), stake, k);
        assert(ids.drop_last().take(k) =~= ids.take(k));
    }
}

/// Convenience: 2/3-weighted threshold over the responding stake, rounded up.
#[must_use]
pub fn two_thirds_threshold(responding_stake: Weight) -> (r: Weight)
    requires
        responding_stake * 2 <= u64::MAX,
    ensures
        r == two_thirds(responding_stake as nat),
{
    let twice: Weight = responding_stake * 2;
    if twice % 3 == 0 {
        twice / 3
    } else {
        twice / 3 + 1
    }
}

/// Two thirds of `s`, rounded up.
pub open spec fn two_thirds(s: nat) -> nat {
    (2 * s + 2) / 3
}

/// Build a stake snapshot map from a slice of `(runner_id, stake)`
/// pairs. A runner that is listed twice has the stake of its last pair.
#[must_use]
pub fn stake_map_from_pairs(pairs: &[(RunnerId, Weight)]) -> (r: StakeMap)
    ensures
        r@ == map_of_pairs(pairs@),
{
    let mut m: StakeMap = HashMap::with_capacity(pairs.len());
    let mut i: usize = 0;
    while i < pairs.len()
        invariant
            i <= pairs.len(),
            m@ == map_of_pairs(pairs@.take(i as int)),
        decreases pairs.len() - i,
    {
        let (id, w) = pairs[i];
        m.insert(id, w);
        assert(pairs@.take(i + 1).drop_last() =~= pairs@.take(i as int));
        i = i + 1;
    }
    assert(pairs@.take(i as int) =~= pairs@);
    m
}

/// The map that a list of pairs describes; later pairs override earlier ones.
pub open spec fn map_of_pairs(pairs: Seq<(u64, u64)>) -> Map<u64, u64>
    decreases pairs.len(),
{
    if pairs.len() == 0 {
        Map::empty()
    } else {
        map_of_pairs(pairs.drop_last()).insert(pairs.last().0, pairs.last().1)
    }
}

/// Nobody is lost: responding and missing members together are the committee.
pub proof fn law_responding_and_missing_partition(committee: Seq<u64>, votes: Seq<Vote>)
    ensures
        members_who(committee, votes, true).len() + members_who(committee, votes, false).len()
            == committee.len(),
        members_who(committee, votes, true).to_multiset().add(
            members_who(committee, votes, false).to_multiset(),
        ) == committee.to_multiset(),
        forall|id: u64| #[trigger]
            members_who(committee, votes, true).contains(id) ==> has_voted(votes, id),
        forall|id: u64| #[trigger]
            members_who(committee, votes, false).contains(id) ==> !has_voted(votes, id),
    decreases committee.len(),
{
    broadcast use vstd::seq_lib::group_to_multiset_ensures;

    let a = members_who(committee, votes, true);
    let b = members_who(committee, votes, false);
    if committee.len() == 0 {
        assert(a.to_multiset().add(b.to_multiset()) =~= committee.to_multiset());
    } else {
        let less = committee.drop_last();
        law_responding_and_missing_partition(less, votes);
        let x = committee.last();
        let (p, q) = (members_who(less, votes, true), members_who(less, votes, false));
        assert(committee =~= less.push(x));
        assert(committee.to_multiset() =~= less.to_multiset().insert(x));
        if has_voted(votes, x) {
            assert(a.to_multiset() =~= p.to_multiset().insert(x));
            assert(b == q);
            assert forall|id: u64| #[trigger] a.contains(id) implies has_voted(votes, id) by {
                let i = choose|i: int| 0 <= i < a.len() && a[i] == id;
                if i < p.len() {
                    assert(p[i] == id);
                    assert(p.contains(id));
                }
            }
        } else {
            assert(b.to_multiset() =~= q.to_multiset().insert(x));
            assert(a == p);
            assert forall|id: u64| #[trigger] b.contains(id) implies !has_voted(votes, id) by {
                let i = choose|i: int| 0 <= i < b.len() && b[i] == id;
                if i < q.len() {
                    assert(q[i] == id);
                    assert(q.contains(id));
                }
            }
        }
        assert(a.to_multiset().add(b.to_multiset()) =~= committee.to_multiset());
    }
}

/// Two thirds of the stake is a majority: it is more than half of any stake
/// that is not zero, and no more than all of it.
pub proof fn law_two_thirds_is_a_majority(s: nat)
    ensures
        3 * two_thirds(s) >= 2 * s,
        two_thirds(s) <= s || s == 0,
        s > 0 ==> 2 * two_thirds(s) > s,
{
}

/// The stake of the listed is counted one by one: each brings what the map holds
/// for it, wherever it stands in the list.
pub proof fn law_listed_stake_counts_each(ids: Seq<u64>, stake: Map<u64, u64>, i: int)
    requires
        0 <= i < ids.len(),
    ensures
        listed_stake(Seq::empty(), stake) == 0,
        listed_stake(ids, stake) == listed_stake(ids.remove(i), stake) + (if stake.contains_key(
            ids[i],
        ) {
            stake[ids[i]] as nat
        } else {
            0
        }),
    decreases ids.len(),
{
    let n = ids.len() - 1;
    if i < n {
        law_listed_stake_counts_each(ids.drop_last(), stake, i);
        assert(ids.remove(i).drop_last() =~= ids.drop_last().remove(i));
        assert(ids.remove(i).last() == ids.last());
    } else {
        assert(ids.remove(i) =~= ids.drop_last());
    }
}

/// Members are told apart one by one, by whether there is a vote of theirs, and
/// stay in the order of the committee.
pub proof fn law_members_keep_their_order(
    a: Seq<u64>,
    b: Seq<u64>,
    id: u64,
    votes: Seq<Vote>,
    responded: bool,
)
    ensures
        members_who(a + b, votes, responded) == members_who(a, votes, responded) + members_who(
            b,
            votes,
            responded,
        ),
        members_who(seq![id], votes, responded) == (if (exists|i: int|
            0 <= i < votes.len() && (#[trigger] votes[i]).runner_id == id) == responded {
            seq![id]
        } else {
            Seq::<u64>::empty()
        }),
    decreases b.len(),
{
    let one = seq![id];
    reveal_with_fuel(members_who, 2);
    assert(one.drop_last() =~= Seq::<u64>::empty());
    assert(Seq::<u64>::empty().push(id) =~= one);
    if b.len() == 0 {
        assert(a + b =~= a);
        assert(members_who(a, votes, responded) + members_who(b, votes, responded) =~= members_who(
            a,
            votes,
            responded,
        ));
    } else {
        law_members_keep_their_order(a, b.drop_last(), id, votes, responded);
        assert((a + b).drop_last() =~= a + b.drop_last());
        assert((a + b).last() == b.last());
        assert(members_who(a + b, votes, responded) =~= members_who(a, votes, responded)
            + members_who(b, votes, responded));
    }
}

/// Two thirds are the least that counts as two thirds: one less is too little.
pub proof fn law_two_thirds_is_the_least(s: nat, t: nat)
    ensures
        t >= two_thirds(s) <==> 3 * t >= 2 * s,
{
}

/// Of several pairs for a runner the last counts.
pub proof fn law_last_pair_counts(pairs: Seq<(u64, u64)>, i: int, id: u64)
    ensures
        0 <= i < pairs.len() && (forall|j: int|
            i < j < pairs.len() ==> (#[trigger] pairs[j]).0 != pairs[i].0) ==> map_of_pairs(
            pairs,
        ).contains_key(pairs[i].0) && map_of_pairs(pairs)[pairs[i].0] == pairs[i].1,
        map_of_pairs(pairs).contains_key(id) ==> exists|k: int|
            0 <= k < pairs.len() && (#[trigger] pairs[k]).0 == id,
    decreases pairs.len(),
{
    if pairs.len() > 0 {
        let less = pairs.drop_last();
        let n = pairs.len() - 1;
        law_last_pair_counts(less, i, id);
        if 0 <= i < n && (forall|j: int|
            i < j < pairs.len() ==> (#[trigger] pairs[j]).0 != pairs[i].0) {
            assert(pairs[n].0 != pairs[i].0);
            assert(less[i] == pairs[i]);
            assert forall|j: int| i < j < less.len() implies (#[trigger] less[j]).0 != less[i].0 by {
                assert(less[j] == pairs[j]);
            }
        }
        if map_of_pairs(pairs).contains_key(id) && pairs[n].0 != id {
            let k = choose|k: int| 0 <= k < less.len() && (#[trigger] less[k]).0 == id;
            assert(pairs[k].0 == id);
        }
    }
}

/// The stake of a list that names nobody twice is the stake of the set of those it
/// names.
pub proof fn law_responding_stake_is_that_of_a_set(ids: Seq<u64>, stake: Map<u64, u64>)
    requires
        ids.no_duplicates(),
    ensures
        listed_stake(ids, stake) == crate::quorum::stake_of_set(stake, ids.to_set()),
    decreases ids.len(),
{
    if ids.len() == 0 {
        assert(ids.to_set() =~= Set::<u64>::empty());
    } else {
        let less = ids.drop_last();
        let last = ids.last();
        law_responding_stake_is_that_of_a_set(less, stake);
        assert(!less.contains(last));
        assert(ids.to_set() =~= less.to_set().insert(last)) by {
            assert forall|x: u64| ids.contains(x) <==> less.contains(x) || x == last by {
                if ids.contains(x) {
                    let k = choose|k: int| 0 <= k < ids.len() && ids[k] == x;
                    if k < less.len() {
                        assert(less[k] == x);
                    }
                }
                if less.contains(x) {
                    let k = choose|k: int| 0 <= k < less.len() && less[k] == x;
                    assert(ids[k] == x);
                }
                if x == last {
                    assert(ids[ids.len() - 1] == x);
                }
            }
        }
        vstd::seq_lib::seq_to_set_is_finite(less);
        crate::quorum::law_stake_is_counted_once(stake, less.to_set(), last);
    }
}

} // verus!
