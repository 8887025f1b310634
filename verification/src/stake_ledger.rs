//! Stake ledger with minority-disagreement slashing.
//!
//! When the quorum aggregator produces a definitive outcome (Pass or Fail),
//! runners whose attestation diverged from the consensus artifact have their
//! stake slashed by a configurable fraction of their current stake. The
//! majority is untouched.
//!
//! - Slashing only ever decrements a stake, and saturates at zero.
//! - `slash_minority` is pure: no I/O, no clock.

use crate::attestation::Attestation;
use crate::bytes::bytes_eq;
use crate::quorum::{RunnerId, StakeMap, Weight};
use std::collections::HashMap;
use vstd::prelude::*;

verus! {

broadcast use vstd::std_specs::hash::group_hash_axioms;

/// In-memory stake ledger. Tracks the current stake for each
/// registered runner and applies slashing events.
#[derive(Debug)]
pub struct StakeLedger {
    stakes: HashMap<RunnerId, Weight>,
}

/// Record of a single slashing event.
#[derive(Clone, Copy, Debug, PartialEq, Eq, Structural)]
pub struct SlashEvent {
    /// Runner whose stake was decremented.
    pub runner_id: RunnerId,
    /// Stake before the slash.
    pub stake_before: Weight,
    /// Stake after the slash (always `<= stake_before`; saturates
    /// at zero).
    pub stake_after: Weight,
    /// Amount actually deducted (`stake_before - stake_after`).
    pub slashed: Weight,
}

impl View for StakeLedger {
    type V = Map<u64, u64>;

    closed spec fn view(&self) -> Map<u64, u64> {
        self.stakes@
    }
}

impl Default for StakeLedger {
    fn default() -> (r: Self)
        ensures
            r@ == Map::<u64, u64>::empty(),
    {
        StakeLedger { stakes: HashMap::new() }
    }
}

impl Clone for StakeLedger {
    fn clone(&self) -> (r: Self)
        ensures
            r@ == self@,
    {
        StakeLedger { stakes: self.stakes.clone() }
    }
}

/// The event of slashing a runner with stake `before` by `amount`.
pub open spec fn slash_event(runner_id: u64, before: u64, amount: u64) -> SlashEvent {
    let after = if before > amount {
        (before - amount) as u64
    } else {
        0
    };
    SlashEvent {
        runner_id,
        stake_before: before,
        stake_after: after,
        slashed: (before - after) as u64,
    }
}

/// Stakes and the events so far.
pub struct SlashRun {
    /// Stake per runner.
    pub stakes: Map<u64, u64>,
    /// Events, in order.
    pub events: Seq<SlashEvent>,
}

/// Whether an attestation is held against its runner: it diverges from the
/// consensus, and the runner is in the ledger.
pub open spec fn is_dissent(stakes: Map<u64, u64>, att: Attestation, consensus: Seq<u8>) -> bool {
    att.artifact_hash@ != consensus && stakes.contains_key(att.runner_id)
}

/// A run after one more attestation, where a dissenter loses `amount`.
pub open spec fn slash_step(
    run: SlashRun,
    att: Attestation,
    consensus: Seq<u8>,
    amount: u64,
) -> SlashRun {
    if is_dissent(run.stakes, att, consensus) && amount > 0 {
        let event = slash_event(att.runner_id, run.stakes[att.runner_id], amount);
        SlashRun {
            stakes: run.stakes.insert(att.runner_id, event.stake_after),
            events: run.events.push(event),
        }
    } else {
        run
    }
}

/// The run over a list of attestations, with the amount for each.
pub open spec fn slash_run(
    stakes: Map<u64, u64>,
    consensus: Seq<u8>,
    atts: Seq<Attestation>,
    amounts: Seq<u64>,
) -> SlashRun
    decreases atts.len(),
{
    if atts.len() == 0 {
        SlashRun { stakes, events: Seq::empty() }
    } else {
        slash_step(
            slash_run(stakes, consensus, atts.drop_last(), amounts.drop_last()),
            atts.last(),
            consensus,
            amounts.last(),
        )
    }
}

impl StakeLedger {
    /// Empty ledger.
    #[must_use]
    pub fn new() -> (r: Self)
        ensures
            r@ == Map::<u64, u64>::empty(),
    {
        StakeLedger { stakes: HashMap::new() }
    }

    /// Construct from an existing `StakeMap` (e.g. the registration
    /// snapshot).
    #[must_use]
    pub fn from_stake_map(stakes: StakeMap) -> (r: Self)
        ensures
            r@ == stakes@,
    {
        StakeLedger { stakes }
    }

    /// Register a runner with the given initial stake. Overwrites
    /// any existing entry.
    pub fn register(&mut self, runner_id: RunnerId, stake: Weight)
        ensures
            final(self)@ == old(self)@.insert(runner_id, stake),
    {
        self.stakes.insert(runner_id, stake);
    }

    /// Current stake of `runner_id`, or `0` if not enrolled.
    #[must_use]
    pub fn stake_of(&self, runner_id: RunnerId) -> (r: Weight)
        ensures
            r == crate::quorum::stake_or_zero(self@, runner_id),
    {
        match self.stakes.get(&runner_id) {
            Some(w) => *w,
            None => 0,
        }
    }

    /// Number of registered runners.
    #[must_use]
    pub fn len(&self) -> (r: usize)
        ensures
            r == self@.dom().len(),
    {
        self.stakes.len()
    }

    /// Whether the ledger holds zero runners.
    #[must_use]
    pub fn is_empty(&self) -> (r: bool)
        ensures
            r == (self@.dom().len() == 0),
    {
        self.stakes.len() == 0
    }

    /// Snapshot the current state as a `StakeMap`.
    #[must_use]
    pub fn as_stake_map(&self) -> (r: StakeMap)
        ensures
            r@ == self@,
    {
        self.stakes.clone()
    }

    /// Slash a single runner by `amount`, saturating at zero. A runner that is
    /// not in the ledger enters it with stake zero.
    pub fn slash(&mut self, runner_id: RunnerId, amount: Weight) -> (r: SlashEvent)
        ensures
            r == slash_event(
                runner_id,
                crate::quorum::stake_or_zero(old(self)@, runner_id) as u64,
                amount,
            ),
            final(self)@ == old(self)@.insert(runner_id, r.stake_after),
    {
        let before: Weight = self.stake_of(runner_id);
        let after: Weight = before.saturating_sub(amount);
        self.stakes.insert(runner_id, after);
        SlashEvent {
            runner_id,
            stake_before: before,
            stake_after: after,
            slashed: before - after,
        }
    }

    /// Slash every runner whose attestation's `artifact_hash`
    /// diverges from `consensus_artifact`. Each slashed runner loses
    /// `amount_of(stake)` weight, typically a fraction of the stake rounded
    /// down, saturating at zero.
    ///
    /// Returns the list of slash events, in the order the
    /// attestations appear in `attestations`. Runners that agree
    /// with the consensus produce no event; runners that don't
    /// appear in the ledger, and amounts of zero, also produce none.
    pub fn slash_minority<F: Fn(Weight) -> Weight>(
        &mut self,
        consensus_artifact: [u8; 32],
        attestations: &[Attestation],
        amount_of: F,
    ) -> (r: Vec<SlashEvent>)
        requires
            forall|w: u64| #[trigger] call_requires(amount_of, (w,)),
        ensures
            exists|amounts: Seq<u64>|
                {
                    &&& amounts.len() == attestations@.len()
                    &&& forall|i: int|
                        0 <= i < amounts.len() ==> amount_is_owed(
                            amount_of,
                            slash_run(
                                old(self)@,
                                consensus_artifact@,
                                attestations@.take(i),
                                amounts.take(i),
                            ).stakes,
                            attestations@[i],
                            consensus_artifact@,
                            #[trigger] amounts[i],
                        )
                    &&& (SlashRun { stakes: final(self)@, events: r@ }) == #[trigger] slash_run(
                        old(self)@,
                        consensus_artifact@,
                        attestations@,
                        amounts,
                    )
                },
    {
        let mut events: Vec<SlashEvent> = Vec::new();
        let ghost mut amounts: Seq<u64> = Seq::empty();
        let ghost consensus = consensus_artifact@;
        let ghost start = self@;
        let mut i: usize = 0;
        while i < attestations.len()
            invariant
                i <= attestations.len(),
                consensus == consensus_artifact@,
                forall|w: u64| #[trigger] call_requires(amount_of, (w,)),
                amounts.len() == i,
                forall|k: int|
                    0 <= k < i ==> amount_is_owed(
                        amount_of,
                        slash_run(
                            start,
                            consensus,
                            attestations@.take(k),
                            amounts.take(k),
                        ).stakes,
                        attestations@[k],
                        consensus,
                        #[trigger] amounts[k],
                    ),
                self@ == slash_run(start, consensus, attestations@.take(i as int), amounts).stakes,
                events@ == slash_run(
                    start,
                    consensus,
                    attestations@.take(i as int),
                    amounts,
                ).events,
            decreases attestations.len() - i,
        {
            let att = attestations[i];
            let ghost held = amounts;
            let ghost stakes = self@;
            let mut amount: Weight = 0;
            if !bytes_eq(&att.artifact_hash, &consensus_artifact) && self.stakes.contains_key(
                &att.runner_id,
            ) {
                let current: Weight = self.stake_of(att.runner_id);
                amount = amount_of(current);
                if amount > 0 {
                    events.push(self.slash(att.runner_id, amount));
                }
            }
            proof {
                amounts = amounts.push(amount);
                assert(attestations@.take(i + 1).drop_last() =~= attestations@.take(i as int));
                assert(amounts.drop_last() =~= held);
                assert forall|k: int| 0 <= k < i + 1 implies amount_is_owed(
                    amount_of,
                    slash_run(start, consensus, attestations@.take(k), amounts.take(k)).stakes,
                    attestations@[k],
                    consensus,
                    #[trigger] amounts[k],
                ) by {
                    assert(amounts.take(k) =~= held.take(k));
                    if k < i {
                        assert(amounts[k] == held[k]);
                    } else {
                        assert(held.take(k) =~= held);
                    }
                }
            }
            i = i + 1;
        }
        assert(attestations@.take(i as int) =~= attestations@);
        events
    }
}

/// Whether `amount` is what an attestation costs its runner: for a dissenter
/// what `amount_of` gives for its stake, for others nothing.
pub open spec fn amount_is_owed<F: Fn(Weight) -> Weight>(
    amount_of: F,
    stakes: Map<u64, u64>,
    att: Attestation,
    consensus: Seq<u8>,
    amount: u64,
) -> bool {
    if is_dissent(stakes, att, consensus) {
        call_ensures(amount_of, (stakes[att.runner_id],), amount)
    } else {
        amount == 0
    }
}

/// Slashing never raises a stake, enrolls nobody and expels nobody.
pub proof fn law_stakes_never_grow(
    stakes: Map<u64, u64>,
    consensus: Seq<u8>,
    atts: Seq<Attestation>,
    amounts: Seq<u64>,
    id: u64,
)
    requires
        atts.len() == amounts.len(),
    ensures
        slash_run(stakes, consensus, atts, amounts).stakes.contains_key(id)
            == stakes.contains_key(id),
        stakes.contains_key(id) ==> slash_run(stakes, consensus, atts, amounts).stakes[id]
            <= stakes[id],
    decreases atts.len(),
{
    if atts.len() > 0 {
        law_stakes_never_grow(stakes, consensus, atts.drop_last(), amounts.drop_last(), id);
    }
}

/// The majority is untouched: a runner none of whose attestations diverges
/// from the consensus keeps its stake and produces no event.
pub proof fn law_majority_is_untouched(
    stakes: Map<u64, u64>,
    consensus: Seq<u8>,
    atts: Seq<Attestation>,
    amounts: Seq<u64>,
    id: u64,
)
    requires
        atts.len() == amounts.len(),
        stakes.contains_key(id),
        forall|i: int|
            0 <= i < atts.len() && (#[trigger] atts[i]).runner_id == id
                ==> atts[i].artifact_hash@ == consensus,
    ensures
        slash_run(stakes, consensus, atts, amounts).stakes[id] == stakes[id],
        forall|k: int|
            0 <= k < slash_run(stakes, consensus, atts, amounts).events.len() ==> (
            #[trigger] slash_run(stakes, consensus, atts, amounts).events[k]).runner_id != id,
    decreases atts.len(),
{
    if atts.len() > 0 {
        let less = atts.drop_last();
        assert forall|i: int| 0 <= i < less.len() && (#[trigger] less[i]).runner_id
            == id implies less[i].artifact_hash@ == consensus by {
            assert(less[i] == atts[i]);
        }
        law_majority_is_untouched(stakes, consensus, less, amounts.drop_last(), id);
        assert(atts.last() == atts[atts.len() - 1]);
    }
}

/// Every event says what happened: it took from a runner in the ledger what it
/// says it took, and no more than the runner had.
pub proof fn law_events_balance(runner_id: u64, before: u64, amount: u64)
    ensures
        ({
            let e = slash_event(runner_id, before, amount);
            e.stake_before == before && e.stake_after + e.slashed == before && e.slashed <= amount
                && e.stake_after <= before
        }),
{
}

/// A slash takes the amount, or all there is where the runner has less.
pub proof fn law_slash_takes_the_amount(runner_id: u64, before: u64, amount: u64)
    ensures
        ({
            let e = slash_event(runner_id, before, amount);
            &&& e.runner_id == runner_id
            &&& e.slashed == (if amount <= before {
                amount
            } else {
                before
            })
            &&& e.stake_after == before - e.slashed
        }),
{
}

/// Every dissenter pays: a runner in the ledger whose one attestation diverges
/// from the consensus, and that owes an amount for it, loses that amount, or all
/// it has, and there is an event that says so.
pub proof fn law_every_dissenter_pays(
    stakes: Map<u64, u64>,
    consensus: Seq<u8>,
    atts: Seq<Attestation>,
    amounts: Seq<u64>,
    i: int,
)
    requires
        atts.len() == amounts.len(),
        0 <= i < atts.len(),
        stakes.contains_key(atts[i].runner_id),
        atts[i].artifact_hash@ != consensus,
        forall|j: int|
            0 <= j < atts.len() && j != i ==> (#[trigger] atts[j]).runner_id
                != atts[i].runner_id,
        amounts[i] > 0,
    ensures
        ({
            let run = slash_run(stakes, consensus, atts, amounts);
            let id = atts[i].runner_id;
            let lost = if amounts[i] <= stakes[id] {
                amounts[i]
            } else {
                stakes[id]
            };
            &&& run.stakes.contains_key(id)
            &&& run.stakes[id] == stakes[id] - lost
            &&& exists|k: int|
                {
                    &&& 0 <= k < run.events.len()
                    &&& (#[trigger] run.events[k]).runner_id == id
                    &&& run.events[k].stake_before == stakes[id]
                    &&& run.events[k].stake_after == run.stakes[id]
                    &&& run.events[k].slashed == lost
                }
        }),
    decreases atts.len(),
{
    let n = atts.len() - 1;
    let (less, few) = (atts.drop_last(), amounts.drop_last());
    let id = atts[i].runner_id;
    let early = slash_run(stakes, consensus, less, few);
    let run = slash_run(stakes, consensus, atts, amounts);
    if i < n {
        assert(less[i] == atts[i]);
        assert forall|j: int| 0 <= j < less.len() && j != i implies (
        #[trigger] less[j]).runner_id != less[i].runner_id by {
            assert(less[j] == atts[j]);
        }
        law_every_dissenter_pays(stakes, consensus, less, few, i);
        assert(few[i] == amounts[i]);
        assert(atts[n].runner_id != id);
        let k = choose|k: int|
            {
                &&& 0 <= k < early.events.len()
                &&& (#[trigger] early.events[k]).runner_id == id
                &&& early.events[k].stake_before == stakes[id]
                &&& early.events[k].stake_after == early.stakes[id]
                &&& early.events[k].slashed == (if amounts[i] <= stakes[id] {
                    amounts[i]
                } else {
                    stakes[id]
                })
            };
        assert(run.events[k] == early.events[k]);
    } else {
        assert forall|j: int| 0 <= j < less.len() && (#[trigger] less[j]).runner_id
            == id implies less[j].artifact_hash@ == consensus by {
            assert(less[j] == atts[j]);
        }
        law_majority_is_untouched(stakes, consensus, less, few, id);
        law_stakes_never_grow(stakes, consensus, less, few, id);
        assert(run.events[early.events.len() as int].runner_id == id);
    }
}

/// What a runner owes for its one attestation that diverges is what `amount_of`
/// gives for the stake it came with.
pub proof fn law_dissenter_owes_by_its_stake<F: Fn(Weight) -> Weight>(
    amount_of: F,
    stakes: Map<u64, u64>,
    consensus: Seq<u8>,
    atts: Seq<Attestation>,
    amounts: Seq<u64>,
    i: int,
)
    requires
        atts.len() == amounts.len(),
        0 <= i < atts.len(),
        stakes.contains_key(atts[i].runner_id),
        atts[i].artifact_hash@ != consensus,
        forall|j: int|
            0 <= j < i ==> (#[trigger] atts[j]).runner_id != atts[i].runner_id,
        amount_is_owed(
            amount_of,
            slash_run(stakes, consensus, atts.take(i), amounts.take(i)).stakes,
            atts[i],
            consensus,
            amounts[i],
        ),
    ensures
        call_ensures(amount_of, (stakes[atts[i].runner_id],), amounts[i]),
{
    let less = atts.take(i);
    let id = atts[i].runner_id;
    assert forall|j: int| 0 <= j < less.len() && (#[trigger] less[j]).runner_id
        == id implies less[j].artifact_hash@ == consensus by {
        assert(less[j] == atts[j]);
    }
    law_majority_is_untouched(stakes, consensus, less, amounts.take(i), id);
    law_stakes_never_grow(stakes, consensus, less, amounts.take(i), id);
}

/// There is one event for each attestation that diverges, is of a runner in the
/// ledger and is owed for, and no other; they are in the order of the
/// attestations, and each starts from the stake that the ones before it left.
pub proof fn law_events_are_in_order(
    stakes: Map<u64, u64>,
    consensus: Seq<u8>,
    atts: Seq<Attestation>,
    amounts: Seq<u64>,
) -> (order: Seq<int>)
    requires
        atts.len() == amounts.len(),
    ensures
        order.len() == slash_run(stakes, consensus, atts, amounts).events.len(),
        forall|k: int|
            0 <= k < order.len() ==> {
                let e = slash_run(stakes, consensus, atts, amounts).events[k];
                let i = #[trigger] order[k];
                &&& 0 <= i < atts.len()
                &&& e.runner_id == atts[i].runner_id
                &&& e.stake_before == slash_run(
                    stakes,
                    consensus,
                    atts.take(i),
                    amounts.take(i),
                ).stakes[e.runner_id]
                &&& e.slashed == (if amounts[i] <= e.stake_before {
                    amounts[i]
                } else {
                    e.stake_before
                })
                &&& e.stake_after == e.stake_before - e.slashed
            },
        forall|k: int, l: int| 0 <= k < l < order.len() ==> order[k] < order[l],
        forall|i: int|
            0 <= i < atts.len() ==> (order.contains(i) <==> (#[trigger] atts[i]).artifact_hash@
                != consensus && stakes.contains_key(atts[i].runner_id) && amounts[i] > 0),
    decreases atts.len(),
{
    if atts.len() == 0 {
        Seq::empty()
    } else {
        let n = atts.len() - 1;
        let (less, few) = (atts.drop_last(), amounts.drop_last());
        let early = slash_run(stakes, consensus, less, few);
        let before = law_events_are_in_order(stakes, consensus, less, few);
        law_stakes_never_grow(stakes, consensus, less, few, atts[n].runner_id);
        let owes = is_dissent(early.stakes, atts[n], consensus) && amounts[n] > 0;
        let order = if owes {
            before.push(n)
        } else {
            before
        };
        let run = slash_run(stakes, consensus, atts, amounts);
        assert forall|k: int| 0 <= k < order.len() implies {
            let e = run.events[k];
            let i = #[trigger] order[k];
            &&& 0 <= i < atts.len()
            &&& e.runner_id == atts[i].runner_id
            &&& e.stake_before == slash_run(
                stakes,
                consensus,
                atts.take(i),
                amounts.take(i),
            ).stakes[e.runner_id]
            &&& e.slashed == (if amounts[i] <= e.stake_before {
                amounts[i]
            } else {
                e.stake_before
            })
            &&& e.stake_after == e.stake_before - e.slashed
        } by {
            if k < before.len() {
                assert(order[k] == before[k]);
                assert(run.events[k] == early.events[k]);
                assert(less.take(order[k]) =~= atts.take(order[k]));
                assert(few.take(order[k]) =~= amounts.take(order[k]));
            } else {
                assert(atts.take(n) =~= less);
                assert(amounts.take(n) =~= few);
            }
        }
        assert forall|i: int| 0 <= i < atts.len() implies (order.contains(i) <==> (
        #[trigger] atts[i]).artifact_hash@ != consensus && stakes.contains_key(
            atts[i].runner_id,
        ) && amounts[i] > 0) by {
            if i < n {
                assert(less[i] == atts[i]);
            }
            if before.contains(i) {
                let k = choose|k: int| 0 <= k < before.len() && before[k] == i;
                assert(order[k] == i);
            }
            if owes && i == n {
                assert(order[before.len() as int] == i);
            }
        }
        order
    }
}

} // verus!
