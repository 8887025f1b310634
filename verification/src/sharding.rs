//! Sharded key/value store and routing.
//!
//! The **ownership algebra** of sharding + rebalance: routing determinism,
//! rebalance completeness, per-key ownership uniqueness, and commutativity of
//! operations on different keys. Rebalance is atomic; each shard has a single
//! authoritative state.

use crate::maps::keys_of;
use std::collections::HashMap;
use vstd::prelude::*;

verus! {

broadcast use vstd::std_specs::hash::group_hash_axioms;

/// Key of an entry.
pub type Key = u64;

/// The routing hash of a key: an FNV-like mix followed by a finalization step
/// that breaks the modular patterns of sequential or correlated keys.
pub open spec fn route_hash(key: u64) -> u64 {
    let a = (0xcbf2_9ce4_8422_2325u64 ^ key).wrapping_mul(0x100_0000_01b3);
    let b = (a ^ (a >> 33)).wrapping_mul(0xff51_afd7_ed55_8ccd);
    b ^ (b >> 33)
}

/// The shard that owns a key, among `n` shards.
pub open spec fn route(key: u64, n: nat) -> int {
    (route_hash(key) as usize) as int % n as int
}

/// Shard assignment for a key given a shard count, which must not be zero.
#[must_use]
pub fn shard_of(key: Key, n_shards: usize) -> (r: usize)
    requires
        n_shards > 0,
    ensures
        r == route(key, n_shards as nat),
        r < n_shards,
{
    let mut h: u64 = 0xcbf2_9ce4_8422_2325u64 ^ key;
    h = h.wrapping_mul(0x100_0000_01b3);
    h = h ^ (h >> 33);
    h = h.wrapping_mul(0xff51_afd7_ed55_8ccd);
    h = h ^ (h >> 33);
    (h as usize) % n_shards
}

/// One shard's local state.
#[derive(Debug)]
pub struct Shard {
    entries: HashMap<Key, u64>,
}

impl Clone for Shard {
    fn clone(&self) -> (r: Self)
        ensures
            r@ == self@,
    {
        Shard { entries: self.entries.clone() }
    }
}

impl View for Shard {
    type V = Map<u64, u64>;

    closed spec fn view(&self) -> Map<u64, u64> {
        self.entries@
    }
}

impl Default for Shard {
    fn default() -> (r: Self)
        ensures
            r@ == Map::<u64, u64>::empty(),
    {
        Shard { entries: HashMap::new() }
    }
}

/// Sharded key/value store. Atomically rebalances between shard counts.
#[derive(Debug)]
pub struct ShardedStore {
    shards: Vec<Shard>,
}

impl Clone for ShardedStore {
    fn clone(&self) -> (r: Self)
        ensures
            r@ == self@,
            r.tables().len() == self.tables().len(),
            forall|i: int|
                0 <= i < self.tables().len() ==> (#[trigger] r.tables()[i])@ == self.tables()[i]@,
            self.wf() ==> r.wf(),
    {
        let mut shards: Vec<Shard> = Vec::new();
        let mut i: usize = 0;
        while i < self.shards.len()
            invariant
                i <= self.shards.len(),
                shards.len() == i,
                forall|k: int| 0 <= k < i ==> (#[trigger] shards@[k])@ == self.shards@[k]@,
            decreases self.shards.len() - i,
        {
            shards.push(self.shards[i].clone());
            i = i + 1;
        }
        let r = ShardedStore { shards };
        proof {
            if self.shards@.len() > 0 {
                assert forall|k: u64| #![auto]
                    r@.contains_key(k) == self@.contains_key(k) && (r@.contains_key(k) ==> r@[k]
                        == self@[k]) by {
                    lemma_route_in_range(k, self.shards@.len());
                    assert(r.shards@[route(k, self.shards@.len())]@ == self.shards@[route(
                        k,
                        self.shards@.len(),
                    )]@);
                }
            } else {
                assert(r.shards@ =~= self.shards@);
            }
            assert(r@ =~= self@);
            if self.wf() {
                assert forall|j: int, k: u64|
                    0 <= j < r.shards@.len()
                        && #[trigger] r.shards@[j]@.contains_key(k) implies route(
                    k,
                    r.shards@.len(),
                ) == j by {
                    assert(self.shards@[j]@.contains_key(k));
                }
            }
        }
        r
    }
}

/// The shard tables put together, each key read from the shard that owns it.
pub open spec fn combined(shards: Seq<Shard>) -> Map<u64, u64> {
    Map::new(
        |k: u64| shards[route(k, shards.len())]@.contains_key(k),
        |k: u64| shards[route(k, shards.len())]@[k],
    )
}

/// Whether there is a shard and every key is on the shard that owns it.
pub open spec fn well_routed(shards: Seq<Shard>) -> bool {
    &&& shards.len() > 0
    &&& forall|i: int, k: u64|
        0 <= i < shards.len() && #[trigger] shards[i]@.contains_key(k) ==> route(k, shards.len())
            == i
}

/// The keys of a store of `n` shards that the shard `i` owns.
pub open spec fn owned(store: Map<u64, u64>, n: nat, i: int) -> Set<u64> {
    store.dom().filter(|k: u64| route(k, n) == i)
}

impl View for ShardedStore {
    type V = Map<u64, u64>;

    open spec fn view(&self) -> Map<u64, u64> {
        combined(self.tables())
    }
}

impl ShardedStore {
    /// The tables of the shards.
    pub closed spec fn tables(&self) -> Seq<Shard> {
        self.shards@
    }

    /// Whether every key is on the shard that owns it.
    pub open spec fn wf(&self) -> bool {
        well_routed(self.tables())
    }

    /// Construct a store with `n_shards` empty shards, which must not be zero.
    #[must_use]
    pub fn new(n_shards: usize) -> (r: Self)
        requires
            n_shards > 0,
        ensures
            r.wf(),
            r.tables().len() == n_shards,
            r@ == Map::<u64, u64>::empty(),
    {
        let r = ShardedStore { shards: empty_shards(n_shards) };
        assert(r@ =~= Map::<u64, u64>::empty()) by {
            assert forall|k: u64| !r@.contains_key(k) by {
                lemma_route_in_range(k, n_shards as nat);
            }
        }
        r
    }

    /// Number of shards.
    #[must_use]
    pub fn n_shards(&self) -> (r: usize)
        ensures
            r == self.tables().len(),
    {
        self.shards.len()
    }

    /// Number of entries, which must fit a `usize`.
    #[must_use]
    pub fn len(&self) -> (r: usize)
        requires
            self.wf(),
            self@.dom().len() <= usize::MAX,
        ensures
            r == self@.dom().len(),
    {
        let mut n: usize = 0;
        let mut i: usize = 0;
        let ghost mut seen: Set<u64> = Set::empty();
        proof {
            lemma_finite(self.shards@);
        }
        while i < self.shards.len()
            invariant
                i <= self.shards.len(),
                self.wf(),
                self@.dom().finite(),
                self@.dom().len() <= usize::MAX,
                seen.finite(),
                n == seen.len(),
                forall|k: u64| #[trigger]
                    seen.contains(k) <==> self@.contains_key(k) && route(k, self.shards@.len())
                        < i,
            decreases self.shards.len() - i,
        {
            let ghost here = self.shards@[i as int]@.dom();
            proof {
                assert(seen.disjoint(here)) by {
                    assert forall|k: u64| !(seen.contains(k) && here.contains(k)) by {
                        assert(self.shards@[i as int]@.contains_key(k) ==> route(
                            k,
                            self.shards@.len(),
                        ) == i);
                    }
                }
                vstd::set_lib::lemma_set_disjoint_lens(seen, here);
                let both = seen.union(here);
                assert forall|k: u64| #[trigger]
                    both.contains(k) <==> self@.contains_key(k) && route(k, self.shards@.len())
                        < i + 1 by {
                    assert(self.shards@[i as int]@.contains_key(k) ==> route(
                        k,
                        self.shards@.len(),
                    ) == i);
                    lemma_route_in_range(k, self.shards@.len());
                }
                assert(both.subset_of(self@.dom()));
                vstd::set_lib::lemma_len_subset(both, self@.dom());
                seen = both;
            }
            n = n + self.shards[i].entries.len();
            i = i + 1;
        }
        proof {
            assert forall|k: u64| self@.contains_key(k) implies seen.contains(k) by {
                lemma_route_in_range(k, self.shards@.len());
            }
            assert(seen =~= self@.dom());
        }
        n
    }

    /// Whether there is no entry.
    #[must_use]
    pub fn is_empty(&self) -> (r: bool)
        requires
            self.wf(),
            self@.dom().len() <= usize::MAX,
        ensures
            r == (self@.dom().len() == 0),
    {
        self.len() == 0
    }

    /// Put `(key, value)`. Routes to the shard owning `key` at the current
    /// shard count. Last-write-wins.
    pub fn put(&mut self, key: Key, value: u64)
        requires
            old(self).wf(),
        ensures
            final(self).wf(),
            final(self).tables().len() == old(self).tables().len(),
            final(self)@ == old(self)@.insert(key, value),
    {
        let idx: usize = shard_of(key, self.shards.len());
        put_in_shard(&mut self.shards, idx, key, value);
    }

    /// Get the current value for `key`, if any.
    #[must_use]
    pub fn get(&self, key: Key) -> (r: Option<u64>)
        requires
            self.wf(),
        ensures
            r == (if self@.contains_key(key) {
                Some(self@[key])
            } else {
                None
            }),
    {
        let idx: usize = shard_of(key, self.shards.len());
        match self.shards[idx].entries.get(&key) {
            Some(v) => Some(*v),
            None => None,
        }
    }

    /// Remove `key`, returning its prior value if any.
    pub fn remove(&mut self, key: Key) -> (r: Option<u64>)
        requires
            old(self).wf(),
        ensures
            final(self).wf(),
            final(self).tables().len() == old(self).tables().len(),
            final(self)@ == old(self)@.remove(key),
            r == (if old(self)@.contains_key(key) {
                Some(old(self)@[key])
            } else {
                None
            }),
    {
        let idx: usize = shard_of(key, self.shards.len());
        let ghost before = self.shards@;
        let mut table = self.shards[idx].entries.clone();
        let r = table.remove(&key);
        self.shards.set(idx, Shard { entries: table });
        proof {
            lemma_shard_replaced(before, idx as int, self.shards@[idx as int], key);
            assert(self@ =~= old(self)@.remove(key)) by {
                assert forall|k: u64| #![auto] self@.contains_key(k) == old(self)@.remove(
                    key,
                ).contains_key(k) by {
                    lemma_route_in_range(k, before.len());
                }
            }
        }
        r
    }

    /// Whether `key` is held.
    #[must_use]
    pub fn contains_key(&self, key: Key) -> (r: bool)
        requires
            self.wf(),
        ensures
            r == self@.contains_key(key),
    {
        self.get(key).is_some()
    }

    /// Per-shard entry count: the number of keys that the shard owns. `None` if
    /// `idx >= n_shards`.
    #[must_use]
    pub fn shard_load(&self, idx: usize) -> (r: Option<usize>)
        requires
            self.wf(),
        ensures
            r is Some <==> idx < self.tables().len(),
            r matches Some(n) ==> n == owned(self@, self.tables().len(), idx as int).len(),
    {
        if idx < self.shards.len() {
            proof {
                let n = self.shards@.len();
                assert forall|k: u64|
                    self.shards@[idx as int]@.contains_key(k) <==> #[trigger] owned(
                        self@,
                        n,
                        idx as int,
                    ).contains(k) by {
                    lemma_route_in_range(k, n);
                    assert(self.shards@[idx as int]@.contains_key(k) ==> route(k, n) == idx);
                }
                assert(owned(self@, n, idx as int) =~= self.shards@[idx as int]@.dom());
            }
            Some(self.shards[idx].entries.len())
        } else {
            None
        }
    }

    /// All currently-held keys, each once, unordered.
    #[must_use]
    pub fn all_keys(&self) -> (r: Vec<Key>)
        requires
            self.wf(),
        ensures
            r@.no_duplicates(),
            r@.to_set() == self@.dom(),
            r@.len() == self@.dom().len(),
    {
        let mut out: Vec<Key> = Vec::new();
        let mut i: usize = 0;
        while i < self.shards.len()
            invariant
                i <= self.shards.len(),
                self.wf(),
                out@.no_duplicates(),
                forall|k: u64| #[trigger]
                    out@.contains(k) <==> self@.contains_key(k) && route(k, self.shards@.len())
                        < i,
            decreases self.shards.len() - i,
        {
            let here = keys_of(&self.shards[i].entries);
            let ghost before = out@;
            let mut j: usize = 0;
            while j < here.len()
                invariant
                    j <= here.len(),
                    i < self.shards.len(),
                    self.wf(),
                    here@.no_duplicates(),
                    here@.to_set() == self.shards@[i as int]@.dom(),
                    out@ == before + here@.take(j as int),
                decreases here.len() - j,
            {
                out.push(here[j]);
                assert(out@ =~= before + here@.take(j + 1));
                j = j + 1;
            }
            proof {
                assert(here@.take(j as int) =~= here@);
                lemma_joined(before, here@, self.shards@, i as int, self@);
            }
            i = i + 1;
        }
        proof {
            assert forall|k: u64| out@.to_set().contains(k) <==> self@.contains_key(k) by {
                lemma_route_in_range(k, self.shards@.len());
                assert(out@.to_set().contains(k) <==> out@.contains(k));
            }
            assert(out@.to_set() =~= self@.dom());
            out@.unique_seq_to_set();
        }
        out
    }

    /// Atomic rebalance: `new_n` fresh shards, which must not be zero, with
    /// every entry re-inserted under its new routing.
    pub fn rebalance(&mut self, new_n: usize)
        requires
            old(self).wf(),
            new_n > 0,
        ensures
            final(self).wf(),
            final(self).tables().len() == new_n,
            final(self)@ == old(self)@,
    {
        let keys = self.all_keys();
        let mut next = ShardedStore::new(new_n);
        let mut i: usize = 0;
        while i < keys.len()
            invariant
                i <= keys.len(),
                self.wf(),
                keys@.to_set() == self@.dom(),
                next.wf(),
                next.tables().len() == new_n,
                forall|k: u64| #[trigger]
                    next@.contains_key(k) <==> keys@.take(i as int).contains(k),
                forall|k: u64| #[trigger] next@.contains_key(k) ==> next@[k] == self@[k],
            decreases keys.len() - i,
        {
            let k: u64 = keys[i];
            proof {
                assert(keys@.to_set().contains(k));
                assert forall|x: u64| #[trigger]
                    keys@.take(i + 1).contains(x) <==> keys@.take(i as int).contains(x) || x
                        == k by {
                    crate::maps::lemma_take_next(keys@, i as int, x);
                }
            }
            let ghost before = next@;
            if let Some(v) = self.get(k) {
                next.put(k, v);
            }
            assert forall|x: u64| #[trigger]
                next@.contains_key(x) <==> keys@.take(i + 1).contains(x) by {
                assert(before.contains_key(x) <==> keys@.take(i as int).contains(x));
            }
            i = i + 1;
        }
        proof {
            assert(keys@.take(i as int) =~= keys@);
            assert forall|k: u64| next@.contains_key(k) <==> self@.contains_key(k) by {
                assert(keys@.to_set().contains(k) <==> keys@.contains(k));
            }
            assert(next@ =~= self@);
        }
        self.shards = next.shards;
    }
}

fn empty_shards(n: usize) -> (r: Vec<Shard>)
    ensures
        r@.len() == n,
        forall|i: int| 0 <= i < n ==> (#[trigger] r@[i])@ == Map::<u64, u64>::empty(),
{
    let mut shards: Vec<Shard> = Vec::new();
    let mut i: usize = 0;
    while i < n
        invariant
            i <= n,
            shards.len() == i,
            forall|k: int| 0 <= k < i ==> (#[trigger] shards@[k])@ == Map::<u64, u64>::empty(),
        decreases n - i,
    {
        shards.push(Shard { entries: HashMap::new() });
        i = i + 1;
    }
    shards
}

fn put_in_shard(shards: &mut Vec<Shard>, idx: usize, key: u64, value: u64)
    requires
        well_routed(old(shards)@),
        idx == route(key, old(shards)@.len()),
        idx < old(shards)@.len(),
    ensures
        well_routed(final(shards)@),
        final(shards)@.len() == old(shards)@.len(),
        combined(final(shards)@) == combined(old(shards)@).insert(key, value),
{
    let ghost before = shards@;
    shards[idx].entries.insert(key, value);
    proof {
        assert(shards@ =~= before.update(idx as int, shards@[idx as int]));
        lemma_shard_replaced(before, idx as int, shards@[idx as int], key);
        assert(combined(shards@) =~= combined(before).insert(key, value)) by {
            assert forall|k: u64| #![auto] combined(shards@).contains_key(k) == combined(
                before,
            ).insert(key, value).contains_key(k) by {
                lemma_route_in_range(k, before.len());
            }
        }
    }
}

proof fn lemma_route_in_range(key: u64, n: nat)
    requires
        n > 0,
    ensures
        0 <= route(key, n) < n,
{
    vstd::arithmetic::div_mod::lemma_mod_bound((route_hash(key) as usize) as int, n as int);
}

/// Replacing one shard by a table that differs at a key it owns keeps every
/// key on its owner.
proof fn lemma_shard_replaced(shards: Seq<Shard>, idx: int, table: Shard, key: u64)
    requires
        well_routed(shards),
        0 <= idx < shards.len(),
        route(key, shards.len()) == idx,
        forall|k: u64|
            k != key ==> #[trigger] table@.contains_key(k) == shards[idx]@.contains_key(k),
    ensures
        well_routed(shards.update(idx, table)),
{
    let next = shards.update(idx, table);
    assert forall|i: int, k: u64| 0 <= i < next.len() && #[trigger]
        next[i]@.contains_key(k) implies route(k, next.len()) == i by {
        if i == idx {
            if k != key {
                assert(table@.contains_key(k));
                assert(shards[idx]@.contains_key(k));
            }
        } else {
            assert(shards[i]@.contains_key(k));
        }
    }
}

proof fn lemma_finite(shards: Seq<Shard>)
    requires
        well_routed(shards),
    ensures
        combined(shards).dom().finite(),
{
    let all = lemma_finite_upto(shards, shards.len() as int);
    assert(combined(shards).dom().subset_of(all)) by {
        assert forall|k: u64| combined(shards).contains_key(k) implies all.contains(k) by {
            lemma_route_in_range(k, shards.len());
        }
    }
    vstd::set_lib::lemma_set_subset_finite(all, combined(shards).dom());
}

proof fn lemma_finite_upto(shards: Seq<Shard>, n: int) -> (all: Set<u64>)
    requires
        0 <= n <= shards.len(),
    ensures
        all.finite(),
        forall|i: int, k: u64|
            0 <= i < n && #[trigger] shards[i]@.contains_key(k) ==> all.contains(k),
    decreases n,
{
    if n == 0 {
        Set::empty()
    } else {
        let rest = lemma_finite_upto(shards, n - 1);
        rest.union(shards[n - 1]@.dom())
    }
}

proof fn lemma_joined(
    before: Seq<u64>,
    here: Seq<u64>,
    shards: Seq<Shard>,
    i: int,
    all: Map<u64, u64>,
)
    requires
        well_routed(shards),
        0 <= i < shards.len(),
        all == combined(shards),
        before.no_duplicates(),
        here.no_duplicates(),
        here.to_set() == shards[i]@.dom(),
        forall|k: u64| #[trigger]
            before.contains(k) <==> all.contains_key(k) && route(k, shards.len()) < i,
    ensures
        (before + here).no_duplicates(),
        forall|k: u64| #[trigger]
            (before + here).contains(k) <==> all.contains_key(k) && route(k, shards.len()) < i + 1,
{
    let both = before + here;
    assert forall|k: u64| #[trigger] here.contains(k) <==> all.contains_key(k) && route(
        k,
        shards.len(),
    ) == i by {
        assert(here.to_set().contains(k) <==> here.contains(k));
        assert(shards[i]@.contains_key(k) ==> route(k, shards.len()) == i);
    }
    assert forall|k: u64| #[trigger] both.contains(k) <==> before.contains(k) || here.contains(
        k,
    ) by {
        if before.contains(k) {
            let j = choose|j: int| 0 <= j < before.len() && before[j] == k;
            assert(both[j] == k);
        }
        if here.contains(k) {
            let j = choose|j: int| 0 <= j < here.len() && here[j] == k;
            assert(both[before.len() + j] == k);
        }
        if both.contains(k) {
            let j = choose|j: int| 0 <= j < both.len() && both[j] == k;
            if j < before.len() {
                assert(before[j] == k);
            } else {
                assert(here[j - before.len()] == k);
            }
        }
    }
    assert forall|x: int, y: int| 0 <= x < both.len() && 0 <= y < both.len() && x
        != y implies both[x] != both[y] by {
        if x < before.len() && y >= before.len() {
            assert(before.contains(both[x]));
            assert(here[y - before.len()] == both[y]);
            assert(here.contains(both[y]));
        }
        if y < before.len() && x >= before.len() {
            assert(before.contains(both[y]));
            assert(here[x - before.len()] == both[x]);
            assert(here.contains(both[x]));
        }
        if x >= before.len() && y >= before.len() {
            assert(here[x - before.len()] != here[y - before.len()]);
        }
    }
}

/// Ownership is unique: no key is held by two shards.
pub proof fn law_one_owner_per_key(shards: Seq<Shard>, i: int, j: int, key: u64)
    requires
        well_routed(shards),
        0 <= i < shards.len(),
        0 <= j < shards.len(),
        shards[i]@.contains_key(key),
        shards[j]@.contains_key(key),
    ensures
        i == j,
        i == route(key, shards.len()),
{
}

/// What a store holds, and among how many shards, settles what is on each shard.
pub proof fn law_contents_settle_the_shards(a: Seq<Shard>, b: Seq<Shard>, i: int)
    requires
        well_routed(a),
        well_routed(b),
        a.len() == b.len(),
        combined(a) == combined(b),
        0 <= i < a.len(),
    ensures
        a[i]@ == b[i]@,
{
    assert forall|k: u64| a[i]@.contains_key(k) <==> b[i]@.contains_key(k) by {
        lemma_on_shard(a, i, k);
        lemma_on_shard(b, i, k);
    }
    assert forall|k: u64| a[i]@.contains_key(k) implies a[i]@[k] == b[i]@[k] by {
        lemma_on_shard(a, i, k);
        lemma_on_shard(b, i, k);
    }
    assert(a[i]@ =~= b[i]@);
}

proof fn lemma_on_shard(shards: Seq<Shard>, i: int, k: u64)
    requires
        well_routed(shards),
        0 <= i < shards.len(),
    ensures
        shards[i]@.contains_key(k) <==> combined(shards).contains_key(k) && route(k, shards.len())
            == i,
        shards[i]@.contains_key(k) ==> combined(shards)[k] == shards[i]@[k],
{
    assert(shards[i]@.contains_key(k) ==> route(k, shards.len()) == i);
}

/// Rebalancing twice leaves every shard as the second rebalance alone would:
/// a rebalance keeps what is held, so only the last shard count counts.
pub proof fn law_only_the_last_rebalance_counts(
    before: Seq<Shard>,
    between: Seq<Shard>,
    twice: Seq<Shard>,
    once: Seq<Shard>,
    i: int,
)
    requires
        well_routed(twice),
        well_routed(once),
        combined(between) == combined(before),
        combined(twice) == combined(between),
        combined(once) == combined(before),
        twice.len() == once.len(),
        0 <= i < once.len(),
    ensures
        twice[i]@ == once[i]@,
{
    law_contents_settle_the_shards(twice, once, i);
}

/// A put of a new key raises the load of the shard that owns it by one, and no
/// other load; a put of a key that is held raises none.
pub proof fn law_put_raises_one_load(
    store: Map<u64, u64>,
    n: nat,
    key: u64,
    value: u64,
    i: int,
)
    requires
        store.dom().finite(),
    ensures
        owned(store.insert(key, value), n, i).len() == owned(store, n, i).len() + if route(key, n)
            == i && !store.contains_key(key) {
            1int
        } else {
            0int
        },
        store.insert(key, value).dom().len() == store.dom().len() + if store.contains_key(key) {
            0int
        } else {
            1int
        },
{
    let (old_keys, new_keys) = (owned(store, n, i), owned(store.insert(key, value), n, i));
    if route(key, n) == i {
        assert(new_keys =~= old_keys.insert(key));
    } else {
        assert(new_keys =~= old_keys);
    }
}

/// A removal lowers the load of the shard that owned the key by one, and no
/// other load.
pub proof fn law_remove_lowers_one_load(store: Map<u64, u64>, n: nat, key: u64, i: int)
    requires
        store.dom().finite(),
    ensures
        owned(store.remove(key), n, i).len() == owned(store, n, i).len() - if route(key, n) == i
            && store.contains_key(key) {
            1int
        } else {
            0int
        },
{
    let (old_keys, new_keys) = (owned(store, n, i), owned(store.remove(key), n, i));
    if route(key, n) == i {
        assert(new_keys =~= old_keys.remove(key));
    } else {
        assert(new_keys =~= old_keys);
    }
}

/// What a store holds is finite.
pub proof fn law_contents_are_finite(shards: Seq<Shard>)
    requires
        well_routed(shards),
    ensures
        combined(shards).dom().finite(),
{
    lemma_finite(shards);
}

/// The load of a shard is the number of all keys that are routed to it.
pub proof fn law_load_counts_the_routed_keys(
    store: Map<u64, u64>,
    keys: Seq<u64>,
    n: nat,
    i: int,
)
    requires
        keys.no_duplicates(),
        keys.to_set() == store.dom(),
    ensures
        owned(store, n, i).len() == keys.filter(|k: u64| route(k, n) == i).len(),
{
    lemma_routed_count(keys, n, i);
    assert(owned(store, n, i) =~= keys.to_set().filter(|k: u64| route(k, n) == i));
}

proof fn lemma_routed_count(keys: Seq<u64>, n: nat, i: int)
    requires
        keys.no_duplicates(),
    ensures
        keys.to_set().finite(),
        keys.to_set().filter(|k: u64| route(k, n) == i).len() == keys.filter(
            |k: u64| route(k, n) == i,
        ).len(),
    decreases keys.len(),
{
    reveal(Seq::filter);
    let mine = |k: u64| route(k, n) == i;
    if keys.len() == 0 {
        assert(keys.to_set() =~= Set::empty());
        assert(keys.to_set().filter(mine) =~= Set::empty());
    } else {
        let less = keys.drop_last();
        let last = keys.last();
        lemma_routed_count(less, n, i);
        assert(keys =~= less.push(last));
        assert(!less.contains(last));
        assert forall|k: u64| keys.to_set().contains(k) <==> less.to_set().insert(last).contains(
            k,
        ) by {
            crate::maps::lemma_take_next(keys, keys.len() - 1, k);
            assert(keys.take(keys.len() - 1) =~= less);
            assert(keys.take(keys.len() as int) =~= keys);
        }
        assert(keys.to_set() =~= less.to_set().insert(last));
        if mine(last) {
            assert(keys.to_set().filter(mine) =~= less.to_set().filter(mine).insert(last));
            assert(!less.to_set().filter(mine).contains(last));
        } else {
            assert(keys.to_set().filter(mine) =~= less.to_set().filter(mine));
        }
    }
}

/// Puts on different keys commute.
pub proof fn law_puts_commute(store: Map<u64, u64>, k1: u64, v1: u64, k2: u64, v2: u64)
    requires
        k1 != k2,
    ensures
        store.insert(k1, v1).insert(k2, v2) == store.insert(k2, v2).insert(k1, v1),
{
    assert(store.insert(k1, v1).insert(k2, v2) =~= store.insert(k2, v2).insert(k1, v1));
}

/// A put and a removal on different keys commute.
pub proof fn law_put_and_remove_commute(store: Map<u64, u64>, k1: u64, v1: u64, k2: u64)
    requires
        k1 != k2,
    ensures
        store.insert(k1, v1).remove(k2) == store.remove(k2).insert(k1, v1),
{
    assert(store.insert(k1, v1).remove(k2) =~= store.remove(k2).insert(k1, v1));
}

} // verus!
