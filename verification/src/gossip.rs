//! Anti-entropy gossip over a last-writer-wins (LWW) register CRDT.
//!
//! Pure state-machine algebra, no networking. The merge function is
//! associative, commutative, and idempotent; pairwise gossip rounds using
//! this merge drive divergent replicas to a shared fixpoint in bounded time
//! under no new writes.
//!
//! An entry is `(value, timestamp)` with LWW on timestamp; ties are broken by
//! max-value to keep merge deterministic.

use crate::maps::keys_of;
use std::collections::HashMap;
use vstd::prelude::*;

verus! {

broadcast use vstd::std_specs::hash::group_hash_axioms;

/// Register name.
pub type Key = u64;

/// Logical time of a write.
pub type Timestamp = u64;

/// One value, tagged with a logical timestamp for LWW resolution.
#[derive(Clone, Copy, Debug, PartialEq, Eq, Structural)]
pub struct Entry {
    /// The value written.
    pub value: u64,
    /// When it was written.
    pub timestamp: Timestamp,
}

/// Per-node state: one LWW entry per key.
#[derive(Debug, PartialEq, Eq)]
pub struct NodeState {
    entries: HashMap<Key, Entry>,
}

impl View for NodeState {
    type V = Map<u64, Entry>;

    closed spec fn view(&self) -> Map<u64, Entry> {
        self.entries@
    }
}

impl Default for NodeState {
    fn default() -> (r: Self)
        ensures
            r@ == Map::<u64, Entry>::empty(),
    {
        NodeState { entries: HashMap::new() }
    }
}

impl Clone for NodeState {
    fn clone(&self) -> (r: Self)
        ensures
            r@ == self@,
    {
        NodeState { entries: self.entries.clone() }
    }
}

/// Whether `a` wins over `b`: it is later, or as late with a value no smaller.
pub open spec fn dominates(a: Entry, b: Entry) -> bool {
    a.timestamp > b.timestamp || (a.timestamp == b.timestamp && a.value >= b.value)
}

/// The entry that survives of two.
pub open spec fn winner(a: Entry, b: Entry) -> Entry {
    if dominates(a, b) {
        a
    } else {
        b
    }
}

/// A node's state after one write.
pub open spec fn written(state: Map<u64, Entry>, key: u64, entry: Entry) -> Map<u64, Entry> {
    state.insert(
        key,
        if state.contains_key(key) {
            winner(state[key], entry)
        } else {
            entry
        },
    )
}

/// Two states merged: every key of either, with the entry that wins.
pub open spec fn merged(a: Map<u64, Entry>, b: Map<u64, Entry>) -> Map<u64, Entry> {
    Map::new(
        |k: u64| a.contains_key(k) || b.contains_key(k),
        |k: u64|
            if !b.contains_key(k) {
                a[k]
            } else if !a.contains_key(k) {
                b[k]
            } else {
                winner(a[k], b[k])
            },
    )
}

impl NodeState {
    /// A node that holds nothing.
    #[must_use]
    pub fn new() -> (r: Self)
        ensures
            r@ == Map::<u64, Entry>::empty(),
    {
        NodeState { entries: HashMap::new() }
    }

    /// Apply a local write. LWW on timestamp; tie-broken by max-value.
    pub fn write(&mut self, key: Key, value: u64, timestamp: Timestamp)
        ensures
            final(self)@ == written(old(self)@, key, (Entry { value, timestamp })),
    {
        let incoming = Entry { value, timestamp };
        let keep_existing = match self.entries.get(&key) {
            Some(existing) => entry_dominates(*existing, incoming),
            None => false,
        };
        if !keep_existing {
            self.entries.insert(key, incoming);
        }
        assert(self@ =~= written(old(self)@, key, incoming));
    }

    /// The entry under `key`.
    pub fn get(&self, key: Key) -> (r: Option<Entry>)
        ensures
            r == (if self@.contains_key(key) {
                Some(self@[key])
            } else {
                None
            }),
    {
        match self.entries.get(&key) {
            Some(e) => Some(*e),
            None => None,
        }
    }

    /// Number of keys.
    #[must_use]
    pub fn len(&self) -> (r: usize)
        ensures
            r == self@.dom().len(),
    {
        self.entries.len()
    }

    /// Whether no key is held.
    #[must_use]
    pub fn is_empty(&self) -> (r: bool)
        ensures
            r == (self@.dom().len() == 0),
    {
        self.entries.len() == 0
    }

    /// Every key, each once, in no particular order.
    #[must_use]
    pub fn keys(&self) -> (r: Vec<Key>)
        ensures
            r@.no_duplicates(),
            r@.to_set() == self@.dom(),
    {
        keys_of(&self.entries)
    }
}

/// Does `a` dominate `b` (i.e., should a merge of `b` into `a` keep `a`)?
/// Non-strict on a full tie, which makes the relation total.
fn entry_dominates(a: Entry, b: Entry) -> (r: bool)
    ensures
        r == dominates(a, b),
{
    if a.timestamp != b.timestamp {
        a.timestamp > b.timestamp
    } else {
        a.value >= b.value
    }
}

/// Merge two node states.
#[must_use]
pub fn merge(a: &NodeState, b: &NodeState) -> (r: NodeState)
    ensures
        r@ == merged(a@, b@),
{
    let mut out = a.clone();
    let keys = keys_of(&b.entries);
    let mut i: usize = 0;
    while i < keys.len()
        invariant
            i <= keys.len(),
            keys@.no_duplicates(),
            keys@.to_set() == b@.dom(),
            out@ =~= merged(
                a@,
                b@.restrict(keys@.take(i as int).to_set()),
            ),
        decreases keys.len() - i,
    {
        let k: u64 = keys[i];
        let ghost seen = keys@.take(i as int);
        let ghost next = keys@.take(i + 1);
        proof {
            assert(keys@.to_set().contains(k));
            assert forall|x: u64| #[trigger] next.to_set().contains(x) == (seen.to_set().contains(x)
                || x == k) by {
                crate::maps::lemma_take_next(keys@, i as int, x);
                assert(next.to_set().contains(x) == next.contains(x));
                assert(seen.to_set().contains(x) == seen.contains(x));
            }
            assert(!seen.contains(k));
            assert(!seen.to_set().contains(k));
        }
        if let Some(entry_b) = b.entries.get(&k) {
            let entry_b: Entry = *entry_b;
            let won = match out.entries.get(&k) {
                Some(entry_a) => {
                    let entry_a: Entry = *entry_a;
                    if entry_dominates(entry_a, entry_b) {
                        entry_a
                    } else {
                        entry_b
                    }
                },
                None => entry_b,
            };
            out.entries.insert(k, won);
        }
        i = i + 1;
    }
    proof {
        assert(keys@.take(i as int) =~= keys@);
        assert(b@.restrict(b@.dom()) =~= b@);
    }
    out
}

/// `merge(a, b) == merge(b, a)`.
pub proof fn law_merge_commutative(a: Map<u64, Entry>, b: Map<u64, Entry>)
    ensures
        merged(a, b) == merged(b, a),
{
    assert(merged(a, b) =~= merged(b, a));
}

/// `merge(a, merge(b, c)) == merge(merge(a, b), c)`.
pub proof fn law_merge_associative(a: Map<u64, Entry>, b: Map<u64, Entry>, c: Map<u64, Entry>)
    ensures
        merged(a, merged(b, c)) == merged(merged(a, b), c),
{
    assert(merged(a, merged(b, c)) =~= merged(merged(a, b), c));
}

/// `merge(a, a) == a`.
pub proof fn law_merge_idempotent(a: Map<u64, Entry>)
    ensures
        merged(a, a) == a,
{
    assert(merged(a, a) =~= a);
}

/// A write is the merge of a state that holds it alone.
pub proof fn law_write_is_merge(a: Map<u64, Entry>, key: u64, entry: Entry)
    ensures
        written(a, key, entry) == merged(a, map![key => entry]),
{
    assert(written(a, key, entry) =~= merged(a, map![key => entry]));
}

/// The order of two writes does not matter.
pub proof fn law_writes_commute(
    a: Map<u64, Entry>,
    key1: u64,
    entry1: Entry,
    key2: u64,
    entry2: Entry,
)
    ensures
        written(written(a, key1, entry1), key2, entry2) == written(
            written(a, key2, entry2),
            key1,
            entry1,
        ),
{
    assert(written(written(a, key1, entry1), key2, entry2) =~= written(
        written(a, key2, entry2),
        key1,
        entry1,
    ));
}

/// What a node holds, only a winner takes away: after a merge each key of
/// either side is held, with an entry that dominates both.
pub proof fn law_merge_is_upper_bound(a: Map<u64, Entry>, b: Map<u64, Entry>, key: u64)
    requires
        a.contains_key(key) || b.contains_key(key),
    ensures
        merged(a, b).contains_key(key),
        a.contains_key(key) ==> dominates(merged(a, b)[key], a[key]),
        b.contains_key(key) ==> dominates(merged(a, b)[key], b[key]),
{
}

/// A pairwise exchange brings two nodes to one state, and a further one
/// changes nothing: the fixpoint of gossip without new writes.
pub proof fn law_exchange_converges(a: Map<u64, Entry>, b: Map<u64, Entry>)
    ensures
        merged(a, b) == merged(b, a),
        merged(merged(a, b), b) == merged(a, b),
        merged(merged(a, b), a) == merged(a, b),
        merged(merged(a, b), merged(b, a)) == merged(a, b),
{
    law_merge_commutative(a, b);
    assert(merged(merged(a, b), b) =~= merged(a, b));
    assert(merged(merged(a, b), a) =~= merged(a, b));
    law_merge_idempotent(merged(a, b));
}

/// Merging invents nothing: what is held under a key afterwards was held there
/// before, by one side or the other, and a key that neither held stays free.
pub proof fn law_merge_invents_nothing(a: Map<u64, Entry>, b: Map<u64, Entry>, key: u64)
    ensures
        merged(a, b).contains_key(key) <==> a.contains_key(key) || b.contains_key(key),
        merged(a, b).contains_key(key) ==> (a.contains_key(key) && merged(a, b)[key] == a[key])
            || (b.contains_key(key) && merged(a, b)[key] == b[key]),
{
}

/// The later write wins, and of two at one time the larger value; a write touches
/// no other key.
pub proof fn law_later_write_wins(a: Map<u64, Entry>, key: u64, entry: Entry, other: u64)
    ensures
        written(a, key, entry).contains_key(key),
        !a.contains_key(key) ==> written(a, key, entry)[key] == entry,
        a.contains_key(key) && entry.timestamp > a[key].timestamp ==> written(a, key, entry)[key]
            == entry,
        a.contains_key(key) && entry.timestamp < a[key].timestamp ==> written(a, key, entry)[key]
            == a[key],
        a.contains_key(key) && entry.timestamp == a[key].timestamp ==> written(
            a,
            key,
            entry,
        )[key].timestamp == entry.timestamp && written(a, key, entry)[key].value == (
        if entry.value > a[key].value {
            entry.value
        } else {
            a[key].value
        }),
        other != key ==> written(a, key, entry).contains_key(other) == a.contains_key(other),
        other != key && a.contains_key(other) ==> written(a, key, entry)[other] == a[other],
{
}

} // verus!
