//! Walking maps that are keyed by an integer.

use std::collections::HashMap;
use vstd::prelude::*;

verus! {

broadcast use vstd::std_specs::hash::group_hash_axioms;

/// Whether a sequence of keys is in strictly ascending order.
pub open spec fn ascending(s: Seq<u64>) -> bool {
    forall|i: int, j: int| 0 <= i < j < s.len() ==> s[i] < s[j]
}

/// One more element of a sequence taken is one more element held.
pub proof fn lemma_take_next<A>(s: Seq<A>, n: int, x: A)
    requires
        0 <= n < s.len(),
    ensures
        s.take(n + 1).contains(x) <==> s.take(n).contains(x) || x == s[n],
{
    let (a, b) = (s.take(n), s.take(n + 1));
    if a.contains(x) {
        let i = choose|i: int| 0 <= i < a.len() && a[i] == x;
        assert(b[i] == x);
    }
    assert(b[n] == s[n]);
    if b.contains(x) && x != s[n] {
        let i = choose|i: int| 0 <= i < b.len() && b[i] == x;
        assert(a[i] == x);
    }
}

/// Every key of the map, each once, in the order in which the map is walked.
pub fn keys_of<V>(m: &HashMap<u64, V>) -> (r: Vec<u64>)
    ensures
        r@.no_duplicates(),
        r@.to_set() == m@.dom(),
        r@.len() == m@.dom().len(),
{
    let mut out: Vec<u64> = Vec::new();
    for k in it: m.keys()
        invariant
            out@ == it.seq().unref().take(it.index()),
            it.seq().unref().to_set() == m@.dom(),
            it.seq().no_duplicates(),
            it.seq().len() == m@.dom().len(),
            it.index() == it.seq().len() ==> out@.to_set() == m@.dom(),
    {
        out.push(*k);
        assert(out@ =~= it.seq().unref().take(it.index() + 1));
        assert(it.index() + 1 == it.seq().len() ==> out@ =~= it.seq().unref());
    }
    out
}

/// Every key of the map, in ascending order.
pub fn sorted_keys_of<V>(m: &HashMap<u64, V>) -> (r: Vec<u64>)
    ensures
        ascending(r@),
        r@.to_set() == m@.dom(),
        r@.len() == m@.dom().len(),
{
    let keys = keys_of(m);
    sort_keys(&keys)
}

/// The keys of `keys`, which holds none twice, in ascending order.
pub fn sort_keys(keys: &Vec<u64>) -> (r: Vec<u64>)
    requires
        keys@.no_duplicates(),
    ensures
        ascending(r@),
        r@.to_set() == keys@.to_set(),
        r@.len() == keys@.len(),
{
    let mut out: Vec<u64> = Vec::new();
    let mut n: usize = 0;
    while n < keys.len()
        invariant
            n <= keys.len(),
            keys@.no_duplicates(),
            ascending(out@),
            out@.to_set() =~= keys@.take(n as int).to_set(),
            out.len() == n,
        decreases keys.len() - n,
    {
        let k: u64 = keys[n];
        let mut at: usize = 0;
        while at < out.len() && out[at] < k
            invariant
                at <= out.len(),
                forall|i: int| 0 <= i < at ==> out@[i] < k,
            decreases out.len() - at,
        {
            at = at + 1;
        }
        let ghost before = out@;
        proof {
            assert forall|i: int| at <= i < out@.len() implies k < out@[i] by {
                assert(out@.to_set().contains(out@[i]));
                let p = keys@.take(n as int);
                assert(p.to_set().contains(out@[i]));
                let j = choose|j: int| 0 <= j < p.len() && p[j] == out@[i];
                assert(keys@[j] != keys@[n as int]);
            }
        }
        out.insert(at, k);
        proof {
            assert(out@ =~= before.insert(at as int, k));
            assert forall|x: u64| #[trigger] out@.contains(x) == (before.contains(x) || x == k) by {
                if before.contains(x) {
                    let i = choose|i: int| 0 <= i < before.len() && before[i] == x;
                    assert(out@[if i < at { i } else { i + 1 }] == x);
                }
                assert(out@[at as int] == k);
            }
            assert forall|x: u64| out@.to_set().contains(x) == keys@.take(n + 1).to_set().contains(x) by {
                lemma_take_next(keys@, n as int, x);
                assert(out@.to_set().contains(x) == out@.contains(x));
                assert(before.to_set().contains(x) == before.contains(x));
                assert(keys@.take(n as int).to_set().contains(x) == keys@.take(n as int).contains(x));
                assert(keys@.take(n + 1).to_set().contains(x) == keys@.take(n + 1).contains(x));
            }
        }
        n = n + 1;
    }
    proof {
        assert(keys@.take(n as int) =~= keys@);
    }
    out
}

/// An ascending sequence is determined by the set of its elements.
pub proof fn law_ascending_list_is_unique(a: Seq<u64>, b: Seq<u64>)
    requires
        ascending(a),
        ascending(b),
        a.to_set() == b.to_set(),
    ensures
        a == b,
    decreases a.len(),
{
    if a.len() == 0 {
        if b.len() > 0 {
            assert(b.to_set().contains(b[0]));
            assert(a.to_set().contains(b[0]));
        }
        assert(a =~= b);
    } else {
        assert(a.to_set().contains(a.last()));
        assert(b.to_set().contains(a.last()));
        let j = choose|j: int| 0 <= j < b.len() && b[j] == a.last();
        assert(b.to_set().contains(b.last()));
        assert(a.to_set().contains(b.last()));
        let i = choose|i: int| 0 <= i < a.len() && a[i] == b.last();
        assert(a[i] <= a.last());
        assert(b[j] <= b.last());
        assert(a.last() == b.last());
        assert forall|x: u64| a.drop_last().to_set().contains(x) == b.drop_last().to_set().contains(x) by {
            lemma_drop_last_set(a, x);
            lemma_drop_last_set(b, x);
        }
        assert(a.drop_last().to_set() =~= b.drop_last().to_set());
        law_ascending_list_is_unique(a.drop_last(), b.drop_last());
        assert(a =~= a.drop_last().push(a.last()));
        assert(b =~= b.drop_last().push(b.last()));
    }
}

proof fn lemma_drop_last_set(a: Seq<u64>, x: u64)
    requires
        ascending(a),
        a.len() > 0,
    ensures
        a.drop_last().to_set().contains(x) == (a.to_set().contains(x) && x != a.last()),
{
    if a.drop_last().to_set().contains(x) {
        let i = choose|i: int| 0 <= i < a.len() - 1 && a.drop_last()[i] == x;
        assert(a[i] == x);
    }
    if a.to_set().contains(x) && x != a.last() {
        let i = choose|i: int| 0 <= i < a.len() && a[i] == x;
        assert(a.drop_last()[i] == x);
    }
}

} // verus!
