//! Sums of natural numbers over finite sets.

use vstd::prelude::*;

verus! {

/// The sum of `f` over the finite set `s`.
pub open spec fn sum_over(s: Set<u64>, f: spec_fn(u64) -> nat) -> nat
    decreases s.len(),
{
    if s.finite() && s.len() > 0 {
        let a = s.choose();
        f(a) + sum_over(s.remove(a), f)
    } else {
        0
    }
}

/// Taking one element out of a set takes its value out of the sum.
pub proof fn lemma_sum_remove(s: Set<u64>, f: spec_fn(u64) -> nat, a: u64)
    requires
        s.finite(),
        s.contains(a),
    ensures
        sum_over(s, f) == f(a) + sum_over(s.remove(a), f),
    decreases s.len(),
{
    let b = s.choose();
    if b != a {
        lemma_sum_remove(s.remove(b), f, a);
        lemma_sum_remove(s.remove(a), f, b);
        assert(s.remove(b).remove(a) =~= s.remove(a).remove(b));
    }
}

/// Adding a new element to a set adds its value to the sum.
pub proof fn lemma_sum_insert(s: Set<u64>, f: spec_fn(u64) -> nat, a: u64)
    requires
        s.finite(),
        !s.contains(a),
    ensures
        sum_over(s.insert(a), f) == f(a) + sum_over(s, f),
{
    lemma_sum_remove(s.insert(a), f, a);
    assert(s.insert(a).remove(a) =~= s);
}

/// A part of a set sums to no more than the whole.
pub proof fn lemma_sum_subset(s: Set<u64>, t: Set<u64>, f: spec_fn(u64) -> nat)
    requires
        t.finite(),
        s.subset_of(t),
    ensures
        s.finite(),
        sum_over(s, f) <= sum_over(t, f),
    decreases t.len(),
{
    vstd::set_lib::lemma_set_subset_finite(t, s);
    if s.len() > 0 {
        let a = s.choose();
        assert(s.contains(a));
        assert(t.contains(a));
        lemma_sum_remove(s, f, a);
        lemma_sum_remove(t, f, a);
        lemma_sum_subset(s.remove(a), t.remove(a), f);
    }
}

/// The sum over two disjoint sets together is the sum of their sums.
pub proof fn lemma_sum_disjoint(s: Set<u64>, t: Set<u64>, f: spec_fn(u64) -> nat)
    requires
        s.finite(),
        t.finite(),
        s.disjoint(t),
    ensures
        sum_over(s.union(t), f) == sum_over(s, f) + sum_over(t, f),
    decreases s.len(),
{
    if s.len() > 0 {
        let a = s.choose();
        assert(s.contains(a));
        assert(!t.contains(a));
        lemma_sum_disjoint(s.remove(a), t, f);
        assert(s.remove(a).union(t) =~= s.union(t).remove(a));
        assert(s.union(t).contains(a));
        lemma_sum_remove(s.union(t), f, a);
    } else {
        assert(s.union(t) =~= t);
    }
}

} // verus!
