//! Comparing and joining byte strings.

use vstd::prelude::*;

verus! {

/// Whether two byte strings are equal.
pub fn bytes_eq(a: &[u8], b: &[u8]) -> (r: bool)
    ensures
        r == (a@ == b@),
{
    if a.len() != b.len() {
        return false;
    }
    let mut i: usize = 0;
    while i < a.len()
        invariant
            i <= a.len(),
            a.len() == b.len(),
            forall|k: int| 0 <= k < i ==> a@[k] == b@[k],
        decreases a.len() - i,
    {
        if a[i] != b[i] {
            assert(a@[i as int] != b@[i as int]);
            return false;
        }
        i = i + 1;
    }
    assert(a@ =~= b@);
    true
}

/// Whether `a` comes before `b` in lexicographic order.
pub open spec fn lex_less(a: Seq<u8>, b: Seq<u8>) -> bool {
    exists|n: int| #[trigger] splits_at(a, b, n)
}

/// Whether `a` and `b` agree up to `n`, where `a` ends first or holds the smaller byte.
pub open spec fn splits_at(a: Seq<u8>, b: Seq<u8>, n: int) -> bool {
    &&& 0 <= n <= a.len()
    &&& n < b.len()
    &&& forall|k: int| 0 <= k < n ==> a[k] == b[k]
    &&& n < a.len() ==> a[n] < b[n]
}

/// Whether `a` comes before `b` in lexicographic order.
pub fn bytes_less(a: &[u8], b: &[u8]) -> (r: bool)
    ensures
        r == lex_less(a@, b@),
{
    let mut i: usize = 0;
    while i < a.len() && i < b.len() && a[i] == b[i]
        invariant
            i <= a.len(),
            i <= b.len(),
            forall|k: int| 0 <= k < i ==> a@[k] == b@[k],
        decreases a.len() - i,
    {
        i = i + 1;
    }
    let r = i < b.len() && (i == a.len() || a[i] < b[i]);
    proof {
        if r {
            assert(splits_at(a@, b@, i as int));
        } else if lex_less(a@, b@) {
            let n = choose|n: int| splits_at(a@, b@, n);
            assert(n >= i) by {
                if n < i {
                    assert(a@[n] == b@[n]);
                }
            }
            if n > i {
                assert(a@[i as int] == b@[i as int]);
            }
        }
    }
    r
}

/// No byte string comes before itself.
pub proof fn lemma_lex_irreflexive(a: Seq<u8>)
    ensures
        !lex_less(a, a),
{
}

/// The lexicographic order is transitive.
pub proof fn lemma_lex_transitive(a: Seq<u8>, b: Seq<u8>, c: Seq<u8>)
    requires
        lex_less(a, b),
        lex_less(b, c),
    ensures
        lex_less(a, c),
{
    let m = choose|n: int| splits_at(a, b, n);
    let n = choose|n: int| splits_at(b, c, n);
    let k = if m <= n { m } else { n };
    assert(splits_at(a, c, k));
}

/// The first byte that differs decides; of a byte string and a longer one that
/// begins with it, the shorter comes first.
pub proof fn law_first_difference_decides(common: Seq<u8>, a: Seq<u8>, b: Seq<u8>)
    requires
        a.len() > 0 && b.len() > 0 ==> a[0] != b[0],
    ensures
        lex_less(common + a, common + b) <==> b.len() > 0 && (a.len() == 0 || a[0] < b[0]),
{
    let (x, y) = (common + a, common + b);
    let n = common.len() as int;
    if b.len() > 0 && (a.len() == 0 || a[0] < b[0]) {
        assert(splits_at(x, y, n));
    }
    if lex_less(x, y) {
        let m = choose|m: int| splits_at(x, y, m);
        if m < n {
            assert(x[m] == y[m]);
        }
        if m > n {
            assert(x[n] == a[0] && y[n] == b[0]);
        }
    }
}

/// Of two different byte strings one comes before the other.
pub proof fn lemma_lex_total(a: Seq<u8>, b: Seq<u8>)
    ensures
        lex_less(a, b) || lex_less(b, a) || a == b,
    decreases a.len(),
{
    if a.len() == 0 {
        if b.len() == 0 {
            assert(a =~= b);
        } else {
            assert(splits_at(a, b, 0));
        }
    } else if b.len() == 0 {
        assert(splits_at(b, a, 0));
    } else if a[0] < b[0] {
        assert(splits_at(a, b, 0));
    } else if b[0] < a[0] {
        assert(splits_at(b, a, 0));
    } else {
        let (ta, tb) = (a.skip(1), b.skip(1));
        lemma_lex_total(ta, tb);
        if lex_less(ta, tb) {
            let n = choose|n: int| splits_at(ta, tb, n);
            assert forall|k: int| 0 <= k < n + 1 implies a[k] == b[k] by {
                if k > 0 {
                    assert(ta[k - 1] == tb[k - 1]);
                }
            }
            assert(splits_at(a, b, n + 1));
        } else if lex_less(tb, ta) {
            let n = choose|n: int| splits_at(tb, ta, n);
            assert forall|k: int| 0 <= k < n + 1 implies a[k] == b[k] by {
                if k > 0 {
                    assert(ta[k - 1] == tb[k - 1]);
                }
            }
            assert(splits_at(b, a, n + 1));
        } else {
            assert forall|k: int| 0 <= k < a.len() implies a[k] == b[k] by {
                if k > 0 {
                    assert(ta[k - 1] == tb[k - 1]);
                }
            }
            assert(a =~= b);
        }
    }
}

/// A copy of a byte string.
pub fn copy_bytes(a: &[u8]) -> (r: Vec<u8>)
    ensures
        r@ == a@,
{
    let mut r: Vec<u8> = Vec::new();
    append_bytes(&mut r, a);
    assert(r@ =~= a@);
    r
}

/// Appends a byte string to a vector.
pub fn append_bytes(out: &mut Vec<u8>, a: &[u8])
    ensures
        final(out)@ == old(out)@ + a@,
{
    let mut i: usize = 0;
    while i < a.len()
        invariant
            i <= a.len(),
            out@ == old(out)@ + a@.take(i as int),
        decreases a.len() - i,
    {
        out.push(a[i]);
        assert(a@.take(i + 1) =~= a@.take(i as int).push(a@[i as int]));
        assert(out@ =~= old(out)@ + a@.take(i + 1));
        i = i + 1;
    }
    assert(a@.take(i as int) =~= a@);
}

// ── Little-endian numbers ──────────────────────────────────────────────────
/// A number in `width` bytes, least significant first.
pub open spec fn le_of(n: nat, width: nat) -> Seq<u8>
    decreases width,
{
    if width == 0 {
        Seq::empty()
    } else {
        seq![(n % 256) as u8] + le_of(n / 256, (width - 1) as nat)
    }
}

/// The number that bytes write, least significant first.
pub open spec fn le_value(s: Seq<u8>) -> nat
    decreases s.len(),
{
    if s.len() == 0 {
        0
    } else {
        s[0] as nat + 256 * le_value(s.skip(1))
    }
}

/// Appends the lowest `width` bytes of a number, least significant first.
pub fn append_le(out: &mut Vec<u8>, n: u128, width: usize)
    ensures
        final(out)@ == old(out)@ + le_of(n as nat, width as nat),
{
    let mut rest: u128 = n;
    let mut i: usize = 0;
    assert(out@ + le_of(rest as nat, width as nat) =~= old(out)@ + le_of(
        n as nat,
        width as nat,
    ));
    while i < width
        invariant
            i <= width,
            out@ + le_of(rest as nat, (width - i) as nat) == old(out)@ + le_of(
                n as nat,
                width as nat,
            ),
        decreases width - i,
    {
        let ghost before = out@;
        out.push((rest % 256) as u8);
        assert(out@ + le_of(rest as nat / 256, (width - i - 1) as nat) =~= before + le_of(
            rest as nat,
            (width - i) as nat,
        ));
        rest = rest / 256;
        i = i + 1;
    }
    assert(out@ + le_of(rest as nat, 0) =~= out@);
}

/// The number that up to eight bytes write, least significant first.
pub fn read_le(s: &[u8]) -> (r: u64)
    requires
        s@.len() <= 8,
    ensures
        r == le_value(s@),
{
    let mut v: u64 = 0;
    let mut i: usize = s.len();
    assert(s@.skip(i as int) =~= Seq::<u8>::empty());
    proof {
        lemma_le_bound(s@);
    }
    while i > 0
        invariant
            i <= s@.len() <= 8,
            v == le_value(s@.skip(i as int)),
        decreases i,
    {
        i = i - 1;
        proof {
            assert(s@.skip(i as int).skip(1) =~= s@.skip(i + 1));
            lemma_le_bound(s@.skip(i as int));
            vstd::arithmetic::power::lemma_pow_increases(256, s@.skip(i as int).len(), 8);
            lemma_pow_256_8();
        }
        v = v * 256 + s[i] as u64;
    }
    assert(s@.skip(0) =~= s@);
    v
}

/// The number that up to sixteen bytes write, least significant first.
pub fn read_le_wide(s: &[u8]) -> (r: u128)
    requires
        s@.len() <= 16,
    ensures
        r == le_value(s@),
{
    let mut v: u128 = 0;
    let mut i: usize = s.len();
    assert(s@.skip(i as int) =~= Seq::<u8>::empty());
    while i > 0
        invariant
            i <= s@.len() <= 16,
            v == le_value(s@.skip(i as int)),
        decreases i,
    {
        i = i - 1;
        proof {
            assert(s@.skip(i as int).skip(1) =~= s@.skip(i + 1));
            lemma_le_bound(s@.skip(i as int));
            vstd::arithmetic::power::lemma_pow_increases(256, s@.skip(i as int).len(), 16);
            lemma_pow_256_8();
            vstd::arithmetic::power::lemma_pow_adds(256, 8, 8);
            assert(0x1_0000_0000_0000_0000int * 0x1_0000_0000_0000_0000int
                == 0x1_0000_0000_0000_0000_0000_0000_0000_0000int) by (nonlinear_arith);
        }
        v = v * 256 + s[i] as u128;
    }
    assert(s@.skip(0) =~= s@);
    v
}

proof fn lemma_pow_256_8()
    ensures
        vstd::arithmetic::power::pow(256, 8) == 0x1_0000_0000_0000_0000,
{
    reveal(vstd::arithmetic::power::pow);
    reveal_with_fuel(vstd::arithmetic::power::pow, 9);
}

proof fn lemma_le_bound(s: Seq<u8>)
    ensures
        le_value(s) < vstd::arithmetic::power::pow(256, s.len()),
    decreases s.len(),
{
    reveal(vstd::arithmetic::power::pow);
    if s.len() > 0 {
        lemma_le_bound(s.skip(1));
    }
}

/// Reading a number gives back what was written, where it fits.
pub proof fn law_le_round_trip(n: nat, width: nat)
    ensures
        le_of(n, width).len() == width,
        n < vstd::arithmetic::power::pow(256, width) ==> le_value(le_of(n, width)) == n,
    decreases width,
{
    reveal(vstd::arithmetic::power::pow);
    if width > 0 {
        law_le_round_trip(n / 256, (width - 1) as nat);
        let s = le_of(n, width);
        assert(s.skip(1) =~= le_of(n / 256, (width - 1) as nat));
    }
}

/// Strings of one length that have one value are the same.
pub proof fn lemma_le_value_tells_apart(a: Seq<u8>, b: Seq<u8>)
    requires
        a.len() == b.len(),
        le_value(a) == le_value(b),
    ensures
        a == b,
    decreases a.len(),
{
    if a.len() > 0 {
        let (s, t) = (a.skip(1), b.skip(1));
        assert(a[0] == b[0] && le_value(s) == le_value(t));
        lemma_le_value_tells_apart(s, t);
        assert(a =~= seq![a[0]] + s);
        assert(b =~= seq![b[0]] + t);
    } else {
        assert(a =~= b);
    }
}

} // verus!
