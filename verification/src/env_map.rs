//! Environment variables of a child process: names and values, in the order of
//! the names, so that their encoding is deterministic.

use crate::bytes;
use crate::text;
use vstd::prelude::*;

verus! {

/// The name of a variable, as bytes.
pub open spec fn name_bytes(e: (Seq<char>, Seq<char>)) -> Seq<u8> {
    vstd::utf8::encode_utf8(e.0)
}

/// Whether names strictly ascend, byte by byte.
pub open spec fn names_ascend(s: Seq<(Seq<char>, Seq<char>)>) -> bool {
    forall|i: int, j: int|
        0 <= i < j < s.len() ==> bytes::lex_less(name_bytes(#[trigger] s[i]), name_bytes(
            #[trigger] s[j],
        ))
}

/// Whether a list holds exactly the pairs of a map.
pub open spec fn lists(s: Seq<(Seq<char>, Seq<char>)>, m: Map<Seq<char>, Seq<char>>) -> bool {
    &&& forall|i: int| 0 <= i < s.len() ==> m.contains_pair((#[trigger] s[i]).0, s[i].1)
    &&& forall|k: Seq<char>| #[trigger]
        m.contains_key(k) ==> exists|i: int| 0 <= i < s.len() && (#[trigger] s[i]).0 == k
}

/// Environment variables, one value per name.
#[derive(Clone, Debug, PartialEq, Eq)]
pub struct EnvMap {
    entries: Vec<(String, String)>,
}

/// What a list of pairs says.
pub open spec fn pairs(v: Seq<(String, String)>) -> Seq<(Seq<char>, Seq<char>)> {
    Seq::new(v.len(), |i: int| (v[i].0@, v[i].1@))
}

impl EnvMap {
    /// The variables, in the order of their names.
    pub closed spec fn list(&self) -> Seq<(Seq<char>, Seq<char>)> {
        pairs(self.entries@)
    }

    /// Whether the variables are in the order of their names, none twice.
    pub open spec fn wf(&self) -> bool {
        names_ascend(self.list())
    }

    /// No variables.
    #[must_use]
    pub fn new() -> (r: Self)
        ensures
            r.wf(),
            r.list() == Seq::<(Seq<char>, Seq<char>)>::empty(),
    {
        let r = EnvMap { entries: Vec::new() };
        assert(r.list() =~= Seq::<(Seq<char>, Seq<char>)>::empty());
        r
    }

    /// The number of variables.
    #[must_use]
    pub fn len(&self) -> (r: usize)
        ensures
            r == self.list().len(),
    {
        self.entries.len()
    }

    /// Whether there are no variables.
    #[must_use]
    pub fn is_empty(&self) -> (r: bool)
        ensures
            r == (self.list().len() == 0),
    {
        self.entries.len() == 0
    }

    /// The variable at a position, in the order of the names.
    #[must_use]
    pub fn at(&self, i: usize) -> (r: (&String, &String))
        requires
            i < self.list().len(),
        ensures
            (r.0@, r.1@) == self.list()[i as int],
    {
        (&self.entries[i].0, &self.entries[i].1)
    }

    /// Set a variable, in place of the value it had.
    pub fn insert(&mut self, name: String, value: String)
        requires
            old(self).wf(),
        ensures
            final(self).wf(),
            forall|m: Map<Seq<char>, Seq<char>>|
                #![trigger m.insert(name@, value@)]
                lists(old(self).list(), m) ==> lists(final(self).list(), m.insert(name@, value@)),
    {
        let ghost before = self.list();
        let ghost nv = name@;
        let ghost vv = value@;
        let ghost key = vstd::utf8::encode_utf8(nv);
        let mut n: usize = 0;
        while n < self.entries.len() && bytes::bytes_less(
            self.entries[n].0.as_str().as_bytes(),
            name.as_str().as_bytes(),
        )
            invariant
                n <= self.entries@.len(),
                *self == *old(self),
                before == self.list(),
                key == vstd::utf8::encode_utf8(name@),
                forall|k: int|
                    0 <= k < n ==> bytes::lex_less(name_bytes(#[trigger] before[k]), key),
            decreases self.entries.len() - n,
        {
            n = n + 1;
        }
        if n < self.entries.len() && text::str_eq(self.entries[n].0.as_str(), name.as_str()) {
            assert(before[n as int].0 == nv);
            self.entries.set(n, (name, value));
            proof {
                let after = self.list();
                assert(after =~= before.update(n as int, (nv, vv)));
                assert(names_ascend(after)) by {
                    assert forall|i: int, j: int| 0 <= i < j < after.len() implies bytes::lex_less(
                        name_bytes(#[trigger] after[i]),
                        name_bytes(#[trigger] after[j]),
                    ) by {
                        assert(name_bytes(after[i]) == name_bytes(before[i]));
                        assert(name_bytes(after[j]) == name_bytes(before[j]));
                    }
                }
                assert forall|m: Map<Seq<char>, Seq<char>>|
                    #![trigger m.insert(nv, vv)]
                    lists(before, m) implies lists(after, m.insert(nv, vv)) by {
                    lemma_replaced(before, m, n as int, nv, vv);
                }
            }
        } else {
            proof {
                if n < before.len() {
                    let k = name_bytes(before[n as int]);
                    bytes::lemma_lex_total(k, key);
                    if k == key {
                        vstd::utf8::encode_utf8_decode_utf8(before[n as int].0);
                        vstd::utf8::encode_utf8_decode_utf8(nv);
                    }
                }
            }
            self.entries.insert(n, (name, value));
            proof {
                let after = self.list();
                assert(after =~= before.insert(n as int, (nv, vv)));
                lemma_inserted(before, n as int, nv, vv);
                assert forall|m: Map<Seq<char>, Seq<char>>|
                    #![trigger m.insert(nv, vv)]
                    lists(before, m) implies lists(after, m.insert(nv, vv)) by {
                    lemma_inserted_lists(before, m, n as int, nv, vv);
                }
            }
        }
    }
}

proof fn lemma_replaced(
    s: Seq<(Seq<char>, Seq<char>)>,
    m: Map<Seq<char>, Seq<char>>,
    n: int,
    name: Seq<char>,
    value: Seq<char>,
)
    requires
        names_ascend(s),
        lists(s, m),
        0 <= n < s.len(),
        s[n].0 == name,
    ensures
        lists(s.update(n, (name, value)), m.insert(name, value)),
{
    let t = s.update(n, (name, value));
    let p = m.insert(name, value);
    assert forall|i: int| 0 <= i < t.len() implies p.contains_pair((#[trigger] t[i]).0, t[i].1) by {
        if i != n {
            assert(s[i].0 != name) by {
                if s[i].0 == name {
                    bytes::lemma_lex_irreflexive(name_bytes(s[n]));
                    if i < n {
                        assert(bytes::lex_less(name_bytes(s[i]), name_bytes(s[n])));
                    } else {
                        assert(bytes::lex_less(name_bytes(s[n]), name_bytes(s[i])));
                    }
                }
            }
        }
    }
    assert forall|k: Seq<char>| #[trigger] p.contains_key(k) implies exists|i: int|
        0 <= i < t.len() && (#[trigger] t[i]).0 == k by {
        if k == name {
            assert(t[n].0 == k);
        } else {
            assert(m.contains_key(k));
            let i = choose|i: int| 0 <= i < s.len() && (#[trigger] s[i]).0 == k;
            assert(t[i].0 == k);
        }
    }
}

proof fn lemma_inserted(s: Seq<(Seq<char>, Seq<char>)>, n: int, name: Seq<char>, value: Seq<char>)
    requires
        names_ascend(s),
        0 <= n <= s.len(),
        forall|k: int|
            0 <= k < n ==> bytes::lex_less(
                name_bytes(#[trigger] s[k]),
                vstd::utf8::encode_utf8(name),
            ),
        n < s.len() ==> bytes::lex_less(vstd::utf8::encode_utf8(name), name_bytes(s[n])),
    ensures
        names_ascend(s.insert(n, (name, value))),
{
    let t = s.insert(n, (name, value));
    let key = vstd::utf8::encode_utf8(name);
    assert forall|i: int, j: int| 0 <= i < j < t.len() implies bytes::lex_less(
        name_bytes(#[trigger] t[i]),
        name_bytes(#[trigger] t[j]),
    ) by {
        if i < n && j < n {
            assert(t[i] == s[i] && t[j] == s[j]);
        } else if i < n && j == n {
            assert(t[i] == s[i]);
        } else if i < n {
            assert(t[i] == s[i] && t[j] == s[j - 1]);
        } else if i == n {
            assert(t[j] == s[j - 1]);
            if j - 1 > n {
                assert(bytes::lex_less(name_bytes(s[n]), name_bytes(s[j - 1])));
                bytes::lemma_lex_transitive(key, name_bytes(s[n]), name_bytes(s[j - 1]));
            }
        } else {
            assert(t[i] == s[i - 1] && t[j] == s[j - 1]);
        }
    }
}

proof fn lemma_inserted_lists(
    s: Seq<(Seq<char>, Seq<char>)>,
    m: Map<Seq<char>, Seq<char>>,
    n: int,
    name: Seq<char>,
    value: Seq<char>,
)
    requires
        lists(s, m),
        0 <= n <= s.len(),
        names_ascend(s.insert(n, (name, value))),
    ensures
        lists(s.insert(n, (name, value)), m.insert(name, value)),
{
    let t = s.insert(n, (name, value));
    let p = m.insert(name, value);
    assert forall|i: int| 0 <= i < t.len() implies p.contains_pair((#[trigger] t[i]).0, t[i].1) by {
        if i != n {
            let j = if i < n {
                i
            } else {
                i - 1
            };
            assert(t[i] == s[j]);
            assert(m.contains_pair(s[j].0, s[j].1));
            assert(t[i].0 != name) by {
                bytes::lemma_lex_irreflexive(name_bytes(t[n]));
                if i < n {
                    assert(bytes::lex_less(name_bytes(t[i]), name_bytes(t[n])));
                } else {
                    assert(bytes::lex_less(name_bytes(t[n]), name_bytes(t[i])));
                }
            }
        }
    }
    assert forall|k: Seq<char>| #[trigger] p.contains_key(k) implies exists|i: int|
        0 <= i < t.len() && (#[trigger] t[i]).0 == k by {
        if k == name {
            assert(t[n].0 == k);
        } else {
            assert(m.contains_key(k));
            let i = choose|i: int| 0 <= i < s.len() && (#[trigger] s[i]).0 == k;
            if i < n {
                assert(t[i].0 == k);
            } else {
                assert(t[i + 1] == s[i]);
                assert(t[i + 1].0 == k);
            }
        }
    }
}

proof fn lemma_head_is_least(
    a: Seq<(Seq<char>, Seq<char>)>,
    b: Seq<(Seq<char>, Seq<char>)>,
    m: Map<Seq<char>, Seq<char>>,
    n: int,
)
    requires
        names_ascend(a),
        names_ascend(b),
        lists(a, m),
        lists(b, m),
        0 <= n < a.len(),
        n < b.len(),
        a.take(n) == b.take(n),
    ensures
        !bytes::lex_less(name_bytes(a[n]), name_bytes(b[n])),
{
    if bytes::lex_less(name_bytes(a[n]), name_bytes(b[n])) {
        assert(m.contains_pair(a[n].0, a[n].1));
        assert(m.contains_key(a[n].0));
        let j = choose|j: int| 0 <= j < b.len() && (#[trigger] b[j]).0 == a[n].0;
        let k = name_bytes(a[n]);
        bytes::lemma_lex_irreflexive(k);
        if j < n {
            assert(a.take(n)[j] == b.take(n)[j]);
            assert(a[j] == b[j]);
            assert(bytes::lex_less(name_bytes(a[j]), name_bytes(a[n])));
        } else if j > n {
            assert(bytes::lex_less(name_bytes(b[n]), name_bytes(b[j])));
            bytes::lemma_lex_transitive(k, name_bytes(b[n]), k);
        }
    }
}

proof fn lemma_lists_agree(
    a: Seq<(Seq<char>, Seq<char>)>,
    b: Seq<(Seq<char>, Seq<char>)>,
    m: Map<Seq<char>, Seq<char>>,
    n: int,
)
    requires
        names_ascend(a),
        names_ascend(b),
        lists(a, m),
        lists(b, m),
        0 <= n <= a.len(),
    ensures
        n <= b.len(),
        a.take(n) == b.take(n),
    decreases n,
{
    if n == 0 {
        assert(a.take(0) =~= b.take(0));
    } else {
        lemma_lists_agree(a, b, m, n - 1);
        if b.len() == n - 1 {
            assert(m.contains_pair(a[n - 1].0, a[n - 1].1));
            assert(m.contains_key(a[n - 1].0));
            let j = choose|j: int| 0 <= j < b.len() && (#[trigger] b[j]).0 == a[n - 1].0;
            assert(a.take(n - 1)[j] == b.take(n - 1)[j]);
            assert(a[j] == b[j]);
            bytes::lemma_lex_irreflexive(name_bytes(a[n - 1]));
            assert(bytes::lex_less(name_bytes(a[j]), name_bytes(a[n - 1])));
        }
        lemma_head_is_least(a, b, m, n - 1);
        lemma_head_is_least(b, a, m, n - 1);
        bytes::lemma_lex_total(name_bytes(a[n - 1]), name_bytes(b[n - 1]));
        vstd::utf8::encode_utf8_decode_utf8(a[n - 1].0);
        vstd::utf8::encode_utf8_decode_utf8(b[n - 1].0);
        assert(m.contains_pair(a[n - 1].0, a[n - 1].1));
        assert(m.contains_pair(b[n - 1].0, b[n - 1].1));
        assert(a[n - 1] == b[n - 1]);
        assert(a.take(n) =~= a.take(n - 1).push(a[n - 1]));
        assert(b.take(n) =~= b.take(n - 1).push(b[n - 1]));
    }
}

/// The same variables are listed alike, whatever the order in which they were
/// set.
pub proof fn law_list_is_determined(a: EnvMap, b: EnvMap, m: Map<Seq<char>, Seq<char>>)
    requires
        a.wf(),
        b.wf(),
        lists(a.list(), m),
        lists(b.list(), m),
    ensures
        a.list() == b.list(),
{
    let (x, y) = (a.list(), b.list());
    lemma_lists_agree(x, y, m, x.len() as int);
    lemma_lists_agree(y, x, m, y.len() as int);
    assert(x.take(x.len() as int) =~= x);
    assert(y.take(y.len() as int) =~= y);
}

} // verus!
