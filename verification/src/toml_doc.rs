//! TOML documents as trees of plain values.

use crate::text::str_eq;
use vstd::prelude::*;

verus! {

/// A TOML document, or part of one.
pub enum Toml {
    /// A whole number that fits 128 bits.
    Integer(i128),
    /// A wider whole number.
    Wide,
    /// A string.
    Text(String),
    /// `true` or `false`.
    Bool(bool),
    /// An array.
    Array(Vec<Toml>),
    /// A table; no key occurs twice.
    Table(Vec<(String, Toml)>),
    /// Any other value.
    Other,
}

/// What a TOML document says.
pub enum TomlItem {
    /// A whole number.
    Integer(int),
    /// A whole number that does not fit 128 bits.
    Wide,
    /// A string.
    Text(Seq<char>),
    /// `true` or `false`.
    Bool(bool),
    /// An array.
    Array(Seq<TomlItem>),
    /// A table.
    Table(Seq<(Seq<char>, TomlItem)>),
    /// Any other value.
    Other,
}

impl Toml {
    /// What the document says.
    pub open spec fn item(self) -> TomlItem
        decreases self,
    {
        match self {
            Toml::Integer(n) => TomlItem::Integer(n as int),
            Toml::Wide => TomlItem::Wide,
            Toml::Text(s) => TomlItem::Text(s@),
            Toml::Bool(b) => TomlItem::Bool(b),
            Toml::Array(v) => TomlItem::Array(
                Seq::new(
                    v@.len(),
                    |i: int|
                        if 0 <= i < v@.len() {
                            v@[i].item()
                        } else {
                            TomlItem::Other
                        },
                ),
            ),
            Toml::Table(v) => TomlItem::Table(
                Seq::new(
                    v@.len(),
                    |i: int|
                        if 0 <= i < v@.len() {
                            (v@[i].0@, v@[i].1.item())
                        } else {
                            (Seq::empty(), TomlItem::Other)
                        },
                ),
            ),
            Toml::Other => TomlItem::Other,
        }
    }
}

/// What each document of a list says.
pub open spec fn items(v: Seq<Toml>) -> Seq<TomlItem> {
    Seq::new(v.len(), |i: int| v[i].item())
}

/// What each entry of a list says.
pub open spec fn entries(v: Seq<(String, Toml)>) -> Seq<(Seq<char>, TomlItem)> {
    Seq::new(v.len(), |i: int| (v[i].0@, v[i].1.item()))
}

/// An array says what its elements say.
pub proof fn lemma_array_item(v: Vec<Toml>)
    ensures
        Toml::Array(v).item() == TomlItem::Array(items(v@)),
{
    assert(Toml::Array(v).item()->Array_0 =~= items(v@));
}

/// A table says what its entries say.
pub proof fn lemma_table_item(v: Vec<(String, Toml)>)
    ensures
        Toml::Table(v).item() == TomlItem::Table(entries(v@)),
{
    assert(Toml::Table(v).item()->Table_0 =~= entries(v@));
}

/// Where the first entry with this key is, or the number of entries.
pub open spec fn entry_at(m: Seq<(Seq<char>, TomlItem)>, key: Seq<char>) -> nat
    decreases m.len(),
{
    if m.len() == 0 || m[0].0 == key {
        0
    } else {
        1 + entry_at(m.skip(1), key)
    }
}

/// The value under a key, if the document is a table that has it.
pub open spec fn value_at(doc: TomlItem, key: Seq<char>) -> Option<TomlItem> {
    match doc {
        TomlItem::Table(m) => if entry_at(m, key) < m.len() {
            Some(m[entry_at(m, key) as int].1)
        } else {
            None
        },
        _ => None,
    }
}

/// A part of a document: of a table, the value under this key; of an array, what
/// stands at this place.
pub open spec fn part_of(doc: TomlItem, key: Seq<char>, place: int) -> Option<TomlItem> {
    match doc {
        TomlItem::Array(v) => if 0 <= place < v.len() {
            Some(v[place])
        } else {
            None
        },
        _ => value_at(doc, key),
    }
}

/// Whether a document, if it is an array, has this many elements.
pub open spec fn fits(doc: TomlItem, n: int) -> bool {
    doc matches TomlItem::Array(v) ==> v.len() == n
}

/// Whether each whole number in a document fits `i64` or `u64`.
pub open spec fn is_narrow(doc: TomlItem) -> bool
    decreases doc,
{
    match doc {
        TomlItem::Integer(n) => i64::MIN <= n <= u64::MAX,
        TomlItem::Wide => false,
        TomlItem::Array(v) => all_narrow(v),
        TomlItem::Table(m) => values_narrow(m),
        _ => true,
    }
}

/// Whether that holds of each document of a list.
pub open spec fn all_narrow(v: Seq<TomlItem>) -> bool
    decreases v,
{
    v.len() == 0 || (is_narrow(v[v.len() - 1]) && all_narrow(v.subrange(0, v.len() - 1)))
}

/// Whether that holds of the value of each entry of a list.
pub open spec fn values_narrow(m: Seq<(Seq<char>, TomlItem)>) -> bool
    decreases m,
{
    m.len() == 0 || (is_narrow(m[m.len() - 1].1) && values_narrow(m.subrange(0, m.len() - 1)))
}

/// A table of texts holds no number.
pub proof fn lemma_texts_narrow(m: Seq<(Seq<char>, TomlItem)>)
    requires
        forall|i: int| 0 <= i < m.len() ==> (#[trigger] m[i]).1 is Text,
    ensures
        is_narrow(TomlItem::Table(m)),
    decreases m.len(),
{
    if m.len() > 0 {
        lemma_texts_narrow(m.subrange(0, m.len() - 1));
        assert(is_narrow(m[m.len() - 1].1));
    }
}

/// The first entry with a key is the one before which none has it.
pub proof fn lemma_entry_at(m: Seq<(Seq<char>, TomlItem)>, key: Seq<char>, n: int)
    requires
        0 <= n <= m.len(),
        forall|i: int| 0 <= i < n ==> (#[trigger] m[i]).0 != key,
        n < m.len() ==> m[n].0 == key,
    ensures
        entry_at(m, key) == n,
    decreases n,
{
    if n > 0 {
        assert(m[0].0 != key);
        let t = m.skip(1);
        assert forall|i: int| 0 <= i < n - 1 implies (#[trigger] t[i]).0 != key by {
            assert(t[i] == m[i + 1]);
        }
        lemma_entry_at(t, key, n - 1);
    }
}

/// What a document that may be missing says.
pub open spec fn maybe(doc: Option<&Toml>) -> Option<TomlItem> {
    match doc {
        Some(d) => Some(d.item()),
        None => None,
    }
}

impl Toml {
    /// The value under a key of a table.
    #[must_use]
    pub fn get(&self, key: &str) -> (r: Option<&Toml>)
        ensures
            maybe(r) == value_at(self.item(), key@),
    {
        match self {
            Toml::Table(v) => {
                let ghost m = entries(v@);
                proof {
                    lemma_table_item(*v);
                }
                let mut i: usize = 0;
                while i < v.len()
                    invariant
                        i <= v.len(),
                        m == entries(v@),
                        self.item() == TomlItem::Table(m),
                        forall|k: int| 0 <= k < i ==> (#[trigger] m[k]).0 != key@,
                    decreases v.len() - i,
                {
                    assert(m[i as int] == (v@[i as int].0@, v@[i as int].1.item()));
                    if str_eq(v[i].0.as_str(), key) {
                        proof {
                            lemma_entry_at(m, key@, i as int);
                        }
                        return Some(&v[i].1);
                    }
                    i = i + 1;
                }
                proof {
                    lemma_entry_at(m, key@, i as int);
                }
                None
            },
            _ => None,
        }
    }
}

impl Toml {
    /// A part of the document: of a table, the value under this key; of an array,
    /// what stands at this place.
    #[must_use]
    pub fn part(&self, key: &str, place: usize) -> (r: Option<&Toml>)
        ensures
            maybe(r) == part_of(self.item(), key@, place as int),
    {
        match self {
            Toml::Array(v) => {
                proof {
                    lemma_array_item(*v);
                }
                if place < v.len() {
                    Some(&v[place])
                } else {
                    None
                }
            },
            _ => self.get(key),
        }
    }

    /// Whether each whole number in the document fits `i64` or `u64`.
    #[must_use]
    pub fn is_narrow(&self) -> (r: bool)
        ensures
            r == is_narrow(self.item()),
        decreases self,
    {
        match self {
            Toml::Integer(n) => *n >= i64::MIN as i128 && *n <= u64::MAX as i128,
            Toml::Wide => false,
            Toml::Array(v) => {
                proof {
                    lemma_array_item(*v);
                }
                let ghost all = items(v@);
                let mut i: usize = v.len();
                assert(all.subrange(0, i as int) =~= all);
                while i > 0
                    invariant
                        i <= v.len(),
                        *self == Toml::Array(*v),
                        all == items(v@),
                        self.item() == TomlItem::Array(all),
                        all_narrow(all) == all_narrow(all.subrange(0, i as int)),
                    decreases i,
                {
                    let ghost rest = all.subrange(0, i as int);
                    i = i - 1;
                    assert(decreases_to!(self => self->Array_0@[i as int]));
                    assert(rest[rest.len() - 1] == v@[i as int].item());
                    assert(rest.subrange(0, rest.len() - 1) =~= all.subrange(0, i as int));
                    if !v[i].is_narrow() {
                        return false;
                    }
                }
                true
            },
            Toml::Table(v) => {
                proof {
                    lemma_table_item(*v);
                }
                let ghost all = entries(v@);
                let mut i: usize = v.len();
                assert(all.subrange(0, i as int) =~= all);
                while i > 0
                    invariant
                        i <= v.len(),
                        *self == Toml::Table(*v),
                        all == entries(v@),
                        self.item() == TomlItem::Table(all),
                        values_narrow(all) == values_narrow(all.subrange(0, i as int)),
                    decreases i,
                {
                    let ghost rest = all.subrange(0, i as int);
                    i = i - 1;
                    assert(decreases_to!(self => self->Table_0@[i as int].1));
                    assert(rest[rest.len() - 1].1 == v@[i as int].1.item());
                    assert(rest.subrange(0, rest.len() - 1) =~= all.subrange(0, i as int));
                    if !v[i].1.is_narrow() {
                        return false;
                    }
                }
                true
            },
            _ => true,
        }
    }

    /// Whether the document, if it is an array, has this many elements.
    #[must_use]
    pub fn fits(&self, n: usize) -> (r: bool)
        ensures
            r == fits(self.item(), n as int),
    {
        match self {
            Toml::Array(v) => {
                proof {
                    lemma_array_item(*v);
                }
                v.len() == n
            },
            _ => true,
        }
    }
}

/// Whether a document is written under a header of its own: a table, or an array
/// of tables that is not empty.
pub open spec fn has_header(doc: TomlItem) -> bool {
    match doc {
        TomlItem::Table(_) => true,
        TomlItem::Array(v) => v.len() > 0 && forall|i: int|
            0 <= i < v.len() ==> (#[trigger] v[i]) is Table,
        _ => false,
    }
}

/// Whether no key occurs twice.
pub open spec fn keys_differ(m: Seq<(Seq<char>, TomlItem)>) -> bool {
    forall|i: int, j: int| 0 <= i < j < m.len() ==> (#[trigger] m[i]).0 != (#[trigger] m[j]).0
}

/// Whether no value stands behind one that has a header of its own.
pub open spec fn values_first(m: Seq<(Seq<char>, TomlItem)>) -> bool {
    forall|i: int, j: int|
        0 <= i < j < m.len() && has_header((#[trigger] m[i]).1) ==> has_header(
            (#[trigger] m[j]).1,
        )
}

/// Whether a document is made of integers of 64 bits, texts, arrays and tables,
/// nested at most `depth` deep, and each table is in the order in which it is
/// written: no key twice, and values first.
pub open spec fn is_laid_out(doc: TomlItem, depth: nat) -> bool
    decreases depth,
{
    match doc {
        TomlItem::Integer(n) => i64::MIN <= n <= i64::MAX,
        TomlItem::Text(_) => true,
        TomlItem::Array(v) => depth > 0 && forall|i: int|
            0 <= i < v.len() ==> is_laid_out(#[trigger] v[i], (depth - 1) as nat),
        TomlItem::Table(m) => depth > 0 && keys_differ(m) && values_first(m) && forall|i: int|
            0 <= i < m.len() ==> is_laid_out((#[trigger] m[i]).1, (depth - 1) as nat),
        _ => false,
    }
}

/// The value of a key is that of its first entry.
pub proof fn law_value_is_the_first(
    before: Seq<(Seq<char>, TomlItem)>,
    key: Seq<char>,
    value: TomlItem,
    behind: Seq<(Seq<char>, TomlItem)>,
)
    requires
        forall|i: int| 0 <= i < before.len() ==> (#[trigger] before[i]).0 != key,
    ensures
        value_at(TomlItem::Table(before), key) is None,
        value_at(TomlItem::Table(before + seq![(key, value)] + behind), key) == Some(value),
    decreases before.len(),
{
    let all = before + seq![(key, value)] + behind;
    if before.len() > 0 {
        let less = before.skip(1);
        assert forall|i: int| 0 <= i < less.len() implies (#[trigger] less[i]).0 != key by {
            assert(less[i] == before[i + 1]);
        }
        law_value_is_the_first(less, key, value, behind);
        assert(all.skip(1) =~= less + seq![(key, value)] + behind);
        assert(all[0] == before[0]);
        assert(before[0].0 != key);
        let n = entry_at(less, key) as int;
        let m = entry_at(all.skip(1), key) as int;
        assert(all[m + 1] == all.skip(1)[m]);
    } else {
        assert(all[0] == (key, value));
    }
}

/// A document is narrow exactly if every number in it, at any depth, fits.
pub proof fn law_narrow_is_narrow_in_every_part(
    v: Seq<TomlItem>,
    m: Seq<(Seq<char>, TomlItem)>,
    n: int,
)
    ensures
        is_narrow(TomlItem::Array(v)) <==> forall|i: int|
            0 <= i < v.len() ==> is_narrow(#[trigger] v[i]),
        is_narrow(TomlItem::Table(m)) <==> forall|i: int|
            0 <= i < m.len() ==> is_narrow((#[trigger] m[i]).1),
        is_narrow(TomlItem::Integer(n)) <==> i64::MIN <= n <= u64::MAX,
        !is_narrow(TomlItem::Wide),
{
    lemma_all_narrow(v);
    lemma_values_narrow(m);
}

proof fn lemma_all_narrow(v: Seq<TomlItem>)
    ensures
        all_narrow(v) <==> forall|i: int| 0 <= i < v.len() ==> is_narrow(#[trigger] v[i]),
    decreases v.len(),
{
    if v.len() > 0 {
        let n = v.len() - 1;
        let less = v.subrange(0, n);
        lemma_all_narrow(less);
        if all_narrow(v) {
            assert forall|i: int| 0 <= i < v.len() implies is_narrow(#[trigger] v[i]) by {
                if i < n {
                    assert(less[i] == v[i]);
                }
            }
        }
        if forall|i: int| 0 <= i < v.len() ==> is_narrow(#[trigger] v[i]) {
            assert forall|i: int| 0 <= i < less.len() implies is_narrow(#[trigger] less[i]) by {
                assert(less[i] == v[i]);
            }
        }
    }
}

proof fn lemma_values_narrow(m: Seq<(Seq<char>, TomlItem)>)
    ensures
        values_narrow(m) <==> forall|i: int| 0 <= i < m.len() ==> is_narrow((#[trigger] m[i]).1),
    decreases m.len(),
{
    if m.len() > 0 {
        let n = m.len() - 1;
        let less = m.subrange(0, n);
        lemma_values_narrow(less);
        if values_narrow(m) {
            assert forall|i: int| 0 <= i < m.len() implies is_narrow((#[trigger] m[i]).1) by {
                if i < n {
                    assert(less[i] == m[i]);
                }
            }
        }
        if forall|i: int| 0 <= i < m.len() ==> is_narrow((#[trigger] m[i]).1) {
            assert forall|i: int| 0 <= i < less.len() implies is_narrow((#[trigger] less[i]).1) by {
                assert(less[i] == m[i]);
            }
        }
    }
}

} // verus!
