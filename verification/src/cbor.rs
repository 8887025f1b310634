//! CBOR documents as trees of plain values.

use crate::text;
use vstd::prelude::*;

verus! {

/// A CBOR document.
pub enum Cbor {
    /// An unsigned integer.
    Uint(u128),
    /// A negative integer.
    Nint(i128),
    /// A text string.
    Text(String),
    /// A byte string.
    Bytes(Vec<u8>),
    /// An array.
    Array(Vec<Cbor>),
    /// A map, in the order of its entries.
    Entries(Vec<(Cbor, Cbor)>),
    /// A truth value.
    Bool(bool),
    /// Nothing.
    Null,
    /// A tagged document.
    Tagged(u64, Box<Cbor>),
    /// A fraction; no message holds one.
    Fraction,
}

/// What a CBOR document says.
pub enum Item {
    /// An unsigned integer.
    Uint(nat),
    /// A negative integer.
    Nint(int),
    /// A text string.
    Text(Seq<char>),
    /// A byte string.
    Bytes(Seq<u8>),
    /// An array.
    Array(Seq<Item>),
    /// A map, in the order of its entries.
    Entries(Seq<(Item, Item)>),
    /// A truth value.
    Bool(bool),
    /// Nothing.
    Null,
    /// A tagged document.
    Tagged(u64, Box<Item>),
    /// A fraction; no message holds one.
    Fraction,
}

impl Cbor {
    /// What the document says.
    pub open spec fn item(self) -> Item
        decreases self,
    {
        match self {
            Cbor::Uint(n) => Item::Uint(n as nat),
            Cbor::Nint(n) => Item::Nint(n as int),
            Cbor::Text(s) => Item::Text(s@),
            Cbor::Bytes(b) => Item::Bytes(b@),
            Cbor::Array(v) => Item::Array(
                Seq::new(
                    v@.len(),
                    |i: int|
                        if 0 <= i < v@.len() {
                            v@[i].item()
                        } else {
                            Item::Null
                        },
                ),
            ),
            Cbor::Entries(v) => Item::Entries(
                Seq::new(
                    v@.len(),
                    |i: int|
                        if 0 <= i < v@.len() {
                            (v@[i].0.item(), v@[i].1.item())
                        } else {
                            (Item::Null, Item::Null)
                        },
                ),
            ),
            Cbor::Bool(b) => Item::Bool(b),
            Cbor::Null => Item::Null,
            Cbor::Tagged(t, inner) => Item::Tagged(t, Box::new(inner.item())),
            Cbor::Fraction => Item::Fraction,
        }
    }
}

/// What each document of a list says.
pub open spec fn items(v: Seq<Cbor>) -> Seq<Item> {
    Seq::new(v.len(), |i: int| v[i].item())
}

/// What each entry of a list says.
pub open spec fn entry_items(v: Seq<(Cbor, Cbor)>) -> Seq<(Item, Item)> {
    Seq::new(v.len(), |i: int| (v[i].0.item(), v[i].1.item()))
}

/// An array says what its elements say.
pub proof fn lemma_array_item(v: Vec<Cbor>)
    ensures
        Cbor::Array(v).item() == Item::Array(items(v@)),
{
    assert(Cbor::Array(v).item()->Array_0 =~= items(v@));
}

/// A map says what its entries say.
pub proof fn lemma_entries_item(v: Vec<(Cbor, Cbor)>)
    ensures
        Cbor::Entries(v).item() == Item::Entries(entry_items(v@)),
{
    assert(Cbor::Entries(v).item()->Entries_0 =~= entry_items(v@));
}

/// An integer of either sign.
pub open spec fn int_item(n: int) -> Item {
    if n >= 0 {
        Item::Uint(n as nat)
    } else {
        Item::Nint(n)
    }
}

/// A byte string written as an array of integers, one per byte.
pub open spec fn byte_items(b: Seq<u8>) -> Item {
    Item::Array(Seq::new(b.len(), |i: int| Item::Uint(b[i] as nat)))
}

/// One field of a record.
pub open spec fn field(name: Seq<char>, value: Item) -> (Item, Item) {
    (Item::Text(name), value)
}

/// A choice that carries something: a map of one entry, from its name to what
/// it carries.
pub open spec fn choice(name: Seq<char>, value: Item) -> Item {
    Item::Entries(seq![field(name, value)])
}

/// A text string.
pub fn text(s: &str) -> (r: Cbor)
    ensures
        r.item() == Item::Text(s@),
{
    Cbor::Text(s.to_owned())
}

/// An unsigned integer.
pub fn uint(n: u64) -> (r: Cbor)
    ensures
        r.item() == Item::Uint(n as nat),
{
    Cbor::Uint(n as u128)
}

/// An integer of either sign.
pub fn signed(n: i64) -> (r: Cbor)
    ensures
        r.item() == int_item(n as int),
{
    if n >= 0 {
        Cbor::Uint(n as u128)
    } else {
        Cbor::Nint(n as i128)
    }
}

/// A byte string, as an array of integers.
pub fn bytes(b: &[u8]) -> (r: Cbor)
    ensures
        r.item() == byte_items(b@),
{
    let mut v: Vec<Cbor> = Vec::new();
    let mut i: usize = 0;
    while i < b.len()
        invariant
            i <= b.len(),
            v.len() == i,
            forall|k: int| 0 <= k < i ==> (#[trigger] v@[k]).item() == Item::Uint(b@[k] as nat),
        decreases b.len() - i,
    {
        v.push(Cbor::Uint(b[i] as u128));
        i = i + 1;
    }
    proof {
        lemma_array_item(v);
        assert(items(v@) =~= byte_items(b@)->Array_0);
    }
    Cbor::Array(v)
}

/// An array.
pub fn array(v: Vec<Cbor>) -> (r: Cbor)
    ensures
        r.item() == Item::Array(items(v@)),
{
    proof {
        lemma_array_item(v);
    }
    Cbor::Array(v)
}

/// The fields of a record, in order.
pub struct Record {
    entries: Vec<(Cbor, Cbor)>,
}

impl View for Record {
    type V = Seq<(Item, Item)>;

    closed spec fn view(&self) -> Seq<(Item, Item)> {
        entry_items(self.entries@)
    }
}

impl Record {
    /// A record without fields.
    pub fn new() -> (r: Self)
        ensures
            r@ == Seq::<(Item, Item)>::empty(),
    {
        let r = Record { entries: Vec::new() };
        assert(r@ =~= Seq::<(Item, Item)>::empty());
        r
    }

    /// The record with one field more.
    pub fn with(self, name: &str, value: Cbor) -> (r: Self)
        ensures
            r@ == self@.push(field(name@, value.item())),
    {
        let mut entries = self.entries;
        entries.push((text(name), value));
        let r = Record { entries };
        assert(r@ =~= self@.push(field(name@, value.item())));
        r
    }

    /// The document.
    pub fn done(self) -> (r: Cbor)
        ensures
            r.item() == Item::Entries(self@),
    {
        proof {
            lemma_entries_item(self.entries);
        }
        Cbor::Entries(self.entries)
    }
}

/// A choice that carries something.
pub fn choose_one(name: &str, value: Cbor) -> (r: Cbor)
    ensures
        r.item() == choice(name@, value.item()),
{
    let record = Record::new().with(name, value);
    assert(record@ =~= seq![field(name@, value.item())]);
    record.done()
}

// ── Reading ────────────────────────────────────────────────────────────────
/// A document without its tags, which say nothing to a message. What is tagged
/// and empty is no empty field: it stands as a fraction.
pub open spec fn untagged(item: Item) -> Item
    decreases item,
{
    match item {
        Item::Tagged(_, inner) => match untagged(*inner) {
            Item::Null => Item::Fraction,
            bare => bare,
        },
        Item::Array(v) => Item::Array(
            Seq::new(
                v.len(),
                |i: int|
                    if 0 <= i < v.len() {
                        untagged(v[i])
                    } else {
                        Item::Null
                    },
            ),
        ),
        Item::Entries(m) => Item::Entries(
            Seq::new(
                m.len(),
                |i: int|
                    if 0 <= i < m.len() {
                        (untagged(m[i].0), untagged(m[i].1))
                    } else {
                        (Item::Null, Item::Null)
                    },
            ),
        ),
        _ => item,
    }
}

/// A document without its tags.
#[must_use]
pub fn without_tags(doc: &Cbor) -> (r: Cbor)
    ensures
        r.item() == untagged(doc.item()),
    decreases doc,
{
    match doc {
        Cbor::Uint(n) => Cbor::Uint(*n),
        Cbor::Nint(n) => Cbor::Nint(*n),
        Cbor::Text(s) => Cbor::Text(s.clone()),
        Cbor::Bytes(b) => Cbor::Bytes(crate::bytes::copy_bytes(b.as_slice())),
        Cbor::Bool(b) => Cbor::Bool(*b),
        Cbor::Null => Cbor::Null,
        Cbor::Fraction => Cbor::Fraction,
        Cbor::Tagged(_, inner) => match without_tags(inner) {
            Cbor::Null => Cbor::Fraction,
            bare => bare,
        },
        Cbor::Array(v) => {
            let mut out: Vec<Cbor> = Vec::new();
            let mut i: usize = 0;
            while i < v.len()
                invariant
                    i <= v.len(),
                    *doc == Cbor::Array(*v),
                    out@.len() == i,
                    forall|k: int|
                        0 <= k < i ==> (#[trigger] out@[k]).item() == untagged(v@[k].item()),
                decreases v.len() - i,
            {
                assert(decreases_to!(doc => doc->Array_0@[i as int]));
                out.push(without_tags(&v[i]));
                i = i + 1;
            }
            proof {
                lemma_array_item(*v);
                lemma_array_item(out);
                assert(items(out@) =~= untagged(doc.item())->Array_0) by {
                    assert forall|k: int| 0 <= k < out@.len() implies items(out@)[k] == untagged(
                        doc.item(),
                    )->Array_0[k] by {
                        assert(doc.item()->Array_0[k] == v@[k].item());
                    }
                }
            }
            Cbor::Array(out)
        },
        Cbor::Entries(v) => {
            let mut out: Vec<(Cbor, Cbor)> = Vec::new();
            let mut i: usize = 0;
            while i < v.len()
                invariant
                    i <= v.len(),
                    *doc == Cbor::Entries(*v),
                    out@.len() == i,
                    forall|k: int|
                        0 <= k < i ==> (#[trigger] out@[k]).0.item() == untagged(v@[k].0.item())
                            && out@[k].1.item() == untagged(v@[k].1.item()),
                decreases v.len() - i,
            {
                assert(decreases_to!(doc => doc->Entries_0@[i as int].0));
                assert(decreases_to!(doc => doc->Entries_0@[i as int].1));
                let e = (without_tags(&v[i].0), without_tags(&v[i].1));
                out.push(e);
                i = i + 1;
            }
            proof {
                lemma_entries_item(*v);
                lemma_entries_item(out);
                assert(entry_items(out@) =~= untagged(doc.item())->Entries_0) by {
                    assert forall|k: int| 0 <= k < out@.len() implies entry_items(out@)[k]
                        == untagged(doc.item())->Entries_0[k] by {
                        assert(doc.item()->Entries_0[k] == (v@[k].0.item(), v@[k].1.item()));
                    }
                }
            }
            Cbor::Entries(out)
        },
    }
}

/// A document of which messages are made has no tags.
pub proof fn lemma_plain_has_no_tags(item: Item, depth: nat)
    requires
        is_plain(item, depth),
    ensures
        untagged(item) == item,
    decreases depth,
{
    match item {
        Item::Array(v) => {
            assert forall|i: int| 0 <= i < v.len() implies untagged(v[i]) == v[i] by {
                assert(is_plain(v[i], (depth - 1) as nat));
                lemma_plain_has_no_tags(v[i], (depth - 1) as nat);
            }
            assert(untagged(item)->Array_0 =~= v);
        },
        Item::Entries(m) => {
            assert forall|i: int| 0 <= i < m.len() implies untagged((#[trigger] m[i]).0) == m[i].0
                && untagged(m[i].1) == m[i].1 by {
                lemma_plain_has_no_tags(m[i].0, (depth - 1) as nat);
                lemma_plain_has_no_tags(m[i].1, (depth - 1) as nat);
            }
            assert(untagged(item)->Entries_0 =~= m);
        },
        _ => {},
    }
}

/// The name that a key writes: a text, or the ASCII bytes of one.
pub open spec fn name_of(key: Item) -> Option<Seq<char>> {
    match key {
        Item::Text(s) => Some(s),
        Item::Bytes(b) => if forall|i: int| 0 <= i < b.len() ==> (#[trigger] b[i]) < 128 {
            Some(Seq::new(b.len(), |i: int| b[i] as char))
        } else {
            None
        },
        _ => None,
    }
}

/// Where the first entry with this name is, or the number of entries.
pub open spec fn field_at(m: Seq<(Item, Item)>, name: Seq<char>) -> nat
    decreases m.len(),
{
    if m.len() == 0 || name_of(m[0].0) == Some(name) {
        0
    } else {
        1 + field_at(m.skip(1), name)
    }
}

/// Whether every key may be a name: a text or bytes.
pub open spec fn all_named(m: Seq<(Item, Item)>) -> bool {
    forall|i: int| 0 <= i < m.len() ==> (#[trigger] m[i]).0 is Text || m[i].0 is Bytes
}

/// The field of a record with this name, if the document is a record that has
/// one. A field that is there twice cannot be read, nor any field beside a key
/// that is no name: a fraction stands for it.
pub open spec fn field_of(item: Item, name: Seq<char>) -> Option<Item> {
    match item {
        Item::Entries(m) => {
            let n = field_at(m, name) as int;
            if !all_named(m) {
                Some(Item::Fraction)
            } else if n >= m.len() {
                None
            } else if field_at(m.skip(n + 1), name) < m.skip(n + 1).len() {
                Some(Item::Fraction)
            } else {
                Some(m[n].1)
            }
        },
        _ => None,
    }
}

/// The first entry with a name is the one before which none has it.
pub proof fn lemma_field_at(m: Seq<(Item, Item)>, name: Seq<char>, n: int)
    requires
        0 <= n <= m.len(),
        forall|i: int| 0 <= i < n ==> name_of((#[trigger] m[i]).0) != Some(name),
        n < m.len() ==> name_of(m[n].0) == Some(name),
    ensures
        field_at(m, name) == n,
    decreases n,
{
    if n > 0 {
        assert(name_of(m[0].0) != Some(name));
        let t = m.skip(1);
        assert forall|i: int| 0 <= i < n - 1 implies name_of((#[trigger] t[i]).0) != Some(name) by {
            assert(t[i] == m[i + 1]);
        }
        lemma_field_at(t, name, n - 1);
    }
}

/// Whether every key is a text, and no two are the same.
pub open spec fn names_differ(m: Seq<(Item, Item)>) -> bool {
    &&& forall|i: int| 0 <= i < m.len() ==> (#[trigger] m[i]).0 is Text
    &&& forall|i: int, j: int|
        0 <= i < j < m.len() ==> name_of((#[trigger] m[i]).0) != name_of((#[trigger] m[j]).0)
}

/// In a record without a name twice, each name finds its own field.
pub proof fn lemma_fields(m: Seq<(Item, Item)>)
    requires
        names_differ(m),
    ensures
        forall|i: int|
            0 <= i < m.len() && (#[trigger] m[i]).0 is Text ==> field_of(
                Item::Entries(m),
                m[i].0->Text_0,
            ) == Some(m[i].1),
        forall|name: Seq<char>|
            #![trigger field_of(Item::Entries(m), name)]
            (forall|i: int| 0 <= i < m.len() ==> name_of((#[trigger] m[i]).0) != Some(name))
                ==> field_of(Item::Entries(m), name) is None,
{
    assert forall|i: int| 0 <= i < m.len() && (#[trigger] m[i]).0 is Text implies field_of(
        Item::Entries(m),
        m[i].0->Text_0,
    ) == Some(m[i].1) by {
        let name = m[i].0->Text_0;
        lemma_field_at(m, name, i);
        let rest = m.skip(i + 1);
        assert forall|k: int| 0 <= k < rest.len() implies name_of((#[trigger] rest[k]).0) != Some(
            name,
        ) by {
            assert(rest[k] == m[i + 1 + k]);
        }
        lemma_field_at(rest, name, rest.len() as int);
    }
    assert forall|name: Seq<char>|
        #![trigger field_of(Item::Entries(m), name)]
        (forall|i: int| 0 <= i < m.len() ==> name_of((#[trigger] m[i]).0) != Some(
            name,
        )) implies field_of(Item::Entries(m), name) is None by {
        lemma_field_at(m, name, m.len() as int);
    }
}

/// What a document that may be missing says.
pub open spec fn maybe(doc: Option<&Cbor>) -> Option<Item> {
    match doc {
        Some(d) => Some(d.item()),
        None => None,
    }
}

/// Whether a field is this number.
pub open spec fn is_uint(x: Option<Item>, n: nat) -> bool {
    x == Some(Item::Uint(n))
}

/// Whether a field is this number of either sign.
pub open spec fn is_int(x: Option<Item>, n: int) -> bool {
    x == Some(int_item(n))
}

/// Whether a field is this text.
pub open spec fn is_text(x: Option<Item>, s: Seq<char>) -> bool {
    x == Some(Item::Text(s))
}

/// Whether a field is these bytes: as a byte string or as an array of integers.
pub open spec fn is_bytes(x: Option<Item>, b: Seq<u8>) -> bool {
    x == Some(Item::Bytes(b)) || x == Some(byte_items(b))
}

/// Bytes written as an array of integers are those bytes and no others.
pub proof fn lemma_bytes_differ(a: Seq<u8>, b: Seq<u8>)
    ensures
        byte_items(a) == byte_items(b) ==> a == b,
{
    if byte_items(a) == byte_items(b) {
        let (x, y) = (byte_items(a)->Array_0, byte_items(b)->Array_0);
        assert(x.len() == a.len() && y.len() == b.len());
        assert forall|i: int| 0 <= i < a.len() implies a[i] == b[i] by {
            assert(x[i] == y[i]);
        }
        assert(a =~= b);
    }
}

/// The name that a key writes.
fn key_name(key: &Cbor) -> (r: Option<String>)
    ensures
        match r {
            Some(s) => name_of(key.item()) == Some(s@),
            None => name_of(key.item()) is None,
        },
{
    match key {
        Cbor::Text(s) => Some(s.clone()),
        Cbor::Bytes(b) => {
            let mut out = String::new();
            let mut i: usize = 0;
            while i < b.len()
                invariant
                    i <= b.len(),
                    key.item() == Item::Bytes(b@),
                    forall|k: int| 0 <= k < i ==> (#[trigger] b@[k]) < 128,
                    out@ == Seq::new(i as nat, |k: int| b@[k] as char),
                decreases b.len() - i,
            {
                let c: u8 = b[i];
                if c >= 128 {
                    return None;
                }
                out.push(c as char);
                i = i + 1;
                assert(out@ =~= Seq::new(i as nat, |k: int| b@[k] as char));
            }
            assert(out@ =~= Seq::new(b@.len(), |k: int| b@[k] as char));
            Some(out)
        },
        _ => None,
    }
}

fn is_key(key: &Cbor, name: &str) -> (r: bool)
    ensures
        r == (name_of(key.item()) == Some(name@)),
{
    match key_name(key) {
        Some(s) => text::str_eq(s.as_str(), name),
        None => false,
    }
}

/// Where the first entry with this name is, from a position on.
fn find_field(v: &Vec<(Cbor, Cbor)>, from: usize, name: &str) -> (r: usize)
    requires
        from <= v@.len(),
    ensures
        from <= r <= v@.len(),
        r - from == field_at(entry_items(v@).skip(from as int), name@),
{
    let ghost m = entry_items(v@);
    let ghost tail = m.skip(from as int);
    let mut i: usize = from;
    while i < v.len()
        invariant
            from <= i <= v.len(),
            m == entry_items(v@),
            tail == m.skip(from as int),
            forall|k: int| 0 <= k < i - from ==> name_of((#[trigger] tail[k]).0) != Some(name@),
        decreases v.len() - i,
    {
        assert(tail[i - from] == (v@[i as int].0.item(), v@[i as int].1.item()));
        if is_key(&v[i].0, name) {
            proof {
                lemma_field_at(tail, name@, i - from);
            }
            return i;
        }
        i = i + 1;
    }
    proof {
        lemma_field_at(tail, name@, i - from);
    }
    i
}

fn keys_are_names(v: &Vec<(Cbor, Cbor)>) -> (r: bool)
    ensures
        r == all_named(entry_items(v@)),
{
    let ghost m = entry_items(v@);
    let mut i: usize = 0;
    while i < v.len()
        invariant
            i <= v.len(),
            m == entry_items(v@),
            forall|k: int| 0 <= k < i ==> (#[trigger] m[k]).0 is Text || m[k].0 is Bytes,
        decreases v.len() - i,
    {
        assert(m[i as int] == (v@[i as int].0.item(), v@[i as int].1.item()));
        match &v[i].0 {
            Cbor::Text(_) | Cbor::Bytes(_) => {},
            _ => {
                assert(!(m[i as int].0 is Text || m[i as int].0 is Bytes));
                return false;
            },
        }
        i = i + 1;
    }
    true
}

/// What stands for a field that cannot be read.
fn unreadable() -> (r: &'static Cbor)
    ensures
        r.item() == Item::Fraction,
{
    &Cbor::Fraction
}

/// The part of what a choice carries: the field with this name, or, where the
/// fields are an array, the element at this place. An array that ends before it
/// cannot be read.
pub open spec fn part_of(item: Item, name: Seq<char>, place: int) -> Option<Item> {
    match item {
        Item::Array(v) => if 0 <= place < v.len() {
            Some(v[place])
        } else {
            Some(Item::Fraction)
        },
        _ => field_of(item, name),
    }
}

/// Whether a document is no array of more than `n` elements.
pub open spec fn fits(item: Item, n: int) -> bool {
    item matches Item::Array(v) ==> v.len() <= n
}

impl Cbor {
    /// The part of what a choice carries, by name or by place.
    #[must_use]
    pub fn part(&self, name: &str, place: usize) -> (r: Option<&Cbor>)
        ensures
            maybe(r) == part_of(self.item(), name@, place as int),
    {
        match self {
            Cbor::Array(v) => {
                proof {
                    lemma_array_item(*v);
                }
                if place < v.len() {
                    assert(items(v@)[place as int] == v@[place as int].item());
                    Some(&v[place])
                } else {
                    Some(unreadable())
                }
            },
            _ => self.field(name),
        }
    }

    /// Whether this is no array of more than `n` elements.
    #[must_use]
    pub fn fits(&self, n: usize) -> (r: bool)
        ensures
            r == fits(self.item(), n as int),
    {
        match self {
            Cbor::Array(v) => {
                proof {
                    lemma_array_item(*v);
                }
                v.len() <= n
            },
            _ => true,
        }
    }

    /// The field of a record with this name; a fraction where it cannot be read.
    #[must_use]
    pub fn field(&self, name: &str) -> (r: Option<&Cbor>)
        ensures
            maybe(r) == field_of(self.item(), name@),
    {
        match self {
            Cbor::Entries(v) => {
                let ghost m = entry_items(v@);
                proof {
                    lemma_entries_item(*v);
                    assert(m.skip(0) =~= m);
                }
                if !keys_are_names(v) {
                    return Some(unreadable());
                }
                let n: usize = find_field(v, 0, name);
                if n >= v.len() {
                    return None;
                }
                let again: usize = find_field(v, n + 1, name);
                if again < v.len() {
                    return Some(unreadable());
                }
                assert(m[n as int] == (v@[n as int].0.item(), v@[n as int].1.item()));
                Some(&v[n].1)
            },
            _ => None,
        }
    }
}

/// The number that a field is, at most `max`.
pub fn read_uint(x: Option<&Cbor>, max: u64) -> (r: Option<u64>)
    ensures
        match r {
            Some(n) => n <= max && is_uint(maybe(x), n as nat),
            None => forall|n: nat| n <= max ==> !is_uint(maybe(x), n),
        },
{
    match x {
        Some(Cbor::Uint(n)) => if *n <= max as u128 {
            Some(*n as u64)
        } else {
            None
        },
        _ => None,
    }
}

/// The signed number of 64 bits that a field is.
pub fn read_int(x: Option<&Cbor>) -> (r: Option<i64>)
    ensures
        match r {
            Some(n) => is_int(maybe(x), n as int),
            None => forall|n: i64| !is_int(maybe(x), n as int),
        },
{
    match x {
        Some(Cbor::Uint(n)) => if *n <= 0x7fff_ffff_ffff_ffff {
            Some(*n as i64)
        } else {
            None
        },
        Some(Cbor::Nint(n)) => if -0x8000_0000_0000_0000 <= *n && *n < 0 {
            Some(*n as i64)
        } else {
            None
        },
        _ => None,
    }
}

/// The text that a field is.
pub fn read_text(x: Option<&Cbor>) -> (r: Option<String>)
    ensures
        match r {
            Some(s) => is_text(maybe(x), s@),
            None => forall|s: Seq<char>| !is_text(maybe(x), s),
        },
{
    match x {
        Some(Cbor::Text(s)) => Some(s.clone()),
        _ => None,
    }
}

/// The bytes that a field is.
pub fn read_bytes(x: Option<&Cbor>) -> (r: Option<Vec<u8>>)
    ensures
        match r {
            Some(b) => is_bytes(maybe(x), b@),
            None => forall|b: Seq<u8>| !is_bytes(maybe(x), b),
        },
{
    match x {
        Some(Cbor::Bytes(b)) => Some(crate::bytes::copy_bytes(b.as_slice())),
        Some(Cbor::Array(v)) => {
            let ghost all = items(v@);
            proof {
                lemma_array_item(*v);
            }
            let mut out: Vec<u8> = Vec::new();
            let mut i: usize = 0;
            while i < v.len()
                invariant
                    i <= v.len(),
                    all == items(v@),
                    maybe(x) == Some(Item::Array(all)),
                    out@.len() == i,
                    forall|k: int|
                        0 <= k < i ==> #[trigger] all[k] == Item::Uint(out@[k] as nat),
                decreases v.len() - i,
            {
                assert(all[i as int] == v@[i as int].item());
                match read_uint(Some(&v[i]), 255) {
                    Some(n) => out.push(n as u8),
                    None => {
                        assert forall|b: Seq<u8>| !is_bytes(maybe(x), b) by {
                            if is_bytes(maybe(x), b) {
                                assert(byte_items(b)->Array_0.len() == b.len());
                                assert(byte_items(b)->Array_0 == all);
                                assert(byte_items(b)->Array_0[i as int] == Item::Uint(
                                    b[i as int] as nat,
                                ));
                                assert(is_uint(Some(all[i as int]), b[i as int] as nat));
                            }
                        }
                        return None;
                    },
                }
                i = i + 1;
            }
            assert(all =~= byte_items(out@)->Array_0);
            Some(out)
        },
        _ => None,
    }
}

/// The sixteen bytes that a field is.
pub fn read_bytes16(x: Option<&Cbor>) -> (r: Option<[u8; 16]>)
    ensures
        match r {
            Some(b) => is_bytes(maybe(x), b@),
            None => forall|b: Seq<u8>| b.len() == 16 ==> !is_bytes(maybe(x), b),
        },
{
    let v = match read_bytes(x) {
        Some(v) => v,
        None => return None,
    };
    if v.len() != 16 {
        proof {
            lemma_only_these(maybe(x), v@);
        }
        return None;
    }
    let mut out: [u8; 16] = [0u8; 16];
    let mut i: usize = 0;
    while i < 16
        invariant
            i <= 16,
            v@.len() == 16,
            forall|k: int| 0 <= k < i ==> out@[k] == v@[k],
        decreases 16 - i,
    {
        let b: u8 = v[i];
        out[i] = b;
        i = i + 1;
    }
    assert(out@ =~= v@);
    Some(out)
}

/// The thirty-two bytes that a field is.
pub fn read_bytes32(x: Option<&Cbor>) -> (r: Option<[u8; 32]>)
    ensures
        match r {
            Some(b) => is_bytes(maybe(x), b@),
            None => forall|b: Seq<u8>| b.len() == 32 ==> !is_bytes(maybe(x), b),
        },
{
    let v = match read_bytes(x) {
        Some(v) => v,
        None => return None,
    };
    if v.len() != 32 {
        proof {
            lemma_only_these(maybe(x), v@);
        }
        return None;
    }
    let mut out: [u8; 32] = [0u8; 32];
    let mut i: usize = 0;
    while i < 32
        invariant
            i <= 32,
            v@.len() == 32,
            forall|k: int| 0 <= k < i ==> out@[k] == v@[k],
        decreases 32 - i,
    {
        let b: u8 = v[i];
        out[i] = b;
        i = i + 1;
    }
    assert(out@ =~= v@);
    Some(out)
}

/// The sixty-four bytes that a field is.
pub fn read_bytes64(x: Option<&Cbor>) -> (r: Option<[u8; 64]>)
    ensures
        match r {
            Some(b) => is_bytes(maybe(x), b@),
            None => forall|b: Seq<u8>| b.len() == 64 ==> !is_bytes(maybe(x), b),
        },
{
    let v = match read_bytes(x) {
        Some(v) => v,
        None => return None,
    };
    if v.len() != 64 {
        proof {
            lemma_only_these(maybe(x), v@);
        }
        return None;
    }
    let mut out: [u8; 64] = [0u8; 64];
    let mut i: usize = 0;
    while i < 64
        invariant
            i <= 64,
            v@.len() == 64,
            forall|k: int| 0 <= k < i ==> out@[k] == v@[k],
        decreases 64 - i,
    {
        let b: u8 = v[i];
        out[i] = b;
        i = i + 1;
    }
    assert(out@ =~= v@);
    Some(out)
}

/// A field is no two byte strings.
pub proof fn lemma_only_these(x: Option<Item>, a: Seq<u8>)
    requires
        is_bytes(x, a),
    ensures
        forall|b: Seq<u8>| #[trigger] is_bytes(x, b) ==> a == b,
{
    assert forall|b: Seq<u8>| #[trigger] is_bytes(x, b) implies a == b by {
        lemma_bytes_differ(a, b);
    }
}

/// The name of a choice and what it carries: a text is a choice that carries
/// nothing, a map of one entry under a name is one that carries something.
pub open spec fn choice_of(item: Item) -> Option<(Seq<char>, Option<Item>)> {
    match item {
        Item::Text(s) => Some((s, None)),
        Item::Entries(m) => if m.len() == 1 {
            match name_of(m[0].0) {
                Some(name) => Some((name, Some(m[0].1))),
                None => None,
            }
        } else {
            None
        },
        _ => None,
    }
}

impl Cbor {
    /// The name of a choice and what it carries.
    #[must_use]
    pub fn choice(&self) -> (r: Option<(String, Option<&Cbor>)>)
        ensures
            match r {
                Some((name, value)) => choice_of(self.item()) == Some((name@, maybe(value))),
                None => choice_of(self.item()) is None,
            },
    {
        match self {
            Cbor::Text(s) => Some((s.clone(), None)),
            Cbor::Entries(v) => {
                let ghost m = entry_items(v@);
                proof {
                    lemma_entries_item(*v);
                }
                if v.len() == 1 {
                    assert(m[0] == (v@[0].0.item(), v@[0].1.item()));
                    match key_name(&v[0].0) {
                        Some(s) => Some((s, Some(&v[0].1))),
                        None => None,
                    }
                } else {
                    None
                }
            },
            _ => None,
        }
    }
}

/// Whether a document holds what messages are made of and nests at most `depth`
/// arrays and maps.
pub open spec fn is_plain(item: Item, depth: nat) -> bool
    decreases depth,
{
    match item {
        Item::Uint(n) => n <= u64::MAX,
        Item::Nint(n) => -0x1_0000_0000_0000_0000 <= n < 0,
        Item::Text(_) | Item::Bytes(_) | Item::Bool(_) | Item::Null => true,
        Item::Array(v) => depth > 0 && forall|i: int|
            0 <= i < v.len() ==> is_plain(#[trigger] v[i], (depth - 1) as nat),
        Item::Entries(m) => depth > 0 && forall|i: int|
            0 <= i < m.len() ==> is_plain((#[trigger] m[i]).0, (depth - 1) as nat) && is_plain(
                m[i].1,
                (depth - 1) as nat,
            ),
        _ => false,
    }
}

/// Whether a document can be encoded: it has no fractions and no tags, and nests
/// at most `depth` arrays and maps.
pub open spec fn is_encodable(item: Item, depth: nat) -> bool
    decreases depth,
{
    match item {
        Item::Fraction | Item::Tagged(..) => false,
        Item::Array(v) => depth > 0 && forall|i: int|
            0 <= i < v.len() ==> is_encodable(#[trigger] v[i], (depth - 1) as nat),
        Item::Entries(m) => depth > 0 && forall|i: int|
            0 <= i < m.len() ==> is_encodable((#[trigger] m[i]).0, (depth - 1) as nat)
                && is_encodable(m[i].1, (depth - 1) as nat),
        _ => true,
    }
}

/// What messages are made of can be encoded, also where it may nest deeper.
pub proof fn lemma_plain_is_encodable(item: Item, depth: nat, more: nat)
    requires
        is_plain(item, depth),
        depth <= more,
    ensures
        is_encodable(item, more),
    decreases depth,
{
    match item {
        Item::Array(v) => {
            assert forall|i: int| 0 <= i < v.len() implies is_encodable(
                #[trigger] v[i],
                (more - 1) as nat,
            ) by {
                lemma_plain_is_encodable(v[i], (depth - 1) as nat, (more - 1) as nat);
            }
        },
        Item::Entries(m) => {
            assert forall|i: int| 0 <= i < m.len() implies is_encodable(
                (#[trigger] m[i]).0,
                (more - 1) as nat,
            ) && is_encodable(m[i].1, (more - 1) as nat) by {
                lemma_plain_is_encodable(m[i].0, (depth - 1) as nat, (more - 1) as nat);
                lemma_plain_is_encodable(m[i].1, (depth - 1) as nat, (more - 1) as nat);
            }
        },
        _ => {},
    }
}

/// Bytes written as an array of integers can be encoded.
pub proof fn lemma_bytes_are_encodable(b: Seq<u8>, depth: nat)
    requires
        depth > 0,
    ensures
        is_encodable(byte_items(b), depth),
{
    let v = byte_items(b)->Array_0;
    assert forall|i: int| 0 <= i < v.len() implies is_encodable(
        #[trigger] v[i],
        (depth - 1) as nat,
    ) by {}
}

/// What a choice with this name carries, where it is no array of more than `n`
/// elements.
pub open spec fn carried_within(item: Item, name: Seq<char>, n: int) -> Option<Item> {
    match carried(item, name) {
        Some(x) => if fits(x, n) {
            Some(x)
        } else {
            None
        },
        None => None,
    }
}

/// What a choice with this name carries.
pub open spec fn carried(item: Item, name: Seq<char>) -> Option<Item> {
    match choice_of(item) {
        Some(c) => if c.0 == name {
            c.1
        } else {
            None
        },
        None => None,
    }
}

/// A choice that carries something reads as that choice and no other.
pub proof fn lemma_choice(name: Seq<char>, value: Item, depth: nat)
    ensures
        choice_of(choice(name, value)) == Some((name, Some(value))),
        carried(choice(name, value), name) == Some(value),
        is_plain(value, depth) ==> is_plain(choice(name, value), depth + 1),
{
    let m = choice(name, value)->Entries_0;
    assert(m[0] == field(name, value));
    if is_plain(value, depth) {
        assert forall|i: int| 0 <= i < m.len() implies is_plain((#[trigger] m[i]).0, depth)
            && is_plain(m[i].1, depth) by {
            assert(m[i] == m[0]);
        }
    }
}

/// Bytes written as an array of integers are plain.
pub proof fn lemma_bytes_plain(b: Seq<u8>)
    ensures
        is_plain(byte_items(b), 1),
{
    let v = byte_items(b)->Array_0;
    assert forall|i: int| 0 <= i < v.len() implies is_plain(#[trigger] v[i], 0) by {}
}

/// What nests less nests less than more.
pub proof fn lemma_plain_more(item: Item, a: nat, b: nat)
    requires
        is_plain(item, a),
        a <= b,
    ensures
        is_plain(item, b),
    decreases a,
{
    match item {
        Item::Array(v) => {
            assert forall|i: int| 0 <= i < v.len() implies is_plain(
                #[trigger] v[i],
                (b - 1) as nat,
            ) by {
                lemma_plain_more(v[i], (a - 1) as nat, (b - 1) as nat);
            }
        },
        Item::Entries(m) => {
            assert forall|i: int| 0 <= i < m.len() implies is_plain(
                (#[trigger] m[i]).0,
                (b - 1) as nat,
            ) && is_plain(m[i].1, (b - 1) as nat) by {
                lemma_plain_more(m[i].0, (a - 1) as nat, (b - 1) as nat);
                lemma_plain_more(m[i].1, (a - 1) as nat, (b - 1) as nat);
            }
        },
        _ => {},
    }
}

/// The value of a name is that of its entry, wherever among the others it stands;
/// a name that stands twice has none that can be read.
pub proof fn law_field_is_found_by_name(
    before: Seq<(Item, Item)>,
    name: Seq<char>,
    value: Item,
    behind: Seq<(Item, Item)>,
)
    requires
        all_named(before),
        all_named(behind),
        forall|i: int| 0 <= i < before.len() ==> name_of((#[trigger] before[i]).0) != Some(name),
    ensures
        field_of(Item::Entries(before), name) is None,
        ({
            let all = before + seq![(Item::Text(name), value)] + behind;
            if exists|i: int|
                0 <= i < behind.len() && name_of((#[trigger] behind[i]).0) == Some(name) {
                field_of(Item::Entries(all), name) == Some(Item::Fraction)
            } else {
                field_of(Item::Entries(all), name) == Some(value)
            }
        }),
{
    let entry = (Item::Text(name), value);
    let all = before + seq![entry] + behind;
    assert forall|i: int| 0 <= i < all.len() implies (#[trigger] all[i]).0 is Text
        || all[i].0 is Bytes by {
        if i < before.len() {
            assert(all[i] == before[i]);
        } else if i > before.len() {
            assert(all[i] == behind[i - before.len() - 1]);
        }
    }
    lemma_field_behind(before, entry, behind, name);
    let n = before.len() as int;
    assert(all.skip(n + 1) =~= behind);
    assert(all[n] == entry);
    lemma_first_named(behind, name);
}

proof fn lemma_field_behind(
    before: Seq<(Item, Item)>,
    entry: (Item, Item),
    behind: Seq<(Item, Item)>,
    name: Seq<char>,
)
    requires
        forall|i: int| 0 <= i < before.len() ==> name_of((#[trigger] before[i]).0) != Some(name),
        name_of(entry.0) == Some(name),
    ensures
        field_at(before, name) == before.len(),
        field_at(before + seq![entry] + behind, name) == before.len(),
    decreases before.len(),
{
    let all = before + seq![entry] + behind;
    if before.len() > 0 {
        let less = before.skip(1);
        assert forall|i: int| 0 <= i < less.len() implies name_of((#[trigger] less[i]).0) != Some(
            name,
        ) by {
            assert(less[i] == before[i + 1]);
        }
        lemma_field_behind(less, entry, behind, name);
        assert(all.skip(1) =~= less + seq![entry] + behind);
        assert(all[0] == before[0]);
        assert(name_of(before[0].0) != Some(name));
    } else {
        assert(all[0] == entry);
    }
}

proof fn lemma_first_named(m: Seq<(Item, Item)>, name: Seq<char>)
    ensures
        field_at(m, name) < m.len() <==> exists|i: int|
            0 <= i < m.len() && name_of((#[trigger] m[i]).0) == Some(name),
        field_at(m, name) <= m.len(),
    decreases m.len(),
{
    if m.len() > 0 {
        let less = m.skip(1);
        lemma_first_named(less, name);
        if exists|i: int| 0 <= i < m.len() && name_of((#[trigger] m[i]).0) == Some(name) {
            let i = choose|i: int| 0 <= i < m.len() && name_of((#[trigger] m[i]).0) == Some(name);
            if i > 0 {
                assert(less[i - 1] == m[i]);
            }
        }
        if exists|i: int| 0 <= i < less.len() && name_of((#[trigger] less[i]).0) == Some(name) {
            let i = choose|i: int|
                0 <= i < less.len() && name_of((#[trigger] less[i]).0) == Some(name);
            assert(m[i + 1] == less[i]);
        }
    }
}

/// A choice is read as its name and what it carries; a bare name carries nothing,
/// and what has no name or more than one entry is no choice.
pub proof fn law_choice_is_read(name: Seq<char>, value: Item, entries: Seq<(Item, Item)>)
    ensures
        choice_of(choice(name, value)) == Some((name, Some(value))),
        choice_of(Item::Text(name)) == Some((name, None::<Item>)),
        entries.len() != 1 ==> choice_of(Item::Entries(entries)) is None,
        entries.len() == 1 && !(entries[0].0 is Text || entries[0].0 is Bytes) ==> choice_of(
            Item::Entries(entries),
        ) is None,
        carried(choice(name, value), name) == Some(value),
        carried(Item::Text(name), name) is None,
{
}

/// Tags are dropped around a value and inside lists and maps, in their places.
pub proof fn law_tags_are_dropped(tag: u64, x: Item, v: Seq<Item>, i: int)
    ensures
        !(untagged(x) is Null) ==> untagged(Item::Tagged(tag, Box::new(x))) == untagged(x),
        untagged(Item::Array(v)) matches Item::Array(w) && w.len() == v.len() && (0 <= i < v.len()
            ==> w[i] == untagged(v[i])),
        x is Uint || x is Nint || x is Text || x is Bytes || x is Bool || x is Null ==> untagged(x)
            == x,
{
}

} // verus!
