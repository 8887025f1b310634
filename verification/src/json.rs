//! JSON documents as trees of plain values.

use crate::text::str_eq;
use vstd::prelude::*;

verus! {

/// A JSON document.
pub enum Json {
    /// `null`.
    Null,
    /// `true` or `false`.
    Bool(bool),
    /// A whole number that is not negative and fits 64 bits.
    Uint(u64),
    /// A negative whole number that fits 64 bits.
    Nint(i64),
    /// Any other number, as it prints.
    Real(String),
    /// A string.
    Text(String),
    /// An array.
    Array(Vec<Json>),
    /// An object, in the order of its members.
    Object(Vec<(String, Json)>),
}

/// What a JSON document says.
pub enum JsonItem {
    /// `null`.
    Null,
    /// `true` or `false`.
    Bool(bool),
    /// A whole number that is not negative.
    Uint(nat),
    /// A negative whole number.
    Nint(int),
    /// Any other number, as it prints.
    Real(Seq<char>),
    /// A string.
    Text(Seq<char>),
    /// An array.
    Array(Seq<JsonItem>),
    /// An object, in the order of its members.
    Object(Seq<(Seq<char>, JsonItem)>),
}

impl Json {
    /// What the document says.
    pub open spec fn item(self) -> JsonItem
        decreases self,
    {
        match self {
            Json::Null => JsonItem::Null,
            Json::Bool(b) => JsonItem::Bool(b),
            Json::Uint(n) => JsonItem::Uint(n as nat),
            Json::Nint(n) => JsonItem::Nint(n as int),
            Json::Real(s) => JsonItem::Real(s@),
            Json::Text(s) => JsonItem::Text(s@),
            Json::Array(v) => JsonItem::Array(
                Seq::new(
                    v@.len(),
                    |i: int|
                        if 0 <= i < v@.len() {
                            v@[i].item()
                        } else {
                            JsonItem::Null
                        },
                ),
            ),
            Json::Object(v) => JsonItem::Object(
                Seq::new(
                    v@.len(),
                    |i: int|
                        if 0 <= i < v@.len() {
                            (v@[i].0@, v@[i].1.item())
                        } else {
                            (Seq::empty(), JsonItem::Null)
                        },
                ),
            ),
        }
    }
}

/// What each document of a list says.
pub open spec fn items(v: Seq<Json>) -> Seq<JsonItem> {
    Seq::new(v.len(), |i: int| v[i].item())
}

/// What each member of a list says.
pub open spec fn members(v: Seq<(String, Json)>) -> Seq<(Seq<char>, JsonItem)> {
    Seq::new(v.len(), |i: int| (v[i].0@, v[i].1.item()))
}

/// An array says what its elements say.
pub proof fn lemma_array_item(v: Vec<Json>)
    ensures
        Json::Array(v).item() == JsonItem::Array(items(v@)),
{
    assert(Json::Array(v).item()->Array_0 =~= items(v@));
}

/// An object says what its members say.
pub proof fn lemma_object_item(v: Vec<(String, Json)>)
    ensures
        Json::Object(v).item() == JsonItem::Object(members(v@)),
{
    assert(Json::Object(v).item()->Object_0 =~= members(v@));
}

/// The position of the first member with this name, or the number of members.
pub open spec fn member_at(m: Seq<(Seq<char>, JsonItem)>, name: Seq<char>) -> nat
    decreases m.len(),
{
    if m.len() == 0 || m[0].0 == name {
        0
    } else {
        1 + member_at(m.skip(1), name)
    }
}

/// The member of an object with this name, if the document is an object that
/// has one.
pub open spec fn member(doc: JsonItem, name: Seq<char>) -> Option<JsonItem> {
    match doc {
        JsonItem::Object(m) => if member_at(m, name) < m.len() {
            Some(m[member_at(m, name) as int].1)
        } else {
            None
        },
        _ => None,
    }
}

/// Whether the member at this position is the only one with this name.
pub open spec fn is_sole(m: Seq<(Seq<char>, JsonItem)>, name: Seq<char>, at: int) -> bool {
    &&& 0 <= at < m.len()
    &&& m[at].0 == name
    &&& forall|i: int| 0 <= i < m.len() && (#[trigger] m[i]).0 == name ==> i == at
}

/// The value of the only member with this name, if there is exactly one.
pub open spec fn sole_member(m: Seq<(Seq<char>, JsonItem)>, name: Seq<char>) -> Option<JsonItem> {
    if exists|at: int| is_sole(m, name, at) {
        Some(m[choose|at: int| is_sole(m, name, at)].1)
    } else {
        None
    }
}

/// There is one only member.
pub proof fn lemma_sole(m: Seq<(Seq<char>, JsonItem)>, name: Seq<char>, at: int)
    requires
        is_sole(m, name, at),
    ensures
        sole_member(m, name) == Some(m[at].1),
{
}

/// A part of a document: of an object, the only member with this name; of an
/// array, what stands at this place.
pub open spec fn part_of(doc: JsonItem, name: Seq<char>, place: int) -> Option<JsonItem> {
    match doc {
        JsonItem::Object(m) => sole_member(m, name),
        JsonItem::Array(v) => if 0 <= place < v.len() {
            Some(v[place])
        } else {
            None
        },
        _ => None,
    }
}

/// Whether a document, if it is an array, has this many elements.
pub open spec fn fits(doc: JsonItem, n: int) -> bool {
    doc matches JsonItem::Array(v) ==> v.len() == n
}

/// The string that a document is, if it is one.
pub open spec fn text_of(doc: Option<JsonItem>) -> Option<Seq<char>> {
    match doc {
        Some(JsonItem::Text(s)) => Some(s),
        _ => None,
    }
}

/// The whole number that a document is, if it is one.
pub open spec fn uint_of(doc: Option<JsonItem>) -> Option<nat> {
    match doc {
        Some(JsonItem::Uint(n)) => Some(n),
        _ => None,
    }
}

proof fn lemma_member_at(m: Seq<(Seq<char>, JsonItem)>, name: Seq<char>, n: int)
    requires
        0 <= n <= m.len(),
        forall|i: int| 0 <= i < n ==> (#[trigger] m[i]).0 != name,
        n < m.len() ==> m[n].0 == name,
    ensures
        member_at(m, name) == n,
    decreases n,
{
    if n > 0 {
        assert(m[0].0 != name);
        let t = m.skip(1);
        assert forall|i: int| 0 <= i < n - 1 implies (#[trigger] t[i]).0 != name by {
            assert(t[i] == m[i + 1]);
        }
        lemma_member_at(t, name, n - 1);
    }
}

impl Json {
    /// The member of an object with this name.
    #[must_use]
    pub fn get(&self, name: &str) -> (r: Option<&Json>)
        ensures
            r is Some <==> member(self.item(), name@) is Some,
            r matches Some(j) ==> member(self.item(), name@) == Some(j.item()),
    {
        match self {
            Json::Object(v) => {
                let ghost m = members(v@);
                proof {
                    lemma_object_item(*v);
                }
                let mut i: usize = 0;
                while i < v.len()
                    invariant
                        i <= v.len(),
                        m == members(v@),
                        self.item() == JsonItem::Object(m),
                        forall|k: int| 0 <= k < i ==> (#[trigger] m[k]).0 != name@,
                    decreases v.len() - i,
                {
                    assert(m[i as int] == (v@[i as int].0@, v@[i as int].1.item()));
                    if str_eq(v[i].0.as_str(), name) {
                        proof {
                            lemma_member_at(m, name@, i as int);
                        }
                        return Some(&v[i].1);
                    }
                    i = i + 1;
                }
                proof {
                    lemma_member_at(m, name@, i as int);
                }
                None
            },
            _ => None,
        }
    }

    /// A part of the document: of an object, the only member with this name; of
    /// an array, what stands at this place.
    #[must_use]
    pub fn part(&self, name: &str, place: usize) -> (r: Option<&Json>)
        ensures
            r is Some <==> part_of(self.item(), name@, place as int) is Some,
            r matches Some(j) ==> part_of(self.item(), name@, place as int) == Some(j.item()),
    {
        match self {
            Json::Object(v) => {
                let ghost m = members(v@);
                proof {
                    lemma_object_item(*v);
                }
                let mut found: Option<usize> = None;
                let mut i: usize = 0;
                while i < v.len()
                    invariant
                        i <= v.len(),
                        m == members(v@),
                        self.item() == JsonItem::Object(m),
                        match found {
                            Some(at) => at < i && m[at as int].0 == name@ && forall|k: int|
                                0 <= k < i && (#[trigger] m[k]).0 == name@ ==> k == at,
                            None => forall|k: int| 0 <= k < i ==> (#[trigger] m[k]).0 != name@,
                        },
                    decreases v.len() - i,
                {
                    assert(m[i as int] == (v@[i as int].0@, v@[i as int].1.item()));
                    if str_eq(v[i].0.as_str(), name) {
                        if found.is_some() {
                            assert(forall|at: int| !is_sole(m, name@, at));
                            return None;
                        }
                        found = Some(i);
                    }
                    i = i + 1;
                }
                match found {
                    Some(at) => {
                        proof {
                            lemma_sole(m, name@, at as int);
                        }
                        Some(&v[at].1)
                    },
                    None => None,
                }
            },
            Json::Array(v) => {
                proof {
                    lemma_array_item(*v);
                }
                if place < v.len() {
                    Some(&v[place])
                } else {
                    None
                }
            },
            _ => None,
        }
    }

    /// Whether the document, if it is an array, has this many elements.
    #[must_use]
    pub fn fits(&self, n: usize) -> (r: bool)
        ensures
            r == fits(self.item(), n as int),
    {
        match self {
            Json::Array(v) => {
                proof {
                    lemma_array_item(*v);
                }
                v.len() == n
            },
            _ => true,
        }
    }

    /// The string that the document is.
    #[must_use]
    pub fn as_text(&self) -> (r: Option<&String>)
        ensures
            r is Some <==> self.item() is Text,
            r matches Some(s) ==> self.item() == JsonItem::Text(s@),
    {
        match self {
            Json::Text(s) => Some(s),
            _ => None,
        }
    }

    /// The whole number that the document is.
    #[must_use]
    pub fn as_uint(&self) -> (r: Option<u64>)
        ensures
            r is Some <==> self.item() is Uint,
            r matches Some(n) ==> self.item() == JsonItem::Uint(n as nat),
    {
        match self {
            Json::Uint(n) => Some(*n),
            _ => None,
        }
    }

    /// The string under a name.
    #[must_use]
    pub fn text_at(&self, name: &str) -> (r: Option<&String>)
        ensures
            r is Some <==> text_of(member(self.item(), name@)) is Some,
            r matches Some(s) ==> text_of(member(self.item(), name@)) == Some(s@),
    {
        match self.get(name) {
            Some(j) => j.as_text(),
            None => None,
        }
    }
}

/// The members of an object, in order.
pub struct Members {
    list: Vec<(String, Json)>,
}

impl View for Members {
    type V = Seq<(Seq<char>, JsonItem)>;

    closed spec fn view(&self) -> Seq<(Seq<char>, JsonItem)> {
        members(self.list@)
    }
}

impl Members {
    /// No members.
    pub fn new() -> (r: Self)
        ensures
            r@ == Seq::<(Seq<char>, JsonItem)>::empty(),
    {
        let r = Members { list: Vec::new() };
        assert(r@ =~= Seq::<(Seq<char>, JsonItem)>::empty());
        r
    }

    /// One member more.
    pub fn with(self, name: &str, value: Json) -> (r: Self)
        ensures
            r@ == self@.push((name@, value.item())),
    {
        let mut list = self.list;
        list.push((name.to_owned(), value));
        let r = Members { list };
        assert(r@ =~= self@.push((name@, value.item())));
        r
    }

    /// The document.
    pub fn done(self) -> (r: Json)
        ensures
            r.item() == JsonItem::Object(self@),
    {
        proof {
            lemma_object_item(self.list);
        }
        Json::Object(self.list)
    }
}

/// A string.
pub fn text(s: &str) -> (r: Json)
    ensures
        r.item() == JsonItem::Text(s@),
{
    Json::Text(s.to_owned())
}

/// An array of whole numbers.
pub fn uints(list: &Vec<u64>) -> (r: Json)
    ensures
        r.item() == uint_items(list@),
{
    let mut v: Vec<Json> = Vec::new();
    let mut i: usize = 0;
    while i < list.len()
        invariant
            i <= list.len(),
            v.len() == i,
            forall|k: int|
                0 <= k < i ==> (#[trigger] v@[k]).item() == JsonItem::Uint(list@[k] as nat),
        decreases list.len() - i,
    {
        v.push(Json::Uint(list[i]));
        i = i + 1;
    }
    proof {
        lemma_array_item(v);
        assert(items(v@) =~= uint_items(list@)->Array_0);
    }
    Json::Array(v)
}

/// An array of whole numbers.
pub open spec fn uint_items(list: Seq<u64>) -> JsonItem {
    JsonItem::Array(Seq::new(list.len(), |i: int| JsonItem::Uint(list[i] as nat)))
}

/// The whole numbers of an array, if it holds nothing else.
pub open spec fn uints_of(doc: Option<JsonItem>) -> Option<Seq<u64>> {
    match doc {
        Some(JsonItem::Array(v)) => if forall|i: int|
            0 <= i < v.len() ==> #[trigger] v[i] is Uint && v[i]->Uint_0 <= u64::MAX {
            Some(Seq::new(v.len(), |i: int| v[i]->Uint_0 as u64))
        } else {
            None
        },
        _ => None,
    }
}

impl Json {
    /// The whole numbers of the array that the document is.
    #[must_use]
    pub fn as_uints(&self) -> (r: Option<Vec<u64>>)
        ensures
            match r {
                Some(v) => uints_of(Some(self.item())) == Some(v@),
                None => uints_of(Some(self.item())) is None,
            },
    {
        match self {
            Json::Array(v) => {
                let ghost all = items(v@);
                proof {
                    lemma_array_item(*v);
                }
                let mut out: Vec<u64> = Vec::new();
                let mut i: usize = 0;
                while i < v.len()
                    invariant
                        i <= v.len(),
                        all == items(v@),
                        self.item() == JsonItem::Array(all),
                        out.len() == i,
                        forall|k: int|
                            0 <= k < i ==> #[trigger] all[k] is Uint && all[k]->Uint_0
                                == out@[k],
                    decreases v.len() - i,
                {
                    assert(all[i as int] == v@[i as int].item());
                    match v[i].as_uint() {
                        Some(n) => out.push(n),
                        None => {
                            assert(!(all[i as int] is Uint));
                            return None;
                        },
                    }
                    i = i + 1;
                }
                assert(out@ =~= uints_of(Some(JsonItem::Array(all)))->0);
                Some(out)
            },
            _ => None,
        }
    }
}

/// Whether a document is an object of strings, whole numbers and arrays of
/// whole numbers, under names none of which occurs twice.
pub open spec fn is_flat(doc: JsonItem) -> bool {
    match doc {
        JsonItem::Object(m) => {
            &&& forall|i: int, j: int| 0 <= i < j < m.len() ==> m[i].0 != m[j].0
            &&& forall|i: int| 0 <= i < m.len() ==> is_leaf(#[trigger] m[i].1)
        },
        _ => false,
    }
}

/// Whether a document is a string, a whole number of 64 bits, or an array of
/// such numbers.
pub open spec fn is_leaf(doc: JsonItem) -> bool {
    match doc {
        JsonItem::Text(_) => true,
        JsonItem::Uint(n) => n <= u64::MAX,
        JsonItem::Array(v) => forall|i: int|
            0 <= i < v.len() ==> #[trigger] v[i] is Uint && v[i]->Uint_0 <= u64::MAX,
        _ => false,
    }
}

/// The member of an object with a name is the first that has it; an object in
/// which none has it has no such member.
pub proof fn law_member_is_the_first(
    before: Seq<(Seq<char>, JsonItem)>,
    name: Seq<char>,
    value: JsonItem,
    behind: Seq<(Seq<char>, JsonItem)>,
)
    requires
        forall|i: int| 0 <= i < before.len() ==> (#[trigger] before[i]).0 != name,
    ensures
        member(JsonItem::Object(before), name) is None,
        member(JsonItem::Object(before + seq![(name, value)] + behind), name) == Some(value),
{
    let all = before + seq![(name, value)] + behind;
    lemma_member_at(before, name, before.len() as int);
    assert forall|i: int| 0 <= i < before.len() implies (#[trigger] all[i]).0 != name by {
        assert(all[i] == before[i]);
    }
    lemma_member_at(all, name, before.len() as int);
}

/// A member that stands once is found wherever it stands; one that stands twice is
/// not found.
pub proof fn law_sole_member_is_found(
    before: Seq<(Seq<char>, JsonItem)>,
    name: Seq<char>,
    value: JsonItem,
    behind: Seq<(Seq<char>, JsonItem)>,
)
    requires
        forall|i: int| 0 <= i < before.len() ==> (#[trigger] before[i]).0 != name,
    ensures
        sole_member(before, name) is None,
        ({
            let all = before + seq![(name, value)] + behind;
            if exists|i: int| 0 <= i < behind.len() && (#[trigger] behind[i]).0 == name {
                sole_member(all, name) is None
            } else {
                sole_member(all, name) == Some(value)
            }
        }),
{
    let all = before + seq![(name, value)] + behind;
    let n = before.len() as int;
    assert(all[n] == (name, value));
    if exists|i: int| 0 <= i < behind.len() && (#[trigger] behind[i]).0 == name {
        let i = choose|i: int| 0 <= i < behind.len() && (#[trigger] behind[i]).0 == name;
        assert(all[n + 1 + i] == behind[i]);
        assert forall|at: int| !is_sole(all, name, at) by {
            if is_sole(all, name, at) {
                assert(all[n].0 == name && all[n + 1 + i].0 == name);
            }
        }
    } else {
        assert forall|i: int| 0 <= i < all.len() && (#[trigger] all[i]).0 == name implies i == n by {
            if i < n {
                assert(all[i] == before[i]);
            } else if i > n {
                assert(all[i] == behind[i - n - 1]);
            }
        }
        assert(is_sole(all, name, n));
        let at = choose|at: int| is_sole(all, name, at);
        assert(all[at].0 == name);
    }
    if exists|at: int| is_sole(before, name, at) {
        let at = choose|at: int| is_sole(before, name, at);
        assert(before[at].0 != name);
    }
}

/// A list of numbers is read number by number, and any other element spoils it.
pub proof fn law_numbers_are_read_in_order(list: Seq<u64>, v: Seq<JsonItem>, i: int)
    ensures
        uints_of(Some(uint_items(list))) == Some(list),
        0 <= i < v.len() && !(v[i] is Uint && v[i]->Uint_0 <= u64::MAX) ==> uints_of(
            Some(JsonItem::Array(v)),
        ) is None,
        uints_of(None) is None,
{
    let items = uint_items(list)->Array_0;
    assert forall|k: int| 0 <= k < items.len() implies #[trigger] items[k] is Uint
        && items[k]->Uint_0 <= u64::MAX by {}
    assert(uints_of(Some(uint_items(list)))->0 =~= list);
}

} // verus!
