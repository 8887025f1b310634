//! Messages' parts as CBOR documents: how each is written, and which document
//! reads as which value.
//!
//! A record is a map from the names of its fields; fields may come in any order,
//! and names that the record does not have are ignored. A choice that carries
//! nothing is its name; one that carries something is a map from its name to
//! that. Byte strings are written as arrays of integers and read from either.

use crate::attestation::{Attestation, AttestationResult};
use crate::capabilities::{Capabilities, JobRequirements, Platform, Runtime, RuntimeSet};
use crate::cbor;
use crate::cbor::{Cbor, Item, Record};
use crate::env_map::EnvMap;
use crate::jobs::{CaptureKind, CapturedOutput, Limits, Pipeline, Step};
use crate::merkle_log::InclusionProof;
use crate::network::{EgressDefault, EgressTarget, NetworkPolicy, Scheme};
use crate::retrieval::JobBundle;
use crate::text;
use vstd::prelude::*;

verus! {

// ── Hashes and strings ─────────────────────────────────────────────────────

/// The document of a hash.
pub open spec fn hash_item(v: [u8; 32]) -> Item {
    cbor::byte_items(v@)
}

/// Writes the document.
#[must_use]
pub fn hash_to_cbor(v: &[u8; 32]) -> (r: Cbor)
    ensures
        r.item() == hash_item(*v),
{
    cbor::bytes(v.as_slice())
}

/// Whether a document is a hash.
pub open spec fn is_hash(item: Item, v: [u8; 32]) -> bool {
    cbor::is_bytes(Some(item), v@)
}

/// Reads a hash.
#[must_use]
pub fn read_hash(doc: &Cbor) -> (r: Option<[u8; 32]>)
    ensures
        match r {
            Some(v) => is_hash(doc.item(), v),
            None => forall|v: [u8; 32]| !is_hash(doc.item(), v),
        },
{
    cbor::read_bytes32(Some(doc))
}

/// Reading gives back what was written.
pub proof fn lemma_hash(v: [u8; 32], w: [u8; 32])
    ensures
        cbor::is_plain(hash_item(v), 1),
        is_hash(hash_item(v), v),
        is_hash(hash_item(v), w) ==> hash_item(w) == hash_item(v),
{
    cbor::lemma_bytes_plain(v@);
    cbor::lemma_bytes_differ(v@, w@);
}

/// The documents of a list: hash.
pub open spec fn hash_items(v: Seq<[u8; 32]>) -> Seq<Item> {
    Seq::new(v.len(), |i: int| hash_item(v[i]))
}

/// Whether a field is this list: hash.
pub open spec fn is_hash_list(x: Option<Item>, list: Seq<[u8; 32]>) -> bool {
    match x {
        Some(Item::Array(v)) => v.len() == list.len() && forall|i: int|
            0 <= i < v.len() ==> is_hash(#[trigger] v[i], list[i]),
        _ => false,
    }
}

fn hash_list_to_cbor(list: &Vec<[u8; 32]>) -> (r: Cbor)
    ensures
        r.item() == Item::Array(hash_items(list@)),
{
    let mut v: Vec<Cbor> = Vec::new();
    let mut i: usize = 0;
    while i < list.len()
        invariant
            i <= list.len(),
            v.len() == i,
            forall|k: int| 0 <= k < i ==> (#[trigger] v@[k]).item() == hash_item(list@[k]),
        decreases list.len() - i,
    {
        v.push(hash_to_cbor(&list[i]));
        i = i + 1;
    }
    assert(cbor::items(v@) =~= hash_items(list@));
    cbor::array(v)
}

fn read_hash_list(x: Option<&Cbor>) -> (r: Option<Vec<[u8; 32]>>)
    ensures
        match r {
            Some(v) => is_hash_list(cbor::maybe(x), v@),
            None => forall|v: Seq<[u8; 32]>| !is_hash_list(cbor::maybe(x), v),
        },
{
    match x {
        Some(Cbor::Array(v)) => {
            let ghost all = cbor::items(v@);
            proof {
                cbor::lemma_array_item(*v);
            }
            let mut out: Vec<[u8; 32]> = Vec::new();
            let mut i: usize = 0;
            while i < v.len()
                invariant
                    i <= v.len(),
                    all == cbor::items(v@),
                    cbor::maybe(x) == Some(Item::Array(all)),
                    out@.len() == i,
                    forall|k: int| 0 <= k < i ==> is_hash(#[trigger] all[k], out@[k]),
                decreases v.len() - i,
            {
                assert(all[i as int] == v@[i as int].item());
                match read_hash(&v[i]) {
                    Some(e) => out.push(e),
                    None => {
                        assert forall|s: Seq<[u8; 32]>| !is_hash_list(cbor::maybe(x), s) by {
                            assert(!is_hash(all[i as int], s[i as int]));
                        }
                        return None;
                    },
                }
                i = i + 1;
            }
            Some(out)
        },
        _ => None,
    }
}

proof fn lemma_hash_list(a: Seq<[u8; 32]>, b: Seq<[u8; 32]>)
    ensures
        cbor::is_plain(Item::Array(hash_items(a)), 2),
        is_hash_list(Some(Item::Array(hash_items(a))), a),
        is_hash_list(Some(Item::Array(hash_items(a))), b) ==> hash_items(b)
            == hash_items(a),
{
    let v = hash_items(a);
    assert forall|i: int| 0 <= i < v.len() implies cbor::is_plain(#[trigger] v[i], 1) && is_hash(
        v[i],
        a[i],
    ) by {
        lemma_hash(a[i], a[i]);
    }
    if is_hash_list(Some(Item::Array(v)), b) {
        assert forall|i: int| 0 <= i < v.len() implies hash_item(b[i]) == hash_item(a[i]) by {
            assert(is_hash(v[i], b[i]));
            lemma_hash(a[i], b[i]);
        }
        assert(hash_items(b) =~= v);
    }
}

/// The document of a hash that may be missing.
pub open spec fn optional_hash_item(v: Option<[u8; 32]>) -> Item {
    match v {
        Some(h) => hash_item(h),
        None => Item::Null,
    }
}

/// The document of a hash that may be missing.
#[must_use]
pub fn optional_hash_to_cbor(v: &Option<[u8; 32]>) -> (r: Cbor)
    ensures
        r.item() == optional_hash_item(*v),
{
    match v {
        Some(h) => hash_to_cbor(h),
        None => Cbor::Null,
    }
}

/// Whether a field is this hash, which may be missing.
pub open spec fn is_optional_hash(x: Option<Item>, v: Option<[u8; 32]>) -> bool {
    match v {
        None => x is None || x == Some(Item::Null),
        Some(h) => cbor::is_bytes(x, h@),
    }
}

/// Reads a hash that may be missing.
#[must_use]
pub fn read_optional_hash(x: Option<&Cbor>) -> (r: Option<Option<[u8; 32]>>)
    ensures
        match r {
            Some(v) => is_optional_hash(cbor::maybe(x), v),
            None => forall|v: Option<[u8; 32]>| !is_optional_hash(cbor::maybe(x), v),
        },
{
    match x {
        None | Some(Cbor::Null) => Some(None),
        Some(d) => match cbor::read_bytes32(Some(d)) {
            Some(h) => Some(Some(h)),
            None => None,
        },
    }
}

/// A hash that may be missing reads back as it was written.
pub proof fn lemma_optional_hash(v: Option<[u8; 32]>, w: Option<[u8; 32]>)
    ensures
        cbor::is_plain(optional_hash_item(v), 1),
        is_optional_hash(Some(optional_hash_item(v)), v),
        is_optional_hash(Some(optional_hash_item(v)), w) ==> optional_hash_item(w)
            == optional_hash_item(v),
{
    match v {
        Some(h) => {
            cbor::lemma_bytes_plain(h@);
            match w {
                Some(k) => cbor::lemma_bytes_differ(h@, k@),
                None => {},
            }
        },
        None => {},
    }
}

/// Whether a field is this list of strings.
pub open spec fn is_strings(x: Option<Item>, list: Seq<String>) -> bool {
    match x {
        Some(Item::Array(v)) => v.len() == list.len() && forall|i: int|
            0 <= i < v.len() ==> #[trigger] v[i] == Item::Text(list[i]@),
        _ => false,
    }
}

fn read_strings(x: Option<&Cbor>) -> (r: Option<Vec<String>>)
    ensures
        match r {
            Some(v) => is_strings(cbor::maybe(x), v@),
            None => forall|v: Seq<String>| !is_strings(cbor::maybe(x), v),
        },
{
    match x {
        Some(Cbor::Array(v)) => {
            let ghost all = cbor::items(v@);
            proof {
                cbor::lemma_array_item(*v);
            }
            let mut out: Vec<String> = Vec::new();
            let mut i: usize = 0;
            while i < v.len()
                invariant
                    i <= v.len(),
                    all == cbor::items(v@),
                    cbor::maybe(x) == Some(Item::Array(all)),
                    out@.len() == i,
                    forall|k: int| 0 <= k < i ==> #[trigger] all[k] == Item::Text(out@[k]@),
                decreases v.len() - i,
            {
                assert(all[i as int] == v@[i as int].item());
                match &v[i] {
                    Cbor::Text(s) => out.push(s.clone()),
                    _ => {
                        assert forall|s: Seq<String>| !is_strings(cbor::maybe(x), s) by {
                            assert(all[i as int] != Item::Text(s[i as int]@));
                        }
                        return None;
                    },
                }
                i = i + 1;
            }
            Some(out)
        },
        _ => None,
    }
}

proof fn lemma_strings(a: Seq<String>, b: Seq<String>)
    ensures
        cbor::is_plain(Item::Array(crate::jobs::string_items(a)), 1),
        is_strings(Some(Item::Array(crate::jobs::string_items(a))), a),
        is_strings(Some(Item::Array(crate::jobs::string_items(a))), b)
            ==> crate::jobs::string_items(b) == crate::jobs::string_items(a),
{
    let v = crate::jobs::string_items(a);
    assert forall|i: int| 0 <= i < v.len() implies cbor::is_plain(#[trigger] v[i], 0) by {}
    if is_strings(Some(Item::Array(v)), b) {
        assert(crate::jobs::string_items(b) =~= v);
    }
}

/// The variables that entries set, in order; of two for one name the later counts.
pub open spec fn variables_of(m: Seq<(Item, Item)>) -> Map<Seq<char>, Seq<char>>
    decreases m.len(),
{
    if m.len() == 0 {
        Map::empty()
    } else {
        variables_of(m.drop_last()).insert(m.last().0->Text_0, m.last().1->Text_0)
    }
}

/// Whether a field is these environment variables: a map from texts to texts.
pub open spec fn is_env(x: Option<Item>, v: EnvMap) -> bool {
    match x {
        Some(Item::Entries(m)) => {
            &&& forall|i: int|
                0 <= i < m.len() ==> (#[trigger] m[i]).0 is Text && m[i].1 is Text
            &&& v.wf()
            &&& crate::env_map::lists(v.list(), variables_of(m))
        },
        _ => false,
    }
}

fn read_env(x: Option<&Cbor>) -> (r: Option<EnvMap>)
    ensures
        match r {
            Some(v) => is_env(cbor::maybe(x), v),
            None => forall|v: EnvMap| !is_env(cbor::maybe(x), v),
        },
{
    match x {
        Some(Cbor::Entries(v)) => {
            let ghost m = cbor::entry_items(v@);
            proof {
                cbor::lemma_entries_item(*v);
            }
            let mut out = EnvMap::new();
            let mut i: usize = 0;
            assert(m.take(0) =~= Seq::<(Item, Item)>::empty());
            assert(crate::env_map::lists(out.list(), variables_of(m.take(0))));
            while i < v.len()
                invariant
                    i <= v.len(),
                    m == cbor::entry_items(v@),
                    cbor::maybe(x) == Some(Item::Entries(m)),
                    out.wf(),
                    crate::env_map::lists(out.list(), variables_of(m.take(i as int))),
                    forall|k: int|
                        0 <= k < i ==> (#[trigger] m[k]).0 is Text && m[k].1 is Text,
                decreases v.len() - i,
            {
                assert(m[i as int] == (v@[i as int].0.item(), v@[i as int].1.item()));
                assert(m.take(i + 1).drop_last() =~= m.take(i as int));
                match (&v[i].0, &v[i].1) {
                    (Cbor::Text(k), Cbor::Text(s)) => {
                        let ghost before = variables_of(m.take(i as int));
                        let (name, value) = (k.clone(), s.clone());
                        assert(variables_of(m.take(i + 1)) == before.insert(name@, value@));
                        out.insert(name, value);
                    },
                    _ => {
                        assert(!(m[i as int].0 is Text && m[i as int].1 is Text));
                        return None;
                    },
                }
                i = i + 1;
            }
            assert(m.take(i as int) =~= m);
            Some(out)
        },
        _ => None,
    }
}

proof fn lemma_variables(s: Seq<(Seq<char>, Seq<char>)>)
    requires
        crate::env_map::names_ascend(s),
    ensures
        crate::env_map::lists(s, variables_of(crate::jobs::env_item(s)->Entries_0)),
    decreases s.len(),
{
    let m = crate::jobs::env_item(s)->Entries_0;
    if s.len() > 0 {
        let t = s.drop_last();
        assert(m.drop_last() =~= crate::jobs::env_item(t)->Entries_0);
        assert(crate::env_map::names_ascend(t));
        lemma_variables(t);
        let before = variables_of(m.drop_last());
        let after = variables_of(m);
        let (name, value) = s.last();
        assert(after == before.insert(name, value));
        assert forall|i: int| 0 <= i < s.len() implies after.contains_pair(
            (#[trigger] s[i]).0,
            s[i].1,
        ) by {
            if i < s.len() - 1 {
                assert(t[i] == s[i]);
                assert(before.contains_pair(t[i].0, t[i].1));
                crate::bytes::lemma_lex_irreflexive(crate::env_map::name_bytes(s[i]));
                assert(crate::bytes::lex_less(
                    crate::env_map::name_bytes(s[i]),
                    crate::env_map::name_bytes(s[s.len() - 1]),
                ));
            }
        }
        assert forall|k: Seq<char>| #[trigger] after.contains_key(k) implies exists|i: int|
            0 <= i < s.len() && (#[trigger] s[i]).0 == k by {
            if k == name {
                assert(s[s.len() - 1].0 == k);
            } else {
                assert(before.contains_key(k));
                let i = choose|i: int| 0 <= i < t.len() && (#[trigger] t[i]).0 == k;
                assert(s[i].0 == k);
            }
        }
    }
}

proof fn lemma_env(v: EnvMap, w: EnvMap)
    ensures
        cbor::is_plain(crate::jobs::env_item(v.list()), 1),
        v.wf() ==> is_env(Some(crate::jobs::env_item(v.list())), v),
        v.wf() && is_env(Some(crate::jobs::env_item(v.list())), w) ==> crate::jobs::env_item(w.list())
            == crate::jobs::env_item(v.list()),
{
    let m = crate::jobs::env_item(v.list())->Entries_0;
    assert forall|i: int| 0 <= i < m.len() implies cbor::is_plain((#[trigger] m[i]).0, 0)
        && cbor::is_plain(m[i].1, 0) by {}
    if v.wf() {
        lemma_variables(v.list());
    }
    if v.wf() && is_env(Some(Item::Entries(m)), w) {
        crate::env_map::law_list_is_determined(v, w, variables_of(m));
    }
}

// ── Runners ────────────────────────────────────────────────────────────────

/// The name of a platform.
pub open spec fn platform_name(v: Platform) -> Seq<char> {
    match v {
        Platform::LinuxX86_64 => "LinuxX86_64"@,
        Platform::LinuxAarch64 => "LinuxAarch64"@,
        Platform::DarwinX86_64 => "DarwinX86_64"@,
        Platform::DarwinAarch64 => "DarwinAarch64"@,
    }
}

/// The document of a platform.
pub open spec fn platform_item(v: Platform) -> Item {
    Item::Text(platform_name(v))
}

fn platform_to_cbor(v: &Platform) -> (r: Cbor)
    ensures
        r.item() == platform_item(*v),
{
    match v {
        Platform::LinuxX86_64 => cbor::text("LinuxX86_64"),
        Platform::LinuxAarch64 => cbor::text("LinuxAarch64"),
        Platform::DarwinX86_64 => cbor::text("DarwinX86_64"),
        Platform::DarwinAarch64 => cbor::text("DarwinAarch64"),
    }
}

/// Whether a document is a platform.
pub open spec fn is_platform(item: Item, v: Platform) -> bool {
    item == platform_item(v)
}

/// Reads a platform.
#[must_use]
pub fn read_platform(doc: &Cbor) -> (r: Option<Platform>)
    ensures
        match r {
            Some(v) => is_platform(doc.item(), v),
            None => forall|v: Platform| !is_platform(doc.item(), v),
        },
{
    match doc {
        Cbor::Text(s) => if text::str_eq(s.as_str(), "LinuxX86_64") {
            Some(Platform::LinuxX86_64)
        } else if text::str_eq(s.as_str(), "LinuxAarch64") {
            Some(Platform::LinuxAarch64)
        } else if text::str_eq(s.as_str(), "DarwinX86_64") {
            Some(Platform::DarwinX86_64)
        } else if text::str_eq(s.as_str(), "DarwinAarch64") {
            Some(Platform::DarwinAarch64)
        } else {
            None
        },
        _ => None,
    }
}

proof fn lemma_platform(v: Platform, w: Platform)
    ensures
        cbor::is_plain(platform_item(v), 0),
        is_platform(platform_item(v), v),
        is_platform(platform_item(v), w) ==> platform_item(w) == platform_item(v),
{
}

/// Whether a field is this platform.
pub open spec fn is_some_platform(x: Option<Item>, v: Platform) -> bool {
    match x {
        Some(item) => is_platform(item, v),
        None => false,
    }
}

fn read_some_platform(x: Option<&Cbor>) -> (r: Option<Platform>)
    ensures
        match r {
            Some(v) => is_some_platform(cbor::maybe(x), v),
            None => forall|v: Platform| !is_some_platform(cbor::maybe(x), v),
        },
{
    match x {
        Some(d) => read_platform(d),
        None => None,
    }
}

/// The name of a runtime.
pub open spec fn runtime_name(v: Runtime) -> Seq<char> {
    match v {
        Runtime::Wasm => "Wasm"@,
        Runtime::Firecracker => "Firecracker"@,
        Runtime::Docker => "Docker"@,
    }
}

/// The document of a runtime.
pub open spec fn runtime_item(v: Runtime) -> Item {
    Item::Text(runtime_name(v))
}

fn runtime_to_cbor(v: &Runtime) -> (r: Cbor)
    ensures
        r.item() == runtime_item(*v),
{
    match v {
        Runtime::Wasm => cbor::text("Wasm"),
        Runtime::Firecracker => cbor::text("Firecracker"),
        Runtime::Docker => cbor::text("Docker"),
    }
}

/// Whether a document is a runtime.
pub open spec fn is_runtime(item: Item, v: Runtime) -> bool {
    item == runtime_item(v)
}

/// Reads a runtime.
#[must_use]
pub fn read_runtime(doc: &Cbor) -> (r: Option<Runtime>)
    ensures
        match r {
            Some(v) => is_runtime(doc.item(), v),
            None => forall|v: Runtime| !is_runtime(doc.item(), v),
        },
{
    match doc {
        Cbor::Text(s) => if text::str_eq(s.as_str(), "Wasm") {
            Some(Runtime::Wasm)
        } else if text::str_eq(s.as_str(), "Firecracker") {
            Some(Runtime::Firecracker)
        } else if text::str_eq(s.as_str(), "Docker") {
            Some(Runtime::Docker)
        } else {
            None
        },
        _ => None,
    }
}

proof fn lemma_runtime(v: Runtime, w: Runtime)
    ensures
        cbor::is_plain(runtime_item(v), 0),
        is_runtime(runtime_item(v), v),
        is_runtime(runtime_item(v), w) ==> runtime_item(w) == runtime_item(v),
{
}

/// The documents of a list: runtime.
pub open spec fn runtime_items(v: Seq<Runtime>) -> Seq<Item> {
    Seq::new(v.len(), |i: int| runtime_item(v[i]))
}

/// Whether a field is this list: runtime.
pub open spec fn is_runtime_list(x: Option<Item>, list: Seq<Runtime>) -> bool {
    match x {
        Some(Item::Array(v)) => v.len() == list.len() && forall|i: int|
            0 <= i < v.len() ==> is_runtime(#[trigger] v[i], list[i]),
        _ => false,
    }
}

fn runtime_list_to_cbor(list: &Vec<Runtime>) -> (r: Cbor)
    ensures
        r.item() == Item::Array(runtime_items(list@)),
{
    let mut v: Vec<Cbor> = Vec::new();
    let mut i: usize = 0;
    while i < list.len()
        invariant
            i <= list.len(),
            v.len() == i,
            forall|k: int| 0 <= k < i ==> (#[trigger] v@[k]).item() == runtime_item(list@[k]),
        decreases list.len() - i,
    {
        v.push(runtime_to_cbor(&list[i]));
        i = i + 1;
    }
    assert(cbor::items(v@) =~= runtime_items(list@));
    cbor::array(v)
}

fn read_runtime_list(x: Option<&Cbor>) -> (r: Option<Vec<Runtime>>)
    ensures
        match r {
            Some(v) => is_runtime_list(cbor::maybe(x), v@),
            None => forall|v: Seq<Runtime>| !is_runtime_list(cbor::maybe(x), v),
        },
{
    match x {
        Some(Cbor::Array(v)) => {
            let ghost all = cbor::items(v@);
            proof {
                cbor::lemma_array_item(*v);
            }
            let mut out: Vec<Runtime> = Vec::new();
            let mut i: usize = 0;
            while i < v.len()
                invariant
                    i <= v.len(),
                    all == cbor::items(v@),
                    cbor::maybe(x) == Some(Item::Array(all)),
                    out@.len() == i,
                    forall|k: int| 0 <= k < i ==> is_runtime(#[trigger] all[k], out@[k]),
                decreases v.len() - i,
            {
                assert(all[i as int] == v@[i as int].item());
                match read_runtime(&v[i]) {
                    Some(e) => out.push(e),
                    None => {
                        assert forall|s: Seq<Runtime>| !is_runtime_list(cbor::maybe(x), s) by {
                            assert(!is_runtime(all[i as int], s[i as int]));
                        }
                        return None;
                    },
                }
                i = i + 1;
            }
            Some(out)
        },
        _ => None,
    }
}

proof fn lemma_runtime_list(a: Seq<Runtime>, b: Seq<Runtime>)
    ensures
        cbor::is_plain(Item::Array(runtime_items(a)), 1),
        is_runtime_list(Some(Item::Array(runtime_items(a))), a),
        is_runtime_list(Some(Item::Array(runtime_items(a))), b) ==> runtime_items(b)
            == runtime_items(a),
{
    let v = runtime_items(a);
    assert forall|i: int| 0 <= i < v.len() implies cbor::is_plain(#[trigger] v[i], 0) && is_runtime(
        v[i],
        a[i],
    ) by {
        lemma_runtime(a[i], a[i]);
    }
    if is_runtime_list(Some(Item::Array(v)), b) {
        assert forall|i: int| 0 <= i < v.len() implies runtime_item(b[i]) == runtime_item(a[i]) by {
            assert(is_runtime(v[i], b[i]));
            lemma_runtime(a[i], b[i]);
        }
        assert(runtime_items(b) =~= v);
    }
}

/// The document of a set of runtimes: an array, in the order of [`Runtime`].
pub open spec fn runtimes_item(v: RuntimeSet) -> Item {
    Item::Array(runtime_items(crate::capabilities::listed(v@)))
}

fn runtimes_to_cbor(v: &RuntimeSet) -> (r: Cbor)
    ensures
        r.item() == runtimes_item(*v),
{
    let list = v.to_vec();
    runtime_list_to_cbor(&list)
}

/// Whether a document is a set of runtimes: an array of its members, in any order.
pub open spec fn is_runtimes(item: Item, v: RuntimeSet) -> bool {
    exists|list: Seq<Runtime>| #[trigger]
        is_runtime_list(Some(item), list) && v@ == list.to_set()
}

/// Reads a set of runtimes.
#[must_use]
pub fn read_runtimes(doc: &Cbor) -> (r: Option<RuntimeSet>)
    ensures
        match r {
            Some(v) => is_runtimes(doc.item(), v),
            None => forall|v: RuntimeSet| !is_runtimes(doc.item(), v),
        },
{
    match read_runtime_list(Some(doc)) {
        Some(list) => {
            assert(is_runtime_list(Some(doc.item()), list@));
            Some(RuntimeSet::of(list.as_slice()))
        },
        None => None,
    }
}

proof fn lemma_runtimes(v: RuntimeSet, w: RuntimeSet)
    ensures
        cbor::is_plain(runtimes_item(v), 1),
        is_runtimes(runtimes_item(v), v),
        is_runtimes(runtimes_item(v), w) ==> runtimes_item(w) == runtimes_item(v),
{
    let list = crate::capabilities::listed(v@);
    lemma_runtime_list(list, list);
    lemma_listed(v@);
    assert(is_runtime_list(Some(runtimes_item(v)), list));
    if is_runtimes(runtimes_item(v), w) {
        let other = choose|other: Seq<Runtime>| #[trigger]
            is_runtime_list(Some(runtimes_item(v)), other) && w@ == other.to_set();
        reveal_strlit("Wasm");
        reveal_strlit("Firecracker");
        reveal_strlit("Docker");
        assert("Wasm"@.len() == 4 && "Firecracker"@.len() == 11 && "Docker"@.len() == 6);
        let items = runtime_items(list);
        assert forall|i: int| 0 <= i < list.len() implies list[i] == other[i] by {
            assert(is_runtime(items[i], other[i]));
            assert(is_runtime(items[i], list[i]));
        }
        assert(list =~= other);
    }
}

proof fn lemma_listed(s: Set<Runtime>)
    ensures
        crate::capabilities::listed(s).to_set() == s,
{
    let l = crate::capabilities::listed(s);
    assert forall|x: Runtime| l.contains(x) <==> s.contains(x) by {
        if s.contains(x) {
            match x {
                Runtime::Wasm => assert(l[0] == x),
                Runtime::Firecracker => {
                    assert(l[if s.contains(Runtime::Wasm) {
                        1int
                    } else {
                        0int
                    }] == x);
                },
                Runtime::Docker => assert(l[l.len() - 1] == x),
            }
        }
    }
    assert(l.to_set() =~= s);
}

/// Whether a field is this runtimes.
pub open spec fn is_some_runtimes(x: Option<Item>, v: RuntimeSet) -> bool {
    match x {
        Some(item) => is_runtimes(item, v),
        None => false,
    }
}

fn read_some_runtimes(x: Option<&Cbor>) -> (r: Option<RuntimeSet>)
    ensures
        match r {
            Some(v) => is_some_runtimes(cbor::maybe(x), v),
            None => forall|v: RuntimeSet| !is_some_runtimes(cbor::maybe(x), v),
        },
{
    match x {
        Some(d) => read_runtimes(d),
        None => None,
    }
}

/// The document of what a runner offers.
pub open spec fn capabilities_item(v: Capabilities) -> Item {
    Item::Entries(
        seq![
            cbor::field("cpu"@, Item::Uint(v.cpu as nat)),
            cbor::field("memory_mb"@, Item::Uint(v.memory_mb as nat)),
            cbor::field("platform"@, platform_item(v.platform)),
            cbor::field("runtimes"@, runtimes_item(v.runtimes)),
        ],
    )
}

/// Writes the document.
#[must_use]
pub fn capabilities_to_cbor(v: &Capabilities) -> (r: Cbor)
    ensures
        r.item() == capabilities_item(*v),
{
    let rec = Record::new().with("cpu", cbor::uint(v.cpu as u64)).with("memory_mb", cbor::uint(v.memory_mb as u64)).with("platform", platform_to_cbor(&v.platform)).with("runtimes", runtimes_to_cbor(&v.runtimes));
    assert(rec@ =~= capabilities_item(*v)->Entries_0);
    rec.done()
}

/// Whether a document is what a runner offers.
pub open spec fn is_capabilities(item: Item, v: Capabilities) -> bool {
    &&& cbor::is_uint(cbor::field_of(item, "cpu"@), v.cpu as nat)
    &&& cbor::is_uint(cbor::field_of(item, "memory_mb"@), v.memory_mb as nat)
    &&& is_some_platform(cbor::field_of(item, "platform"@), v.platform)
    &&& is_some_runtimes(cbor::field_of(item, "runtimes"@), v.runtimes)
}

/// Reads what a runner offers.
#[must_use]
pub fn read_capabilities(doc: &Cbor) -> (r: Option<Capabilities>)
    ensures
        match r {
            Some(v) => is_capabilities(doc.item(), v),
            None => forall|v: Capabilities| !is_capabilities(doc.item(), v),
        },
{
    let cpu = match cbor::read_uint(doc.field("cpu"), 4_294_967_295) {
        Some(x) => x,
        None => return None,
    };
    let memory_mb = match cbor::read_uint(doc.field("memory_mb"), 4_294_967_295) {
        Some(x) => x,
        None => return None,
    };
    let platform = match read_some_platform(doc.field("platform")) {
        Some(x) => x,
        None => return None,
    };
    let runtimes = match read_some_runtimes(doc.field("runtimes")) {
        Some(x) => x,
        None => return None,
    };
    Some(Capabilities { cpu: cpu as u32, memory_mb: memory_mb as u32, platform, runtimes })
}

/// Reading gives back what was written.
pub proof fn lemma_capabilities(v: Capabilities, w: Capabilities)
    ensures
        cbor::is_plain(capabilities_item(v), 2),
        is_capabilities(capabilities_item(v), v),
        is_capabilities(capabilities_item(v), w) ==> capabilities_item(w) == capabilities_item(v),
{
    reveal_strlit("cpu");
    reveal_strlit("memory_mb");
    reveal_strlit("platform");
    reveal_strlit("runtimes");
    assert("cpu"@.len() == 3 && "memory_mb"@.len() == 9 && "platform"@.len() == 8 && "runtimes"@.len() == 8);
    assert("platform"@[0] == 'p' && "runtimes"@[0] == 'r');
    let m = capabilities_item(v)->Entries_0;
    assert(m[0] == cbor::field("cpu"@, Item::Uint(v.cpu as nat)));
    assert(m[1] == cbor::field("memory_mb"@, Item::Uint(v.memory_mb as nat)));
    assert(m[2] == cbor::field("platform"@, platform_item(v.platform)));
    assert(m[3] == cbor::field("runtimes"@, runtimes_item(v.runtimes)));
    assert(cbor::names_differ(m));
    cbor::lemma_fields(m);
    lemma_platform(v.platform, w.platform);
    lemma_runtimes(v.runtimes, w.runtimes);
    assert forall|i: int| 0 <= i < m.len() implies cbor::is_plain((#[trigger] m[i]).0, 1)
        && cbor::is_plain(m[i].1, 1) by {
        if i == 0 {
        } else if i == 1 {
        } else if i == 2 {
        } else if i == 3 {
        }
    }
    if is_capabilities(capabilities_item(v), w) {
        assert(capabilities_item(w)->Entries_0 =~= m);
    }
}

/// Whether a field is this capabilities.
pub open spec fn is_some_capabilities(x: Option<Item>, v: Capabilities) -> bool {
    match x {
        Some(item) => is_capabilities(item, v),
        None => false,
    }
}

/// Reads a field.
#[must_use]
pub fn read_some_capabilities(x: Option<&Cbor>) -> (r: Option<Capabilities>)
    ensures
        match r {
            Some(v) => is_some_capabilities(cbor::maybe(x), v),
            None => forall|v: Capabilities| !is_some_capabilities(cbor::maybe(x), v),
        },
{
    match x {
        Some(d) => read_capabilities(d),
        None => None,
    }
}

/// The document of what a job requires.
pub open spec fn requirements_item(v: JobRequirements) -> Item {
    Item::Entries(
        seq![
            cbor::field("cpu"@, Item::Uint(v.cpu as nat)),
            cbor::field("memory_mb"@, Item::Uint(v.memory_mb as nat)),
            cbor::field("platform"@, platform_item(v.platform)),
            cbor::field("runtimes"@, runtimes_item(v.runtimes)),
        ],
    )
}

/// Writes the document.
#[must_use]
pub fn requirements_to_cbor(v: &JobRequirements) -> (r: Cbor)
    ensures
        r.item() == requirements_item(*v),
{
    let rec = Record::new().with("cpu", cbor::uint(v.cpu as u64)).with("memory_mb", cbor::uint(v.memory_mb as u64)).with("platform", platform_to_cbor(&v.platform)).with("runtimes", runtimes_to_cbor(&v.runtimes));
    assert(rec@ =~= requirements_item(*v)->Entries_0);
    rec.done()
}

/// Whether a document is what a job requires.
pub open spec fn is_requirements(item: Item, v: JobRequirements) -> bool {
    &&& cbor::is_uint(cbor::field_of(item, "cpu"@), v.cpu as nat)
    &&& cbor::is_uint(cbor::field_of(item, "memory_mb"@), v.memory_mb as nat)
    &&& is_some_platform(cbor::field_of(item, "platform"@), v.platform)
    &&& is_some_runtimes(cbor::field_of(item, "runtimes"@), v.runtimes)
}

/// Reads what a job requires.
#[must_use]
pub fn read_requirements(doc: &Cbor) -> (r: Option<JobRequirements>)
    ensures
        match r {
            Some(v) => is_requirements(doc.item(), v),
            None => forall|v: JobRequirements| !is_requirements(doc.item(), v),
        },
{
    let cpu = match cbor::read_uint(doc.field("cpu"), 4_294_967_295) {
        Some(x) => x,
        None => return None,
    };
    let memory_mb = match cbor::read_uint(doc.field("memory_mb"), 4_294_967_295) {
        Some(x) => x,
        None => return None,
    };
    let platform = match read_some_platform(doc.field("platform")) {
        Some(x) => x,
        None => return None,
    };
    let runtimes = match read_some_runtimes(doc.field("runtimes")) {
        Some(x) => x,
        None => return None,
    };
    Some(JobRequirements { cpu: cpu as u32, memory_mb: memory_mb as u32, platform, runtimes })
}

/// Reading gives back what was written.
pub proof fn lemma_requirements(v: JobRequirements, w: JobRequirements)
    ensures
        cbor::is_plain(requirements_item(v), 2),
        is_requirements(requirements_item(v), v),
        is_requirements(requirements_item(v), w) ==> requirements_item(w) == requirements_item(v),
{
    reveal_strlit("cpu");
    reveal_strlit("memory_mb");
    reveal_strlit("platform");
    reveal_strlit("runtimes");
    assert("cpu"@.len() == 3 && "memory_mb"@.len() == 9 && "platform"@.len() == 8 && "runtimes"@.len() == 8);
    assert("platform"@[0] == 'p' && "runtimes"@[0] == 'r');
    let m = requirements_item(v)->Entries_0;
    assert(m[0] == cbor::field("cpu"@, Item::Uint(v.cpu as nat)));
    assert(m[1] == cbor::field("memory_mb"@, Item::Uint(v.memory_mb as nat)));
    assert(m[2] == cbor::field("platform"@, platform_item(v.platform)));
    assert(m[3] == cbor::field("runtimes"@, runtimes_item(v.runtimes)));
    assert(cbor::names_differ(m));
    cbor::lemma_fields(m);
    lemma_platform(v.platform, w.platform);
    lemma_runtimes(v.runtimes, w.runtimes);
    assert forall|i: int| 0 <= i < m.len() implies cbor::is_plain((#[trigger] m[i]).0, 1)
        && cbor::is_plain(m[i].1, 1) by {
        if i == 0 {
        } else if i == 1 {
        } else if i == 2 {
        } else if i == 3 {
        }
    }
    if is_requirements(requirements_item(v), w) {
        assert(requirements_item(w)->Entries_0 =~= m);
    }
}

/// Whether a field is this requirements.
pub open spec fn is_some_requirements(x: Option<Item>, v: JobRequirements) -> bool {
    match x {
        Some(item) => is_requirements(item, v),
        None => false,
    }
}

/// Reads a field.
#[must_use]
pub fn read_some_requirements(x: Option<&Cbor>) -> (r: Option<JobRequirements>)
    ensures
        match r {
            Some(v) => is_some_requirements(cbor::maybe(x), v),
            None => forall|v: JobRequirements| !is_some_requirements(cbor::maybe(x), v),
        },
{
    match x {
        Some(d) => read_requirements(d),
        None => None,
    }
}

// ── Attestations ───────────────────────────────────────────────────────────

/// Whether a document is a result.
pub open spec fn is_result(item: Item, v: AttestationResult) -> bool {
    item == crate::attestation::result_item(v)
}

/// Reads a result.
#[must_use]
pub fn read_result(doc: &Cbor) -> (r: Option<AttestationResult>)
    ensures
        match r {
            Some(v) => is_result(doc.item(), v),
            None => forall|v: AttestationResult| !is_result(doc.item(), v),
        },
{
    match doc {
        Cbor::Text(s) => if text::str_eq(s.as_str(), "Pass") {
            Some(AttestationResult::Pass)
        } else if text::str_eq(s.as_str(), "Fail") {
            Some(AttestationResult::Fail)
        } else {
            None
        },
        _ => None,
    }
}

proof fn lemma_result(v: AttestationResult, w: AttestationResult)
    ensures
        cbor::is_plain(crate::attestation::result_item(v), 0),
        is_result(crate::attestation::result_item(v), v),
        is_result(crate::attestation::result_item(v), w) ==> crate::attestation::result_item(w)
            == crate::attestation::result_item(v),
{
}

/// Whether a field is this result.
pub open spec fn is_some_result(x: Option<Item>, v: AttestationResult) -> bool {
    match x {
        Some(item) => is_result(item, v),
        None => false,
    }
}

fn read_some_result(x: Option<&Cbor>) -> (r: Option<AttestationResult>)
    ensures
        match r {
            Some(v) => is_some_result(cbor::maybe(x), v),
            None => forall|v: AttestationResult| !is_some_result(cbor::maybe(x), v),
        },
{
    match x {
        Some(d) => read_result(d),
        None => None,
    }
}

/// Whether a document is an attestation.
pub open spec fn is_attestation(item: Item, v: Attestation) -> bool {
    &&& cbor::is_uint(cbor::field_of(item, "version"@), v.version as nat)
    &&& cbor::is_bytes(cbor::field_of(item, "job_id"@), v.job_id@)
    &&& cbor::is_bytes(cbor::field_of(item, "commit"@), v.commit@)
    &&& cbor::is_uint(cbor::field_of(item, "runner_id"@), v.runner_id as nat)
    &&& is_some_result(cbor::field_of(item, "result"@), v.result)
    &&& cbor::is_bytes(cbor::field_of(item, "environment_hash"@), v.environment_hash@)
    &&& cbor::is_bytes(cbor::field_of(item, "artifact_hash"@), v.artifact_hash@)
    &&& cbor::is_int(cbor::field_of(item, "timestamp_unix_ns"@), v.timestamp_unix_ns as int)
    &&& cbor::is_bytes(cbor::field_of(item, "signature"@), v.signature@)
}

/// Reads an attestation.
#[must_use]
pub fn read_attestation(doc: &Cbor) -> (r: Option<Attestation>)
    ensures
        match r {
            Some(v) => is_attestation(doc.item(), v),
            None => forall|v: Attestation| !is_attestation(doc.item(), v),
        },
{
    let version = match cbor::read_uint(doc.field("version"), 255) {
        Some(x) => x,
        None => return None,
    };
    let job_id = match cbor::read_bytes16(doc.field("job_id")) {
        Some(x) => x,
        None => return None,
    };
    let commit = match cbor::read_bytes32(doc.field("commit")) {
        Some(x) => x,
        None => return None,
    };
    let runner_id = match cbor::read_uint(doc.field("runner_id"), u64::MAX) {
        Some(x) => x,
        None => return None,
    };
    let result = match read_some_result(doc.field("result")) {
        Some(x) => x,
        None => return None,
    };
    let environment_hash = match cbor::read_bytes32(doc.field("environment_hash")) {
        Some(x) => x,
        None => return None,
    };
    let artifact_hash = match cbor::read_bytes32(doc.field("artifact_hash")) {
        Some(x) => x,
        None => return None,
    };
    let timestamp_unix_ns = match cbor::read_int(doc.field("timestamp_unix_ns")) {
        Some(x) => x,
        None => return None,
    };
    let signature = match cbor::read_bytes64(doc.field("signature")) {
        Some(x) => x,
        None => return None,
    };
    Some(Attestation { version: version as u8, job_id, commit, runner_id, result, environment_hash, artifact_hash, timestamp_unix_ns, signature })
}

/// Reading gives back what was written.
#[verifier::spinoff_prover]
#[verifier::rlimit(60)]
pub proof fn lemma_attestation(v: Attestation, w: Attestation)
    ensures
        cbor::is_plain(crate::attestation::attestation_item(v), 2),
        is_attestation(crate::attestation::attestation_item(v), v),
        is_attestation(crate::attestation::attestation_item(v), w) ==> crate::attestation::attestation_item(w) == crate::attestation::attestation_item(v),
{
    reveal_strlit("version");
    reveal_strlit("job_id");
    reveal_strlit("commit");
    reveal_strlit("runner_id");
    reveal_strlit("result");
    reveal_strlit("environment_hash");
    reveal_strlit("artifact_hash");
    reveal_strlit("timestamp_unix_ns");
    reveal_strlit("signature");
    assert("version"@.len() == 7 && "job_id"@.len() == 6 && "commit"@.len() == 6 && "runner_id"@.len() == 9);
    assert("result"@.len() == 6 && "environment_hash"@.len() == 16 && "artifact_hash"@.len() == 13 && "timestamp_unix_ns"@.len() == 17);
    assert("signature"@.len() == 9);
    assert("commit"@[0] == 'c' && "job_id"@[0] == 'j' && "result"@[0] == 'r' && "runner_id"@[0] == 'r');
    assert("signature"@[0] == 's');
    let m = crate::attestation::attestation_item(v)->Entries_0;
    assert(m[0] == cbor::field("version"@, Item::Uint(v.version as nat)));
    assert(m[1] == cbor::field("job_id"@, cbor::byte_items(v.job_id@)));
    assert(m[2] == cbor::field("commit"@, cbor::byte_items(v.commit@)));
    assert(m[3] == cbor::field("runner_id"@, Item::Uint(v.runner_id as nat)));
    assert(m[4] == cbor::field("result"@, crate::attestation::result_item(v.result)));
    assert(m[5] == cbor::field("environment_hash"@, cbor::byte_items(v.environment_hash@)));
    assert(m[6] == cbor::field("artifact_hash"@, cbor::byte_items(v.artifact_hash@)));
    assert(m[7] == cbor::field("timestamp_unix_ns"@, cbor::int_item(v.timestamp_unix_ns as int)));
    assert(m[8] == cbor::field("signature"@, cbor::byte_items(v.signature@)));
    assert(cbor::names_differ(m));
    cbor::lemma_fields(m);
    cbor::lemma_bytes_plain(v.job_id@);
    cbor::lemma_bytes_differ(v.job_id@, w.job_id@);
    cbor::lemma_bytes_plain(v.commit@);
    cbor::lemma_bytes_differ(v.commit@, w.commit@);
    lemma_result(v.result, w.result);
    cbor::lemma_bytes_plain(v.environment_hash@);
    cbor::lemma_bytes_differ(v.environment_hash@, w.environment_hash@);
    cbor::lemma_bytes_plain(v.artifact_hash@);
    cbor::lemma_bytes_differ(v.artifact_hash@, w.artifact_hash@);
    cbor::lemma_bytes_plain(v.signature@);
    cbor::lemma_bytes_differ(v.signature@, w.signature@);
    assert forall|i: int| 0 <= i < m.len() implies cbor::is_plain((#[trigger] m[i]).0, 1)
        && cbor::is_plain(m[i].1, 1) by {
        if i == 0 {
        } else if i == 1 {
        } else if i == 2 {
        } else if i == 3 {
        } else if i == 4 {
        } else if i == 5 {
        } else if i == 6 {
        } else if i == 7 {
        } else if i == 8 {
        }
    }
    if is_attestation(crate::attestation::attestation_item(v), w) {
        assert(crate::attestation::attestation_item(w)->Entries_0 =~= m);
    }
}

/// Whether a field is this attestation.
pub open spec fn is_some_attestation(x: Option<Item>, v: Attestation) -> bool {
    match x {
        Some(item) => is_attestation(item, v),
        None => false,
    }
}

/// Reads a field.
#[must_use]
pub fn read_some_attestation(x: Option<&Cbor>) -> (r: Option<Attestation>)
    ensures
        match r {
            Some(v) => is_some_attestation(cbor::maybe(x), v),
            None => forall|v: Attestation| !is_some_attestation(cbor::maybe(x), v),
        },
{
    match x {
        Some(d) => read_attestation(d),
        None => None,
    }
}

/// The documents of a list: attestation.
pub open spec fn attestation_items(v: Seq<Attestation>) -> Seq<Item> {
    Seq::new(v.len(), |i: int| crate::attestation::attestation_item(v[i]))
}

/// Whether a field is this list: attestation.
pub open spec fn is_attestation_list(x: Option<Item>, list: Seq<Attestation>) -> bool {
    match x {
        Some(Item::Array(v)) => v.len() == list.len() && forall|i: int|
            0 <= i < v.len() ==> is_attestation(#[trigger] v[i], list[i]),
        _ => false,
    }
}

fn attestation_list_to_cbor(list: &Vec<Attestation>) -> (r: Cbor)
    ensures
        r.item() == Item::Array(attestation_items(list@)),
{
    let mut v: Vec<Cbor> = Vec::new();
    let mut i: usize = 0;
    while i < list.len()
        invariant
            i <= list.len(),
            v.len() == i,
            forall|k: int| 0 <= k < i ==> (#[trigger] v@[k]).item() == crate::attestation::attestation_item(list@[k]),
        decreases list.len() - i,
    {
        v.push(crate::attestation::to_cbor(&list[i]));
        i = i + 1;
    }
    assert(cbor::items(v@) =~= attestation_items(list@));
    cbor::array(v)
}

fn read_attestation_list(x: Option<&Cbor>) -> (r: Option<Vec<Attestation>>)
    ensures
        match r {
            Some(v) => is_attestation_list(cbor::maybe(x), v@),
            None => forall|v: Seq<Attestation>| !is_attestation_list(cbor::maybe(x), v),
        },
{
    match x {
        Some(Cbor::Array(v)) => {
            let ghost all = cbor::items(v@);
            proof {
                cbor::lemma_array_item(*v);
            }
            let mut out: Vec<Attestation> = Vec::new();
            let mut i: usize = 0;
            while i < v.len()
                invariant
                    i <= v.len(),
                    all == cbor::items(v@),
                    cbor::maybe(x) == Some(Item::Array(all)),
                    out@.len() == i,
                    forall|k: int| 0 <= k < i ==> is_attestation(#[trigger] all[k], out@[k]),
                decreases v.len() - i,
            {
                assert(all[i as int] == v@[i as int].item());
                match read_attestation(&v[i]) {
                    Some(e) => out.push(e),
                    None => {
                        assert forall|s: Seq<Attestation>| !is_attestation_list(cbor::maybe(x), s) by {
                            assert(!is_attestation(all[i as int], s[i as int]));
                        }
                        return None;
                    },
                }
                i = i + 1;
            }
            Some(out)
        },
        _ => None,
    }
}

proof fn lemma_attestation_list(a: Seq<Attestation>, b: Seq<Attestation>)
    ensures
        cbor::is_plain(Item::Array(attestation_items(a)), 3),
        is_attestation_list(Some(Item::Array(attestation_items(a))), a),
        is_attestation_list(Some(Item::Array(attestation_items(a))), b) ==> attestation_items(b)
            == attestation_items(a),
{
    let v = attestation_items(a);
    assert forall|i: int| 0 <= i < v.len() implies cbor::is_plain(#[trigger] v[i], 2) && is_attestation(
        v[i],
        a[i],
    ) by {
        lemma_attestation(a[i], a[i]);
    }
    if is_attestation_list(Some(Item::Array(v)), b) {
        assert forall|i: int| 0 <= i < v.len() implies crate::attestation::attestation_item(b[i]) == crate::attestation::attestation_item(a[i]) by {
            assert(is_attestation(v[i], b[i]));
            lemma_attestation(a[i], b[i]);
        }
        assert(attestation_items(b) =~= v);
    }
}

/// The document of an inclusion proof.
pub open spec fn inclusion_proof_item(v: InclusionProof) -> Item {
    Item::Entries(
        seq![
            cbor::field("position"@, Item::Uint(v.position as nat)),
            cbor::field("entry"@, cbor::byte_items(v.entry@)),
            cbor::field("proof_hashes"@, Item::Array(hash_items(v.proof_hashes@))),
            cbor::field("length_at_proof"@, Item::Uint(v.length_at_proof as nat)),
        ],
    )
}

fn inclusion_proof_to_cbor(v: &InclusionProof) -> (r: Cbor)
    ensures
        r.item() == inclusion_proof_item(*v),
{
    let rec = Record::new().with("position", cbor::uint(v.position)).with("entry", cbor::bytes(v.entry.as_slice())).with("proof_hashes", hash_list_to_cbor(&v.proof_hashes)).with("length_at_proof", cbor::uint(v.length_at_proof));
    assert(rec@ =~= inclusion_proof_item(*v)->Entries_0);
    rec.done()
}

/// Whether a document is an inclusion proof.
pub open spec fn is_inclusion_proof(item: Item, v: InclusionProof) -> bool {
    &&& cbor::is_uint(cbor::field_of(item, "position"@), v.position as nat)
    &&& cbor::is_bytes(cbor::field_of(item, "entry"@), v.entry@)
    &&& is_hash_list(cbor::field_of(item, "proof_hashes"@), v.proof_hashes@)
    &&& cbor::is_uint(cbor::field_of(item, "length_at_proof"@), v.length_at_proof as nat)
}

/// Reads an inclusion proof.
#[must_use]
pub fn read_inclusion_proof(doc: &Cbor) -> (r: Option<InclusionProof>)
    ensures
        match r {
            Some(v) => is_inclusion_proof(doc.item(), v),
            None => forall|v: InclusionProof| !is_inclusion_proof(doc.item(), v),
        },
{
    let position = match cbor::read_uint(doc.field("position"), u64::MAX) {
        Some(x) => x,
        None => return None,
    };
    let entry = match cbor::read_bytes32(doc.field("entry")) {
        Some(x) => x,
        None => return None,
    };
    let proof_hashes = match read_hash_list(doc.field("proof_hashes")) {
        Some(x) => x,
        None => return None,
    };
    let length_at_proof = match cbor::read_uint(doc.field("length_at_proof"), u64::MAX) {
        Some(x) => x,
        None => return None,
    };
    Some(InclusionProof { position, entry, proof_hashes, length_at_proof })
}

proof fn lemma_inclusion_proof(v: InclusionProof, w: InclusionProof)
    ensures
        cbor::is_plain(inclusion_proof_item(v), 3),
        is_inclusion_proof(inclusion_proof_item(v), v),
        is_inclusion_proof(inclusion_proof_item(v), w) ==> inclusion_proof_item(w) == inclusion_proof_item(v),
{
    reveal_strlit("position");
    reveal_strlit("entry");
    reveal_strlit("proof_hashes");
    reveal_strlit("length_at_proof");
    assert("position"@.len() == 8 && "entry"@.len() == 5 && "proof_hashes"@.len() == 12 && "length_at_proof"@.len() == 15);
    let m = inclusion_proof_item(v)->Entries_0;
    assert(m[0] == cbor::field("position"@, Item::Uint(v.position as nat)));
    assert(m[1] == cbor::field("entry"@, cbor::byte_items(v.entry@)));
    assert(m[2] == cbor::field("proof_hashes"@, Item::Array(hash_items(v.proof_hashes@))));
    assert(m[3] == cbor::field("length_at_proof"@, Item::Uint(v.length_at_proof as nat)));
    assert(cbor::names_differ(m));
    cbor::lemma_fields(m);
    cbor::lemma_bytes_plain(v.entry@);
    cbor::lemma_bytes_differ(v.entry@, w.entry@);
    cbor::lemma_plain_more(m[1].1, 1, 2);
    lemma_hash_list(v.proof_hashes@, w.proof_hashes@);
    assert forall|i: int| 0 <= i < m.len() implies cbor::is_plain((#[trigger] m[i]).0, 2)
        && cbor::is_plain(m[i].1, 2) by {
        if i == 0 {
        } else if i == 1 {
        } else if i == 2 {
        } else if i == 3 {
        }
    }
    if is_inclusion_proof(inclusion_proof_item(v), w) {
        assert(inclusion_proof_item(w)->Entries_0 =~= m);
    }
}

/// Whether a field is this inclusion proof.
pub open spec fn is_some_inclusion_proof(x: Option<Item>, v: InclusionProof) -> bool {
    match x {
        Some(item) => is_inclusion_proof(item, v),
        None => false,
    }
}

fn read_some_inclusion_proof(x: Option<&Cbor>) -> (r: Option<InclusionProof>)
    ensures
        match r {
            Some(v) => is_some_inclusion_proof(cbor::maybe(x), v),
            None => forall|v: InclusionProof| !is_some_inclusion_proof(cbor::maybe(x), v),
        },
{
    match x {
        Some(d) => read_inclusion_proof(d),
        None => None,
    }
}

/// The document of a job bundle.
pub open spec fn job_bundle_item(v: JobBundle) -> Item {
    Item::Entries(
        seq![
            cbor::field("job_id"@, Item::Uint(v.job_id as nat)),
            cbor::field("pipeline_hash"@, cbor::byte_items(v.pipeline_hash@)),
            cbor::field("committee_attestations"@, Item::Array(attestation_items(v.committee_attestations@))),
            cbor::field("consensus_artifact"@, cbor::byte_items(v.consensus_artifact@)),
            cbor::field("merkle_proof"@, inclusion_proof_item(v.merkle_proof)),
            cbor::field("log_root"@, cbor::byte_items(v.log_root@)),
            cbor::field("log_position"@, Item::Uint(v.log_position as nat)),
            cbor::field("log_length_at_anchor"@, Item::Uint(v.log_length_at_anchor as nat)),
        ],
    )
}

/// Writes the document.
#[must_use]
pub fn job_bundle_to_cbor(v: &JobBundle) -> (r: Cbor)
    ensures
        r.item() == job_bundle_item(*v),
{
    let rec = Record::new().with("job_id", cbor::uint(v.job_id)).with("pipeline_hash", cbor::bytes(v.pipeline_hash.as_slice())).with("committee_attestations", attestation_list_to_cbor(&v.committee_attestations)).with("consensus_artifact", cbor::bytes(v.consensus_artifact.as_slice())).with("merkle_proof", inclusion_proof_to_cbor(&v.merkle_proof)).with("log_root", cbor::bytes(v.log_root.as_slice())).with("log_position", cbor::uint(v.log_position)).with("log_length_at_anchor", cbor::uint(v.log_length_at_anchor));
    assert(rec@ =~= job_bundle_item(*v)->Entries_0);
    rec.done()
}

/// Whether a document is a job bundle.
pub open spec fn is_job_bundle(item: Item, v: JobBundle) -> bool {
    &&& cbor::is_uint(cbor::field_of(item, "job_id"@), v.job_id as nat)
    &&& cbor::is_bytes(cbor::field_of(item, "pipeline_hash"@), v.pipeline_hash@)
    &&& is_attestation_list(cbor::field_of(item, "committee_attestations"@), v.committee_attestations@)
    &&& cbor::is_bytes(cbor::field_of(item, "consensus_artifact"@), v.consensus_artifact@)
    &&& is_some_inclusion_proof(cbor::field_of(item, "merkle_proof"@), v.merkle_proof)
    &&& cbor::is_bytes(cbor::field_of(item, "log_root"@), v.log_root@)
    &&& cbor::is_uint(cbor::field_of(item, "log_position"@), v.log_position as nat)
    &&& cbor::is_uint(cbor::field_of(item, "log_length_at_anchor"@), v.log_length_at_anchor as nat)
}

/// Reads a job bundle.
#[must_use]
pub fn read_job_bundle(doc: &Cbor) -> (r: Option<JobBundle>)
    ensures
        match r {
            Some(v) => is_job_bundle(doc.item(), v),
            None => forall|v: JobBundle| !is_job_bundle(doc.item(), v),
        },
{
    let job_id = match cbor::read_uint(doc.field("job_id"), u64::MAX) {
        Some(x) => x,
        None => return None,
    };
    let pipeline_hash = match cbor::read_bytes32(doc.field("pipeline_hash")) {
        Some(x) => x,
        None => return None,
    };
    let committee_attestations = match read_attestation_list(doc.field("committee_attestations")) {
        Some(x) => x,
        None => return None,
    };
    let consensus_artifact = match cbor::read_bytes32(doc.field("consensus_artifact")) {
        Some(x) => x,
        None => return None,
    };
    let merkle_proof = match read_some_inclusion_proof(doc.field("merkle_proof")) {
        Some(x) => x,
        None => return None,
    };
    let log_root = match cbor::read_bytes32(doc.field("log_root")) {
        Some(x) => x,
        None => return None,
    };
    let log_position = match cbor::read_uint(doc.field("log_position"), u64::MAX) {
        Some(x) => x,
        None => return None,
    };
    let log_length_at_anchor = match cbor::read_uint(doc.field("log_length_at_anchor"), u64::MAX) {
        Some(x) => x,
        None => return None,
    };
    Some(JobBundle { job_id, pipeline_hash, committee_attestations, consensus_artifact, merkle_proof, log_root, log_position, log_length_at_anchor })
}

/// Reading gives back what was written.
#[verifier::spinoff_prover]
#[verifier::rlimit(60)]
pub proof fn lemma_job_bundle(v: JobBundle, w: JobBundle)
    ensures
        cbor::is_plain(job_bundle_item(v), 4),
        is_job_bundle(job_bundle_item(v), v),
        is_job_bundle(job_bundle_item(v), w) ==> job_bundle_item(w) == job_bundle_item(v),
{
    reveal_strlit("job_id");
    reveal_strlit("pipeline_hash");
    reveal_strlit("committee_attestations");
    reveal_strlit("consensus_artifact");
    reveal_strlit("merkle_proof");
    reveal_strlit("log_root");
    reveal_strlit("log_position");
    reveal_strlit("log_length_at_anchor");
    assert("job_id"@.len() == 6 && "pipeline_hash"@.len() == 13 && "committee_attestations"@.len() == 22 && "consensus_artifact"@.len() == 18);
    assert("merkle_proof"@.len() == 12 && "log_root"@.len() == 8 && "log_position"@.len() == 12 && "log_length_at_anchor"@.len() == 20);
    assert("log_position"@[0] == 'l' && "merkle_proof"@[0] == 'm');
    let m = job_bundle_item(v)->Entries_0;
    assert(m[0] == cbor::field("job_id"@, Item::Uint(v.job_id as nat)));
    assert(m[1] == cbor::field("pipeline_hash"@, cbor::byte_items(v.pipeline_hash@)));
    assert(m[2] == cbor::field("committee_attestations"@, Item::Array(attestation_items(v.committee_attestations@))));
    assert(m[3] == cbor::field("consensus_artifact"@, cbor::byte_items(v.consensus_artifact@)));
    assert(m[4] == cbor::field("merkle_proof"@, inclusion_proof_item(v.merkle_proof)));
    assert(m[5] == cbor::field("log_root"@, cbor::byte_items(v.log_root@)));
    assert(m[6] == cbor::field("log_position"@, Item::Uint(v.log_position as nat)));
    assert(m[7] == cbor::field("log_length_at_anchor"@, Item::Uint(v.log_length_at_anchor as nat)));
    assert(cbor::names_differ(m));
    cbor::lemma_fields(m);
    cbor::lemma_bytes_plain(v.pipeline_hash@);
    cbor::lemma_bytes_differ(v.pipeline_hash@, w.pipeline_hash@);
    cbor::lemma_plain_more(m[1].1, 1, 3);
    lemma_attestation_list(v.committee_attestations@, w.committee_attestations@);
    cbor::lemma_bytes_plain(v.consensus_artifact@);
    cbor::lemma_bytes_differ(v.consensus_artifact@, w.consensus_artifact@);
    cbor::lemma_plain_more(m[3].1, 1, 3);
    lemma_inclusion_proof(v.merkle_proof, w.merkle_proof);
    cbor::lemma_bytes_plain(v.log_root@);
    cbor::lemma_bytes_differ(v.log_root@, w.log_root@);
    cbor::lemma_plain_more(m[5].1, 1, 3);
    assert forall|i: int| 0 <= i < m.len() implies cbor::is_plain((#[trigger] m[i]).0, 3)
        && cbor::is_plain(m[i].1, 3) by {
        if i == 0 {
        } else if i == 1 {
        } else if i == 2 {
        } else if i == 3 {
        } else if i == 4 {
        } else if i == 5 {
        } else if i == 6 {
        } else if i == 7 {
        }
    }
    if is_job_bundle(job_bundle_item(v), w) {
        assert(job_bundle_item(w)->Entries_0 =~= m);
    }
}

/// Whether a field is this job bundle.
pub open spec fn is_some_job_bundle(x: Option<Item>, v: JobBundle) -> bool {
    match x {
        Some(item) => is_job_bundle(item, v),
        None => false,
    }
}

// ── Pipelines ──────────────────────────────────────────────────────────────

/// The document of a scheme.
pub open spec fn scheme_item(v: Scheme) -> Item {
    Item::Text(crate::jobs::scheme_name(v))
}

/// Whether a document is a scheme.
pub open spec fn is_scheme(item: Item, v: Scheme) -> bool {
    item == scheme_item(v)
}

/// Reads a scheme.
#[must_use]
pub fn read_scheme(doc: &Cbor) -> (r: Option<Scheme>)
    ensures
        match r {
            Some(v) => is_scheme(doc.item(), v),
            None => forall|v: Scheme| !is_scheme(doc.item(), v),
        },
{
    match doc {
        Cbor::Text(s) => if text::str_eq(s.as_str(), "Http") {
            Some(Scheme::Http)
        } else if text::str_eq(s.as_str(), "Https") {
            Some(Scheme::Https)
        } else if text::str_eq(s.as_str(), "Tcp") {
            Some(Scheme::Tcp)
        } else {
            None
        },
        _ => None,
    }
}

proof fn lemma_scheme(v: Scheme, w: Scheme)
    ensures
        cbor::is_plain(scheme_item(v), 0),
        is_scheme(scheme_item(v), v),
        is_scheme(scheme_item(v), w) ==> scheme_item(w) == scheme_item(v),
{
}

/// Whether a field is this scheme.
pub open spec fn is_some_scheme(x: Option<Item>, v: Scheme) -> bool {
    match x {
        Some(item) => is_scheme(item, v),
        None => false,
    }
}

fn read_some_scheme(x: Option<&Cbor>) -> (r: Option<Scheme>)
    ensures
        match r {
            Some(v) => is_some_scheme(cbor::maybe(x), v),
            None => forall|v: Scheme| !is_some_scheme(cbor::maybe(x), v),
        },
{
    match x {
        Some(d) => read_scheme(d),
        None => None,
    }
}

/// The document of what a policy does by default.
pub open spec fn default_item(v: EgressDefault) -> Item {
    Item::Text(crate::jobs::default_name(v))
}

/// Whether a document is what a policy does by default.
pub open spec fn is_default(item: Item, v: EgressDefault) -> bool {
    item == default_item(v)
}

/// Reads what a policy does by default.
#[must_use]
pub fn read_default(doc: &Cbor) -> (r: Option<EgressDefault>)
    ensures
        match r {
            Some(v) => is_default(doc.item(), v),
            None => forall|v: EgressDefault| !is_default(doc.item(), v),
        },
{
    match doc {
        Cbor::Text(s) => if text::str_eq(s.as_str(), "Deny") {
            Some(EgressDefault::Deny)
        } else if text::str_eq(s.as_str(), "Audit") {
            Some(EgressDefault::Audit)
        } else {
            None
        },
        _ => None,
    }
}

proof fn lemma_default(v: EgressDefault, w: EgressDefault)
    ensures
        cbor::is_plain(default_item(v), 0),
        is_default(default_item(v), v),
        is_default(default_item(v), w) ==> default_item(w) == default_item(v),
{
}

/// Whether a field is this default.
pub open spec fn is_some_default(x: Option<Item>, v: EgressDefault) -> bool {
    match x {
        Some(item) => is_default(item, v),
        None => false,
    }
}

fn read_some_default(x: Option<&Cbor>) -> (r: Option<EgressDefault>)
    ensures
        match r {
            Some(v) => is_some_default(cbor::maybe(x), v),
            None => forall|v: EgressDefault| !is_some_default(cbor::maybe(x), v),
        },
{
    match x {
        Some(d) => read_default(d),
        None => None,
    }
}

/// Whether a document is an allowlist entry.
pub open spec fn is_target(item: Item, v: EgressTarget) -> bool {
    match v {
        EgressTarget::Host { hostname, port, scheme } => match cbor::carried_within(item, "Host"@, 3) {
            Some(x) => {
                &&& cbor::is_text(cbor::part_of(x, "hostname"@, 0), hostname@)
                &&& cbor::is_uint(cbor::part_of(x, "port"@, 1), port as nat)
                &&& is_some_scheme(cbor::part_of(x, "scheme"@, 2), scheme)
            },
            None => false,
        },
        EgressTarget::Cidr { cidr, port_range_start, port_range_end } => match cbor::carried_within(item, "Cidr"@, 3) {
            Some(x) => {
                &&& cbor::is_text(cbor::part_of(x, "cidr"@, 0), cidr@)
                &&& cbor::is_uint(cbor::part_of(x, "port_range_start"@, 1), port_range_start as nat)
                &&& cbor::is_uint(cbor::part_of(x, "port_range_end"@, 2), port_range_end as nat)
            },
            None => false,
        },
    }
}

proof fn lemma_target_names()
    ensures
        "Host"@ != "Cidr"@,
{
    reveal_strlit("Host");
    reveal_strlit("Cidr");
    assert("Host"@.len() == 4 && "Cidr"@.len() == 4);
    assert("Cidr"@[0] == 'C' && "Host"@[0] == 'H');
}

/// Reads an allowlist entry.
#[must_use]
pub fn read_target(doc: &Cbor) -> (r: Option<EgressTarget>)
    ensures
        match r {
            Some(v) => is_target(doc.item(), v),
            None => forall|v: EgressTarget| !is_target(doc.item(), v),
        },
{
    proof {
        lemma_target_names();
    }
    let (name, x) = match doc.choice() {
        Some((name, Some(x))) => (name, x),
        _ => return None,
    };
    if text::str_eq(name.as_str(), "Host") {
        if !x.fits(3) {
            return None;
        }
        let hostname = match cbor::read_text(x.part("hostname", 0)) {
            Some(x) => x,
            None => return None,
        };
        let port = match cbor::read_uint(x.part("port", 1), 65535) {
            Some(x) => x,
            None => return None,
        };
        let scheme = match read_some_scheme(x.part("scheme", 2)) {
            Some(x) => x,
            None => return None,
        };
        Some(EgressTarget::Host { hostname, port: port as u16, scheme })
    } else if text::str_eq(name.as_str(), "Cidr") {
        if !x.fits(3) {
            return None;
        }
        let cidr = match cbor::read_text(x.part("cidr", 0)) {
            Some(x) => x,
            None => return None,
        };
        let port_range_start = match cbor::read_uint(x.part("port_range_start", 1), 65535) {
            Some(x) => x,
            None => return None,
        };
        let port_range_end = match cbor::read_uint(x.part("port_range_end", 2), 65535) {
            Some(x) => x,
            None => return None,
        };
        Some(EgressTarget::Cidr { cidr, port_range_start: port_range_start as u16, port_range_end: port_range_end as u16 })
    } else {
        None
    }
}

#[verifier::spinoff_prover]
#[verifier::rlimit(60)]
proof fn lemma_target(v: EgressTarget, w: EgressTarget)
    ensures
        cbor::is_plain(crate::jobs::target_item(v), 2),
        is_target(crate::jobs::target_item(v), v),
        is_target(crate::jobs::target_item(v), w) ==> crate::jobs::target_item(w) == crate::jobs::target_item(v),
{
    lemma_target_names();
    match v {
        EgressTarget::Host { hostname, port, scheme } => {
            reveal_strlit("hostname");
            reveal_strlit("port");
            reveal_strlit("scheme");
            assert("hostname"@.len() == 8 && "port"@.len() == 4 && "scheme"@.len() == 6);
            let inner = crate::jobs::target_item(v)->Entries_0[0].1;
            let m = inner->Entries_0;
            assert(m[0] == cbor::field("hostname"@, Item::Text(hostname@)));
            assert(m[1] == cbor::field("port"@, Item::Uint(port as nat)));
            assert(m[2] == cbor::field("scheme"@, scheme_item(scheme)));
            assert(cbor::names_differ(m));
            cbor::lemma_fields(m);
            lemma_scheme(scheme, scheme);
            assert forall|i: int| 0 <= i < m.len() implies cbor::is_plain((#[trigger] m[i]).0, 0)
                && cbor::is_plain(m[i].1, 0) by {
                if i == 0 {
                } else if i == 1 {
                } else if i == 2 {
                }
            }
            cbor::lemma_choice("Host"@, inner, 1);
            match w {
                EgressTarget::Host { hostname: hostname_w, port: port_w, scheme: scheme_w } => {
                    lemma_scheme(scheme, scheme_w);
                    if is_target(crate::jobs::target_item(v), w) {
                        assert(crate::jobs::target_item(w)->Entries_0[0].1->Entries_0 =~= m);
                    }
                },
                _ => {},
            }
        },
        EgressTarget::Cidr { cidr, port_range_start, port_range_end } => {
            reveal_strlit("cidr");
            reveal_strlit("port_range_start");
            reveal_strlit("port_range_end");
            assert("cidr"@.len() == 4 && "port_range_start"@.len() == 16 && "port_range_end"@.len() == 14);
            let inner = crate::jobs::target_item(v)->Entries_0[0].1;
            let m = inner->Entries_0;
            assert(m[0] == cbor::field("cidr"@, Item::Text(cidr@)));
            assert(m[1] == cbor::field("port_range_start"@, Item::Uint(port_range_start as nat)));
            assert(m[2] == cbor::field("port_range_end"@, Item::Uint(port_range_end as nat)));
            assert(cbor::names_differ(m));
            cbor::lemma_fields(m);

            assert forall|i: int| 0 <= i < m.len() implies cbor::is_plain((#[trigger] m[i]).0, 0)
                && cbor::is_plain(m[i].1, 0) by {
                if i == 0 {
                } else if i == 1 {
                } else if i == 2 {
                }
            }
            cbor::lemma_choice("Cidr"@, inner, 1);
            match w {
                EgressTarget::Cidr { cidr: cidr_w, port_range_start: port_range_start_w, port_range_end: port_range_end_w } => {

                    if is_target(crate::jobs::target_item(v), w) {
                        assert(crate::jobs::target_item(w)->Entries_0[0].1->Entries_0 =~= m);
                    }
                },
                _ => {},
            }
        },
    }
}

/// Whether a field is this list: target.
pub open spec fn is_target_list(x: Option<Item>, list: Seq<EgressTarget>) -> bool {
    match x {
        Some(Item::Array(v)) => v.len() == list.len() && forall|i: int|
            0 <= i < v.len() ==> is_target(#[trigger] v[i], list[i]),
        _ => false,
    }
}

fn read_target_list(x: Option<&Cbor>) -> (r: Option<Vec<EgressTarget>>)
    ensures
        match r {
            Some(v) => is_target_list(cbor::maybe(x), v@),
            None => forall|v: Seq<EgressTarget>| !is_target_list(cbor::maybe(x), v),
        },
{
    match x {
        Some(Cbor::Array(v)) => {
            let ghost all = cbor::items(v@);
            proof {
                cbor::lemma_array_item(*v);
            }
            let mut out: Vec<EgressTarget> = Vec::new();
            let mut i: usize = 0;
            while i < v.len()
                invariant
                    i <= v.len(),
                    all == cbor::items(v@),
                    cbor::maybe(x) == Some(Item::Array(all)),
                    out@.len() == i,
                    forall|k: int| 0 <= k < i ==> is_target(#[trigger] all[k], out@[k]),
                decreases v.len() - i,
            {
                assert(all[i as int] == v@[i as int].item());
                match read_target(&v[i]) {
                    Some(e) => out.push(e),
                    None => {
                        assert forall|s: Seq<EgressTarget>| !is_target_list(cbor::maybe(x), s) by {
                            assert(!is_target(all[i as int], s[i as int]));
                        }
                        return None;
                    },
                }
                i = i + 1;
            }
            Some(out)
        },
        _ => None,
    }
}

proof fn lemma_target_list(a: Seq<EgressTarget>, b: Seq<EgressTarget>)
    ensures
        cbor::is_plain(Item::Array(crate::jobs::target_items(a)), 3),
        is_target_list(Some(Item::Array(crate::jobs::target_items(a))), a),
        is_target_list(Some(Item::Array(crate::jobs::target_items(a))), b) ==> crate::jobs::target_items(b)
            == crate::jobs::target_items(a),
{
    let v = crate::jobs::target_items(a);
    assert forall|i: int| 0 <= i < v.len() implies cbor::is_plain(#[trigger] v[i], 2) && is_target(
        v[i],
        a[i],
    ) by {
        lemma_target(a[i], a[i]);
    }
    if is_target_list(Some(Item::Array(v)), b) {
        assert forall|i: int| 0 <= i < v.len() implies crate::jobs::target_item(b[i]) == crate::jobs::target_item(a[i]) by {
            assert(is_target(v[i], b[i]));
            lemma_target(a[i], b[i]);
        }
        assert(crate::jobs::target_items(b) =~= v);
    }
}

/// Whether a document is a network policy.
pub open spec fn is_policy(item: Item, v: NetworkPolicy) -> bool {
    &&& is_target_list(cbor::field_of(item, "allow"@), v.allow@)
    &&& is_some_default(cbor::field_of(item, "default"@), v.default)
}

/// Reads a network policy.
#[must_use]
pub fn read_policy(doc: &Cbor) -> (r: Option<NetworkPolicy>)
    ensures
        match r {
            Some(v) => is_policy(doc.item(), v),
            None => forall|v: NetworkPolicy| !is_policy(doc.item(), v),
        },
{
    let allow = match read_target_list(doc.field("allow")) {
        Some(x) => x,
        None => return None,
    };
    let default = match read_some_default(doc.field("default")) {
        Some(x) => x,
        None => return None,
    };
    Some(NetworkPolicy { allow, default })
}

proof fn lemma_policy(v: NetworkPolicy, w: NetworkPolicy)
    ensures
        cbor::is_plain(crate::jobs::policy_item(v), 4),
        is_policy(crate::jobs::policy_item(v), v),
        is_policy(crate::jobs::policy_item(v), w) ==> crate::jobs::policy_item(w) == crate::jobs::policy_item(v),
{
    reveal_strlit("allow");
    reveal_strlit("default");
    assert("allow"@.len() == 5 && "default"@.len() == 7);
    let m = crate::jobs::policy_item(v)->Entries_0;
    assert(m[0] == cbor::field("allow"@, Item::Array(crate::jobs::target_items(v.allow@))));
    assert(m[1] == cbor::field("default"@, default_item(v.default)));
    assert(cbor::names_differ(m));
    cbor::lemma_fields(m);
    lemma_target_list(v.allow@, w.allow@);
    lemma_default(v.default, w.default);
    assert forall|i: int| 0 <= i < m.len() implies cbor::is_plain((#[trigger] m[i]).0, 3)
        && cbor::is_plain(m[i].1, 3) by {
        if i == 0 {
        } else if i == 1 {
        }
    }
    if is_policy(crate::jobs::policy_item(v), w) {
        assert(crate::jobs::policy_item(w)->Entries_0 =~= m);
    }
}

/// Whether a field is this policy.
pub open spec fn is_some_policy(x: Option<Item>, v: NetworkPolicy) -> bool {
    match x {
        Some(item) => is_policy(item, v),
        None => false,
    }
}

fn read_some_policy(x: Option<&Cbor>) -> (r: Option<NetworkPolicy>)
    ensures
        match r {
            Some(v) => is_some_policy(cbor::maybe(x), v),
            None => forall|v: NetworkPolicy| !is_some_policy(cbor::maybe(x), v),
        },
{
    match x {
        Some(d) => read_policy(d),
        None => None,
    }
}

/// Whether a document is the limits of a step.
pub open spec fn is_limits(item: Item, v: Limits) -> bool {
    &&& cbor::is_uint(cbor::field_of(item, "cpu_seconds"@), v.cpu_seconds as nat)
    &&& cbor::is_uint(cbor::field_of(item, "memory_mb"@), v.memory_mb as nat)
    &&& cbor::is_uint(cbor::field_of(item, "wall_seconds"@), v.wall_seconds as nat)
    &&& is_some_policy(cbor::field_of(item, "network"@), v.network)
}

/// Reads the limits of a step.
#[must_use]
pub fn read_limits(doc: &Cbor) -> (r: Option<Limits>)
    ensures
        match r {
            Some(v) => is_limits(doc.item(), v),
            None => forall|v: Limits| !is_limits(doc.item(), v),
        },
{
    let cpu_seconds = match cbor::read_uint(doc.field("cpu_seconds"), 4_294_967_295) {
        Some(x) => x,
        None => return None,
    };
    let memory_mb = match cbor::read_uint(doc.field("memory_mb"), 4_294_967_295) {
        Some(x) => x,
        None => return None,
    };
    let wall_seconds = match cbor::read_uint(doc.field("wall_seconds"), 4_294_967_295) {
        Some(x) => x,
        None => return None,
    };
    let network = match read_some_policy(doc.field("network")) {
        Some(x) => x,
        None => return None,
    };
    Some(Limits { cpu_seconds: cpu_seconds as u32, memory_mb: memory_mb as u32, wall_seconds: wall_seconds as u32, network })
}

/// Reading gives back what was written.
pub proof fn lemma_limits(v: Limits, w: Limits)
    ensures
        cbor::is_plain(crate::jobs::limits_item(v), 5),
        is_limits(crate::jobs::limits_item(v), v),
        is_limits(crate::jobs::limits_item(v), w) ==> crate::jobs::limits_item(w) == crate::jobs::limits_item(v),
{
    reveal_strlit("cpu_seconds");
    reveal_strlit("memory_mb");
    reveal_strlit("wall_seconds");
    reveal_strlit("network");
    assert("cpu_seconds"@.len() == 11 && "memory_mb"@.len() == 9 && "wall_seconds"@.len() == 12 && "network"@.len() == 7);
    let m = crate::jobs::limits_item(v)->Entries_0;
    assert(m[0] == cbor::field("cpu_seconds"@, Item::Uint(v.cpu_seconds as nat)));
    assert(m[1] == cbor::field("memory_mb"@, Item::Uint(v.memory_mb as nat)));
    assert(m[2] == cbor::field("wall_seconds"@, Item::Uint(v.wall_seconds as nat)));
    assert(m[3] == cbor::field("network"@, crate::jobs::policy_item(v.network)));
    assert(cbor::names_differ(m));
    cbor::lemma_fields(m);
    lemma_policy(v.network, w.network);
    assert forall|i: int| 0 <= i < m.len() implies cbor::is_plain((#[trigger] m[i]).0, 4)
        && cbor::is_plain(m[i].1, 4) by {
        if i == 0 {
        } else if i == 1 {
        } else if i == 2 {
        } else if i == 3 {
        }
    }
    if is_limits(crate::jobs::limits_item(v), w) {
        assert(crate::jobs::limits_item(w)->Entries_0 =~= m);
    }
}

/// Whether a field is this limits.
pub open spec fn is_some_limits(x: Option<Item>, v: Limits) -> bool {
    match x {
        Some(item) => is_limits(item, v),
        None => false,
    }
}

/// Reads a field.
#[must_use]
pub fn read_some_limits(x: Option<&Cbor>) -> (r: Option<Limits>)
    ensures
        match r {
            Some(v) => is_some_limits(cbor::maybe(x), v),
            None => forall|v: Limits| !is_some_limits(cbor::maybe(x), v),
        },
{
    match x {
        Some(d) => read_limits(d),
        None => None,
    }
}

/// Whether the environment of a step is in order.
pub open spec fn step_is_valid(s: Step) -> bool {
    match s {
        Step::ExecNative { env, .. } => env.wf(),
        _ => true,
    }
}

/// Whether what the steps carry is in order.
pub open spec fn steps_are_valid(steps: Seq<Step>) -> bool {
    forall|i: int| 0 <= i < steps.len() ==> step_is_valid(#[trigger] steps[i])
}

/// Whether the steps of a pipeline are in order.
pub open spec fn pipeline_is_valid(p: Pipeline) -> bool {
    steps_are_valid(p.steps@)
}

/// Whether a document is a step.
pub open spec fn is_step(item: Item, v: Step) -> bool {
    match v {
        Step::SourceFetch { url, reference } => match cbor::carried_within(item, "SourceFetch"@, 2) {
            Some(x) => {
                &&& cbor::is_text(cbor::part_of(x, "url"@, 0), url@)
                &&& cbor::is_text(cbor::part_of(x, "reference"@, 1), reference@)
            },
            None => false,
        },
        Step::ExecWasm { module, args_cbor, limits } => match cbor::carried_within(item, "ExecWasm"@, 3) {
            Some(x) => {
                &&& cbor::is_bytes(cbor::part_of(x, "module"@, 0), module@)
                &&& cbor::is_bytes(cbor::part_of(x, "args_cbor"@, 1), args_cbor@)
                &&& is_some_limits(cbor::part_of(x, "limits"@, 2), limits)
            },
            None => false,
        },
        Step::ExecNative { command, env, limits } => match cbor::carried_within(item, "ExecNative"@, 3) {
            Some(x) => {
                &&& is_strings(cbor::part_of(x, "command"@, 0), command@)
                &&& is_env(cbor::part_of(x, "env"@, 1), env)
                &&& is_some_limits(cbor::part_of(x, "limits"@, 2), limits)
            },
            None => false,
        },
        Step::CaptureLog { name } => match cbor::carried_within(item, "CaptureLog"@, 1) {
            Some(x) => {
                &&& cbor::is_text(cbor::part_of(x, "name"@, 0), name@)
            },
            None => false,
        },
        Step::CaptureArtifact { path, name } => match cbor::carried_within(item, "CaptureArtifact"@, 2) {
            Some(x) => {
                &&& cbor::is_text(cbor::part_of(x, "path"@, 0), path@)
                &&& cbor::is_text(cbor::part_of(x, "name"@, 1), name@)
            },
            None => false,
        },
    }
}

proof fn lemma_step_names()
    ensures
        "SourceFetch"@ != "ExecWasm"@,
        "SourceFetch"@ != "ExecNative"@,
        "SourceFetch"@ != "CaptureLog"@,
        "SourceFetch"@ != "CaptureArtifact"@,
        "ExecWasm"@ != "ExecNative"@,
        "ExecWasm"@ != "CaptureLog"@,
        "ExecWasm"@ != "CaptureArtifact"@,
        "ExecNative"@ != "CaptureLog"@,
        "ExecNative"@ != "CaptureArtifact"@,
        "CaptureLog"@ != "CaptureArtifact"@,
{
    reveal_strlit("SourceFetch");
    reveal_strlit("ExecWasm");
    reveal_strlit("ExecNative");
    reveal_strlit("CaptureLog");
    reveal_strlit("CaptureArtifact");
    assert("SourceFetch"@.len() == 11 && "ExecWasm"@.len() == 8 && "ExecNative"@.len() == 10 && "CaptureLog"@.len() == 10);
    assert("CaptureArtifact"@.len() == 15);
    assert("CaptureLog"@[0] == 'C' && "ExecNative"@[0] == 'E');
}

/// Reads a step.
#[must_use]
pub fn read_step(doc: &Cbor) -> (r: Option<Step>)
    ensures
        match r {
            Some(v) => is_step(doc.item(), v),
            None => forall|v: Step| !is_step(doc.item(), v),
        },
{
    proof {
        lemma_step_names();
    }
    let (name, x) = match doc.choice() {
        Some((name, Some(x))) => (name, x),
        _ => return None,
    };
    if text::str_eq(name.as_str(), "SourceFetch") {
        if !x.fits(2) {
            return None;
        }
        let url = match cbor::read_text(x.part("url", 0)) {
            Some(x) => x,
            None => return None,
        };
        let reference = match cbor::read_text(x.part("reference", 1)) {
            Some(x) => x,
            None => return None,
        };
        Some(Step::SourceFetch { url, reference })
    } else if text::str_eq(name.as_str(), "ExecWasm") {
        if !x.fits(3) {
            return None;
        }
        let module = match cbor::read_bytes(x.part("module", 0)) {
            Some(x) => x,
            None => return None,
        };
        let args_cbor = match cbor::read_bytes(x.part("args_cbor", 1)) {
            Some(x) => x,
            None => return None,
        };
        let limits = match read_some_limits(x.part("limits", 2)) {
            Some(x) => x,
            None => return None,
        };
        Some(Step::ExecWasm { module, args_cbor, limits })
    } else if text::str_eq(name.as_str(), "ExecNative") {
        if !x.fits(3) {
            return None;
        }
        let command = match read_strings(x.part("command", 0)) {
            Some(x) => x,
            None => return None,
        };
        let env = match read_env(x.part("env", 1)) {
            Some(x) => x,
            None => return None,
        };
        let limits = match read_some_limits(x.part("limits", 2)) {
            Some(x) => x,
            None => return None,
        };
        Some(Step::ExecNative { command, env, limits })
    } else if text::str_eq(name.as_str(), "CaptureLog") {
        if !x.fits(1) {
            return None;
        }
        let name = match cbor::read_text(x.part("name", 0)) {
            Some(x) => x,
            None => return None,
        };
        Some(Step::CaptureLog { name })
    } else if text::str_eq(name.as_str(), "CaptureArtifact") {
        if !x.fits(2) {
            return None;
        }
        let path = match cbor::read_text(x.part("path", 0)) {
            Some(x) => x,
            None => return None,
        };
        let name = match cbor::read_text(x.part("name", 1)) {
            Some(x) => x,
            None => return None,
        };
        Some(Step::CaptureArtifact { path, name })
    } else {
        None
    }
}

/// Reading gives back what was written.
#[verifier::spinoff_prover]
#[verifier::rlimit(60)]
pub proof fn lemma_step(v: Step, w: Step)
    ensures
        cbor::is_plain(crate::jobs::step_item(v), 7),
        step_is_valid(v) ==> is_step(crate::jobs::step_item(v), v),
        step_is_valid(v) && is_step(crate::jobs::step_item(v), w) ==> crate::jobs::step_item(w) == crate::jobs::step_item(v),
{
    lemma_step_names();
    match v {
        Step::SourceFetch { url, reference } => {
            reveal_strlit("url");
            reveal_strlit("reference");
            assert("url"@.len() == 3 && "reference"@.len() == 9);
            let inner = crate::jobs::step_item(v)->Entries_0[0].1;
            let m = inner->Entries_0;
            assert(m[0] == cbor::field("url"@, Item::Text(url@)));
            assert(m[1] == cbor::field("reference"@, Item::Text(reference@)));
            assert(cbor::names_differ(m));
            cbor::lemma_fields(m);

            assert forall|i: int| 0 <= i < m.len() implies cbor::is_plain((#[trigger] m[i]).0, 5)
                && cbor::is_plain(m[i].1, 5) by {
                if i == 0 {
                } else if i == 1 {
                }
            }
            cbor::lemma_choice("SourceFetch"@, inner, 6);
            match w {
                Step::SourceFetch { url: url_w, reference: reference_w } => {

                    if step_is_valid(v) && is_step(crate::jobs::step_item(v), w) {
                        assert(crate::jobs::step_item(w)->Entries_0[0].1->Entries_0 =~= m);
                    }
                },
                _ => {},
            }
        },
        Step::ExecWasm { module, args_cbor, limits } => {
            reveal_strlit("module");
            reveal_strlit("args_cbor");
            reveal_strlit("limits");
            assert("module"@.len() == 6 && "args_cbor"@.len() == 9 && "limits"@.len() == 6);
            assert("limits"@[0] == 'l' && "module"@[0] == 'm');
            let inner = crate::jobs::step_item(v)->Entries_0[0].1;
            let m = inner->Entries_0;
            assert(m[0] == cbor::field("module"@, cbor::byte_items(module@)));
            assert(m[1] == cbor::field("args_cbor"@, cbor::byte_items(args_cbor@)));
            assert(m[2] == cbor::field("limits"@, crate::jobs::limits_item(limits)));
            assert(cbor::names_differ(m));
            cbor::lemma_fields(m);
            cbor::lemma_bytes_plain(module@);
            cbor::lemma_bytes_differ(module@, module@);
            cbor::lemma_plain_more(m[0].1, 1, 5);
            cbor::lemma_bytes_plain(args_cbor@);
            cbor::lemma_bytes_differ(args_cbor@, args_cbor@);
            cbor::lemma_plain_more(m[1].1, 1, 5);
            lemma_limits(limits, limits);
            assert forall|i: int| 0 <= i < m.len() implies cbor::is_plain((#[trigger] m[i]).0, 5)
                && cbor::is_plain(m[i].1, 5) by {
                if i == 0 {
                } else if i == 1 {
                } else if i == 2 {
                }
            }
            cbor::lemma_choice("ExecWasm"@, inner, 6);
            match w {
                Step::ExecWasm { module: module_w, args_cbor: args_cbor_w, limits: limits_w } => {
                    cbor::lemma_bytes_plain(module@);
                    cbor::lemma_bytes_differ(module@, module_w@);
                    cbor::lemma_plain_more(m[0].1, 1, 5);
                    cbor::lemma_bytes_plain(args_cbor@);
                    cbor::lemma_bytes_differ(args_cbor@, args_cbor_w@);
                    cbor::lemma_plain_more(m[1].1, 1, 5);
                    lemma_limits(limits, limits_w);
                    if step_is_valid(v) && is_step(crate::jobs::step_item(v), w) {
                        assert(crate::jobs::step_item(w)->Entries_0[0].1->Entries_0 =~= m);
                    }
                },
                _ => {},
            }
        },
        Step::ExecNative { command, env, limits } => {
            reveal_strlit("command");
            reveal_strlit("env");
            reveal_strlit("limits");
            assert("command"@.len() == 7 && "env"@.len() == 3 && "limits"@.len() == 6);
            let inner = crate::jobs::step_item(v)->Entries_0[0].1;
            let m = inner->Entries_0;
            assert(m[0] == cbor::field("command"@, Item::Array(crate::jobs::string_items(command@))));
            assert(m[1] == cbor::field("env"@, crate::jobs::env_item(env.list())));
            assert(m[2] == cbor::field("limits"@, crate::jobs::limits_item(limits)));
            assert(cbor::names_differ(m));
            cbor::lemma_fields(m);
            lemma_strings(command@, command@);
            cbor::lemma_plain_more(m[0].1, 1, 5);
            lemma_env(env, env);
            cbor::lemma_plain_more(m[1].1, 1, 5);
            lemma_limits(limits, limits);
            assert forall|i: int| 0 <= i < m.len() implies cbor::is_plain((#[trigger] m[i]).0, 5)
                && cbor::is_plain(m[i].1, 5) by {
                if i == 0 {
                } else if i == 1 {
                } else if i == 2 {
                }
            }
            cbor::lemma_choice("ExecNative"@, inner, 6);
            match w {
                Step::ExecNative { command: command_w, env: env_w, limits: limits_w } => {
                    lemma_strings(command@, command_w@);
                    cbor::lemma_plain_more(m[0].1, 1, 5);
                    lemma_env(env, env_w);
                    cbor::lemma_plain_more(m[1].1, 1, 5);
                    lemma_limits(limits, limits_w);
                    if step_is_valid(v) && is_step(crate::jobs::step_item(v), w) {
                        assert(crate::jobs::step_item(w)->Entries_0[0].1->Entries_0 =~= m);
                    }
                },
                _ => {},
            }
        },
        Step::CaptureLog { name } => {
            reveal_strlit("name");
            assert("name"@.len() == 4);
            let inner = crate::jobs::step_item(v)->Entries_0[0].1;
            let m = inner->Entries_0;
            assert(m[0] == cbor::field("name"@, Item::Text(name@)));
            assert(cbor::names_differ(m));
            cbor::lemma_fields(m);

            assert forall|i: int| 0 <= i < m.len() implies cbor::is_plain((#[trigger] m[i]).0, 5)
                && cbor::is_plain(m[i].1, 5) by {
                if i == 0 {
                }
            }
            cbor::lemma_choice("CaptureLog"@, inner, 6);
            match w {
                Step::CaptureLog { name: name_w } => {

                    if step_is_valid(v) && is_step(crate::jobs::step_item(v), w) {
                        assert(crate::jobs::step_item(w)->Entries_0[0].1->Entries_0 =~= m);
                    }
                },
                _ => {},
            }
        },
        Step::CaptureArtifact { path, name } => {
            reveal_strlit("path");
            reveal_strlit("name");
            assert("path"@.len() == 4 && "name"@.len() == 4);
            assert("name"@[0] == 'n' && "path"@[0] == 'p');
            let inner = crate::jobs::step_item(v)->Entries_0[0].1;
            let m = inner->Entries_0;
            assert(m[0] == cbor::field("path"@, Item::Text(path@)));
            assert(m[1] == cbor::field("name"@, Item::Text(name@)));
            assert(cbor::names_differ(m));
            cbor::lemma_fields(m);

            assert forall|i: int| 0 <= i < m.len() implies cbor::is_plain((#[trigger] m[i]).0, 5)
                && cbor::is_plain(m[i].1, 5) by {
                if i == 0 {
                } else if i == 1 {
                }
            }
            cbor::lemma_choice("CaptureArtifact"@, inner, 6);
            match w {
                Step::CaptureArtifact { path: path_w, name: name_w } => {

                    if step_is_valid(v) && is_step(crate::jobs::step_item(v), w) {
                        assert(crate::jobs::step_item(w)->Entries_0[0].1->Entries_0 =~= m);
                    }
                },
                _ => {},
            }
        },
    }
}

/// Whether a field is this list: step.
pub open spec fn is_step_list(x: Option<Item>, list: Seq<Step>) -> bool {
    match x {
        Some(Item::Array(v)) => v.len() == list.len() && forall|i: int|
            0 <= i < v.len() ==> is_step(#[trigger] v[i], list[i]),
        _ => false,
    }
}

fn read_step_list(x: Option<&Cbor>) -> (r: Option<Vec<Step>>)
    ensures
        match r {
            Some(v) => is_step_list(cbor::maybe(x), v@),
            None => forall|v: Seq<Step>| !is_step_list(cbor::maybe(x), v),
        },
{
    match x {
        Some(Cbor::Array(v)) => {
            let ghost all = cbor::items(v@);
            proof {
                cbor::lemma_array_item(*v);
            }
            let mut out: Vec<Step> = Vec::new();
            let mut i: usize = 0;
            while i < v.len()
                invariant
                    i <= v.len(),
                    all == cbor::items(v@),
                    cbor::maybe(x) == Some(Item::Array(all)),
                    out@.len() == i,
                    forall|k: int| 0 <= k < i ==> is_step(#[trigger] all[k], out@[k]),
                decreases v.len() - i,
            {
                assert(all[i as int] == v@[i as int].item());
                match read_step(&v[i]) {
                    Some(e) => out.push(e),
                    None => {
                        assert forall|s: Seq<Step>| !is_step_list(cbor::maybe(x), s) by {
                            assert(!is_step(all[i as int], s[i as int]));
                        }
                        return None;
                    },
                }
                i = i + 1;
            }
            Some(out)
        },
        _ => None,
    }
}

proof fn lemma_step_list(a: Seq<Step>, b: Seq<Step>)
    ensures
        cbor::is_plain(Item::Array(crate::jobs::step_items(a)), 8),
        steps_are_valid(a) ==> is_step_list(Some(Item::Array(crate::jobs::step_items(a))), a),
        steps_are_valid(a) && is_step_list(Some(Item::Array(crate::jobs::step_items(a))), b) ==> crate::jobs::step_items(b)
            == crate::jobs::step_items(a),
{
    let v = crate::jobs::step_items(a);
    assert forall|i: int| 0 <= i < v.len() implies cbor::is_plain(#[trigger] v[i], 7) && (
    step_is_valid(a[i]) ==> is_step(v[i], a[i])) by {
        lemma_step(a[i], a[i]);
    }
    if steps_are_valid(a) && is_step_list(Some(Item::Array(v)), b) {
        assert forall|i: int| 0 <= i < v.len() implies crate::jobs::step_item(b[i]) == crate::jobs::step_item(a[i]) by {
            assert(step_is_valid(a[i]));
            assert(is_step(v[i], b[i]));
            lemma_step(a[i], b[i]);
        }
        assert(crate::jobs::step_items(b) =~= v);
    }
}

/// Whether a document is a pipeline.
pub open spec fn is_pipeline(item: Item, v: Pipeline) -> bool {
    &&& is_step_list(cbor::field_of(item, "steps"@), v.steps@)
}

/// Reads a pipeline.
#[must_use]
pub fn read_pipeline(doc: &Cbor) -> (r: Option<Pipeline>)
    ensures
        match r {
            Some(v) => is_pipeline(doc.item(), v),
            None => forall|v: Pipeline| !is_pipeline(doc.item(), v),
        },
{
    let steps = match read_step_list(doc.field("steps")) {
        Some(x) => x,
        None => return None,
    };
    Some(Pipeline { steps })
}

/// Reading gives back what was written.
pub proof fn lemma_pipeline(v: Pipeline, w: Pipeline)
    ensures
        cbor::is_plain(crate::jobs::pipeline_item(v), 9),
        pipeline_is_valid(v) ==> is_pipeline(crate::jobs::pipeline_item(v), v),
        pipeline_is_valid(v) && is_pipeline(crate::jobs::pipeline_item(v), w) ==> crate::jobs::pipeline_item(w) == crate::jobs::pipeline_item(v),
{
    reveal_strlit("steps");
    assert("steps"@.len() == 5);
    let m = crate::jobs::pipeline_item(v)->Entries_0;
    assert(m[0] == cbor::field("steps"@, Item::Array(crate::jobs::step_items(v.steps@))));
    assert(cbor::names_differ(m));
    cbor::lemma_fields(m);
    lemma_step_list(v.steps@, w.steps@);
    assert forall|i: int| 0 <= i < m.len() implies cbor::is_plain((#[trigger] m[i]).0, 8)
        && cbor::is_plain(m[i].1, 8) by {
        if i == 0 {
        }
    }
    if pipeline_is_valid(v) && is_pipeline(crate::jobs::pipeline_item(v), w) {
        assert(crate::jobs::pipeline_item(w)->Entries_0 =~= m);
    }
}

/// Whether a field is this pipeline.
pub open spec fn is_some_pipeline(x: Option<Item>, v: Pipeline) -> bool {
    match x {
        Some(item) => is_pipeline(item, v),
        None => false,
    }
}

/// Reads a field.
#[must_use]
pub fn read_some_pipeline(x: Option<&Cbor>) -> (r: Option<Pipeline>)
    ensures
        match r {
            Some(v) => is_some_pipeline(cbor::maybe(x), v),
            None => forall|v: Pipeline| !is_some_pipeline(cbor::maybe(x), v),
        },
{
    match x {
        Some(d) => read_pipeline(d),
        None => None,
    }
}

// ── Captures ───────────────────────────────────────────────────────────────

/// The name of the kind of a capture.
pub open spec fn capture_kind_name(v: CaptureKind) -> Seq<char> {
    match v {
        CaptureKind::Stdout => "Stdout"@,
        CaptureKind::Stderr => "Stderr"@,
        CaptureKind::Artifact => "Artifact"@,
    }
}

/// The document of the kind of a capture.
pub open spec fn capture_kind_item(v: CaptureKind) -> Item {
    Item::Text(capture_kind_name(v))
}

fn capture_kind_to_cbor(v: &CaptureKind) -> (r: Cbor)
    ensures
        r.item() == capture_kind_item(*v),
{
    match v {
        CaptureKind::Stdout => cbor::text("Stdout"),
        CaptureKind::Stderr => cbor::text("Stderr"),
        CaptureKind::Artifact => cbor::text("Artifact"),
    }
}

/// Whether a document is the kind of a capture.
pub open spec fn is_capture_kind(item: Item, v: CaptureKind) -> bool {
    item == capture_kind_item(v)
}

/// Reads the kind of a capture.
#[must_use]
pub fn read_capture_kind(doc: &Cbor) -> (r: Option<CaptureKind>)
    ensures
        match r {
            Some(v) => is_capture_kind(doc.item(), v),
            None => forall|v: CaptureKind| !is_capture_kind(doc.item(), v),
        },
{
    match doc {
        Cbor::Text(s) => if text::str_eq(s.as_str(), "Stdout") {
            Some(CaptureKind::Stdout)
        } else if text::str_eq(s.as_str(), "Stderr") {
            Some(CaptureKind::Stderr)
        } else if text::str_eq(s.as_str(), "Artifact") {
            Some(CaptureKind::Artifact)
        } else {
            None
        },
        _ => None,
    }
}

proof fn lemma_capture_kind(v: CaptureKind, w: CaptureKind)
    ensures
        cbor::is_plain(capture_kind_item(v), 0),
        is_capture_kind(capture_kind_item(v), v),
        is_capture_kind(capture_kind_item(v), w) ==> capture_kind_item(w) == capture_kind_item(v),
{
}

/// Whether a field is this capture kind.
pub open spec fn is_some_capture_kind(x: Option<Item>, v: CaptureKind) -> bool {
    match x {
        Some(item) => is_capture_kind(item, v),
        None => false,
    }
}

fn read_some_capture_kind(x: Option<&Cbor>) -> (r: Option<CaptureKind>)
    ensures
        match r {
            Some(v) => is_some_capture_kind(cbor::maybe(x), v),
            None => forall|v: CaptureKind| !is_some_capture_kind(cbor::maybe(x), v),
        },
{
    match x {
        Some(d) => read_capture_kind(d),
        None => None,
    }
}

/// The document of a captured payload.
pub open spec fn captured_output_item(v: CapturedOutput) -> Item {
    Item::Entries(
        seq![
            cbor::field("step_index"@, Item::Uint(v.step_index as nat)),
            cbor::field("name"@, Item::Text(v.name@)),
            cbor::field("kind"@, capture_kind_item(v.kind)),
            cbor::field("sha256"@, cbor::byte_items(v.sha256@)),
            cbor::field("length"@, Item::Uint(v.length as nat)),
            cbor::field("bytes_inline"@, cbor::byte_items(v.bytes_inline@)),
        ],
    )
}

fn captured_output_to_cbor(v: &CapturedOutput) -> (r: Cbor)
    ensures
        r.item() == captured_output_item(*v),
{
    let rec = Record::new().with("step_index", cbor::uint(v.step_index as u64)).with("name", cbor::text(v.name.as_str())).with("kind", capture_kind_to_cbor(&v.kind)).with("sha256", cbor::bytes(v.sha256.as_slice())).with("length", cbor::uint(v.length)).with("bytes_inline", cbor::bytes(v.bytes_inline.as_slice()));
    assert(rec@ =~= captured_output_item(*v)->Entries_0);
    rec.done()
}

/// Whether a document is a captured payload.
pub open spec fn is_captured_output(item: Item, v: CapturedOutput) -> bool {
    &&& cbor::is_uint(cbor::field_of(item, "step_index"@), v.step_index as nat)
    &&& cbor::is_text(cbor::field_of(item, "name"@), v.name@)
    &&& is_some_capture_kind(cbor::field_of(item, "kind"@), v.kind)
    &&& cbor::is_bytes(cbor::field_of(item, "sha256"@), v.sha256@)
    &&& cbor::is_uint(cbor::field_of(item, "length"@), v.length as nat)
    &&& cbor::is_bytes(cbor::field_of(item, "bytes_inline"@), v.bytes_inline@)
}

/// Reads a captured payload.
#[must_use]
pub fn read_captured_output(doc: &Cbor) -> (r: Option<CapturedOutput>)
    ensures
        match r {
            Some(v) => is_captured_output(doc.item(), v),
            None => forall|v: CapturedOutput| !is_captured_output(doc.item(), v),
        },
{
    let step_index = match cbor::read_uint(doc.field("step_index"), 4_294_967_295) {
        Some(x) => x,
        None => return None,
    };
    let name = match cbor::read_text(doc.field("name")) {
        Some(x) => x,
        None => return None,
    };
    let kind = match read_some_capture_kind(doc.field("kind")) {
        Some(x) => x,
        None => return None,
    };
    let sha256 = match cbor::read_bytes32(doc.field("sha256")) {
        Some(x) => x,
        None => return None,
    };
    let length = match cbor::read_uint(doc.field("length"), u64::MAX) {
        Some(x) => x,
        None => return None,
    };
    let bytes_inline = match cbor::read_bytes(doc.field("bytes_inline")) {
        Some(x) => x,
        None => return None,
    };
    Some(CapturedOutput { step_index: step_index as u32, name, kind, sha256, length, bytes_inline })
}

#[verifier::spinoff_prover]
#[verifier::rlimit(60)]
proof fn lemma_captured_output(v: CapturedOutput, w: CapturedOutput)
    ensures
        cbor::is_plain(captured_output_item(v), 2),
        is_captured_output(captured_output_item(v), v),
        is_captured_output(captured_output_item(v), w) ==> captured_output_item(w) == captured_output_item(v),
{
    reveal_strlit("step_index");
    reveal_strlit("name");
    reveal_strlit("kind");
    reveal_strlit("sha256");
    reveal_strlit("length");
    reveal_strlit("bytes_inline");
    assert("step_index"@.len() == 10 && "name"@.len() == 4 && "kind"@.len() == 4 && "sha256"@.len() == 6);
    assert("length"@.len() == 6 && "bytes_inline"@.len() == 12);
    assert("kind"@[0] == 'k' && "length"@[0] == 'l' && "name"@[0] == 'n' && "sha256"@[0] == 's');
    let m = captured_output_item(v)->Entries_0;
    assert(m[0] == cbor::field("step_index"@, Item::Uint(v.step_index as nat)));
    assert(m[1] == cbor::field("name"@, Item::Text(v.name@)));
    assert(m[2] == cbor::field("kind"@, capture_kind_item(v.kind)));
    assert(m[3] == cbor::field("sha256"@, cbor::byte_items(v.sha256@)));
    assert(m[4] == cbor::field("length"@, Item::Uint(v.length as nat)));
    assert(m[5] == cbor::field("bytes_inline"@, cbor::byte_items(v.bytes_inline@)));
    assert(cbor::names_differ(m));
    cbor::lemma_fields(m);
    lemma_capture_kind(v.kind, w.kind);
    cbor::lemma_bytes_plain(v.sha256@);
    cbor::lemma_bytes_differ(v.sha256@, w.sha256@);
    cbor::lemma_bytes_plain(v.bytes_inline@);
    cbor::lemma_bytes_differ(v.bytes_inline@, w.bytes_inline@);
    assert forall|i: int| 0 <= i < m.len() implies cbor::is_plain((#[trigger] m[i]).0, 1)
        && cbor::is_plain(m[i].1, 1) by {
        if i == 0 {
        } else if i == 1 {
        } else if i == 2 {
        } else if i == 3 {
        } else if i == 4 {
        } else if i == 5 {
        }
    }
    if is_captured_output(captured_output_item(v), w) {
        assert(captured_output_item(w)->Entries_0 =~= m);
    }
}

/// The documents of a list: captured output.
pub open spec fn captured_output_items(v: Seq<CapturedOutput>) -> Seq<Item> {
    Seq::new(v.len(), |i: int| captured_output_item(v[i]))
}

/// Whether a field is this list: captured output.
pub open spec fn is_captured_output_list(x: Option<Item>, list: Seq<CapturedOutput>) -> bool {
    match x {
        Some(Item::Array(v)) => v.len() == list.len() && forall|i: int|
            0 <= i < v.len() ==> is_captured_output(#[trigger] v[i], list[i]),
        _ => false,
    }
}

/// Writes the document.
#[must_use]
pub fn captured_output_list_to_cbor(list: &Vec<CapturedOutput>) -> (r: Cbor)
    ensures
        r.item() == Item::Array(captured_output_items(list@)),
{
    let mut v: Vec<Cbor> = Vec::new();
    let mut i: usize = 0;
    while i < list.len()
        invariant
            i <= list.len(),
            v.len() == i,
            forall|k: int| 0 <= k < i ==> (#[trigger] v@[k]).item() == captured_output_item(list@[k]),
        decreases list.len() - i,
    {
        v.push(captured_output_to_cbor(&list[i]));
        i = i + 1;
    }
    assert(cbor::items(v@) =~= captured_output_items(list@));
    cbor::array(v)
}

/// Reads the list.
#[must_use]
pub fn read_captured_output_list(x: Option<&Cbor>) -> (r: Option<Vec<CapturedOutput>>)
    ensures
        match r {
            Some(v) => is_captured_output_list(cbor::maybe(x), v@),
            None => forall|v: Seq<CapturedOutput>| !is_captured_output_list(cbor::maybe(x), v),
        },
{
    match x {
        Some(Cbor::Array(v)) => {
            let ghost all = cbor::items(v@);
            proof {
                cbor::lemma_array_item(*v);
            }
            let mut out: Vec<CapturedOutput> = Vec::new();
            let mut i: usize = 0;
            while i < v.len()
                invariant
                    i <= v.len(),
                    all == cbor::items(v@),
                    cbor::maybe(x) == Some(Item::Array(all)),
                    out@.len() == i,
                    forall|k: int| 0 <= k < i ==> is_captured_output(#[trigger] all[k], out@[k]),
                decreases v.len() - i,
            {
                assert(all[i as int] == v@[i as int].item());
                match read_captured_output(&v[i]) {
                    Some(e) => out.push(e),
                    None => {
                        assert forall|s: Seq<CapturedOutput>| !is_captured_output_list(cbor::maybe(x), s) by {
                            assert(!is_captured_output(all[i as int], s[i as int]));
                        }
                        return None;
                    },
                }
                i = i + 1;
            }
            Some(out)
        },
        _ => None,
    }
}

/// Reading gives back what was written.
pub proof fn lemma_captured_output_list(a: Seq<CapturedOutput>, b: Seq<CapturedOutput>)
    ensures
        cbor::is_plain(Item::Array(captured_output_items(a)), 3),
        is_captured_output_list(Some(Item::Array(captured_output_items(a))), a),
        is_captured_output_list(Some(Item::Array(captured_output_items(a))), b) ==> captured_output_items(b)
            == captured_output_items(a),
{
    let v = captured_output_items(a);
    assert forall|i: int| 0 <= i < v.len() implies cbor::is_plain(#[trigger] v[i], 2) && is_captured_output(
        v[i],
        a[i],
    ) by {
        lemma_captured_output(a[i], a[i]);
    }
    if is_captured_output_list(Some(Item::Array(v)), b) {
        assert forall|i: int| 0 <= i < v.len() implies captured_output_item(b[i]) == captured_output_item(a[i]) by {
            assert(is_captured_output(v[i], b[i]));
            lemma_captured_output(a[i], b[i]);
        }
        assert(captured_output_items(b) =~= v);
    }
}

proof fn lemma_platforms_differ(a: Platform, b: Platform)
    ensures
        platform_name(a) == platform_name(b) ==> a == b,
{
    reveal_strlit("LinuxX86_64");
    reveal_strlit("LinuxAarch64");
    reveal_strlit("DarwinX86_64");
    reveal_strlit("DarwinAarch64");
    assert("LinuxX86_64"@.len() == 11 && "DarwinAarch64"@.len() == 13);
    assert("LinuxAarch64"@.len() == 12 && "LinuxAarch64"@[0] == 'L' && "DarwinX86_64"@[0] == 'D');
}

proof fn lemma_runtimes_differ(a: RuntimeSet, b: RuntimeSet)
    requires
        runtimes_item(a) == runtimes_item(b),
    ensures
        a@ == b@,
{
    reveal_strlit("Wasm");
    reveal_strlit("Firecracker");
    reveal_strlit("Docker");
    assert("Wasm"@.len() == 4 && "Firecracker"@.len() == 11 && "Docker"@.len() == 6);
    let (s, t) = (crate::capabilities::listed(a@), crate::capabilities::listed(b@));
    let (x, y) = (runtime_items(s), runtime_items(t));
    assert(x == y);
    assert(x.len() == s.len() && y.len() == t.len());
    assert forall|i: int| 0 <= i < s.len() implies s[i] == t[i] by {
        assert(x[i] == y[i]);
    }
    assert(s =~= t);
    lemma_listed(a@);
    lemma_listed(b@);
}

/// The documents of an offer and of a job's needs carry each of their parts.
pub proof fn law_offer_document_carries_every_part(
    a: Capabilities,
    b: Capabilities,
    r: JobRequirements,
    s: JobRequirements,
)
    ensures
        capabilities_item(a) == capabilities_item(b) ==> a.cpu == b.cpu && a.memory_mb
            == b.memory_mb && a.platform == b.platform && a.runtimes@ == b.runtimes@,
        requirements_item(r) == requirements_item(s) ==> r.cpu == s.cpu && r.memory_mb
            == s.memory_mb && r.platform == s.platform && r.runtimes@ == s.runtimes@,
{
    if capabilities_item(a) == capabilities_item(b) {
        let (m, n) = (capabilities_item(a)->Entries_0, capabilities_item(b)->Entries_0);
        assert(m[0].1 == n[0].1 && m[1].1 == n[1].1 && m[2].1 == n[2].1 && m[3].1 == n[3].1);
        lemma_platforms_differ(a.platform, b.platform);
        lemma_runtimes_differ(a.runtimes, b.runtimes);
    }
    if requirements_item(r) == requirements_item(s) {
        let (m, n) = (requirements_item(r)->Entries_0, requirements_item(s)->Entries_0);
        assert(m[0].1 == n[0].1 && m[1].1 == n[1].1 && m[2].1 == n[2].1 && m[3].1 == n[3].1);
        lemma_platforms_differ(r.platform, s.platform);
        lemma_runtimes_differ(r.runtimes, s.runtimes);
    }
}

proof fn lemma_hashes_differ(a: Seq<[u8; 32]>, b: Seq<[u8; 32]>)
    requires
        hash_items(a) == hash_items(b),
    ensures
        a.len() == b.len(),
        forall|i: int| 0 <= i < a.len() ==> (#[trigger] a[i])@ == b[i]@,
{
    let (x, y) = (hash_items(a), hash_items(b));
    assert(x.len() == a.len() && y.len() == b.len());
    assert forall|i: int| 0 <= i < a.len() implies (#[trigger] a[i])@ == b[i]@ by {
        assert(x[i] == y[i]);
        cbor::lemma_bytes_differ(a[i]@, b[i]@);
    }
}

/// The document of a proof carries every hash of it, in order.
pub proof fn law_proof_document_carries_every_hash(a: InclusionProof, b: InclusionProof, i: int)
    requires
        inclusion_proof_item(a) == inclusion_proof_item(b),
    ensures
        a.position == b.position,
        a.entry@ == b.entry@,
        a.length_at_proof == b.length_at_proof,
        a.proof_hashes@.len() == b.proof_hashes@.len(),
        0 <= i < a.proof_hashes@.len() ==> a.proof_hashes@[i]@ == b.proof_hashes@[i]@,
{
    let (m, n) = (inclusion_proof_item(a)->Entries_0, inclusion_proof_item(b)->Entries_0);
    assert(m[0].1 == n[0].1 && m[1].1 == n[1].1 && m[2].1 == n[2].1 && m[3].1 == n[3].1);
    cbor::lemma_bytes_differ(a.entry@, b.entry@);
    lemma_hashes_differ(a.proof_hashes@, b.proof_hashes@);
}

/// The document of a job's bundle carries every part of it, and every attestation
/// in order.
pub proof fn law_bundle_document_carries_every_part(a: JobBundle, b: JobBundle, i: int)
    requires
        job_bundle_item(a) == job_bundle_item(b),
    ensures
        a.job_id == b.job_id,
        a.pipeline_hash@ == b.pipeline_hash@,
        a.consensus_artifact@ == b.consensus_artifact@,
        inclusion_proof_item(a.merkle_proof) == inclusion_proof_item(b.merkle_proof),
        a.log_root@ == b.log_root@,
        a.log_position == b.log_position,
        a.log_length_at_anchor == b.log_length_at_anchor,
        a.committee_attestations@.len() == b.committee_attestations@.len(),
        0 <= i < a.committee_attestations@.len() ==> crate::attestation::attestation_item(
            a.committee_attestations@[i],
        ) == crate::attestation::attestation_item(b.committee_attestations@[i]),
{
    let (m, n) = (job_bundle_item(a)->Entries_0, job_bundle_item(b)->Entries_0);
    assert(m[0].1 == n[0].1 && m[1].1 == n[1].1 && m[2].1 == n[2].1 && m[3].1 == n[3].1);
    assert(m[4].1 == n[4].1 && m[5].1 == n[5].1 && m[6].1 == n[6].1 && m[7].1 == n[7].1);
    cbor::lemma_bytes_differ(a.pipeline_hash@, b.pipeline_hash@);
    cbor::lemma_bytes_differ(a.consensus_artifact@, b.consensus_artifact@);
    cbor::lemma_bytes_differ(a.log_root@, b.log_root@);
    let (x, y) = (
        attestation_items(a.committee_attestations@),
        attestation_items(b.committee_attestations@),
    );
    assert(x == y);
    assert(x.len() == a.committee_attestations@.len() && y.len()
        == b.committee_attestations@.len());
    if 0 <= i < x.len() {
        assert(x[i] == y[i]);
    }
}

/// The document of a captured output carries every part of it.
pub proof fn law_capture_document_carries_every_part(a: CapturedOutput, b: CapturedOutput)
    requires
        captured_output_item(a) == captured_output_item(b),
    ensures
        a.step_index == b.step_index,
        a.name@ == b.name@,
        a.kind == b.kind,
        a.sha256@ == b.sha256@,
        a.length == b.length,
        a.bytes_inline@ == b.bytes_inline@,
{
    reveal_strlit("Stdout");
    reveal_strlit("Stderr");
    reveal_strlit("Artifact");
    assert("Stdout"@[3] == 'o' && "Stderr"@[3] == 'e' && "Artifact"@.len() == 8);
    assert("Stdout"@.len() == 6 && "Stderr"@.len() == 6);
    let (m, n) = (captured_output_item(a)->Entries_0, captured_output_item(b)->Entries_0);
    assert(m[0].1 == n[0].1 && m[1].1 == n[1].1 && m[2].1 == n[2].1);
    assert(m[3].1 == n[3].1 && m[4].1 == n[4].1 && m[5].1 == n[5].1);
    cbor::lemma_bytes_differ(a.sha256@, b.sha256@);
    cbor::lemma_bytes_differ(a.bytes_inline@, b.bytes_inline@);
}

} // verus!
