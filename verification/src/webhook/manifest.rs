//! `.cosaci.toml`, the pipeline manifest of a repository.
//!
//! The file declares which tenant a submission is signed under and which
//! pipelines to run for which event types.
//!
//! ```text
//! [tenant]
//! id = 42
//!
//! [[pipeline]]
//! name = "ci"
//! on   = ["pull_request.synchronize", "push"]
//!
//!   [[pipeline.step]]
//!   type      = "source-fetch"
//!   url       = "{{ event.repository.clone_url }}"
//!   reference = "{{ event.pull_request.head.sha }}"
//! ```
//!
//! Only `source-fetch` and `exec-wasm` steps parse: the parser refuses to
//! silently drop a step the executor wouldn't run.

use crate::boundary;
use crate::text;
use crate::toml_doc;
use crate::toml_doc::{Toml, TomlItem};
use vstd::prelude::*;

verus! {

/// Top-level manifest.
#[derive(Clone, Debug, PartialEq, Eq)]
pub struct CosaciToml {
    /// Tenant section: which signing identity to submit under.
    pub tenant: TenantSection,
    /// Pipelines defined by this manifest.
    pub pipelines: Vec<PipelineSection>,
}

/// `[tenant]` section.
#[derive(Clone, Debug, PartialEq, Eq)]
pub struct TenantSection {
    /// Tenant id this repo's submissions are signed under.
    pub id: u64,
}

/// One `[[pipeline]]` entry.
#[derive(Clone, Debug, PartialEq, Eq)]
pub struct PipelineSection {
    /// Operator-chosen name.
    pub name: String,
    /// Event types this pipeline triggers on.
    pub on_events: Vec<String>,
    /// Steps in pipeline order.
    pub steps: Vec<StepSection>,
}

/// One `[[pipeline.step]]` entry.
#[derive(Clone, Debug, PartialEq, Eq)]
pub enum StepSection {
    /// Fetch the source.
    SourceFetch {
        /// Git URL; may carry `{{ event.* }}` placeholders.
        url: String,
        /// Git reference (commit SHA, tag, or branch).
        reference: String,
    },
    /// Execute a module.
    ExecWasm {
        /// Path inside the source tree to the WASM module.
        wasm_path: String,
        /// Hex-encoded CBOR bytes of the `(i32, i32)` argument tuple.
        args_cbor_hex: String,
    },
}

/// Why a manifest is refused.
#[derive(Clone, Debug, PartialEq, Eq)]
pub enum ManifestError {
    /// The text is no TOML document, or holds a number that has no value.
    Toml(String),
    /// The document is not a manifest (missing required field, wrong type,
    /// unknown step type, …).
    Schema(String),
}

impl ManifestError {
    /// The error in words.
    #[must_use]
    pub fn message(&self) -> (r: String)
        ensures
            r@ == match *self {
                ManifestError::Toml(s) => "toml parse: "@ + s@,
                ManifestError::Schema(s) => "manifest schema: "@ + s@,
            },
    {
        match self {
            ManifestError::Toml(s) => text::joined("toml parse: ", s.as_str()),
            ManifestError::Schema(s) => text::joined("manifest schema: ", s.as_str()),
        }
    }
}

// ── Reading ────────────────────────────────────────────────────────────────
/// Whether a value is this text.
pub open spec fn is_text(x: Option<TomlItem>, s: Seq<char>) -> bool {
    x == Some(TomlItem::Text(s))
}

/// Whether a document is this step: a table, or an array of the type and the
/// fields in order. No number in it, under whatever key, is wider than 64 bits.
pub open spec fn is_step(doc: TomlItem, s: StepSection) -> bool {
    match s {
        StepSection::SourceFetch { url, reference } => {
            &&& toml_doc::fits(doc, 3) && toml_doc::is_narrow(doc)
            &&& is_text(toml_doc::part_of(doc, "type"@, 0), "source-fetch"@)
            &&& is_text(toml_doc::part_of(doc, "url"@, 1), url@)
            &&& is_text(toml_doc::part_of(doc, "reference"@, 2), reference@)
        },
        StepSection::ExecWasm { wasm_path, args_cbor_hex } => {
            &&& toml_doc::fits(doc, 3) && toml_doc::is_narrow(doc)
            &&& is_text(toml_doc::part_of(doc, "type"@, 0), "exec-wasm"@)
            &&& is_text(toml_doc::part_of(doc, "module_path"@, 1), wasm_path@)
            &&& is_text(toml_doc::part_of(doc, "args_cbor_hex"@, 2), args_cbor_hex@)
        },
    }
}

/// Whether a value is these steps; a missing one is no steps.
pub open spec fn is_steps(x: Option<TomlItem>, steps: Seq<StepSection>) -> bool {
    match x {
        None => steps.len() == 0,
        Some(TomlItem::Array(v)) => v.len() == steps.len() && forall|i: int|
            0 <= i < v.len() ==> is_step(#[trigger] v[i], steps[i]),
        Some(_) => false,
    }
}

/// Whether a value is these event names; a missing one is none.
pub open spec fn is_events(x: Option<TomlItem>, names: Seq<String>) -> bool {
    match x {
        None => names.len() == 0,
        Some(TomlItem::Array(v)) => v.len() == names.len() && forall|i: int|
            0 <= i < v.len() ==> #[trigger] v[i] == TomlItem::Text(names[i]@),
        Some(_) => false,
    }
}

/// Whether a document is this pipeline: a table, or an array that starts with the
/// name, the events and the steps.
pub open spec fn is_pipeline(doc: TomlItem, p: PipelineSection) -> bool {
    &&& is_text(toml_doc::part_of(doc, "name"@, 0), p.name@)
    &&& is_events(toml_doc::part_of(doc, "on"@, 1), p.on_events@)
    &&& is_steps(toml_doc::part_of(doc, "step"@, 2), p.steps@)
}

/// Whether a value is these pipelines; a missing one is none.
pub open spec fn is_pipelines(x: Option<TomlItem>, pipelines: Seq<PipelineSection>) -> bool {
    match x {
        None => pipelines.len() == 0,
        Some(TomlItem::Array(v)) => v.len() == pipelines.len() && forall|i: int|
            0 <= i < v.len() ==> is_pipeline(#[trigger] v[i], pipelines[i]),
        Some(_) => false,
    }
}

/// The tenant id of a document; the tenant is a table, or an array that starts
/// with the id.
pub open spec fn tenant_at(doc: TomlItem) -> Option<TomlItem> {
    match toml_doc::value_at(doc, "tenant"@) {
        Some(t) => toml_doc::part_of(t, "id"@, 0),
        None => None,
    }
}

/// Whether a document is this manifest.
pub open spec fn is_manifest(doc: TomlItem, m: CosaciToml) -> bool {
    &&& tenant_at(doc) matches Some(TomlItem::Integer(n)) && n == m.tenant.id
    &&& is_pipelines(toml_doc::value_at(doc, "pipeline"@), m.pipelines@)
}

/// Whether a document names a tenant.
pub open spec fn names_tenant(doc: TomlItem) -> bool {
    tenant_at(doc) matches Some(TomlItem::Integer(n)) && 0 <= n <= u64::MAX
}

/// The type of a step, if it is a text that names no type.
pub open spec fn unknown_type(doc: TomlItem) -> Option<Seq<char>> {
    match toml_doc::part_of(doc, "type"@, 0) {
        Some(TomlItem::Text(s)) => if s == "source-fetch"@ || s == "exec-wasm"@ {
            None
        } else {
            Some(s)
        },
        _ => None,
    }
}

/// The first type in a list of steps that is unknown.
pub open spec fn first_unknown(steps: Seq<TomlItem>) -> Option<Seq<char>>
    decreases steps.len(),
{
    if steps.len() == 0 {
        None
    } else {
        match unknown_type(steps[0]) {
            Some(s) => Some(s),
            None => first_unknown(steps.skip(1)),
        }
    }
}

/// The elements of an array; none of anything else.
pub open spec fn elements(x: Option<TomlItem>) -> Seq<TomlItem> {
    match x {
        Some(TomlItem::Array(v)) => v,
        _ => Seq::empty(),
    }
}

/// The first type in a list of pipelines that is unknown.
pub open spec fn first_unknown_of(pipelines: Seq<TomlItem>) -> Option<Seq<char>>
    decreases pipelines.len(),
{
    if pipelines.len() == 0 {
        None
    } else {
        match first_unknown(elements(toml_doc::part_of(pipelines[0], "step"@, 2))) {
            Some(s) => Some(s),
            None => first_unknown_of(pipelines.skip(1)),
        }
    }
}

/// What is said of a document that is no manifest: the first step type that is
/// unknown, or the part that is at fault.
pub open spec fn schema_fault(doc: TomlItem) -> Seq<char> {
    match first_unknown_of(elements(toml_doc::value_at(doc, "pipeline"@))) {
        Some(s) => "unknown variant `"@ + s + "`, expected `source-fetch` or `exec-wasm`"@,
        None => if names_tenant(doc) {
            "invalid `pipeline`"@
        } else {
            "missing or invalid `tenant.id`"@
        },
    }
}

proof fn lemma_type_names()
    ensures
        "source-fetch"@ != "exec-wasm"@,
{
    reveal_strlit("source-fetch");
    reveal_strlit("exec-wasm");
    assert("source-fetch"@.len() == 12 && "exec-wasm"@.len() == 9);
}

fn read_text(doc: &Toml, key: &str, place: usize) -> (r: Option<String>)
    ensures
        match r {
            Some(s) => is_text(toml_doc::part_of(doc.item(), key@, place as int), s@),
            None => forall|s: Seq<char>|
                !is_text(toml_doc::part_of(doc.item(), key@, place as int), s),
        },
{
    match doc.part(key, place) {
        Some(Toml::Text(s)) => Some(s.clone()),
        _ => None,
    }
}

fn read_step(doc: &Toml) -> (r: Option<StepSection>)
    ensures
        match r {
            Some(s) => is_step(doc.item(), s),
            None => forall|s: StepSection| !is_step(doc.item(), s),
        },
{
    proof {
        lemma_type_names();
    }
    if !doc.fits(3) || !doc.is_narrow() {
        return None;
    }
    let kind = match read_text(doc, "type", 0) {
        Some(k) => k,
        None => return None,
    };
    if text::str_eq(kind.as_str(), "source-fetch") {
        match (read_text(doc, "url", 1), read_text(doc, "reference", 2)) {
            (Some(url), Some(reference)) => Some(StepSection::SourceFetch { url, reference }),
            _ => None,
        }
    } else if text::str_eq(kind.as_str(), "exec-wasm") {
        match (read_text(doc, "module_path", 1), read_text(doc, "args_cbor_hex", 2)) {
            (Some(wasm_path), Some(args_cbor_hex)) => Some(
                StepSection::ExecWasm { wasm_path, args_cbor_hex },
            ),
            _ => None,
        }
    } else {
        None
    }
}

fn read_steps(x: Option<&Toml>) -> (r: Option<Vec<StepSection>>)
    ensures
        match r {
            Some(s) => is_steps(toml_doc::maybe(x), s@),
            None => forall|s: Seq<StepSection>| !is_steps(toml_doc::maybe(x), s),
        },
{
    match x {
        None => Some(Vec::new()),
        Some(Toml::Array(v)) => {
            let ghost all = toml_doc::items(v@);
            proof {
                toml_doc::lemma_array_item(*v);
            }
            let mut out: Vec<StepSection> = Vec::new();
            let mut i: usize = 0;
            while i < v.len()
                invariant
                    i <= v.len(),
                    all == toml_doc::items(v@),
                    toml_doc::maybe(x) == Some(TomlItem::Array(all)),
                    out@.len() == i,
                    forall|k: int| 0 <= k < i ==> is_step(#[trigger] all[k], out@[k]),
                decreases v.len() - i,
            {
                assert(all[i as int] == v@[i as int].item());
                match read_step(&v[i]) {
                    Some(s) => out.push(s),
                    None => {
                        assert forall|s: Seq<StepSection>| !is_steps(toml_doc::maybe(x), s) by {
                            assert(!is_step(all[i as int], s[i as int]));
                        }
                        return None;
                    },
                }
                i = i + 1;
            }
            Some(out)
        },
        Some(_) => None,
    }
}

fn read_events(x: Option<&Toml>) -> (r: Option<Vec<String>>)
    ensures
        match r {
            Some(s) => is_events(toml_doc::maybe(x), s@),
            None => forall|s: Seq<String>| !is_events(toml_doc::maybe(x), s),
        },
{
    match x {
        None => Some(Vec::new()),
        Some(Toml::Array(v)) => {
            let ghost all = toml_doc::items(v@);
            proof {
                toml_doc::lemma_array_item(*v);
            }
            let mut out: Vec<String> = Vec::new();
            let mut i: usize = 0;
            while i < v.len()
                invariant
                    i <= v.len(),
                    all == toml_doc::items(v@),
                    toml_doc::maybe(x) == Some(TomlItem::Array(all)),
                    out@.len() == i,
                    forall|k: int| 0 <= k < i ==> #[trigger] all[k] == TomlItem::Text(out@[k]@),
                decreases v.len() - i,
            {
                assert(all[i as int] == v@[i as int].item());
                match &v[i] {
                    Toml::Text(s) => out.push(s.clone()),
                    _ => {
                        assert forall|s: Seq<String>| !is_events(toml_doc::maybe(x), s) by {
                            assert(all[i as int] != TomlItem::Text(s[i as int]@));
                        }
                        return None;
                    },
                }
                i = i + 1;
            }
            Some(out)
        },
        Some(_) => None,
    }
}

fn read_pipeline(doc: &Toml) -> (r: Option<PipelineSection>)
    ensures
        match r {
            Some(p) => is_pipeline(doc.item(), p),
            None => forall|p: PipelineSection| !is_pipeline(doc.item(), p),
        },
{
    match (
        read_text(doc, "name", 0),
        read_events(doc.part("on", 1)),
        read_steps(doc.part("step", 2)),
    ) {
        (Some(name), Some(on_events), Some(steps)) => Some(
            PipelineSection { name, on_events, steps },
        ),
        _ => None,
    }
}

fn read_pipelines(x: Option<&Toml>) -> (r: Option<Vec<PipelineSection>>)
    ensures
        match r {
            Some(p) => is_pipelines(toml_doc::maybe(x), p@),
            None => forall|p: Seq<PipelineSection>| !is_pipelines(toml_doc::maybe(x), p),
        },
{
    match x {
        None => Some(Vec::new()),
        Some(Toml::Array(v)) => {
            let ghost all = toml_doc::items(v@);
            proof {
                toml_doc::lemma_array_item(*v);
            }
            let mut out: Vec<PipelineSection> = Vec::new();
            let mut i: usize = 0;
            while i < v.len()
                invariant
                    i <= v.len(),
                    all == toml_doc::items(v@),
                    toml_doc::maybe(x) == Some(TomlItem::Array(all)),
                    out@.len() == i,
                    forall|k: int| 0 <= k < i ==> is_pipeline(#[trigger] all[k], out@[k]),
                decreases v.len() - i,
            {
                assert(all[i as int] == v@[i as int].item());
                match read_pipeline(&v[i]) {
                    Some(p) => out.push(p),
                    None => {
                        assert forall|p: Seq<PipelineSection>|
                            !is_pipelines(toml_doc::maybe(x), p) by {
                            assert(!is_pipeline(all[i as int], p[i as int]));
                        }
                        return None;
                    },
                }
                i = i + 1;
            }
            Some(out)
        },
        Some(_) => None,
    }
}

fn unknown_type_of(doc: &Toml) -> (r: Option<String>)
    ensures
        match r {
            Some(s) => unknown_type(doc.item()) == Some(s@),
            None => unknown_type(doc.item()) is None,
        },
{
    match doc.part("type", 0) {
        Some(Toml::Text(s)) => if text::str_eq(s.as_str(), "source-fetch") || text::str_eq(
            s.as_str(),
            "exec-wasm",
        ) {
            None
        } else {
            Some(s.clone())
        },
        _ => None,
    }
}

fn find_unknown(x: Option<&Toml>) -> (r: Option<String>)
    ensures
        match r {
            Some(s) => first_unknown(elements(toml_doc::maybe(x))) == Some(s@),
            None => first_unknown(elements(toml_doc::maybe(x))) is None,
        },
{
    match x {
        Some(Toml::Array(v)) => {
            let ghost all = toml_doc::items(v@);
            proof {
                toml_doc::lemma_array_item(*v);
                assert(all.skip(0) =~= all);
            }
            let mut i: usize = 0;
            while i < v.len()
                invariant
                    i <= v.len(),
                    all == toml_doc::items(v@),
                    first_unknown(all) == first_unknown(all.skip(i as int)),
                    elements(toml_doc::maybe(x)) == all,
                decreases v.len() - i,
            {
                let ghost rest = all.skip(i as int);
                assert(rest[0] == v@[i as int].item());
                assert(rest.skip(1) =~= all.skip(i + 1));
                if let Some(s) = unknown_type_of(&v[i]) {
                    return Some(s);
                }
                i = i + 1;
            }
            assert(all.skip(i as int).len() == 0);
            None
        },
        _ => None,
    }
}

fn find_unknown_in(x: Option<&Toml>) -> (r: Option<String>)
    ensures
        match r {
            Some(s) => first_unknown_of(elements(toml_doc::maybe(x))) == Some(s@),
            None => first_unknown_of(elements(toml_doc::maybe(x))) is None,
        },
{
    match x {
        Some(Toml::Array(v)) => {
            let ghost all = toml_doc::items(v@);
            proof {
                toml_doc::lemma_array_item(*v);
                assert(all.skip(0) =~= all);
            }
            let mut i: usize = 0;
            while i < v.len()
                invariant
                    i <= v.len(),
                    all == toml_doc::items(v@),
                    first_unknown_of(all) == first_unknown_of(all.skip(i as int)),
                    elements(toml_doc::maybe(x)) == all,
                decreases v.len() - i,
            {
                let ghost rest = all.skip(i as int);
                assert(rest[0] == v@[i as int].item());
                assert(rest.skip(1) =~= all.skip(i + 1));
                if let Some(s) = find_unknown(v[i].part("step", 2)) {
                    return Some(s);
                }
                i = i + 1;
            }
            assert(all.skip(i as int).len() == 0);
            None
        },
        _ => None,
    }
}

fn read_tenant(doc: &Toml) -> (r: Option<u64>)
    ensures
        match r {
            Some(id) => tenant_at(doc.item()) == Some(TomlItem::Integer(id as int)),
            None => !names_tenant(doc.item()),
        },
{
    match doc.get("tenant") {
        Some(t) => match t.part("id", 0) {
            Some(Toml::Integer(n)) => if *n >= 0 && *n <= u64::MAX as i128 {
                Some(*n as u64)
            } else {
                None
            },
            _ => None,
        },
        None => None,
    }
}

fn fault_in(doc: &Toml) -> (r: String)
    ensures
        r@ == schema_fault(doc.item()),
{
    match find_unknown_in(doc.get("pipeline")) {
        Some(s) => text::joined(
            text::joined("unknown variant `", s.as_str()).as_str(),
            "`, expected `source-fetch` or `exec-wasm`",
        ),
        None => match read_tenant(doc) {
            Some(_) => "invalid `pipeline`".to_owned(),
            None => "missing or invalid `tenant.id`".to_owned(),
        },
    }
}

/// The manifest that a document is.
///
/// # Errors
///
/// Where it is none, with the part that is at fault.
pub fn manifest_of(doc: &Toml) -> (r: Result<CosaciToml, String>)
    ensures
        match r {
            Ok(m) => is_manifest(doc.item(), m),
            Err(e) => (forall|m: CosaciToml| !is_manifest(doc.item(), m)) && e@ == schema_fault(
                doc.item(),
            ),
        },
{
    match (read_tenant(doc), read_pipelines(doc.get("pipeline"))) {
        (Some(id), Some(pipelines)) => Ok(CosaciToml { tenant: TenantSection { id }, pipelines }),
        _ => Err(fault_in(doc)),
    }
}

/// The document that a text writes, or the message that says why it cannot be
/// read.
pub open spec fn document_of(text: Seq<char>) -> Result<TomlItem, Seq<char>> {
    match boundary::toml_text::toml_fault_of(text) {
        Some(cause) => Err(cause),
        None => boundary::toml_text::toml_of(text),
    }
}

/// Parse a `.cosaci.toml` document.
///
/// # Errors
///
/// `Toml` where the text is no TOML document or holds a number that has no
/// value; `Schema` where it is one but fields are missing or have the wrong
/// type, or a step has an unknown type.
pub fn parse_manifest(input: &str) -> (r: Result<CosaciToml, ManifestError>)
    ensures
        match document_of(input@) {
            Err(cause) => r matches Err(ManifestError::Toml(s)) && s@ == cause,
            Ok(doc) => match r {
                Ok(m) => is_manifest(doc, m),
                Err(e) => {
                    &&& forall|m: CosaciToml| !is_manifest(doc, m)
                    &&& e matches ManifestError::Schema(s) && s@ == schema_fault(doc)
                },
            },
        },
{
    if let Some(e) = boundary::toml_text::fault(input) {
        return Err(ManifestError::Toml(e));
    }
    match boundary::toml_text::parse(input) {
        Err(e) => Err(ManifestError::Toml(e)),
        Ok(doc) => match manifest_of(&doc) {
            Ok(m) => Ok(m),
            Err(e) => Err(ManifestError::Schema(e)),
        },
    }
}

// ── Writing ────────────────────────────────────────────────────────────────
/// The document of a step.
pub open spec fn step_doc(s: StepSection) -> TomlItem {
    match s {
        StepSection::SourceFetch { url, reference } => TomlItem::Table(
            seq![
                ("type"@, TomlItem::Text("source-fetch"@)),
                ("url"@, TomlItem::Text(url@)),
                ("reference"@, TomlItem::Text(reference@)),
            ],
        ),
        StepSection::ExecWasm { wasm_path, args_cbor_hex } => TomlItem::Table(
            seq![
                ("type"@, TomlItem::Text("exec-wasm"@)),
                ("module_path"@, TomlItem::Text(wasm_path@)),
                ("args_cbor_hex"@, TomlItem::Text(args_cbor_hex@)),
            ],
        ),
    }
}

/// The document of a pipeline.
pub open spec fn pipeline_doc(p: PipelineSection) -> TomlItem {
    TomlItem::Table(
        seq![
            ("name"@, TomlItem::Text(p.name@)),
            (
                "on"@,
                TomlItem::Array(
                    Seq::new(p.on_events@.len(), |i: int| TomlItem::Text(p.on_events@[i]@)),
                ),
            ),
            (
                "step"@,
                TomlItem::Array(Seq::new(p.steps@.len(), |i: int| step_doc(p.steps@[i]))),
            ),
        ],
    )
}

/// The `tenant` entry of a manifest.
pub open spec fn tenant_entry(m: CosaciToml) -> (Seq<char>, TomlItem) {
    ("tenant"@, TomlItem::Table(seq![("id"@, TomlItem::Integer(m.tenant.id as int))]))
}

/// The `pipeline` entry of a manifest.
pub open spec fn pipeline_entry(m: CosaciToml) -> (Seq<char>, TomlItem) {
    (
        "pipeline"@,
        TomlItem::Array(Seq::new(m.pipelines@.len(), |i: int| pipeline_doc(m.pipelines@[i]))),
    )
}

/// The document of a manifest: the tenant, then the pipelines. Where there is no
/// pipeline, the empty array goes first, as a value does.
pub open spec fn manifest_doc(m: CosaciToml) -> TomlItem {
    if m.pipelines@.len() == 0 {
        TomlItem::Table(seq![pipeline_entry(m), tenant_entry(m)])
    } else {
        TomlItem::Table(seq![tenant_entry(m), pipeline_entry(m)])
    }
}

fn entry(list: &mut Vec<(String, Toml)>, key: &str, value: Toml)
    ensures
        toml_doc::entries(final(list)@) == toml_doc::entries(old(list)@).push(
            (key@, value.item()),
        ),
{
    let ghost before = toml_doc::entries(list@);
    list.push((key.to_owned(), value));
    assert(toml_doc::entries(list@) =~= before.push((key@, value.item())));
}

fn table(list: Vec<(String, Toml)>) -> (r: Toml)
    ensures
        r.item() == TomlItem::Table(toml_doc::entries(list@)),
{
    proof {
        toml_doc::lemma_table_item(list);
    }
    Toml::Table(list)
}

fn write_step(s: &StepSection) -> (r: Toml)
    ensures
        r.item() == step_doc(*s),
{
    let mut list: Vec<(String, Toml)> = Vec::new();
    match s {
        StepSection::SourceFetch { url, reference } => {
            entry(&mut list, "type", Toml::Text("source-fetch".to_owned()));
            entry(&mut list, "url", Toml::Text(url.clone()));
            entry(&mut list, "reference", Toml::Text(reference.clone()));
        },
        StepSection::ExecWasm { wasm_path, args_cbor_hex } => {
            entry(&mut list, "type", Toml::Text("exec-wasm".to_owned()));
            entry(&mut list, "module_path", Toml::Text(wasm_path.clone()));
            entry(&mut list, "args_cbor_hex", Toml::Text(args_cbor_hex.clone()));
        },
    }
    assert(toml_doc::entries(list@) =~= step_doc(*s)->Table_0);
    table(list)
}

fn write_pipeline(p: &PipelineSection) -> (r: Toml)
    ensures
        r.item() == pipeline_doc(*p),
{
    let mut names: Vec<Toml> = Vec::new();
    let mut i: usize = 0;
    while i < p.on_events.len()
        invariant
            i <= p.on_events.len(),
            names@.len() == i,
            forall|k: int|
                0 <= k < i ==> (#[trigger] names@[k]).item() == TomlItem::Text(p.on_events@[k]@),
        decreases p.on_events.len() - i,
    {
        names.push(Toml::Text(p.on_events[i].clone()));
        i = i + 1;
    }
    let mut steps: Vec<Toml> = Vec::new();
    let mut j: usize = 0;
    while j < p.steps.len()
        invariant
            j <= p.steps.len(),
            steps@.len() == j,
            forall|k: int| 0 <= k < j ==> (#[trigger] steps@[k]).item() == step_doc(p.steps@[k]),
        decreases p.steps.len() - j,
    {
        steps.push(write_step(&p.steps[j]));
        j = j + 1;
    }
    proof {
        toml_doc::lemma_array_item(names);
        toml_doc::lemma_array_item(steps);
        assert(toml_doc::items(names@) =~= pipeline_doc(*p)->Table_0[1].1->Array_0);
        assert(toml_doc::items(steps@) =~= pipeline_doc(*p)->Table_0[2].1->Array_0);
    }
    let mut list: Vec<(String, Toml)> = Vec::new();
    entry(&mut list, "name", Toml::Text(p.name.clone()));
    entry(&mut list, "on", Toml::Array(names));
    entry(&mut list, "step", Toml::Array(steps));
    assert(toml_doc::entries(list@) =~= pipeline_doc(*p)->Table_0);
    table(list)
}

/// Write a manifest as TOML.
///
/// # Errors
///
/// Where the tenant id is too large for a TOML integer.
pub fn emit_manifest(manifest: &CosaciToml) -> (r: Result<String, ManifestError>)
    ensures
        match r {
            Ok(s) => manifest.tenant.id <= i64::MAX && s@ == boundary::toml_text::toml_text_of(
                manifest_doc(*manifest),
            ) && document_of(s@) == Ok::<TomlItem, Seq<char>>(manifest_doc(*manifest)),
            Err(e) => manifest.tenant.id > i64::MAX && (e matches ManifestError::Toml(s) && s@
                == "out-of-range value for u64 type"@),
        },
{
    if manifest.tenant.id > 0x7fff_ffff_ffff_ffff {
        return Err(ManifestError::Toml("out-of-range value for u64 type".to_owned()));
    }
    let mut pipelines: Vec<Toml> = Vec::new();
    let mut i: usize = 0;
    while i < manifest.pipelines.len()
        invariant
            i <= manifest.pipelines.len(),
            pipelines@.len() == i,
            forall|k: int|
                0 <= k < i ==> (#[trigger] pipelines@[k]).item() == pipeline_doc(
                    manifest.pipelines@[k],
                ),
        decreases manifest.pipelines.len() - i,
    {
        pipelines.push(write_pipeline(&manifest.pipelines[i]));
        i = i + 1;
    }
    let mut tenant: Vec<(String, Toml)> = Vec::new();
    entry(&mut tenant, "id", Toml::Integer(manifest.tenant.id as i128));
    proof {
        toml_doc::lemma_array_item(pipelines);
        assert(toml_doc::items(pipelines@) =~= pipeline_entry(*manifest).1->Array_0);
        assert(toml_doc::entries(tenant@) =~= tenant_entry(*manifest).1->Table_0);
    }
    let mut list: Vec<(String, Toml)> = Vec::new();
    if manifest.pipelines.len() == 0 {
        entry(&mut list, "pipeline", Toml::Array(pipelines));
        entry(&mut list, "tenant", table(tenant));
    } else {
        entry(&mut list, "tenant", table(tenant));
        entry(&mut list, "pipeline", Toml::Array(pipelines));
    }
    assert(toml_doc::entries(list@) =~= manifest_doc(*manifest)->Table_0);
    let doc = table(list);
    proof {
        lemma_manifest_doc_is_laid_out(*manifest);
    }
    Ok(boundary::toml_text::print(&doc))
}

// ── Laws ───────────────────────────────────────────────────────────────────
proof fn lemma_keys()
    ensures
        "pipeline"@ != "tenant"@,
        "name"@ != "on"@ && "name"@ != "step"@ && "on"@ != "step"@,
        "reference"@ != "type"@ && "reference"@ != "url"@ && "type"@ != "url"@,
        "args_cbor_hex"@ != "module_path"@ && "args_cbor_hex"@ != "type"@ && "module_path"@
            != "type"@,
{
    reveal_strlit("pipeline");
    reveal_strlit("tenant");
    reveal_strlit("name");
    reveal_strlit("on");
    reveal_strlit("step");
    reveal_strlit("reference");
    reveal_strlit("type");
    reveal_strlit("url");
    reveal_strlit("args_cbor_hex");
    reveal_strlit("module_path");
    assert("pipeline"@[0] == 'p' && "tenant"@[0] == 't' && "name"@[0] == 'n' && "on"@[0] == 'o'
        && "step"@[0] == 's' && "reference"@[0] == 'r' && "type"@[0] == 't' && "url"@[0] == 'u'
        && "args_cbor_hex"@[0] == 'a' && "module_path"@[0] == 'm');
}

proof fn lemma_manifest_doc_is_laid_out(m: CosaciToml)
    requires
        m.tenant.id <= i64::MAX,
    ensures
        toml_doc::is_laid_out(manifest_doc(m), 8),
{
    lemma_keys();
    let pipelines = pipeline_entry(m).1->Array_0;
    assert forall|i: int| 0 <= i < pipelines.len() implies toml_doc::is_laid_out(
        #[trigger] pipelines[i],
        6,
    ) by {
        let p = m.pipelines@[i];
        assert(pipelines[i] == pipeline_doc(p));
        let t = pipeline_doc(p)->Table_0;
        let names = t[1].1->Array_0;
        let steps = t[2].1->Array_0;
        assert forall|k: int| 0 <= k < names.len() implies toml_doc::is_laid_out(
            #[trigger] names[k],
            4,
        ) by {}
        assert forall|k: int| 0 <= k < steps.len() implies toml_doc::is_laid_out(
            #[trigger] steps[k],
            4,
        ) by {
            assert(steps[k] == step_doc(p.steps@[k]));
            let e = step_doc(p.steps@[k])->Table_0;
            assert(toml_doc::keys_differ(e));
            assert forall|j: int| 0 <= j < e.len() implies !toml_doc::has_header(
                (#[trigger] e[j]).1,
            ) && toml_doc::is_laid_out(e[j].1, 3) by {}
        }
        assert(toml_doc::is_laid_out(t[0].1, 5));
        assert(toml_doc::is_laid_out(t[1].1, 5));
        assert(toml_doc::is_laid_out(t[2].1, 5));
        assert(!toml_doc::has_header(t[0].1));
        assert(!toml_doc::has_header(t[1].1)) by {
            if names.len() > 0 {
                assert(!(names[0] is Table));
            }
        }
        assert(toml_doc::keys_differ(t));
        assert(toml_doc::values_first(t));
    }
    let t = manifest_doc(m)->Table_0;
    assert(toml_doc::is_laid_out(pipeline_entry(m).1, 7));
    let id = tenant_entry(m).1->Table_0;
    assert(toml_doc::is_laid_out(id[0].1, 6));
    assert(toml_doc::keys_differ(id));
    assert(toml_doc::values_first(id));
    assert(toml_doc::is_laid_out(tenant_entry(m).1, 7));
    assert(toml_doc::has_header(pipeline_entry(m).1) <==> m.pipelines@.len() > 0) by {
        assert forall|i: int| 0 <= i < pipelines.len() implies (#[trigger] pipelines[i]) is Table by {
            assert(pipelines[i] == pipeline_doc(m.pipelines@[i]));
        }
    }
    assert(toml_doc::keys_differ(t));
    assert(toml_doc::values_first(t));
}

proof fn lemma_step(s: StepSection, w: StepSection)
    ensures
        is_step(step_doc(s), s),
        is_step(step_doc(s), w) ==> step_doc(w) == step_doc(s),
{
    lemma_keys();
    lemma_type_names();
    let m = step_doc(s)->Table_0;
    toml_doc::lemma_texts_narrow(m);
    toml_doc::lemma_entry_at(m, m[0].0, 0);
    toml_doc::lemma_entry_at(m, m[1].0, 1);
    toml_doc::lemma_entry_at(m, m[2].0, 2);
}

proof fn lemma_pipeline(p: PipelineSection, w: PipelineSection)
    ensures
        is_pipeline(pipeline_doc(p), p),
        is_pipeline(pipeline_doc(p), w) ==> pipeline_doc(w) == pipeline_doc(p),
{
    lemma_keys();
    let m = pipeline_doc(p)->Table_0;
    toml_doc::lemma_entry_at(m, m[0].0, 0);
    toml_doc::lemma_entry_at(m, m[1].0, 1);
    toml_doc::lemma_entry_at(m, m[2].0, 2);
    let names = m[1].1->Array_0;
    let steps = m[2].1->Array_0;
    assert forall|i: int| 0 <= i < steps.len() implies is_step(
        #[trigger] steps[i],
        p.steps@[i],
    ) by {
        lemma_step(p.steps@[i], p.steps@[i]);
    }
    if is_pipeline(pipeline_doc(p), w) {
        let n = pipeline_doc(w)->Table_0;
        assert forall|i: int| 0 <= i < steps.len() implies step_doc(p.steps@[i]) == step_doc(
            w.steps@[i],
        ) by {
            assert(is_step(steps[i], w.steps@[i]));
            lemma_step(p.steps@[i], w.steps@[i]);
        }
        assert forall|i: int| 0 <= i < names.len() implies p.on_events@[i]@ == w.on_events@[i]@ by {
            assert(names[i] == TomlItem::Text(w.on_events@[i]@));
        }
        assert(n[1].1->Array_0 =~= names);
        assert(n[2].1->Array_0 =~= steps);
        assert(n =~= m);
    }
}

/// Writing and reading a manifest gives the manifest back: what was written for
/// `m` reads as `m`, and as nothing that would be written otherwise.
pub proof fn law_manifest_round_trip(m: CosaciToml, w: CosaciToml)
    requires
        m.tenant.id <= i64::MAX,
    ensures
        is_manifest(manifest_doc(m), m),
        is_manifest(manifest_doc(m), w) ==> manifest_doc(w) == manifest_doc(m),
{
    lemma_keys();
    let t = manifest_doc(m)->Table_0;
    toml_doc::lemma_entry_at(t, t[0].0, 0);
    toml_doc::lemma_entry_at(t, t[1].0, 1);
    let id = tenant_entry(m).1->Table_0;
    toml_doc::lemma_entry_at(id, "id"@, 0);
    let pipelines = pipeline_entry(m).1->Array_0;
    assert(toml_doc::value_at(manifest_doc(m), "pipeline"@) == Some(pipeline_entry(m).1));
    assert(toml_doc::value_at(manifest_doc(m), "tenant"@) == Some(tenant_entry(m).1));
    assert forall|i: int| 0 <= i < pipelines.len() implies is_pipeline(
        #[trigger] pipelines[i],
        m.pipelines@[i],
    ) by {
        lemma_pipeline(m.pipelines@[i], m.pipelines@[i]);
    }
    if is_manifest(manifest_doc(m), w) {
        let u = manifest_doc(w)->Table_0;
        assert forall|i: int| 0 <= i < pipelines.len() implies pipeline_doc(m.pipelines@[i])
            == pipeline_doc(w.pipelines@[i]) by {
            assert(is_pipeline(pipelines[i], w.pipelines@[i]));
            lemma_pipeline(m.pipelines@[i], w.pipelines@[i]);
        }
        assert(pipeline_entry(w).1->Array_0 =~= pipelines);
        assert(tenant_entry(w).1->Table_0 =~= id);
        assert(u =~= t);
    }
}

/// The document of a manifest carries the tenant, and of every pipeline its name,
/// its events and its steps, in order.
pub proof fn law_manifest_document_carries_everything(
    m: CosaciToml,
    w: CosaciToml,
    i: int,
    j: int,
)
    requires
        manifest_doc(m) == manifest_doc(w),
    ensures
        m.tenant.id == w.tenant.id,
        m.pipelines@.len() == w.pipelines@.len(),
        0 <= i < m.pipelines@.len() ==> {
            let (p, q) = (m.pipelines@[i], w.pipelines@[i]);
            &&& p.name@ == q.name@
            &&& p.on_events@.len() == q.on_events@.len()
            &&& 0 <= j < p.on_events@.len() ==> p.on_events@[j]@ == q.on_events@[j]@
            &&& p.steps@.len() == q.steps@.len()
            &&& 0 <= j < p.steps@.len() ==> match (p.steps@[j], q.steps@[j]) {
                (
                    StepSection::SourceFetch { url: u, reference: r },
                    StepSection::SourceFetch { url, reference },
                ) => u@ == url@ && r@ == reference@,
                (
                    StepSection::ExecWasm { wasm_path: p, args_cbor_hex: x },
                    StepSection::ExecWasm { wasm_path, args_cbor_hex },
                ) => p@ == wasm_path@ && x@ == args_cbor_hex@,
                _ => false,
            }
        },
{
    reveal_strlit("tenant");
    reveal_strlit("pipeline");
    assert("tenant"@.len() == 6 && "pipeline"@.len() == 8);
    let (x, y) = (manifest_doc(m)->Table_0, manifest_doc(w)->Table_0);
    assert(x == y);
    assert(x[0] == y[0] && x[1] == y[1]);
    assert(tenant_entry(m) == tenant_entry(w));
    assert(pipeline_entry(m) == pipeline_entry(w));
    let (s, t) = (tenant_entry(m).1->Table_0, tenant_entry(w).1->Table_0);
    assert(s[0] == t[0]);
    let (a, b) = (pipeline_entry(m).1->Array_0, pipeline_entry(w).1->Array_0);
    assert(a == b);
    assert(a.len() == m.pipelines@.len() && b.len() == w.pipelines@.len());
    if 0 <= i < m.pipelines@.len() {
        assert(a[i] == b[i]);
        lemma_pipelines_differ(m.pipelines@[i], w.pipelines@[i], j);
    }
}

proof fn lemma_pipelines_differ(p: PipelineSection, q: PipelineSection, j: int)
    requires
        pipeline_doc(p) == pipeline_doc(q),
    ensures
        p.name@ == q.name@,
        p.on_events@.len() == q.on_events@.len(),
        0 <= j < p.on_events@.len() ==> p.on_events@[j]@ == q.on_events@[j]@,
        p.steps@.len() == q.steps@.len(),
        0 <= j < p.steps@.len() ==> match (p.steps@[j], q.steps@[j]) {
            (
                StepSection::SourceFetch { url: u, reference: r },
                StepSection::SourceFetch { url, reference },
            ) => u@ == url@ && r@ == reference@,
            (
                StepSection::ExecWasm { wasm_path: p, args_cbor_hex: x },
                StepSection::ExecWasm { wasm_path, args_cbor_hex },
            ) => p@ == wasm_path@ && x@ == args_cbor_hex@,
            _ => false,
        },
{
    let (x, y) = (pipeline_doc(p)->Table_0, pipeline_doc(q)->Table_0);
    assert(x[0].1 == y[0].1 && x[1].1 == y[1].1 && x[2].1 == y[2].1);
    let (e, f) = (x[1].1->Array_0, y[1].1->Array_0);
    assert(e.len() == p.on_events@.len() && f.len() == q.on_events@.len());
    if 0 <= j < p.on_events@.len() {
        assert(e[j] == f[j]);
    }
    let (s, t) = (x[2].1->Array_0, y[2].1->Array_0);
    assert(s.len() == p.steps@.len() && t.len() == q.steps@.len());
    if 0 <= j < p.steps@.len() {
        assert(s[j] == t[j]);
        let (g, h) = (step_doc(p.steps@[j])->Table_0, step_doc(q.steps@[j])->Table_0);
        assert(g[0].1 == h[0].1 && g[1].1 == h[1].1 && g[2].1 == h[2].1);
        reveal_strlit("source-fetch");
        reveal_strlit("exec-wasm");
        assert("source-fetch"@.len() == 12 && "exec-wasm"@.len() == 9);
    }
}

/// The first step whose type is neither of the two is the one that is named.
pub proof fn law_first_unknown_type_is_named(
    before: Seq<TomlItem>,
    step: TomlItem,
    behind: Seq<TomlItem>,
    name: Seq<char>,
)
    requires
        forall|i: int|
            0 <= i < before.len() ==> (toml_doc::part_of(#[trigger] before[i], "type"@, 0) == Some(
                TomlItem::Text("source-fetch"@),
            ) || toml_doc::part_of(before[i], "type"@, 0) == Some(TomlItem::Text("exec-wasm"@))),
        toml_doc::part_of(step, "type"@, 0) == Some(TomlItem::Text(name)),
        name != "source-fetch"@,
        name != "exec-wasm"@,
    ensures
        first_unknown(before) is None,
        first_unknown(before + seq![step] + behind) == Some(name),
    decreases before.len(),
{
    let all = before + seq![step] + behind;
    if before.len() > 0 {
        let less = before.skip(1);
        assert forall|i: int| 0 <= i < less.len() implies (toml_doc::part_of(
            #[trigger] less[i],
            "type"@,
            0,
        ) == Some(TomlItem::Text("source-fetch"@)) || toml_doc::part_of(less[i], "type"@, 0)
            == Some(TomlItem::Text("exec-wasm"@))) by {
            assert(less[i] == before[i + 1]);
        }
        law_first_unknown_type_is_named(less, step, behind, name);
        assert(all.skip(1) =~= less + seq![step] + behind);
        assert(all[0] == before[0]);
    } else {
        assert(all[0] == step);
    }
}

} // verus!
