//! From a webhook event and a manifest to the pipelines to submit.
//!
//! Each `[[pipeline]]` declares an `on = […]` list; those that name the event
//! are resolved. Manifest fields like `url = "{{ event.repository.clone_url }}"`
//! are looked up in the event along a dotted path. Only the `{{ event.* }}`
//! namespace is supported.

use crate::json;
use crate::json::{Json, JsonItem};
use crate::text;
use crate::webhook::manifest::{CosaciToml, PipelineSection, StepSection};
use vstd::prelude::*;

verus! {

/// Why a translation fails.
#[derive(Clone, Debug, PartialEq, Eq)]
pub enum TranslateError {
    /// A `{{ event.<path> }}` placeholder didn't resolve to a scalar.
    PlaceholderUnresolved {
        /// The full template.
        template: String,
        /// The dotted path that failed to resolve.
        path: String,
    },
    /// A placeholder referenced a non-`event` namespace.
    UnsupportedNamespace(String),
    /// A placeholder in a field that is taken literally.
    PlaceholderInLiteralField {
        /// Which step variant the field belongs to.
        step_kind: &'static str,
        /// Which field the placeholder was found in.
        field: &'static str,
    },
}

/// What a translation error says.
pub enum TranslateFault {
    /// A placeholder didn't resolve.
    PlaceholderUnresolved {
        /// The full template.
        template: Seq<char>,
        /// The path.
        path: Seq<char>,
    },
    /// A placeholder referenced another namespace.
    UnsupportedNamespace(Seq<char>),
    /// A placeholder in a literal field.
    PlaceholderInLiteralField {
        /// Step variant.
        step_kind: Seq<char>,
        /// Field.
        field: Seq<char>,
    },
}

impl View for TranslateError {
    type V = TranslateFault;

    open spec fn view(&self) -> TranslateFault {
        match *self {
            TranslateError::PlaceholderUnresolved { template, path } => {
                TranslateFault::PlaceholderUnresolved { template: template@, path: path@ }
            },
            TranslateError::UnsupportedNamespace(s) => TranslateFault::UnsupportedNamespace(s@),
            TranslateError::PlaceholderInLiteralField { step_kind, field } => {
                TranslateFault::PlaceholderInLiteralField { step_kind: step_kind@, field: field@ }
            },
        }
    }
}

/// A translation error in words.
pub open spec fn fault_text(e: TranslateFault) -> Seq<char> {
    match e {
        TranslateFault::PlaceholderUnresolved { template, path } => "placeholder "@ + template
            + " unresolved (path="@ + path + ")"@,
        TranslateFault::UnsupportedNamespace(ns) => "unsupported template namespace: "@ + ns,
        TranslateFault::PlaceholderInLiteralField { step_kind, field } => {
            "placeholder in literal-only field "@ + step_kind + "."@ + field
        },
    }
}

impl TranslateError {
    /// The error in words.
    #[must_use]
    pub fn message(&self) -> (r: String)
        ensures
            r@ == fault_text(self@),
    {
        match self {
            TranslateError::PlaceholderUnresolved { template, path } => {
                let mut s = "placeholder ".to_owned();
                text::append_str(&mut s, template.as_str());
                text::append_str(&mut s, " unresolved (path=");
                text::append_str(&mut s, path.as_str());
                text::append_str(&mut s, ")");
                s
            },
            TranslateError::UnsupportedNamespace(ns) => text::joined(
                "unsupported template namespace: ",
                ns.as_str(),
            ),
            TranslateError::PlaceholderInLiteralField { step_kind, field } => {
                let mut s = "placeholder in literal-only field ".to_owned();
                text::append_str(&mut s, step_kind);
                text::append_str(&mut s, ".");
                text::append_str(&mut s, field);
                s
            },
        }
    }
}

/// A step with its placeholders resolved.
#[derive(Clone, Debug, PartialEq, Eq)]
pub enum ResolvedStep {
    /// Fetch the source.
    SourceFetch {
        /// Resolved git URL.
        url: String,
        /// Resolved git reference.
        reference: String,
    },
    /// Execute a module.
    ExecWasm {
        /// Path inside the source tree to the WASM module.
        wasm_path: String,
        /// Hex-encoded CBOR args.
        args_cbor_hex: String,
    },
}

/// What a resolved step is.
pub enum StepFact {
    /// Fetch the source.
    SourceFetch {
        /// Git URL.
        url: Seq<char>,
        /// Git reference.
        reference: Seq<char>,
    },
    /// Execute a module.
    ExecWasm {
        /// Path of the module.
        wasm_path: Seq<char>,
        /// Hex-encoded CBOR args.
        args_cbor_hex: Seq<char>,
    },
}

impl View for ResolvedStep {
    type V = StepFact;

    open spec fn view(&self) -> StepFact {
        match *self {
            ResolvedStep::SourceFetch { url, reference } => StepFact::SourceFetch {
                url: url@,
                reference: reference@,
            },
            ResolvedStep::ExecWasm { wasm_path, args_cbor_hex } => StepFact::ExecWasm {
                wasm_path: wasm_path@,
                args_cbor_hex: args_cbor_hex@,
            },
        }
    }
}

/// One pipeline that the event triggers, with all placeholders resolved.
#[derive(Clone, Debug, PartialEq, Eq)]
pub struct ResolvedPipeline {
    /// Pipeline name from the manifest.
    pub name: String,
    /// Resolved steps.
    pub steps: Vec<ResolvedStep>,
}

/// What a resolved pipeline is.
pub struct PipelineFact {
    /// Name.
    pub name: Seq<char>,
    /// Steps.
    pub steps: Seq<StepFact>,
}

/// What a list of resolved steps is.
pub open spec fn step_facts(v: Seq<ResolvedStep>) -> Seq<StepFact> {
    v.map_values(|s: ResolvedStep| s@)
}

impl View for ResolvedPipeline {
    type V = PipelineFact;

    open spec fn view(&self) -> PipelineFact {
        PipelineFact { name: self.name@, steps: step_facts(self.steps@) }
    }
}

/// What a list of resolved pipelines is.
pub open spec fn pipeline_facts(v: Seq<ResolvedPipeline>) -> Seq<PipelineFact> {
    v.map_values(|p: ResolvedPipeline| p@)
}

// ── Placeholders ───────────────────────────────────────────────────────────
/// The value that a path of names leads to.
pub open spec fn walk(doc: JsonItem, names: Seq<Seq<char>>) -> Option<JsonItem>
    decreases names.len(),
{
    if names.len() == 0 {
        Some(doc)
    } else {
        match json::member(doc, names[0]) {
            Some(next) => walk(next, names.skip(1)),
            None => None,
        }
    }
}

/// The value that a dotted path leads to.
pub open spec fn path_value(doc: JsonItem, path: Seq<char>) -> Option<JsonItem> {
    walk(doc, text::split_of(path, '.'))
}

/// The value that a dotted path leads to.
#[must_use]
pub fn walk_path<'a>(root: &'a Json, path: &[char]) -> (r: Option<&'a Json>)
    ensures
        match r {
            Some(v) => path_value(root.item(), path@) == Some(v.item()),
            None => path_value(root.item(), path@) is None,
        },
{
    let names = text::split(path, '.');
    let ghost nv = text::texts(names@);
    let mut current: &'a Json = root;
    let mut i: usize = 0;
    assert(nv.skip(0) =~= nv);
    while i < names.len()
        invariant
            i <= names.len(),
            nv == text::texts(names@),
            path_value(root.item(), path@) == walk(current.item(), nv.skip(i as int)),
        decreases names.len() - i,
    {
        let name = text::string_of(names[i].as_slice());
        assert(nv.skip(i as int)[0] == names@[i as int]@);
        assert(nv.skip(i as int).skip(1) =~= nv.skip(i + 1));
        match current.get(name.as_str()) {
            Some(next) => {
                current = next;
            },
            None => return None,
        }
        i = i + 1;
    }
    assert(nv.skip(i as int).len() == 0);
    Some(current)
}

/// The text of a scalar. Objects and arrays have none, nor has `null`.
pub open spec fn scalar_text(doc: JsonItem) -> Option<Seq<char>> {
    match doc {
        JsonItem::Text(s) => Some(s),
        JsonItem::Uint(n) => Some(text::decimal_of(n)),
        JsonItem::Nint(n) => Some(text::signed_decimal_of(n)),
        JsonItem::Real(s) => Some(s),
        JsonItem::Bool(b) => if b {
            Some("true"@)
        } else {
            Some("false"@)
        },
        _ => None,
    }
}

fn text_of_scalar(doc: &Json) -> (r: Option<String>)
    ensures
        match r {
            Some(s) => scalar_text(doc.item()) == Some(s@),
            None => scalar_text(doc.item()) is None,
        },
{
    match doc {
        Json::Text(s) => Some(s.clone()),
        Json::Uint(n) => Some(text::decimal(*n)),
        Json::Nint(n) => {
            let mut s = String::new();
            text::append_signed(&mut s, *n);
            assert(s@ =~= text::signed_decimal_of(*n as int));
            Some(s)
        },
        Json::Real(s) => Some(s.clone()),
        Json::Bool(b) => if *b {
            Some("true".to_owned())
        } else {
            Some("false".to_owned())
        },
        _ => None,
    }
}

/// What stands in place of a placeholder with this inside.
pub open spec fn inner_value(inner: Seq<char>, template: Seq<char>, event: JsonItem) -> Result<
    Seq<char>,
    TranslateFault,
> {
    if !text::begins_with(inner, "event."@) {
        Err(TranslateFault::UnsupportedNamespace(inner))
    } else {
        let path = inner.skip("event."@.len() as int);
        match path_value(event, path) {
            None => Err(TranslateFault::PlaceholderUnresolved { template, path }),
            Some(v) => match scalar_text(v) {
                Some(s) => Ok(s),
                None => Err(
                    TranslateFault::PlaceholderUnresolved {
                        template,
                        path: path + " (non-scalar)"@,
                    },
                ),
            },
        }
    }
}

/// Whether a result says what it should.
pub open spec fn says(
    r: Result<String, TranslateError>,
    want: Result<Seq<char>, TranslateFault>,
) -> bool {
    match r {
        Ok(s) => want == Ok::<Seq<char>, TranslateFault>(s@),
        Err(e) => want == Err::<Seq<char>, TranslateFault>(e@),
    }
}

fn resolve_inner(inner: &[char], template: &str, event: &Json) -> (r: Result<
    String,
    TranslateError,
>)
    ensures
        says(r, inner_value(inner@, template@, event.item())),
{
    let path = match text::strip_prefix(inner, "event.") {
        Some(p) => p,
        None => return Err(TranslateError::UnsupportedNamespace(text::string_of(inner))),
    };
    match walk_path(event, path.as_slice()) {
        None => Err(
            TranslateError::PlaceholderUnresolved {
                template: template.to_owned(),
                path: text::string_of(path.as_slice()),
            },
        ),
        Some(v) => match text_of_scalar(v) {
            Some(s) => Ok(s),
            None => {
                let mut p = text::string_of(path.as_slice());
                text::append_str(&mut p, " (non-scalar)");
                Err(
                    TranslateError::PlaceholderUnresolved {
                        template: template.to_owned(),
                        path: p,
                    },
                )
            },
        },
    }
}

/// A text with every placeholder replaced, from the left; what stands in place of
/// one is not looked at again. Whitespace inside the braces does not count.
pub open spec fn resolved(t: Seq<char>, template: Seq<char>, event: JsonItem) -> Result<
    Seq<char>,
    TranslateFault,
>
    decreases t.len(),
{
    let open = text::index_of(t, "{{"@) as int;
    if open >= t.len() {
        Ok(t)
    } else {
        let after = t.skip(open + 2);
        let close = text::index_of(after, "}}"@) as int;
        if close >= after.len() {
            Err(
                TranslateFault::PlaceholderUnresolved {
                    template,
                    path: "(unterminated `{{`)"@,
                },
            )
        } else {
            match inner_value(text::trimmed(after.take(close)), template, event) {
                Err(e) => Err(e),
                Ok(v) => if after.skip(close + 2).len() < t.len() {
                    match resolved(after.skip(close + 2), template, event) {
                        Err(e) => Err(e),
                        Ok(rest) => Ok(t.take(open) + v + rest),
                    }
                } else {
                    Ok(t)
                },
            }
        }
    }
}

spec fn after_text(out: Seq<char>, r: Result<Seq<char>, TranslateFault>) -> Result<
    Seq<char>,
    TranslateFault,
> {
    match r {
        Ok(s) => Ok(out + s),
        Err(e) => Err(e),
    }
}

/// Replace every `{{ event.<dotted.path> }}` placeholder of a template.
///
/// # Errors
///
/// Where a placeholder is not closed, names another namespace, or leads to no
/// scalar.
pub fn resolve_template(template: &str, event: &Json) -> (r: Result<String, TranslateError>)
    ensures
        says(r, resolved(template@, template@, event.item())),
{
    let chars = text::chars_of(template);
    let opening = text::chars_of("{{");
    let closing = text::chars_of("}}");
    proof {
        reveal_strlit("{{");
        reveal_strlit("}}");
    }
    let mut out = String::new();
    let mut at: usize = 0;
    assert(chars@.skip(0) =~= chars@);
    assert(after_text(out@, resolved(chars@, template@, event.item())) == resolved(
        chars@,
        template@,
        event.item(),
    )) by {
        let x = resolved(chars@, template@, event.item());
        if x is Ok {
            assert(out@ + x->Ok_0 =~= x->Ok_0);
        }
    }
    loop
        invariant
            at <= chars@.len(),
            chars@ == template@,
            opening@ == "{{"@,
            closing@ == "}}"@,
            opening@.len() == 2,
            closing@.len() == 2,
            after_text(out@, resolved(chars@.skip(at as int), template@, event.item()))
                == resolved(template@, template@, event.item()),
        decreases chars@.len() - at,
    {
        let ghost rest = chars@.skip(at as int);
        let ghost held = out@;
        let tail = vstd::slice::slice_subrange(chars.as_slice(), at, chars.len());
        assert(tail@ =~= rest);
        let open: usize = text::find_text(tail, opening.as_slice());
        if open == tail.len() {
            text::append_chars(&mut out, tail);
            return Ok(out);
        }
        let before = vstd::slice::slice_subrange(tail, 0, open);
        text::append_chars(&mut out, before);
        let after = vstd::slice::slice_subrange(tail, open + 2, tail.len());
        assert(before@ =~= rest.take(open as int));
        assert(after@ =~= rest.skip(open + 2));
        let close: usize = text::find_text(after, closing.as_slice());
        if close == after.len() {
            return Err(
                TranslateError::PlaceholderUnresolved {
                    template: template.to_owned(),
                    path: "(unterminated `{{`)".to_owned(),
                },
            );
        }
        let inside = vstd::slice::slice_subrange(after, 0, close);
        assert(inside@ =~= after@.take(close as int));
        let inner = text::trim(inside);
        let value = match resolve_inner(inner.as_slice(), template, event) {
            Ok(v) => v,
            Err(e) => return Err(e),
        };
        text::append_str(&mut out, value.as_str());
        proof {
            let next = after@.skip(close + 2);
            assert(next =~= chars@.skip(at + open + 2 + close + 2));
            let x = resolved(next, template@, event.item());
            if x is Ok {
                assert(out@ + x->Ok_0 =~= held + (rest.take(open as int) + value@ + x->Ok_0));
            }
        }
        at = at + open + 2 + close + 2;
    }
}

/// A text holds a placeholder where it holds two opening braces.
pub open spec fn has_placeholder_in(s: Seq<char>) -> bool {
    text::holds(s, "{{"@)
}

fn has_placeholder(s: &str) -> (r: bool)
    ensures
        r == has_placeholder_in(s@),
{
    let chars = text::chars_of(s);
    let opening = text::chars_of("{{");
    text::contains(chars.as_slice(), opening.as_slice())
}

/// What a step resolves to. The fields of an `exec-wasm` step are literal.
pub open spec fn resolved_step(s: StepSection, event: JsonItem) -> Result<
    StepFact,
    TranslateFault,
> {
    match s {
        StepSection::SourceFetch { url, reference } => match resolved(url@, url@, event) {
            Err(e) => Err(e),
            Ok(u) => match resolved(reference@, reference@, event) {
                Err(e) => Err(e),
                Ok(r) => Ok(StepFact::SourceFetch { url: u, reference: r }),
            },
        },
        StepSection::ExecWasm { wasm_path, args_cbor_hex } => if has_placeholder_in(wasm_path@) {
            Err(
                TranslateFault::PlaceholderInLiteralField {
                    step_kind: "exec-wasm"@,
                    field: "module_path"@,
                },
            )
        } else if has_placeholder_in(args_cbor_hex@) {
            Err(
                TranslateFault::PlaceholderInLiteralField {
                    step_kind: "exec-wasm"@,
                    field: "args_cbor_hex"@,
                },
            )
        } else {
            Ok(StepFact::ExecWasm { wasm_path: wasm_path@, args_cbor_hex: args_cbor_hex@ })
        },
    }
}

fn resolve_step(step: &StepSection, event: &Json) -> (r: Result<ResolvedStep, TranslateError>)
    ensures
        match r {
            Ok(s) => resolved_step(*step, event.item()) == Ok::<StepFact, TranslateFault>(s@),
            Err(e) => resolved_step(*step, event.item()) == Err::<StepFact, TranslateFault>(e@),
        },
{
    match step {
        StepSection::SourceFetch { url, reference } => {
            let u = match resolve_template(url.as_str(), event) {
                Ok(u) => u,
                Err(e) => return Err(e),
            };
            let v = match resolve_template(reference.as_str(), event) {
                Ok(v) => v,
                Err(e) => return Err(e),
            };
            Ok(ResolvedStep::SourceFetch { url: u, reference: v })
        },
        StepSection::ExecWasm { wasm_path, args_cbor_hex } => {
            if has_placeholder(wasm_path.as_str()) {
                return Err(
                    TranslateError::PlaceholderInLiteralField {
                        step_kind: "exec-wasm",
                        field: "module_path",
                    },
                );
            }
            if has_placeholder(args_cbor_hex.as_str()) {
                return Err(
                    TranslateError::PlaceholderInLiteralField {
                        step_kind: "exec-wasm",
                        field: "args_cbor_hex",
                    },
                );
            }
            Ok(
                ResolvedStep::ExecWasm {
                    wasm_path: wasm_path.clone(),
                    args_cbor_hex: args_cbor_hex.clone(),
                },
            )
        },
    }
}

/// What steps resolve to, in order: the first fault, or all of them.
pub open spec fn resolved_steps(steps: Seq<StepSection>, event: JsonItem) -> Result<
    Seq<StepFact>,
    TranslateFault,
>
    decreases steps.len(),
{
    if steps.len() == 0 {
        Ok(Seq::empty())
    } else {
        match resolved_steps(steps.drop_last(), event) {
            Err(e) => Err(e),
            Ok(front) => match resolved_step(steps.last(), event) {
                Err(e) => Err(e),
                Ok(s) => Ok(front.push(s)),
            },
        }
    }
}

proof fn lemma_steps_fault(steps: Seq<StepSection>, event: JsonItem, n: int)
    requires
        0 <= n <= steps.len(),
        resolved_steps(steps.take(n), event) is Err,
    ensures
        resolved_steps(steps, event) == resolved_steps(steps.take(n), event),
    decreases steps.len(),
{
    if n == steps.len() {
        assert(steps.take(n) =~= steps);
    } else {
        assert(steps.drop_last().take(n) =~= steps.take(n));
        lemma_steps_fault(steps.drop_last(), event, n);
    }
}

fn resolve_pipeline(p: &PipelineSection, event: &Json) -> (r: Result<
    ResolvedPipeline,
    TranslateError,
>)
    ensures
        match r {
            Ok(v) => v@.name == p.name@ && resolved_steps(p.steps@, event.item()) == Ok::<
                Seq<StepFact>,
                TranslateFault,
            >(v@.steps),
            Err(e) => resolved_steps(p.steps@, event.item()) == Err::<
                Seq<StepFact>,
                TranslateFault,
            >(e@),
        },
{
    let mut steps: Vec<ResolvedStep> = Vec::new();
    let mut i: usize = 0;
    assert(p.steps@.take(0) =~= Seq::<StepSection>::empty());
    assert(step_facts(steps@) =~= Seq::<StepFact>::empty());
    while i < p.steps.len()
        invariant
            i <= p.steps.len(),
            resolved_steps(p.steps@.take(i as int), event.item()) == Ok::<
                Seq<StepFact>,
                TranslateFault,
            >(step_facts(steps@)),
        decreases p.steps.len() - i,
    {
        let ghost held = step_facts(steps@);
        assert(p.steps@.take(i + 1).drop_last() =~= p.steps@.take(i as int));
        match resolve_step(&p.steps[i], event) {
            Ok(s) => {
                let ghost sv = s@;
                steps.push(s);
                assert(step_facts(steps@) =~= held.push(sv));
            },
            Err(e) => {
                proof {
                    lemma_steps_fault(p.steps@, event.item(), i + 1);
                }
                return Err(e);
            },
        }
        i = i + 1;
    }
    assert(p.steps@.take(i as int) =~= p.steps@);
    Ok(ResolvedPipeline { name: p.name.clone(), steps })
}

/// Whether a pipeline triggers on an event.
pub open spec fn triggers(p: PipelineSection, event_name: Seq<char>) -> bool {
    exists|i: int| 0 <= i < p.on_events@.len() && (#[trigger] p.on_events@[i])@ == event_name
}

fn pipeline_matches(p: &PipelineSection, event_name: &str) -> (r: bool)
    ensures
        r == triggers(*p, event_name@),
{
    let mut i: usize = 0;
    while i < p.on_events.len()
        invariant
            i <= p.on_events.len(),
            forall|k: int| 0 <= k < i ==> (#[trigger] p.on_events@[k])@ != event_name@,
        decreases p.on_events.len() - i,
    {
        if text::str_eq(p.on_events[i].as_str(), event_name) {
            assert(p.on_events@[i as int]@ == event_name@);
            return true;
        }
        i = i + 1;
    }
    false
}

/// What an event makes of some pipelines: those that trigger on it, resolved, in
/// order; or the first fault.
pub open spec fn translated(
    pipelines: Seq<PipelineSection>,
    event_name: Seq<char>,
    event: JsonItem,
) -> Result<Seq<PipelineFact>, TranslateFault>
    decreases pipelines.len(),
{
    if pipelines.len() == 0 {
        Ok(Seq::empty())
    } else {
        match translated(pipelines.drop_last(), event_name, event) {
            Err(e) => Err(e),
            Ok(front) => if triggers(pipelines.last(), event_name) {
                match resolved_steps(pipelines.last().steps@, event) {
                    Err(e) => Err(e),
                    Ok(steps) => Ok(
                        front.push(PipelineFact { name: pipelines.last().name@, steps }),
                    ),
                }
            } else {
                Ok(front)
            },
        }
    }
}

proof fn lemma_translated_fault(
    pipelines: Seq<PipelineSection>,
    event_name: Seq<char>,
    event: JsonItem,
    n: int,
)
    requires
        0 <= n <= pipelines.len(),
        translated(pipelines.take(n), event_name, event) is Err,
    ensures
        translated(pipelines, event_name, event) == translated(
            pipelines.take(n),
            event_name,
            event,
        ),
    decreases pipelines.len(),
{
    if n == pipelines.len() {
        assert(pipelines.take(n) =~= pipelines);
    } else {
        assert(pipelines.drop_last().take(n) =~= pipelines.take(n));
        lemma_translated_fault(pipelines.drop_last(), event_name, event, n);
    }
}

/// Match an event against the manifest's pipelines and resolve the placeholders
/// of each match. `event_name` is `<kind>.<action>` for events with an action,
/// `<kind>` otherwise.
///
/// # Errors
///
/// Where any step of any matching pipeline does not resolve: partial output is
/// worse than none.
pub fn translate(manifest: &CosaciToml, event_name: &str, event_body: &Json) -> (r: Result<
    Vec<ResolvedPipeline>,
    TranslateError,
>)
    ensures
        match r {
            Ok(v) => translated(manifest.pipelines@, event_name@, event_body.item()) == Ok::<
                Seq<PipelineFact>,
                TranslateFault,
            >(pipeline_facts(v@)),
            Err(e) => translated(manifest.pipelines@, event_name@, event_body.item()) == Err::<
                Seq<PipelineFact>,
                TranslateFault,
            >(e@),
        },
{
    let mut out: Vec<ResolvedPipeline> = Vec::new();
    let ghost all = manifest.pipelines@;
    let mut i: usize = 0;
    assert(all.take(0) =~= Seq::<PipelineSection>::empty());
    assert(pipeline_facts(out@) =~= Seq::<PipelineFact>::empty());
    while i < manifest.pipelines.len()
        invariant
            i <= manifest.pipelines.len(),
            all == manifest.pipelines@,
            translated(all.take(i as int), event_name@, event_body.item()) == Ok::<
                Seq<PipelineFact>,
                TranslateFault,
            >(pipeline_facts(out@)),
        decreases manifest.pipelines.len() - i,
    {
        let ghost held = pipeline_facts(out@);
        assert(all.take(i + 1).drop_last() =~= all.take(i as int));
        if pipeline_matches(&manifest.pipelines[i], event_name) {
            match resolve_pipeline(&manifest.pipelines[i], event_body) {
                Ok(p) => {
                    let ghost pv = p@;
                    out.push(p);
                    assert(pipeline_facts(out@) =~= held.push(pv));
                },
                Err(e) => {
                    proof {
                        lemma_translated_fault(all, event_name@, event_body.item(), i + 1);
                    }
                    return Err(e);
                },
            }
        }
        i = i + 1;
    }
    assert(all.take(i as int) =~= all);
    Ok(out)
}

// ── Laws ───────────────────────────────────────────────────────────────────
/// A field without a placeholder is taken as it stands, whatever the event.
pub proof fn law_plain_text_is_literal(t: Seq<char>, template: Seq<char>, event: JsonItem)
    requires
        !has_placeholder_in(t),
    ensures
        resolved(t, template, event) == Ok::<Seq<char>, TranslateFault>(t),
{
    reveal_strlit("{{");
    text::lemma_index_of(t, "{{"@);
}

/// Whitespace inside the braces does not count: placeholders whose insides trim
/// to the same text resolve alike.
pub proof fn law_inner_whitespace_is_irrelevant(
    a: Seq<char>,
    b: Seq<char>,
    template: Seq<char>,
    event: JsonItem,
)
    requires
        text::trimmed(a) == text::trimmed(b),
        text::index_of(a + "}}"@, "}}"@) == a.len(),
        text::index_of(b + "}}"@, "}}"@) == b.len(),
    ensures
        resolved("{{"@ + a + "}}"@, template, event) == resolved(
            "{{"@ + b + "}}"@,
            template,
            event,
        ),
{
    lemma_single(a, template, event);
    lemma_single(b, template, event);
}

proof fn lemma_single(a: Seq<char>, template: Seq<char>, event: JsonItem)
    requires
        text::index_of(a + "}}"@, "}}"@) == a.len(),
    ensures
        resolved("{{"@ + a + "}}"@, template, event) == inner_value(
            text::trimmed(a),
            template,
            event,
        ),
{
    reveal_strlit("{{");
    reveal_strlit("}}");
    let t = "{{"@ + a + "}}"@;
    assert(t.take(2) =~= "{{"@);
    assert(text::index_of(t, "{{"@) == 0);
    let after = t.skip(2);
    assert(after =~= a + "}}"@);
    assert(after.take(a.len() as int) =~= a);
    let rest = after.skip(a.len() as int + 2);
    assert(rest =~= Seq::<char>::empty());
    assert(resolved(rest, template, event) == Ok::<Seq<char>, TranslateFault>(rest));
    match inner_value(text::trimmed(a), template, event) {
        Ok(v) => {
            assert(t.take(0) + v + rest =~= v);
        },
        Err(_) => {},
    }
}

/// A pipeline that does not name the event contributes nothing, and cannot fail
/// the translation.
pub proof fn law_other_pipelines_do_not_count(
    pipelines: Seq<PipelineSection>,
    p: PipelineSection,
    event_name: Seq<char>,
    event: JsonItem,
)
    requires
        !triggers(p, event_name),
    ensures
        translated(pipelines.push(p), event_name, event) == translated(
            pipelines,
            event_name,
            event,
        ),
{
    assert(pipelines.push(p).drop_last() =~= pipelines);
}

/// Text around placeholders is kept: in front of whatever follows, a text that
/// holds no opening braces, and does not end in half of them, stays as it is.
pub proof fn law_text_before_is_kept(
    p: Seq<char>,
    t: Seq<char>,
    template: Seq<char>,
    event: JsonItem,
)
    requires
        !has_placeholder_in(p),
        p.len() > 0 && t.len() > 0 ==> !(p.last() == '{' && t[0] == '{'),
    ensures
        resolved(p + t, template, event) == match resolved(t, template, event) {
            Ok(s) => Ok::<Seq<char>, TranslateFault>(p + s),
            Err(e) => Err(e),
        },
{
    reveal_strlit("{{");
    reveal_strlit("}}");
    let s = p + t;
    assert("{{"@ =~= seq!['{', '{']);
    text::lemma_index_behind(p, t, '{');
    text::lemma_index_of(t, "{{"@);
    let open = text::index_of(t, "{{"@) as int;
    if open < t.len() {
        let after = t.skip(open + 2);
        assert(s.skip(p.len() + open + 2) =~= after);
        let close = text::index_of(after, "}}"@) as int;
        text::lemma_index_of(after, "}}"@);
        if close < after.len() {
            match inner_value(text::trimmed(after.take(close)), template, event) {
                Ok(v) => {
                    match resolved(after.skip(close + 2), template, event) {
                        Ok(rest) => {
                            assert(s.take(p.len() + open) + v + rest =~= p + (t.take(open) + v
                                + rest));
                        },
                        Err(_) => {},
                    }
                },
                Err(_) => {},
            }
        }
    }
}

/// A placeholder is replaced by its value, and what follows it is resolved in
/// turn; a placeholder without a value is an error.
pub proof fn law_placeholder_is_replaced(
    inside: Seq<char>,
    t: Seq<char>,
    template: Seq<char>,
    event: JsonItem,
)
    requires
        !text::holds(inside, "}}"@),
        inside.len() > 0 ==> inside.last() != '}',
    ensures
        resolved("{{"@ + inside + "}}"@ + t, template, event) == match inner_value(
            text::trimmed(inside),
            template,
            event,
        ) {
            Err(e) => Err::<Seq<char>, TranslateFault>(e),
            Ok(v) => match resolved(t, template, event) {
                Ok(s) => Ok(v + s),
                Err(e) => Err(e),
            },
        },
{
    reveal_strlit("{{");
    reveal_strlit("}}");
    let s = "{{"@ + inside + "}}"@ + t;
    assert(s.take(2) =~= "{{"@);
    assert(text::index_of(s, "{{"@) == 0);
    let after = s.skip(2);
    let tail = "}}"@ + t;
    assert(after =~= inside + tail);
    assert("}}"@ =~= seq!['}', '}']);
    text::lemma_index_behind(inside, tail, '}');
    assert(tail.take(2) =~= "}}"@);
    assert(text::index_of(tail, "}}"@) == 0);
    assert(after.take(inside.len() as int) =~= inside);
    assert(after.skip(inside.len() as int + 2) =~= t);
    match inner_value(text::trimmed(inside), template, event) {
        Ok(v) => {
            match resolved(t, template, event) {
                Ok(rest) => {
                    assert(s.take(0) + v + rest =~= v + rest);
                },
                Err(_) => {},
            }
        },
        Err(_) => {},
    }
}

/// A placeholder that is never closed is an error, whatever stands before it.
pub proof fn law_open_placeholder_is_refused(
    inside: Seq<char>,
    template: Seq<char>,
    event: JsonItem,
)
    requires
        !text::holds(inside, "}}"@),
    ensures
        resolved("{{"@ + inside, template, event) is Err,
{
    reveal_strlit("{{");
    reveal_strlit("}}");
    let s = "{{"@ + inside;
    assert(s.take(2) =~= "{{"@);
    assert(text::index_of(s, "{{"@) == 0);
    assert(s.skip(2) =~= inside);
    text::law_index_is_the_first(inside, "}}"@);
}

/// The value of a placeholder is the scalar that its path leads to in the event:
/// a string as it is, a number in decimal, a truth value by its name. Nothing else
/// has a value, nor has a path outside the event.
pub proof fn law_value_comes_from_the_event(
    path: Seq<char>,
    other: Seq<char>,
    template: Seq<char>,
    event: JsonItem,
)
    requires
        !text::begins_with(other, "event."@),
    ensures
        inner_value(other, template, event) == Err::<Seq<char>, TranslateFault>(
            TranslateFault::UnsupportedNamespace(other),
        ),
        match path_value(event, path) {
            Some(JsonItem::Text(s)) => inner_value("event."@ + path, template, event) == Ok::<
                Seq<char>,
                TranslateFault,
            >(s),
            Some(JsonItem::Uint(n)) => inner_value("event."@ + path, template, event) == Ok::<
                Seq<char>,
                TranslateFault,
            >(text::decimal_of(n)),
            Some(JsonItem::Nint(n)) => inner_value("event."@ + path, template, event) == Ok::<
                Seq<char>,
                TranslateFault,
            >(text::signed_decimal_of(n)),
            Some(JsonItem::Real(s)) => inner_value("event."@ + path, template, event) == Ok::<
                Seq<char>,
                TranslateFault,
            >(s),
            Some(JsonItem::Bool(b)) => inner_value("event."@ + path, template, event) == Ok::<
                Seq<char>,
                TranslateFault,
            >(if b {
                "true"@
            } else {
                "false"@
            }),
            _ => inner_value("event."@ + path, template, event) is Err,
        },
{
    let inner = "event."@ + path;
    assert(inner.take("event."@.len() as int) =~= "event."@);
    assert(inner.skip("event."@.len() as int) =~= path);
}

/// A dotted path is followed name by name.
pub proof fn law_path_is_followed_by_name(
    doc: JsonItem,
    name: Seq<char>,
    rest: Seq<char>,
)
    requires
        !name.contains('.'),
    ensures
        path_value(doc, name) == json::member(doc, name),
        path_value(doc, name + seq!['.'] + rest) == match json::member(doc, name) {
            Some(next) => path_value(next, rest),
            None => None,
        },
{
    text::law_split_at_the_first(name, '.', rest);
    let one = seq![name];
    reveal_with_fuel(walk, 2);
    assert(one.skip(1) =~= Seq::<Seq<char>>::empty());
    let names = seq![name] + text::split_of(rest, '.');
    assert(names[0] == name);
    assert(names.skip(1) =~= text::split_of(rest, '.'));
}

/// A fetch step keeps its two fields apart: each resolves to what its own template
/// does. A module step is taken as it stands.
pub proof fn law_step_keeps_its_fields(s: StepSection, event: JsonItem)
    ensures
        match s {
            StepSection::SourceFetch { url, reference } => match (
                resolved(url@, url@, event),
                resolved(reference@, reference@, event),
            ) {
                (Ok(u), Ok(v)) => resolved_step(s, event) matches Ok(f) && (f matches
                    StepFact::SourceFetch { url: fu, reference: fr } && fu == u && fr == v),
                (Err(e), _) => resolved_step(s, event) == Err::<StepFact, TranslateFault>(e),
                (Ok(_), Err(e)) => resolved_step(s, event) == Err::<StepFact, TranslateFault>(e),
            },
            StepSection::ExecWasm { wasm_path, args_cbor_hex } => if text::holds(
                wasm_path@,
                "{{"@,
            ) || text::holds(args_cbor_hex@, "{{"@) {
                resolved_step(s, event) is Err
            } else {
                resolved_step(s, event) matches Ok(f) && (f matches StepFact::ExecWasm {
                    wasm_path: fp,
                    args_cbor_hex: fa,
                } && fp == wasm_path@ && fa == args_cbor_hex@)
            },
        },
{
}

/// Every step is resolved, in order: there are as many results as steps, each that
/// of its own step, or the first step that does not resolve says why.
pub proof fn law_every_step_is_resolved(steps: Seq<StepSection>, event: JsonItem)
    ensures
        match resolved_steps(steps, event) {
            Ok(v) => v.len() == steps.len() && forall|i: int|
                0 <= i < steps.len() ==> resolved_step(#[trigger] steps[i], event) == Ok::<
                    StepFact,
                    TranslateFault,
                >(v[i]),
            Err(e) => exists|i: int|
                {
                    &&& 0 <= i < steps.len()
                    &&& resolved_step(#[trigger] steps[i], event) == Err::<
                        StepFact,
                        TranslateFault,
                    >(e)
                    &&& resolved_steps(steps.take(i), event) is Ok
                },
        },
    decreases steps.len(),
{
    if steps.len() > 0 {
        let less = steps.drop_last();
        let n = steps.len() - 1;
        law_every_step_is_resolved(less, event);
        match resolved_steps(less, event) {
            Ok(front) => {
                match resolved_step(steps[n], event) {
                    Ok(s) => {
                        let v = front.push(s);
                        assert forall|i: int| 0 <= i < steps.len() implies resolved_step(
                            #[trigger] steps[i],
                            event,
                        ) == Ok::<StepFact, TranslateFault>(v[i]) by {
                            if i < n {
                                assert(less[i] == steps[i]);
                            }
                        }
                    },
                    Err(e) => {
                        assert(steps.take(n) =~= less);
                        assert(resolved_step(steps[n], event) is Err);
                    },
                }
            },
            Err(e) => {
                let i = choose|i: int|
                    {
                        &&& 0 <= i < less.len()
                        &&& resolved_step(#[trigger] less[i], event) == Err::<
                            StepFact,
                            TranslateFault,
                        >(e)
                        &&& resolved_steps(less.take(i), event) is Ok
                    };
                assert(steps[i] == less[i]);
                assert(steps.take(i) =~= less.take(i));
            },
        }
    }
}

/// A pipeline triggers on each event that it lists, and on no other.
pub proof fn law_listed_events_trigger(p: PipelineSection, event_name: Seq<char>, i: int)
    ensures
        0 <= i < p.on_events@.len() ==> triggers(p, p.on_events@[i]@),
        triggers(p, event_name) ==> exists|k: int|
            0 <= k < p.on_events@.len() && (#[trigger] p.on_events@[k])@ == event_name,
{
}

/// Every pipeline that triggers on the event is translated: there is one result
/// for each, under its name and with its steps resolved, in the order of the
/// manifest, and none for any other.
pub proof fn law_every_triggered_pipeline_is_translated(
    pipelines: Seq<PipelineSection>,
    event_name: Seq<char>,
    event: JsonItem,
) -> (order: Seq<int>)
    requires
        translated(pipelines, event_name, event) is Ok,
    ensures
        ({
            let v = translated(pipelines, event_name, event)->Ok_0;
            &&& order.len() == v.len()
            &&& forall|k: int|
                0 <= k < order.len() ==> {
                    &&& 0 <= #[trigger] order[k] < pipelines.len()
                    &&& v[k].name == pipelines[order[k]].name@
                    &&& resolved_steps(pipelines[order[k]].steps@, event) == Ok::<
                        Seq<StepFact>,
                        TranslateFault,
                    >(v[k].steps)
                }
        }),
        forall|k: int, l: int| 0 <= k < l < order.len() ==> order[k] < order[l],
        forall|i: int|
            0 <= i < pipelines.len() ==> (order.contains(i) <==> triggers(
                #[trigger] pipelines[i],
                event_name,
            )),
    decreases pipelines.len(),
{
    if pipelines.len() == 0 {
        Seq::empty()
    } else {
        let n = pipelines.len() - 1;
        let less = pipelines.drop_last();
        let before = law_every_triggered_pipeline_is_translated(less, event_name, event);
        let hit = triggers(pipelines[n], event_name);
        let order = if hit {
            before.push(n)
        } else {
            before
        };
        let v = translated(pipelines, event_name, event)->Ok_0;
        let front = translated(less, event_name, event)->Ok_0;
        assert forall|k: int| 0 <= k < order.len() implies {
            &&& 0 <= #[trigger] order[k] < pipelines.len()
            &&& v[k].name == pipelines[order[k]].name@
            &&& resolved_steps(pipelines[order[k]].steps@, event) == Ok::<
                Seq<StepFact>,
                TranslateFault,
            >(v[k].steps)
        } by {
            if k < before.len() {
                assert(order[k] == before[k]);
                assert(v[k] == front[k]);
                assert(less[order[k]] == pipelines[order[k]]);
            }
        }
        assert(!before.contains(n));
        assert forall|i: int| 0 <= i < pipelines.len() implies (order.contains(i) <==> triggers(
            #[trigger] pipelines[i],
            event_name,
        )) by {
            if i < n {
                assert(less[i] == pipelines[i]);
            }
            if before.contains(i) {
                let k = choose|k: int| 0 <= k < before.len() && before[k] == i;
                assert(order[k] == i);
            }
            if hit && i == n {
                assert(order[before.len() as int] == i);
            }
        }
        order
    }
}

/// A translation fails exactly if a pipeline that triggers does not resolve.
pub proof fn law_translation_fails_with_a_step(
    pipelines: Seq<PipelineSection>,
    event_name: Seq<char>,
    event: JsonItem,
)
    ensures
        translated(pipelines, event_name, event) is Err <==> exists|i: int|
            0 <= i < pipelines.len() && triggers(#[trigger] pipelines[i], event_name)
                && resolved_steps(pipelines[i].steps@, event) is Err,
    decreases pipelines.len(),
{
    if pipelines.len() > 0 {
        let n = pipelines.len() - 1;
        let less = pipelines.drop_last();
        law_translation_fails_with_a_step(less, event_name, event);
        if translated(less, event_name, event) is Err {
            let i = choose|i: int|
                0 <= i < less.len() && triggers(#[trigger] less[i], event_name) && resolved_steps(
                    less[i].steps@,
                    event,
                ) is Err;
            assert(pipelines[i] == less[i]);
        } else if exists|i: int|
            0 <= i < pipelines.len() && triggers(#[trigger] pipelines[i], event_name)
                && resolved_steps(pipelines[i].steps@, event) is Err {
            let i = choose|i: int|
                0 <= i < pipelines.len() && triggers(#[trigger] pipelines[i], event_name)
                    && resolved_steps(pipelines[i].steps@, event) is Err;
            if i < n {
                assert(less[i] == pipelines[i]);
            }
        } else if translated(pipelines, event_name, event) is Err {
            assert(triggers(pipelines[n], event_name));
        }
    }
}

} // verus!
