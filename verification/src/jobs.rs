//! Typed job pipelines.
//!
//! A [`Pipeline`] is the unit of work the coordinator dispatches to a committee.
//! It is a sequence of [`Step`]s, executed in order. The agent produces a
//! [`PipelineResult`] whose `final_artifact_hash` is the attestation's
//! `artifact_hash`.
//!
//! # Determinism contract
//!
//! Two runners executing the same pipeline against the same source state must
//! produce byte-equal results. [`PipelineRun`] takes what the executors of the
//! steps observed and decides, from that alone, what each step comes to.

use crate::boundary;
use crate::cbor;
use crate::cbor::{Cbor, Item, Record};
use crate::env_map::EnvMap;
use crate::network::{EgressDefault, EgressTarget, NetworkPolicy, Scheme};
use crate::source_fetch;
use crate::source_fetch::{SourceFetchError, SourceFetchOutput};
use crate::text;
use crate::wasm_runtime;
use crate::wasm_runtime::{ExecLimitKind, ExecLimits, ExecOutcome};
use vstd::prelude::*;

verus! {

/// Fuel units per CPU second of WASM execution. One fuel unit is about one
/// instruction.
pub const FUEL_PER_CPU_SECOND: u64 = 1_000_000_000;

/// Resource limits enforced per step. Zero means unlimited.
#[derive(Clone, Debug, PartialEq, Eq)]
pub struct Limits {
    /// CPU-time limit in seconds. `0` means unlimited (default).
    pub cpu_seconds: u32,
    /// Resident memory limit in MiB. `0` means unlimited (default).
    pub memory_mb: u32,
    /// Wall-clock limit in seconds. `0` means unlimited (default).
    pub wall_seconds: u32,
    /// Network egress policy. Default is "deny everything".
    pub network: NetworkPolicy,
}

impl Default for Limits {
    fn default() -> (r: Self)
        ensures
            r.cpu_seconds == 0,
            r.memory_mb == 0,
            r.wall_seconds == 0,
            r.network@ == crate::network::denies_all(),
    {
        Limits { cpu_seconds: 0, memory_mb: 0, wall_seconds: 0, network: NetworkPolicy::default() }
    }
}

/// A single pipeline step. The variant determines the executor.
#[derive(Clone, Debug, PartialEq, Eq)]
pub enum Step {
    /// Fetch source code from a git URL at a specific reference.
    SourceFetch {
        /// Git repository URL (https or ssh).
        url: String,
        /// Reference: commit SHA, tag, or branch name.
        reference: String,
    },
    /// Execute a WASM module with CBOR-encoded args.
    ExecWasm {
        /// The `.wasm` module bytes.
        module: Vec<u8>,
        /// CBOR-encoded `(i32, i32)` argument tuple.
        args_cbor: Vec<u8>,
        /// Resource limits for this step.
        limits: Limits,
    },
    /// Execute a native command with a fixed argv and environment.
    ExecNative {
        /// Command and arguments. `command[0]` is the executable.
        command: Vec<String>,
        /// Environment variables for the child process, in the order of their
        /// names so that the encoding is deterministic.
        env: EnvMap,
        /// Resource limits for this step.
        limits: Limits,
    },
    /// Capture logs from a previous step into the artifact bundle.
    CaptureLog {
        /// Logical name the captured log appears under in the
        /// artifact bundle.
        name: String,
    },
    /// Capture a file artifact produced by a previous step.
    CaptureArtifact {
        /// Filesystem path (relative to the step's working directory).
        path: String,
        /// Logical name the artifact appears under in the bundle.
        name: String,
    },
}

/// One pipeline = an ordered list of steps. Empty pipelines are valid.
#[derive(Clone, Debug, PartialEq, Eq)]
pub struct Pipeline {
    /// Ordered step list.
    pub steps: Vec<Step>,
}

/// Identifies which resource limit a step exceeded.
#[derive(Clone, Copy, Debug, PartialEq, Eq, Structural)]
pub enum LimitKind {
    /// CPU-time budget exhausted.
    Cpu,
    /// Memory budget exhausted.
    Memory,
    /// Wall-clock deadline reached.
    Wall,
    /// Network egress attempted against a denied policy.
    Network,
}

/// Terminal state of a step.
#[derive(Clone, Copy, Debug, PartialEq, Eq, Structural)]
pub enum StepStatus {
    /// Step completed normally.
    Success,
    /// Step ran but exited with a non-zero status / Err result.
    Failed,
    /// Step exceeded a resource limit.
    LimitExceeded {
        /// Which limit was breached.
        which: LimitKind,
    },
    /// Step type's executor is not available. Distinct from `Failed` so the
    /// coordinator can tell "the step ran and failed" from "the step couldn't
    /// run at all".
    NotImplemented,
}

/// Result of one step's execution.
#[derive(Clone, Copy, Debug, PartialEq, Eq)]
pub struct StepOutput {
    /// 0-indexed position of this step in the source pipeline.
    pub step_index: u32,
    /// Final state of the step.
    pub status: StepStatus,
    /// Content hash of the step's observable output.
    pub output_hash: [u8; 32],
}

/// Kind of capture in a [`CapturedOutput`].
#[derive(Clone, Copy, Debug, PartialEq, Eq, Structural)]
pub enum CaptureKind {
    /// Captured stdout from a `Step::ExecNative`.
    Stdout,
    /// Captured stderr from a `Step::ExecNative`.
    Stderr,
    /// Captured file artifact.
    Artifact,
}

/// One captured payload. The bytes travel alongside the signed attestation.
#[derive(Clone, Debug, PartialEq, Eq)]
pub struct CapturedOutput {
    /// 0-indexed position of the capture step itself in the pipeline.
    pub step_index: u32,
    /// Operator-chosen handle from the step's `name` field;
    /// stdout/stderr captures append `.stdout`/`.stderr`.
    pub name: String,
    /// What kind of bytes this carries.
    pub kind: CaptureKind,
    /// SHA-256 of the captured bytes.
    pub sha256: [u8; 32],
    /// Length of the captured output.
    pub length: u64,
    /// Captured bytes.
    pub bytes_inline: Vec<u8>,
}

/// Aggregate output of an entire pipeline run.
#[derive(Clone, Debug, PartialEq, Eq)]
pub struct PipelineResult {
    /// Per-step outputs, in pipeline order.
    pub steps: Vec<StepOutput>,
    /// SHA-256 of the canonical encoding of `steps`. Two runners producing
    /// different per-step output hashes produce different values, so committee
    /// disagreement surfaces at the quorum layer.
    pub final_artifact_hash: [u8; 32],
    /// Captures emitted by capture steps. Not part of `final_artifact_hash`.
    pub captures: Vec<CapturedOutput>,
}

/// Discriminant of [`Step`] used in error reporting.
#[derive(Clone, Copy, Debug, PartialEq, Eq, Structural)]
pub enum StepKind {
    /// `Step::SourceFetch`
    SourceFetch,
    /// `Step::ExecWasm`
    ExecWasm,
    /// `Step::ExecNative`
    ExecNative,
    /// `Step::CaptureLog`
    CaptureLog,
    /// `Step::CaptureArtifact`
    CaptureArtifact,
}

/// Errors the pipeline executor can return.
#[derive(Clone, Debug, PartialEq, Eq)]
pub enum PipelineError {
    /// CBOR encode/decode failure on a step's args or output.
    Encoding {
        /// Step index that produced the encoding error.
        step_index: u32,
        /// Human-readable detail.
        detail: String,
    },
    /// Underlying WASM runtime returned an error.
    WasmRuntime {
        /// Step index.
        step_index: u32,
        /// Detail from the runtime.
        detail: String,
    },
    /// The step type has no executor.
    StepNotImplemented {
        /// Step index.
        step_index: u32,
        /// Step kind that's not executable.
        kind: StepKind,
    },
}

// ── Encoding ───────────────────────────────────────────────────────────────
/// The name of a scheme.
pub open spec fn scheme_name(s: Scheme) -> Seq<char> {
    match s {
        Scheme::Http => "Http"@,
        Scheme::Https => "Https"@,
        Scheme::Tcp => "Tcp"@,
    }
}

/// The name of a default.
pub open spec fn default_name(d: EgressDefault) -> Seq<char> {
    match d {
        EgressDefault::Deny => "Deny"@,
        EgressDefault::Audit => "Audit"@,
    }
}

/// The document of an allowlist entry.
pub open spec fn target_item(t: EgressTarget) -> Item {
    match t {
        EgressTarget::Host { hostname, port, scheme } => cbor::choice(
            "Host"@,
            Item::Entries(
                seq![
                    cbor::field("hostname"@, Item::Text(hostname@)),
                    cbor::field("port"@, Item::Uint(port as nat)),
                    cbor::field("scheme"@, Item::Text(scheme_name(scheme))),
                ],
            ),
        ),
        EgressTarget::Cidr { cidr, port_range_start, port_range_end } => cbor::choice(
            "Cidr"@,
            Item::Entries(
                seq![
                    cbor::field("cidr"@, Item::Text(cidr@)),
                    cbor::field("port_range_start"@, Item::Uint(port_range_start as nat)),
                    cbor::field("port_range_end"@, Item::Uint(port_range_end as nat)),
                ],
            ),
        ),
    }
}

/// The documents of a list of allowlist entries.
pub open spec fn target_items(v: Seq<EgressTarget>) -> Seq<Item> {
    Seq::new(v.len(), |i: int| target_item(v[i]))
}

/// The document of a policy.
pub open spec fn policy_item(p: NetworkPolicy) -> Item {
    Item::Entries(
        seq![
            cbor::field("allow"@, Item::Array(target_items(p.allow@))),
            cbor::field("default"@, Item::Text(default_name(p.default))),
        ],
    )
}

/// The document of limits.
pub open spec fn limits_item(l: Limits) -> Item {
    Item::Entries(
        seq![
            cbor::field("cpu_seconds"@, Item::Uint(l.cpu_seconds as nat)),
            cbor::field("memory_mb"@, Item::Uint(l.memory_mb as nat)),
            cbor::field("wall_seconds"@, Item::Uint(l.wall_seconds as nat)),
            cbor::field("network"@, policy_item(l.network)),
        ],
    )
}

/// The documents of a list of strings.
pub open spec fn string_items(v: Seq<String>) -> Seq<Item> {
    Seq::new(v.len(), |i: int| Item::Text(v[i]@))
}

/// The document of environment variables: a map, in the order of the names.
pub open spec fn env_item(s: Seq<(Seq<char>, Seq<char>)>) -> Item {
    Item::Entries(Seq::new(s.len(), |i: int| (Item::Text(s[i].0), Item::Text(s[i].1))))
}

/// The document of a step.
pub open spec fn step_item(s: Step) -> Item {
    match s {
        Step::SourceFetch { url, reference } => cbor::choice(
            "SourceFetch"@,
            Item::Entries(
                seq![
                    cbor::field("url"@, Item::Text(url@)),
                    cbor::field("reference"@, Item::Text(reference@)),
                ],
            ),
        ),
        Step::ExecWasm { module, args_cbor, limits } => cbor::choice(
            "ExecWasm"@,
            Item::Entries(
                seq![
                    cbor::field("module"@, cbor::byte_items(module@)),
                    cbor::field("args_cbor"@, cbor::byte_items(args_cbor@)),
                    cbor::field("limits"@, limits_item(limits)),
                ],
            ),
        ),
        Step::ExecNative { command, env, limits } => cbor::choice(
            "ExecNative"@,
            Item::Entries(
                seq![
                    cbor::field("command"@, Item::Array(string_items(command@))),
                    cbor::field("env"@, env_item(env.list())),
                    cbor::field("limits"@, limits_item(limits)),
                ],
            ),
        ),
        Step::CaptureLog { name } => cbor::choice(
            "CaptureLog"@,
            Item::Entries(seq![cbor::field("name"@, Item::Text(name@))]),
        ),
        Step::CaptureArtifact { path, name } => cbor::choice(
            "CaptureArtifact"@,
            Item::Entries(
                seq![
                    cbor::field("path"@, Item::Text(path@)),
                    cbor::field("name"@, Item::Text(name@)),
                ],
            ),
        ),
    }
}

/// The documents of a list of steps.
pub open spec fn step_items(v: Seq<Step>) -> Seq<Item> {
    Seq::new(v.len(), |i: int| step_item(v[i]))
}

/// The document of a pipeline.
pub open spec fn pipeline_item(p: Pipeline) -> Item {
    Item::Entries(seq![cbor::field("steps"@, Item::Array(step_items(p.steps@)))])
}

/// The name of a limit.
pub open spec fn limit_name(k: LimitKind) -> Seq<char> {
    match k {
        LimitKind::Cpu => "Cpu"@,
        LimitKind::Memory => "Memory"@,
        LimitKind::Wall => "Wall"@,
        LimitKind::Network => "Network"@,
    }
}

/// The document of a status.
pub open spec fn status_item(s: StepStatus) -> Item {
    match s {
        StepStatus::Success => Item::Text("Success"@),
        StepStatus::Failed => Item::Text("Failed"@),
        StepStatus::LimitExceeded { which } => cbor::choice(
            "LimitExceeded"@,
            Item::Entries(seq![cbor::field("which"@, Item::Text(limit_name(which)))]),
        ),
        StepStatus::NotImplemented => Item::Text("NotImplemented"@),
    }
}

/// The document of a step's output.
pub open spec fn output_item(o: StepOutput) -> Item {
    Item::Entries(
        seq![
            cbor::field("step_index"@, Item::Uint(o.step_index as nat)),
            cbor::field("status"@, status_item(o.status)),
            cbor::field("output_hash"@, cbor::byte_items(o.output_hash@)),
        ],
    )
}

/// The documents of a list of outputs.
pub open spec fn output_items(v: Seq<StepOutput>) -> Seq<Item> {
    Seq::new(v.len(), |i: int| output_item(v[i]))
}

fn name_of_scheme(s: Scheme) -> (r: &'static str)
    ensures
        r@ == scheme_name(s),
{
    match s {
        Scheme::Http => "Http",
        Scheme::Https => "Https",
        Scheme::Tcp => "Tcp",
    }
}

fn name_of_limit(k: LimitKind) -> (r: &'static str)
    ensures
        r@ == limit_name(k),
{
    match k {
        LimitKind::Cpu => "Cpu",
        LimitKind::Memory => "Memory",
        LimitKind::Wall => "Wall",
        LimitKind::Network => "Network",
    }
}

fn target_to_cbor(t: &EgressTarget) -> (r: Cbor)
    ensures
        r.item() == target_item(*t),
{
    match t {
        EgressTarget::Host { hostname, port, scheme } => {
            let rec = Record::new().with("hostname", cbor::text(hostname.as_str())).with(
                "port",
                cbor::uint(*port as u64),
            ).with("scheme", cbor::text(name_of_scheme(*scheme)));
            assert(rec@ =~= target_item(*t)->Entries_0[0].1->Entries_0);
            cbor::choose_one("Host", rec.done())
        },
        EgressTarget::Cidr { cidr, port_range_start, port_range_end } => {
            let rec = Record::new().with("cidr", cbor::text(cidr.as_str())).with(
                "port_range_start",
                cbor::uint(*port_range_start as u64),
            ).with("port_range_end", cbor::uint(*port_range_end as u64));
            assert(rec@ =~= target_item(*t)->Entries_0[0].1->Entries_0);
            cbor::choose_one("Cidr", rec.done())
        },
    }
}

fn policy_to_cbor(p: &NetworkPolicy) -> (r: Cbor)
    ensures
        r.item() == policy_item(*p),
{
    let mut v: Vec<Cbor> = Vec::new();
    let mut i: usize = 0;
    while i < p.allow.len()
        invariant
            i <= p.allow.len(),
            v.len() == i,
            forall|k: int| 0 <= k < i ==> (#[trigger] v@[k]).item() == target_item(p.allow@[k]),
        decreases p.allow.len() - i,
    {
        v.push(target_to_cbor(&p.allow[i]));
        i = i + 1;
    }
    assert(cbor::items(v@) =~= target_items(p.allow@));
    let name = match p.default {
        EgressDefault::Deny => "Deny",
        EgressDefault::Audit => "Audit",
    };
    let rec = Record::new().with("allow", cbor::array(v)).with("default", cbor::text(name));
    assert(rec@ =~= policy_item(*p)->Entries_0);
    rec.done()
}

fn limits_to_cbor(l: &Limits) -> (r: Cbor)
    ensures
        r.item() == limits_item(*l),
{
    let rec = Record::new().with("cpu_seconds", cbor::uint(l.cpu_seconds as u64)).with(
        "memory_mb",
        cbor::uint(l.memory_mb as u64),
    ).with("wall_seconds", cbor::uint(l.wall_seconds as u64)).with(
        "network",
        policy_to_cbor(&l.network),
    );
    assert(rec@ =~= limits_item(*l)->Entries_0);
    rec.done()
}

fn strings_to_cbor(list: &Vec<String>) -> (r: Cbor)
    ensures
        r.item() == Item::Array(string_items(list@)),
{
    let mut v: Vec<Cbor> = Vec::new();
    let mut i: usize = 0;
    while i < list.len()
        invariant
            i <= list.len(),
            v.len() == i,
            forall|k: int| 0 <= k < i ==> (#[trigger] v@[k]).item() == Item::Text(list@[k]@),
        decreases list.len() - i,
    {
        v.push(cbor::text(list[i].as_str()));
        i = i + 1;
    }
    assert(cbor::items(v@) =~= string_items(list@));
    cbor::array(v)
}

fn env_to_cbor(env: &EnvMap) -> (r: Cbor)
    ensures
        r.item() == env_item(env.list()),
{
    let mut rec = Record::new();
    let ghost all = env_item(env.list())->Entries_0;
    let mut i: usize = 0;
    assert(all.take(0) =~= Seq::<(Item, Item)>::empty());
    while i < env.len()
        invariant
            i <= env.list().len(),
            all == env_item(env.list())->Entries_0,
            rec@ == all.take(i as int),
        decreases env.list().len() - i,
    {
        let e = env.at(i);
        rec = rec.with(e.0.as_str(), cbor::text(e.1.as_str()));
        assert(rec@ =~= all.take(i + 1));
        i = i + 1;
    }
    assert(all.take(i as int) =~= all);
    rec.done()
}

/// The document of a step.
#[must_use]
pub fn step_to_cbor(s: &Step) -> (r: Cbor)
    ensures
        r.item() == step_item(*s),
{
    let ghost inner = step_item(*s)->Entries_0[0].1->Entries_0;
    match s {
        Step::SourceFetch { url, reference } => {
            let rec = Record::new().with("url", cbor::text(url.as_str())).with(
                "reference",
                cbor::text(reference.as_str()),
            );
            assert(rec@ =~= inner);
            cbor::choose_one("SourceFetch", rec.done())
        },
        Step::ExecWasm { module, args_cbor, limits } => {
            let rec = Record::new().with("module", cbor::bytes(module.as_slice())).with(
                "args_cbor",
                cbor::bytes(args_cbor.as_slice()),
            ).with("limits", limits_to_cbor(limits));
            assert(rec@ =~= inner);
            cbor::choose_one("ExecWasm", rec.done())
        },
        Step::ExecNative { command, env, limits } => {
            let rec = Record::new().with("command", strings_to_cbor(command)).with(
                "env",
                env_to_cbor(env),
            ).with("limits", limits_to_cbor(limits));
            assert(rec@ =~= inner);
            cbor::choose_one("ExecNative", rec.done())
        },
        Step::CaptureLog { name } => {
            let rec = Record::new().with("name", cbor::text(name.as_str()));
            assert(rec@ =~= inner);
            cbor::choose_one("CaptureLog", rec.done())
        },
        Step::CaptureArtifact { path, name } => {
            let rec = Record::new().with("path", cbor::text(path.as_str())).with(
                "name",
                cbor::text(name.as_str()),
            );
            assert(rec@ =~= inner);
            cbor::choose_one("CaptureArtifact", rec.done())
        },
    }
}

/// The document of a pipeline.
#[must_use]
pub fn pipeline_to_cbor(p: &Pipeline) -> (r: Cbor)
    ensures
        r.item() == pipeline_item(*p),
{
    let mut v: Vec<Cbor> = Vec::new();
    let mut i: usize = 0;
    while i < p.steps.len()
        invariant
            i <= p.steps.len(),
            v.len() == i,
            forall|k: int| 0 <= k < i ==> (#[trigger] v@[k]).item() == step_item(p.steps@[k]),
        decreases p.steps.len() - i,
    {
        v.push(step_to_cbor(&p.steps[i]));
        i = i + 1;
    }
    assert(cbor::items(v@) =~= step_items(p.steps@));
    let rec = Record::new().with("steps", cbor::array(v));
    assert(rec@ =~= pipeline_item(*p)->Entries_0);
    rec.done()
}

fn status_to_cbor(s: StepStatus) -> (r: Cbor)
    ensures
        r.item() == status_item(s),
{
    match s {
        StepStatus::Success => cbor::text("Success"),
        StepStatus::Failed => cbor::text("Failed"),
        StepStatus::NotImplemented => cbor::text("NotImplemented"),
        StepStatus::LimitExceeded { which } => {
            let rec = Record::new().with("which", cbor::text(name_of_limit(which)));
            assert(rec@ =~= status_item(s)->Entries_0[0].1->Entries_0);
            cbor::choose_one("LimitExceeded", rec.done())
        },
    }
}

fn outputs_to_cbor(list: &Vec<StepOutput>) -> (r: Cbor)
    ensures
        r.item() == Item::Array(output_items(list@)),
{
    let mut v: Vec<Cbor> = Vec::new();
    let mut i: usize = 0;
    while i < list.len()
        invariant
            i <= list.len(),
            v.len() == i,
            forall|k: int| 0 <= k < i ==> (#[trigger] v@[k]).item() == output_item(list@[k]),
        decreases list.len() - i,
    {
        let o: StepOutput = list[i];
        let rec = Record::new().with("step_index", cbor::uint(o.step_index as u64)).with(
            "status",
            status_to_cbor(o.status),
        ).with("output_hash", cbor::bytes(o.output_hash.as_slice()));
        assert(rec@ =~= output_item(o)->Entries_0);
        v.push(rec.done());
        i = i + 1;
    }
    assert(cbor::items(v@) =~= output_items(list@));
    cbor::array(v)
}

/// SHA-256 of the encoding of a document.
pub open spec fn canonical_hash(item: Item) -> Seq<u8> {
    boundary::sha::sha256_of(boundary::cbor::encoding_of(item))
}

/// SHA-256 of the CBOR encoding of a document that can be encoded.
#[must_use]
pub fn hash_canonical(doc: &Cbor) -> (r: [u8; 32])
    requires
        cbor::is_encodable(doc.item(), 64),
    ensures
        r@ == canonical_hash(doc.item()),
{
    let buf = boundary::cbor::encode(doc);
    boundary::sha::sha256(buf.as_slice())
}

/// A list that starts with a step and goes on with texts, numbers and bytes can
/// be encoded.
proof fn lemma_bound_step_is_encodable(step: Step, v: Seq<Item>)
    requires
        v.len() > 0,
        v[0] == step_item(step),
        forall|i: int|
            1 <= i < v.len() ==> (#[trigger] v[i]) is Text || v[i] is Uint || v[i] is Nint || (
            exists|b: Seq<u8>| v[i] == #[trigger] cbor::byte_items(b)),
    ensures
        cbor::is_encodable(Item::Array(v), 64),
{
    crate::wire::lemma_step(step, step);
    cbor::lemma_plain_is_encodable(v[0], 7, 63);
    assert forall|i: int| 0 <= i < v.len() implies cbor::is_encodable(#[trigger] v[i], 63) by {
        if i > 0 && v[i] is Array {
            let b = choose|b: Seq<u8>| v[i] == #[trigger] cbor::byte_items(b);
            cbor::lemma_bytes_are_encodable(b, 63);
        }
    }
}

proof fn lemma_outputs_are_encodable(list: Seq<StepOutput>)
    ensures
        cbor::is_encodable(Item::Array(output_items(list)), 64),
{
    let v = output_items(list);
    assert forall|i: int| 0 <= i < v.len() implies cbor::is_encodable(#[trigger] v[i], 63) by {
        let o = list[i];
        let m = output_item(o)->Entries_0;
        cbor::lemma_bytes_are_encodable(o.output_hash@, 62);
        match o.status {
            StepStatus::LimitExceeded { which } => {
                let inner = status_item(o.status)->Entries_0[0].1;
                let e = inner->Entries_0;
                assert forall|k: int| 0 <= k < e.len() implies cbor::is_plain((#[trigger] e[k]).0, 0)
                    && cbor::is_plain(e[k].1, 0) by {}
                cbor::lemma_choice("LimitExceeded"@, inner, 1);
                cbor::lemma_plain_is_encodable(status_item(o.status), 2, 62);
            },
            _ => {},
        }
        assert forall|k: int| 0 <= k < m.len() implies cbor::is_encodable((#[trigger] m[k]).0, 62)
            && cbor::is_encodable(m[k].1, 62) by {}
    }
}

/// The canonical encoding of a pipeline. Two runners constructing the same
/// pipeline value always produce equal bytes.
///
/// # Errors
///
/// None: the types of a pipeline always encode.
pub fn canonical_encoding(pipeline: &Pipeline) -> (r: Result<Vec<u8>, PipelineError>)
    ensures
        r matches Ok(b) && b@ == boundary::cbor::encoding_of(pipeline_item(*pipeline)),
{
    proof {
        crate::wire::lemma_pipeline(*pipeline, *pipeline);
        cbor::lemma_plain_is_encodable(pipeline_item(*pipeline), 9, 64);
    }
    Ok(boundary::cbor::encode(&pipeline_to_cbor(pipeline)))
}

// ── Execution ──────────────────────────────────────────────────────────────
/// Captured bytes of one `Step::ExecNative`, with the SHA-256 of each pipe.
#[derive(Clone, Debug, PartialEq, Eq)]
pub struct NativeCaptures {
    /// Bytes of stdout.
    pub stdout_bytes: Vec<u8>,
    /// SHA-256 of stdout.
    pub stdout_sha256: [u8; 32],
    /// Bytes of stderr.
    pub stderr_bytes: Vec<u8>,
    /// SHA-256 of stderr.
    pub stderr_sha256: [u8; 32],
}

/// What was captured of a native step.
pub struct NativeFact {
    /// Bytes of stdout.
    pub stdout: Seq<u8>,
    /// Bytes of stderr.
    pub stderr: Seq<u8>,
}

/// What was captured where a step produced nothing.
pub open spec fn nothing_captured() -> NativeFact {
    NativeFact { stdout: Seq::empty(), stderr: Seq::empty() }
}

impl View for NativeCaptures {
    type V = NativeFact;

    open spec fn view(&self) -> NativeFact {
        NativeFact { stdout: self.stdout_bytes@, stderr: self.stderr_bytes@ }
    }
}

impl NativeCaptures {
    /// Whether the hashes are those of the bytes.
    pub open spec fn wf(&self) -> bool {
        &&& self.stdout_sha256@ == boundary::sha::sha256_of(self.stdout_bytes@)
        &&& self.stderr_sha256@ == boundary::sha::sha256_of(self.stderr_bytes@)
    }

    fn of(stdout: Vec<u8>, stderr: Vec<u8>) -> (r: Self)
        ensures
            r.wf(),
            r@ == (NativeFact { stdout: stdout@, stderr: stderr@ }),
    {
        let stdout_sha256 = boundary::sha::sha256(stdout.as_slice());
        let stderr_sha256 = boundary::sha::sha256(stderr.as_slice());
        NativeCaptures { stdout_bytes: stdout, stdout_sha256, stderr_bytes: stderr, stderr_sha256 }
    }

    fn nothing() -> (r: Self)
        ensures
            r.wf(),
            r@ == nothing_captured(),
    {
        let r = NativeCaptures::of(Vec::new(), Vec::new());
        assert(r@.stdout =~= Seq::<u8>::empty());
        assert(r@.stderr =~= Seq::<u8>::empty());
        r
    }
}

/// What became of the process of a native step.
#[derive(Clone, Debug, PartialEq, Eq)]
pub enum NativeReport {
    /// The process could not be started.
    SpawnFailed {
        /// Number of the kind of the error.
        kind_id: i32,
    },
    /// The process exited.
    Exited {
        /// Whether it exited successfully.
        success: bool,
        /// Exit code, if it has one.
        code: Option<i32>,
        /// Whether the kernel killed it for its memory.
        oom_killed: bool,
        /// Captured stdout.
        stdout: Vec<u8>,
        /// Captured stderr.
        stderr: Vec<u8>,
    },
    /// It ran past its wall-clock limit and was killed.
    KilledByWall,
    /// It ran past its CPU-time limit and was killed.
    KilledByCpu,
}

/// What the executor of a step observed.
#[derive(Debug, PartialEq, Eq)]
pub enum StepReport {
    /// Outcome of a WASM execution.
    Wasm(Result<ExecOutcome, String>),
    /// Outcome of a fetch.
    Fetch(Result<SourceFetchOutput, SourceFetchError>),
    /// Outcome of a native process.
    Native(NativeReport),
    /// The step needed no work.
    Nothing,
}

/// The work that a step needs done outside.
#[derive(Clone, Copy, Debug, PartialEq, Eq, Structural)]
pub enum Work {
    /// Execute the module.
    Wasm,
    /// Fetch the source.
    Fetch,
    /// Run the command.
    Native,
    /// None.
    Nothing,
}

/// The work that a step needs done outside. A native step without a command
/// needs none: it fails as it is.
pub open spec fn work_of(s: Step) -> Work {
    match s {
        Step::ExecWasm { .. } => Work::Wasm,
        Step::SourceFetch { .. } => Work::Fetch,
        Step::ExecNative { command, .. } => if command@.len() == 0 {
            Work::Nothing
        } else {
            Work::Native
        },
        Step::CaptureLog { .. } | Step::CaptureArtifact { .. } => Work::Nothing,
    }
}

/// The work that a step needs done outside.
#[must_use]
pub fn work_for(step: &Step) -> (r: Work)
    ensures
        r == work_of(*step),
{
    match step {
        Step::ExecWasm { .. } => Work::Wasm,
        Step::SourceFetch { .. } => Work::Fetch,
        Step::ExecNative { command, .. } => if command.len() == 0 {
            Work::Nothing
        } else {
            Work::Native
        },
        Step::CaptureLog { .. } | Step::CaptureArtifact { .. } => Work::Nothing,
    }
}

/// Whether a report is one of the work that a step needed.
pub open spec fn answers(report: StepReport, s: Step) -> bool {
    match work_of(s) {
        Work::Wasm => report is Wasm,
        Work::Fetch => report is Fetch,
        Work::Native => report is Native,
        Work::Nothing => report is Nothing,
    }
}

/// The budget that limits set on a WASM execution.
pub open spec fn budget_of(l: Limits) -> ExecLimits {
    ExecLimits {
        fuel: (l.cpu_seconds * FUEL_PER_CPU_SECOND) as u64,
        memory_bytes: if l.memory_mb * 1_048_576 <= usize::MAX {
            (l.memory_mb * 1_048_576) as usize
        } else {
            usize::MAX
        },
        wall_ns: (l.wall_seconds * 1_000_000_000) as u64,
    }
}

/// The budget that limits set on a WASM execution: fuel for CPU seconds, bytes
/// for MiB, both saturating.
#[must_use]
pub fn exec_limits(l: &Limits) -> (r: ExecLimits)
    ensures
        r == budget_of(*l),
        l.cpu_seconds * FUEL_PER_CPU_SECOND <= u64::MAX,
        l.wall_seconds * 1_000_000_000 <= u64::MAX,
{
    assert(l.cpu_seconds * FUEL_PER_CPU_SECOND <= u64::MAX) by (nonlinear_arith)
        requires
            l.cpu_seconds <= u32::MAX,
            FUEL_PER_CPU_SECOND == 1_000_000_000,
    ;
    let bytes: u64 = l.memory_mb as u64 * 1_048_576;
    ExecLimits {
        fuel: l.cpu_seconds as u64 * FUEL_PER_CPU_SECOND,
        memory_bytes: if bytes <= usize::MAX as u64 {
            bytes as usize
        } else {
            usize::MAX
        },
        wall_ns: l.wall_seconds as u64 * 1_000_000_000,
    }
}

/// The document of a step and a text.
pub open spec fn tagged_item(s: Step, tag: Seq<char>) -> Item {
    Item::Array(seq![step_item(s), Item::Text(tag)])
}

/// The document of a step and the limit it hit.
pub open spec fn limit_item(s: Step, which: LimitKind) -> Item {
    tagged_item(s, limit_name(which))
}

/// The limit of a step that a limit of the runtime stands for.
pub open spec fn step_limit(k: ExecLimitKind) -> LimitKind {
    match k {
        ExecLimitKind::Cpu => LimitKind::Cpu,
        ExecLimitKind::Memory => LimitKind::Memory,
        ExecLimitKind::Wall => LimitKind::Wall,
    }
}

fn tagged(step: &Step, tag: &str) -> (r: [u8; 32])
    ensures
        r@ == canonical_hash(tagged_item(*step, tag@)),
{
    let mut v: Vec<Cbor> = Vec::new();
    v.push(step_to_cbor(step));
    v.push(cbor::text(tag));
    assert(cbor::items(v@) =~= tagged_item(*step, tag@)->Array_0);
    proof {
        lemma_bound_step_is_encodable(*step, cbor::items(v@));
    }
    hash_canonical(&cbor::array(v))
}

fn limit_output(step_index: u32, step: &Step, which: LimitKind) -> (r: StepOutput)
    ensures
        r.step_index == step_index,
        r.status == (StepStatus::LimitExceeded { which }),
        r.output_hash@ == canonical_hash(limit_item(*step, which)),
{
    StepOutput {
        step_index,
        status: StepStatus::LimitExceeded { which },
        output_hash: tagged(step, name_of_limit(which)),
    }
}

/// What a WASM step that executed comes to. A step that hit a limit is bound to
/// its own bytes and the limit, so that two runners that hit the same limit
/// agree and runners that did not, differ.
///
/// # Errors
///
/// The error of the runtime, where the execution failed for a reason other than
/// a limit.
pub fn execute_wasm_step(
    step_index: u32,
    module: &[u8],
    outcome: Result<ExecOutcome, String>,
    step: &Step,
) -> (r: Result<StepOutput, PipelineError>)
    ensures
        match outcome {
            Err(detail) => r == Err::<StepOutput, PipelineError>(
                PipelineError::WasmRuntime { step_index, detail },
            ),
            Ok(ExecOutcome::Returned(v)) => r matches Ok(o) && o.step_index == step_index
                && o.status == StepStatus::Success && o.output_hash@ == boundary::sha::sha256_of(
                boundary::sha::sha256_of(module@) + wasm_runtime::result_bytes(v),
            ),
            Ok(ExecOutcome::LimitExceeded(k)) => r matches Ok(o) && o.step_index == step_index
                && o.status == (StepStatus::LimitExceeded { which: step_limit(k) })
                && o.output_hash@ == canonical_hash(limit_item(*step, step_limit(k))),
        },
{
    match outcome {
        Err(detail) => Err(PipelineError::WasmRuntime { step_index, detail }),
        Ok(ExecOutcome::Returned(v)) => {
            let module_hash = wasm_runtime::module_hash(module);
            Ok(
                StepOutput {
                    step_index,
                    status: StepStatus::Success,
                    output_hash: wasm_runtime::output_hash(&module_hash, v),
                },
            )
        },
        Ok(ExecOutcome::LimitExceeded(k)) => {
            let which = match k {
                ExecLimitKind::Cpu => LimitKind::Cpu,
                ExecLimitKind::Memory => LimitKind::Memory,
                ExecLimitKind::Wall => LimitKind::Wall,
            };
            Ok(limit_output(step_index, step, which))
        },
    }
}

/// The number of a fetch error.
pub open spec fn fetch_error_id(e: SourceFetchError) -> nat {
    match e {
        SourceFetchError::GitNotFound => 0,
        SourceFetchError::CloneFailed(_) => 1,
        SourceFetchError::CheckoutFailed(_) => 2,
        SourceFetchError::ResolveFailed(_) => 3,
        SourceFetchError::Io(_) => 4,
    }
}

/// The document of a step and a number.
pub open spec fn numbered_item(s: Step, n: nat) -> Item {
    Item::Array(seq![step_item(s), Item::Uint(n)])
}

/// What a source-fetch step comes to. A failed fetch is bound to the step and
/// the kind of the error, so that two runners that hit the same failure on the
/// same step agree.
#[must_use]
pub fn execute_source_fetch_step(
    step_index: u32,
    result: Result<SourceFetchOutput, SourceFetchError>,
    step: &Step,
) -> (r: StepOutput)
    ensures
        r.step_index == step_index,
        match result {
            Ok(out) => r.status == StepStatus::Success && r.output_hash@
                == boundary::sha::sha256_of(
                source_fetch::output_bytes(out.resolved_sha@, out.tree_hash@),
            ),
            Err(e) => r.status == StepStatus::Failed && r.output_hash@ == canonical_hash(
                numbered_item(*step, fetch_error_id(e)),
            ),
        },
{
    match result {
        Ok(out) => StepOutput {
            step_index,
            status: StepStatus::Success,
            output_hash: source_fetch::output_hash(&out),
        },
        Err(e) => {
            let kind_id: u64 = match &e {
                SourceFetchError::GitNotFound => 0,
                SourceFetchError::CloneFailed(_) => 1,
                SourceFetchError::CheckoutFailed(_) => 2,
                SourceFetchError::ResolveFailed(_) => 3,
                SourceFetchError::Io(_) => 4,
            };
            let mut v: Vec<Cbor> = Vec::new();
            v.push(step_to_cbor(step));
            v.push(cbor::uint(kind_id));
            assert(cbor::items(v@) =~= numbered_item(*step, kind_id as nat)->Array_0);
            proof {
                lemma_bound_step_is_encodable(*step, cbor::items(v@));
            }
            StepOutput {
                step_index,
                status: StepStatus::Failed,
                output_hash: hash_canonical(&cbor::array(v)),
            }
        },
    }
}

/// The document of a native step that exited.
pub open spec fn exit_item(
    s: Step,
    tag: Seq<char>,
    code: int,
    stdout: Seq<u8>,
    stderr: Seq<u8>,
) -> Item {
    Item::Array(
        seq![
            step_item(s),
            Item::Text(tag),
            cbor::int_item(code),
            cbor::byte_items(boundary::sha::sha256_of(stdout)),
            cbor::byte_items(boundary::sha::sha256_of(stderr)),
        ],
    )
}

/// The document of a native step that could not be started.
pub open spec fn spawn_item(s: Step, kind_id: int) -> Item {
    Item::Array(seq![step_item(s), Item::Text("spawn_failed"@), cbor::int_item(kind_id)])
}

/// The status of a native step.
pub open spec fn native_status(report: NativeReport) -> StepStatus {
    match report {
        NativeReport::SpawnFailed { .. } => StepStatus::Failed,
        NativeReport::Exited { success, oom_killed, .. } => if oom_killed {
            StepStatus::LimitExceeded { which: LimitKind::Memory }
        } else if success {
            StepStatus::Success
        } else {
            StepStatus::Failed
        },
        NativeReport::KilledByWall => StepStatus::LimitExceeded { which: LimitKind::Wall },
        NativeReport::KilledByCpu => StepStatus::LimitExceeded { which: LimitKind::Cpu },
    }
}

/// The document that the output hash of a native step covers: the step, and
/// what was observed of it. Time and process number are not in it, nor are the
/// bytes of a step that hit a limit.
pub open spec fn native_item(s: Step, report: NativeReport) -> Item {
    match report {
        NativeReport::SpawnFailed { kind_id } => spawn_item(s, kind_id as int),
        NativeReport::Exited { success, code, oom_killed, stdout, stderr } => if oom_killed {
            limit_item(s, LimitKind::Memory)
        } else if success {
            exit_item(
                s,
                "ok"@,
                match code {
                    Some(c) => c as int,
                    None => 0,
                },
                stdout@,
                stderr@,
            )
        } else {
            exit_item(
                s,
                "exit_nonzero"@,
                match code {
                    Some(c) => c as int,
                    None => -1,
                },
                stdout@,
                stderr@,
            )
        },
        NativeReport::KilledByWall => limit_item(s, LimitKind::Wall),
        NativeReport::KilledByCpu => limit_item(s, LimitKind::Cpu),
    }
}

/// What is captured of a native step: the pipes of a process that exited by
/// itself, else nothing.
pub open spec fn native_captures(report: NativeReport) -> NativeFact {
    match report {
        NativeReport::Exited { oom_killed, stdout, stderr, .. } => if oom_killed {
            nothing_captured()
        } else {
            NativeFact { stdout: stdout@, stderr: stderr@ }
        },
        _ => nothing_captured(),
    }
}

fn exit_hash(step: &Step, tag: &str, code: i32, caps: &NativeCaptures) -> (r: [u8; 32])
    requires
        caps.wf(),
    ensures
        r@ == canonical_hash(
            exit_item(*step, tag@, code as int, caps.stdout_bytes@, caps.stderr_bytes@),
        ),
{
    let mut v: Vec<Cbor> = Vec::new();
    v.push(step_to_cbor(step));
    v.push(cbor::text(tag));
    v.push(cbor::signed(code as i64));
    v.push(cbor::bytes(caps.stdout_sha256.as_slice()));
    v.push(cbor::bytes(caps.stderr_sha256.as_slice()));
    assert(cbor::items(v@) =~= exit_item(
        *step,
        tag@,
        code as int,
        caps.stdout_bytes@,
        caps.stderr_bytes@,
    )->Array_0);
    proof {
        lemma_bound_step_is_encodable(*step, cbor::items(v@));
    }
    hash_canonical(&cbor::array(v))
}

/// What a native step comes to, from what was observed of its process, and what
/// is captured of it.
#[must_use]
pub fn execute_native_step(step_index: u32, report: NativeReport, step: &Step) -> (r: (
    StepOutput,
    NativeCaptures,
))
    ensures
        r.0.step_index == step_index,
        r.0.status == native_status(report),
        r.0.output_hash@ == canonical_hash(native_item(*step, report)),
        r.1.wf(),
        r.1@ == native_captures(report),
{
    match report {
        NativeReport::SpawnFailed { kind_id } => {
            let mut v: Vec<Cbor> = Vec::new();
            v.push(step_to_cbor(step));
            v.push(cbor::text("spawn_failed"));
            v.push(cbor::signed(kind_id as i64));
            assert(cbor::items(v@) =~= spawn_item(*step, kind_id as int)->Array_0);
            proof {
                lemma_bound_step_is_encodable(*step, cbor::items(v@));
            }
            let out = StepOutput {
                step_index,
                status: StepStatus::Failed,
                output_hash: hash_canonical(&cbor::array(v)),
            };
            (out, NativeCaptures::nothing())
        },
        NativeReport::Exited { success, code, oom_killed, stdout, stderr } => {
            if oom_killed {
                return (
                    limit_output(step_index, step, LimitKind::Memory),
                    NativeCaptures::nothing(),
                );
            }
            let caps = NativeCaptures::of(stdout, stderr);
            let out = if success {
                let c: i32 = match code {
                    Some(c) => c,
                    None => 0,
                };
                StepOutput {
                    step_index,
                    status: StepStatus::Success,
                    output_hash: exit_hash(step, "ok", c, &caps),
                }
            } else {
                let c: i32 = match code {
                    Some(c) => c,
                    None => -1,
                };
                StepOutput {
                    step_index,
                    status: StepStatus::Failed,
                    output_hash: exit_hash(step, "exit_nonzero", c, &caps),
                }
            };
            (out, caps)
        },
        NativeReport::KilledByWall => (
            limit_output(step_index, step, LimitKind::Wall),
            NativeCaptures::nothing(),
        ),
        NativeReport::KilledByCpu => (
            limit_output(step_index, step, LimitKind::Cpu),
            NativeCaptures::nothing(),
        ),
    }
}

/// What a native step without a command comes to.
fn empty_command_step(step_index: u32, step: &Step) -> (r: (StepOutput, NativeCaptures))
    ensures
        r.0.step_index == step_index,
        r.0.status == StepStatus::Failed,
        r.0.output_hash@ == canonical_hash(tagged_item(*step, "empty_command"@)),
        r.1.wf(),
        r.1@ == nothing_captured(),
{
    let out = StepOutput {
        step_index,
        status: StepStatus::Failed,
        output_hash: tagged(step, "empty_command"),
    };
    (out, NativeCaptures::nothing())
}

/// What a captured payload is.
pub struct CaptureFact {
    /// Position of the capture step.
    pub step_index: u32,
    /// Name.
    pub name: Seq<char>,
    /// Kind.
    pub kind: CaptureKind,
    /// SHA-256 of the bytes.
    pub sha256: Seq<u8>,
    /// Length.
    pub length: u64,
    /// Bytes.
    pub bytes: Seq<u8>,
}

impl View for CapturedOutput {
    type V = CaptureFact;

    open spec fn view(&self) -> CaptureFact {
        CaptureFact {
            step_index: self.step_index,
            name: self.name@,
            kind: self.kind,
            sha256: self.sha256@,
            length: self.length,
            bytes: self.bytes_inline@,
        }
    }
}

/// What a list of captured payloads is.
pub open spec fn captured(v: Seq<CapturedOutput>) -> Seq<CaptureFact> {
    v.map_values(|c: CapturedOutput| c@)
}

/// The payload of captured bytes.
pub open spec fn capture_of(
    step_index: u32,
    name: Seq<char>,
    kind: CaptureKind,
    bytes: Seq<u8>,
) -> CaptureFact {
    CaptureFact {
        step_index,
        name,
        kind,
        sha256: boundary::sha::sha256_of(bytes),
        length: bytes.len() as u64,
        bytes,
    }
}

/// The two payloads of a log capture.
pub open spec fn log_captures(step_index: u32, name: Seq<char>, native: NativeFact) -> Seq<
    CaptureFact,
> {
    seq![
        capture_of(step_index, name + ".stdout"@, CaptureKind::Stdout, native.stdout),
        capture_of(step_index, name + ".stderr"@, CaptureKind::Stderr, native.stderr),
    ]
}

/// The document of a log capture.
pub open spec fn log_item(s: Step, native: NativeFact) -> Item {
    Item::Array(
        seq![
            step_item(s),
            Item::Text("ok"@),
            cbor::byte_items(boundary::sha::sha256_of(native.stdout)),
            cbor::byte_items(boundary::sha::sha256_of(native.stderr)),
        ],
    )
}

/// What a log-capture step comes to. It emits what the most recent native step
/// left, under `<name>.stdout` and `<name>.stderr`; with no native step before
/// it, it fails.
pub fn execute_capture_log_step(
    step_index: u32,
    name: &str,
    last_native: Option<&NativeCaptures>,
    captures: &mut Vec<CapturedOutput>,
    step: &Step,
) -> (r: StepOutput)
    requires
        last_native matches Some(nc) ==> nc.wf(),
    ensures
        r.step_index == step_index,
        match last_native {
            None => {
                &&& r.status == StepStatus::Failed
                &&& r.output_hash@ == canonical_hash(
                    tagged_item(*step, "no_preceding_exec_native"@),
                )
                &&& final(captures)@ == old(captures)@
            },
            Some(nc) => {
                &&& r.status == StepStatus::Success
                &&& r.output_hash@ == canonical_hash(log_item(*step, nc@))
                &&& captured(final(captures)@) == captured(old(captures)@) + log_captures(
                    step_index,
                    name@,
                    nc@,
                )
            },
        },
{
    let nc = match last_native {
        None => return StepOutput {
            step_index,
            status: StepStatus::Failed,
            output_hash: tagged(step, "no_preceding_exec_native"),
        },
        Some(nc) => nc,
    };
    captures.push(
        CapturedOutput {
            step_index,
            name: text::joined(name, ".stdout"),
            kind: CaptureKind::Stdout,
            sha256: nc.stdout_sha256,
            length: nc.stdout_bytes.len() as u64,
            bytes_inline: crate::bytes::copy_bytes(nc.stdout_bytes.as_slice()),
        },
    );
    captures.push(
        CapturedOutput {
            step_index,
            name: text::joined(name, ".stderr"),
            kind: CaptureKind::Stderr,
            sha256: nc.stderr_sha256,
            length: nc.stderr_bytes.len() as u64,
            bytes_inline: crate::bytes::copy_bytes(nc.stderr_bytes.as_slice()),
        },
    );
    let mut v: Vec<Cbor> = Vec::new();
    v.push(step_to_cbor(step));
    v.push(cbor::text("ok"));
    v.push(cbor::bytes(nc.stdout_sha256.as_slice()));
    v.push(cbor::bytes(nc.stderr_sha256.as_slice()));
    proof {
        assert(cbor::items(v@) =~= log_item(*step, nc@)->Array_0);
        lemma_bound_step_is_encodable(*step, cbor::items(v@));
        assert(captured(captures@) =~= captured(old(captures)@) + log_captures(
            step_index,
            name@,
            nc@,
        ));
    }
    StepOutput {
        step_index,
        status: StepStatus::Success,
        output_hash: hash_canonical(&cbor::array(v)),
    }
}

/// What a step without an executor comes to: its hash is that of the step
/// itself.
#[must_use]
pub fn not_implemented(step_index: u32, step: &Step) -> (r: StepOutput)
    ensures
        r.step_index == step_index,
        r.status == StepStatus::NotImplemented,
        r.output_hash@ == canonical_hash(step_item(*step)),
{
    proof {
        crate::wire::lemma_step(*step, *step);
        cbor::lemma_plain_is_encodable(step_item(*step), 7, 64);
    }
    StepOutput {
        step_index,
        status: StepStatus::NotImplemented,
        output_hash: hash_canonical(&step_to_cbor(step)),
    }
}

/// What a step's output is.
pub struct OutputFact {
    /// Position of the step.
    pub step_index: u32,
    /// Status.
    pub status: StepStatus,
    /// Output hash.
    pub hash: Seq<u8>,
}

impl View for StepOutput {
    type V = OutputFact;

    open spec fn view(&self) -> OutputFact {
        OutputFact {
            step_index: self.step_index,
            status: self.status,
            hash: self.output_hash@,
        }
    }
}

/// A run so far: the outputs, the captures, and what the most recent native step
/// left.
pub struct RunFact {
    /// Outputs, in order.
    pub outputs: Seq<OutputFact>,
    /// Captures, in order.
    pub captures: Seq<CaptureFact>,
    /// What the most recent native step left.
    pub native: Option<NativeFact>,
}

/// The run before the first step.
pub open spec fn fresh_run() -> RunFact {
    RunFact { outputs: Seq::empty(), captures: Seq::empty(), native: None }
}

/// The status and the hash of a step, and what it changes beside them.
pub open spec fn step_effect(run: RunFact, s: Step, report: StepReport) -> (
    StepStatus,
    Seq<u8>,
    Seq<CaptureFact>,
    Option<NativeFact>,
) {
    let index = run.outputs.len() as usize as u32;
    match (s, report) {
        (Step::ExecWasm { module, .. }, StepReport::Wasm(Ok(ExecOutcome::Returned(v)))) => (
            StepStatus::Success,
            boundary::sha::sha256_of(
                boundary::sha::sha256_of(module@) + wasm_runtime::result_bytes(v),
            ),
            run.captures,
            run.native,
        ),
        (Step::ExecWasm { .. }, StepReport::Wasm(Ok(ExecOutcome::LimitExceeded(k)))) => (
            StepStatus::LimitExceeded { which: step_limit(k) },
            canonical_hash(limit_item(s, step_limit(k))),
            run.captures,
            run.native,
        ),
        (Step::SourceFetch { .. }, StepReport::Fetch(Ok(out))) => (
            StepStatus::Success,
            boundary::sha::sha256_of(
                source_fetch::output_bytes(out.resolved_sha@, out.tree_hash@),
            ),
            run.captures,
            run.native,
        ),
        (Step::SourceFetch { .. }, StepReport::Fetch(Err(e))) => (
            StepStatus::Failed,
            canonical_hash(numbered_item(s, fetch_error_id(e))),
            run.captures,
            run.native,
        ),
        (Step::ExecNative { .. }, StepReport::Native(n)) => (
            native_status(n),
            canonical_hash(native_item(s, n)),
            run.captures,
            Some(native_captures(n)),
        ),
        (Step::ExecNative { .. }, _) => (
            StepStatus::Failed,
            canonical_hash(tagged_item(s, "empty_command"@)),
            run.captures,
            Some(nothing_captured()),
        ),
        (Step::CaptureLog { name }, _) => match run.native {
            Some(native) => (
                StepStatus::Success,
                canonical_hash(log_item(s, native)),
                run.captures + log_captures(index, name@, native),
                run.native,
            ),
            None => (
                StepStatus::Failed,
                canonical_hash(tagged_item(s, "no_preceding_exec_native"@)),
                run.captures,
                run.native,
            ),
        },
        _ => (
            StepStatus::NotImplemented,
            canonical_hash(step_item(s)),
            run.captures,
            run.native,
        ),
    }
}

/// The run after one more step.
pub open spec fn after_step(run: RunFact, s: Step, report: StepReport) -> RunFact {
    let e = step_effect(run, s, report);
    RunFact {
        outputs: run.outputs.push(
            OutputFact {
                step_index: run.outputs.len() as usize as u32,
                status: e.0,
                hash: e.1,
            },
        ),
        captures: e.2,
        native: e.3,
    }
}

/// What a list of outputs is.
pub open spec fn outputs_of(v: Seq<StepOutput>) -> Seq<OutputFact> {
    v.map_values(|o: StepOutput| o@)
}

/// One run of a pipeline: the caller performs the work of each step, in order,
/// and hands back what it observed.
#[derive(Clone, Debug)]
pub struct PipelineRun {
    outputs: Vec<StepOutput>,
    captures: Vec<CapturedOutput>,
    last_native: Option<NativeCaptures>,
}

impl View for PipelineRun {
    type V = RunFact;

    closed spec fn view(&self) -> RunFact {
        RunFact {
            outputs: outputs_of(self.outputs@),
            captures: captured(self.captures@),
            native: match self.last_native {
                Some(n) => Some(n@),
                None => None,
            },
        }
    }
}

impl PipelineRun {
    /// Whether the hashes held are those of the bytes held.
    pub closed spec fn wf(&self) -> bool {
        self.last_native matches Some(n) ==> n.wf()
    }

    /// The run before the first step.
    #[must_use]
    pub fn new() -> (r: Self)
        ensures
            r.wf(),
            r@ == fresh_run(),
    {
        let r = PipelineRun { outputs: Vec::new(), captures: Vec::new(), last_native: None };
        assert(r@.outputs =~= Seq::<OutputFact>::empty());
        assert(r@.captures =~= Seq::<CaptureFact>::empty());
        r
    }

    /// Record what the next step of the pipeline comes to.
    ///
    /// # Errors
    ///
    /// Where a WASM execution failed for a reason other than a limit; the run
    /// stays as it was, and the pipeline is over.
    pub fn record(&mut self, step: &Step, report: StepReport) -> (r: Result<(), PipelineError>)
        requires
            old(self).wf(),
            answers(report, *step),
        ensures
            final(self).wf(),
            match report {
                StepReport::Wasm(Err(detail)) => {
                    &&& r == Err::<(), PipelineError>(
                        PipelineError::WasmRuntime {
                            step_index: old(self)@.outputs.len() as usize as u32,
                            detail,
                        },
                    )
                    &&& final(self)@ == old(self)@
                },
                _ => r is Ok && final(self)@ == after_step(old(self)@, *step, report),
            },
    {
        let ghost before = self@;
        let step_index: u32 = self.outputs.len() as u32;
        let output = match step {
            Step::ExecWasm { module, .. } => match report {
                StepReport::Wasm(outcome) => match execute_wasm_step(
                    step_index,
                    module.as_slice(),
                    outcome,
                    step,
                ) {
                    Ok(o) => o,
                    Err(e) => return Err(e),
                },
                _ => return Ok(()),
            },
            Step::SourceFetch { .. } => match report {
                StepReport::Fetch(result) => execute_source_fetch_step(step_index, result, step),
                _ => return Ok(()),
            },
            Step::ExecNative { .. } => {
                let (out, caps) = match report {
                    StepReport::Native(n) => execute_native_step(step_index, n, step),
                    _ => empty_command_step(step_index, step),
                };
                self.last_native = Some(caps);
                out
            },
            Step::CaptureLog { name } => match &self.last_native {
                Some(nc) => execute_capture_log_step(
                    step_index,
                    name.as_str(),
                    Some(nc),
                    &mut self.captures,
                    step,
                ),
                None => execute_capture_log_step(
                    step_index,
                    name.as_str(),
                    None,
                    &mut self.captures,
                    step,
                ),
            },
            Step::CaptureArtifact { .. } => not_implemented(step_index, step),
        };
        self.outputs.push(output);
        proof {
            assert(self@.outputs =~= before.outputs.push(output@));
            assert(self@.captures =~= after_step(before, *step, report).captures);
        }
        Ok(())
    }

    /// The result of the run. Captures are not part of the artifact hash.
    #[must_use]
    pub fn finish(self) -> (r: PipelineResult)
        ensures
            outputs_of(r.steps@) == self@.outputs,
            captured(r.captures@) == self@.captures,
            r.final_artifact_hash@ == canonical_hash(Item::Array(output_items(r.steps@))),
    {
        proof {
            lemma_outputs_are_encodable(self.outputs@);
        }
        let final_artifact_hash = hash_canonical(&outputs_to_cbor(&self.outputs));
        PipelineResult { steps: self.outputs, final_artifact_hash, captures: self.captures }
    }
}

// ── Pipelines ──────────────────────────────────────────────────────────────
/// The run of the steps that were reported on, in order.
pub open spec fn ran(steps: Seq<Step>, reports: Seq<StepReport>) -> RunFact
    decreases reports.len(),
{
    if reports.len() == 0 {
        fresh_run()
    } else {
        after_step(ran(steps, reports.drop_last()), steps[reports.len() - 1], reports.last())
    }
}

/// Whether a report ends a pipeline.
pub open spec fn ends_pipeline(report: StepReport) -> bool {
    report matches StepReport::Wasm(Err(_))
}

/// Whether these reports on its steps, the first of them or all, make this the
/// result of a pipeline.
pub open spec fn is_result(
    steps: Seq<Step>,
    reports: Seq<StepReport>,
    r: Result<PipelineResult, PipelineError>,
) -> bool {
    match r {
        Ok(res) => {
            &&& reports.len() == steps.len()
            &&& forall|i: int| 0 <= i < reports.len() ==> !ends_pipeline(#[trigger] reports[i])
            &&& outputs_of(res.steps@) == ran(steps, reports).outputs
            &&& captured(res.captures@) == ran(steps, reports).captures
            &&& res.final_artifact_hash@ == canonical_hash(Item::Array(output_items(res.steps@)))
        },
        Err(e) => {
            &&& 0 < reports.len() <= steps.len()
            &&& forall|i: int|
                0 <= i < reports.len() - 1 ==> !ends_pipeline(#[trigger] reports[i])
            &&& reports.last() matches StepReport::Wasm(Err(detail)) && e
                == (PipelineError::WasmRuntime {
                step_index: (reports.len() - 1) as usize as u32,
                detail,
            })
        },
    }
}

proof fn lemma_ran_len(steps: Seq<Step>, reports: Seq<StepReport>)
    ensures
        ran(steps, reports).outputs.len() == reports.len(),
    decreases reports.len(),
{
    if reports.len() > 0 {
        lemma_ran_len(steps, reports.drop_last());
    }
}

/// Run a pipeline step by step, where `work` performs the work of one step. A
/// step that fails or hits a limit does not end the run.
///
/// # Errors
///
/// Where a WASM execution failed for a reason other than a limit; the steps
/// behind it are not run.
pub fn execute_pipeline<F: Fn(u32, &Step) -> StepReport>(pipeline: &Pipeline, work: F) -> (r:
    Result<PipelineResult, PipelineError>)
    requires
        forall|i: u32, s: &Step| work.requires((i, s)),
        forall|i: u32, s: &Step, report: StepReport|
            work.ensures((i, s), report) ==> answers(report, *s),
    ensures
        exists|reports: Seq<StepReport>| #[trigger]
            is_result(pipeline.steps@, reports, r) && forall|i: int|
                0 <= i < reports.len() ==> work.ensures(
                    (i as usize as u32, &pipeline.steps@[i]),
                    #[trigger] reports[i],
                ),
{
    let ghost steps = pipeline.steps@;
    let ghost mut reports: Seq<StepReport> = Seq::empty();
    let mut run = PipelineRun::new();
    let mut i: usize = 0;
    while i < pipeline.steps.len()
        invariant
            steps == pipeline.steps@,
            i <= steps.len(),
            reports.len() == i,
            run.wf(),
            run@ == ran(steps, reports),
            forall|k: u32, s: &Step| work.requires((k, s)),
            forall|k: u32, s: &Step, report: StepReport|
                work.ensures((k, s), report) ==> answers(report, *s),
            forall|k: int| 0 <= k < i ==> !ends_pipeline(#[trigger] reports[k]),
            forall|k: int|
                0 <= k < i ==> work.ensures(
                    (k as usize as u32, &steps[k]),
                    #[trigger] reports[k],
                ),
        decreases steps.len() - i,
    {
        let step = &pipeline.steps[i];
        let report = work(i as u32, step);
        let ghost before = reports;
        proof {
            lemma_ran_len(steps, reports);
            reports = reports.push(report);
            assert(reports.drop_last() =~= before);
            assert(reports.last() == report);
            assert forall|k: int| 0 <= k < i implies reports[k] == before[k] by {}
        }
        match run.record(step, report) {
            Ok(()) => {},
            Err(e) => {
                let r: Result<PipelineResult, PipelineError> = Err(e);
                assert(is_result(steps, reports, r));
                return r;
            },
        }
        i = i + 1;
    }
    let r: Result<PipelineResult, PipelineError> = Ok(run.finish());
    assert(is_result(steps, reports, r));
    r
}

// ── Laws ───────────────────────────────────────────────────────────────────
/// Whether two reports say the same.
pub open spec fn alike(a: StepReport, b: StepReport) -> bool {
    match (a, b) {
        (StepReport::Wasm(Ok(x)), StepReport::Wasm(Ok(y))) => x == y,
        (StepReport::Fetch(Ok(x)), StepReport::Fetch(Ok(y))) => x.resolved_sha@ == y.resolved_sha@
            && x.tree_hash@ == y.tree_hash@,
        (StepReport::Fetch(Err(x)), StepReport::Fetch(Err(y))) => fetch_error_id(x)
            == fetch_error_id(y),
        (StepReport::Native(x), StepReport::Native(y)) => match (x, y) {
            (
                NativeReport::Exited { success, code, oom_killed, stdout, stderr },
                NativeReport::Exited {
                    success: success_y,
                    code: code_y,
                    oom_killed: oom_killed_y,
                    stdout: stdout_y,
                    stderr: stderr_y,
                },
            ) => success == success_y && code == code_y && oom_killed == oom_killed_y && stdout@
                == stdout_y@ && stderr@ == stderr_y@,
            _ => x == y,
        },
        (StepReport::Nothing, StepReport::Nothing) => true,
        _ => false,
    }
}

/// Two runners that observed the same of the same step get the same output, the
/// same captures and the same hashes: nothing but the step and what was observed
/// goes in.
pub proof fn law_same_observations_same_outputs(
    run: RunFact,
    s: Step,
    a: StepReport,
    b: StepReport,
)
    requires
        alike(a, b),
    ensures
        after_step(run, s, a) == after_step(run, s, b),
{
}

/// Two runners that observed the same of every step of a pipeline come to the
/// same result.
pub proof fn law_same_observations_same_run(
    steps: Seq<Step>,
    a: Seq<StepReport>,
    b: Seq<StepReport>,
)
    requires
        a.len() == b.len(),
        forall|i: int| 0 <= i < a.len() ==> alike(#[trigger] a[i], b[i]),
    ensures
        ran(steps, a) == ran(steps, b),
    decreases a.len(),
{
    if a.len() > 0 {
        assert forall|i: int| 0 <= i < a.len() - 1 implies alike(
            #[trigger] a.drop_last()[i],
            b.drop_last()[i],
        ) by {
            assert(alike(a[i], b[i]));
        }
        law_same_observations_same_run(steps, a.drop_last(), b.drop_last());
        assert(alike(a[a.len() - 1], b[b.len() - 1]));
        law_same_observations_same_outputs(
            ran(steps, a.drop_last()),
            steps[a.len() - 1],
            a.last(),
            b.last(),
        );
    }
}

/// Equal step outputs have one artifact hash, whatever was captured.
pub proof fn law_captures_do_not_shift_the_hash(a: Seq<StepOutput>, b: Seq<StepOutput>)
    requires
        outputs_of(a) == outputs_of(b),
    ensures
        canonical_hash(Item::Array(output_items(a))) == canonical_hash(
            Item::Array(output_items(b)),
        ),
{
    assert(outputs_of(a).len() == a.len() && outputs_of(b).len() == b.len());
    assert forall|i: int| 0 <= i < a.len() implies output_item(a[i]) == output_item(b[i]) by {
        assert(outputs_of(a)[i] == a[i]@);
        assert(outputs_of(b)[i] == b[i]@);
    }
    assert(output_items(a) =~= output_items(b));
}

/// Two runners that observed the same of every step of a pipeline attest to one
/// artifact hash.
pub proof fn law_same_observations_same_artifact(
    steps: Seq<Step>,
    a: Seq<StepReport>,
    b: Seq<StepReport>,
    ra: PipelineResult,
    rb: PipelineResult,
)
    requires
        is_result(steps, a, Ok(ra)),
        is_result(steps, b, Ok(rb)),
        forall|i: int| 0 <= i < a.len() ==> alike(#[trigger] a[i], b[i]),
    ensures
        ra.final_artifact_hash@ == rb.final_artifact_hash@,
        captured(ra.captures@) == captured(rb.captures@),
{
    law_same_observations_same_run(steps, a, b);
    law_captures_do_not_shift_the_hash(ra.steps@, rb.steps@);
}

/// Every step leaves one output, with its own position, and changes none before
/// it.
pub proof fn law_one_output_per_step(run: RunFact, s: Step, report: StepReport)
    ensures
        after_step(run, s, report).outputs.len() == run.outputs.len() + 1,
        after_step(run, s, report).outputs.drop_last() == run.outputs,
        after_step(run, s, report).outputs.last().step_index == run.outputs.len() as usize as u32,
{
    assert(after_step(run, s, report).outputs.drop_last() =~= run.outputs);
}

/// Only a log capture emits payloads, and only after a native step; each payload
/// carries the hash of its own bytes.
pub proof fn law_only_log_captures_emit(run: RunFact, s: Step, report: StepReport)
    ensures
        after_step(run, s, report).captures != run.captures ==> s is CaptureLog && run.native is Some,
        s is CaptureLog && run.native is Some ==> {
            let c = after_step(run, s, report).captures;
            &&& c.len() == run.captures.len() + 2
            &&& c.take(run.captures.len() as int) == run.captures
            &&& c[c.len() - 2].sha256 == boundary::sha::sha256_of(c[c.len() - 2].bytes)
            &&& c[c.len() - 1].sha256 == boundary::sha::sha256_of(c[c.len() - 1].bytes)
        },
{
    if s is CaptureLog && run.native is Some {
        let c = after_step(run, s, report).captures;
        assert(c.take(run.captures.len() as int) =~= run.captures);
    }
}

/// Whether some hash or some encoding stands for two different things.
pub open spec fn hashes_collide() -> bool {
    ||| exists|x: Seq<u8>, y: Seq<u8>|
        x != y && #[trigger] boundary::sha::sha256_of(x) == #[trigger] boundary::sha::sha256_of(y)
    ||| exists|x: Item, y: Item|
        x != y && #[trigger] boundary::cbor::encoding_of(x)
            == #[trigger] boundary::cbor::encoding_of(y)
}

proof fn lemma_bytes_or_collision(x: Seq<u8>, y: Seq<u8>)
    requires
        boundary::sha::sha256_of(x) == boundary::sha::sha256_of(y),
    ensures
        x == y || hashes_collide(),
{
}

proof fn lemma_same_or_collision(x: Item, y: Item)
    requires
        canonical_hash(x) == canonical_hash(y),
    ensures
        x == y || hashes_collide(),
{
    lemma_bytes_or_collision(boundary::cbor::encoding_of(x), boundary::cbor::encoding_of(y));
}

proof fn lemma_limit_names(a: LimitKind, b: LimitKind)
    ensures
        limit_name(a) == limit_name(b) ==> a == b,
{
    reveal_strlit("Cpu");
    reveal_strlit("Memory");
    reveal_strlit("Wall");
    reveal_strlit("Network");
    assert("Cpu"@.len() == 3 && "Memory"@.len() == 6 && "Wall"@.len() == 4 && "Network"@.len()
        == 7);
}

/// Statuses have different documents.
pub proof fn law_statuses_differ(a: StepStatus, b: StepStatus)
    requires
        status_item(a) == status_item(b),
    ensures
        a == b,
{
    reveal_strlit("Success");
    reveal_strlit("Failed");
    reveal_strlit("NotImplemented");
    assert("Success"@.len() == 7 && "Failed"@.len() == 6 && "NotImplemented"@.len() == 14);
    match (a, b) {
        (
            StepStatus::LimitExceeded { which: x },
            StepStatus::LimitExceeded { which: y },
        ) => {
            let m = status_item(a)->Entries_0[0].1->Entries_0;
            let n = status_item(b)->Entries_0[0].1->Entries_0;
            assert(m[0].1 == n[0].1);
            lemma_limit_names(x, y);
        },
        _ => {},
    }
}

/// The artifact hash binds every output: runs with one artifact hash have as many
/// outputs, and each the same position, status and hash.
pub proof fn law_artifact_binds_every_output(a: Seq<StepOutput>, b: Seq<StepOutput>)
    requires
        canonical_hash(Item::Array(output_items(a))) == canonical_hash(
            Item::Array(output_items(b)),
        ),
    ensures
        hashes_collide() || (a.len() == b.len() && forall|i: int|
            0 <= i < a.len() ==> (#[trigger] a[i]).step_index == b[i].step_index && a[i].status
                == b[i].status && a[i].output_hash@ == b[i].output_hash@),
{
    lemma_same_or_collision(Item::Array(output_items(a)), Item::Array(output_items(b)));
    if !hashes_collide() {
        let (x, y) = (output_items(a), output_items(b));
        assert(x == y);
        assert(x.len() == a.len() && y.len() == b.len());
        assert forall|i: int| 0 <= i < a.len() implies (#[trigger] a[i]).step_index
            == b[i].step_index && a[i].status == b[i].status && a[i].output_hash@
            == b[i].output_hash@ by {
            assert(x[i] == output_item(a[i]));
            assert(y[i] == output_item(b[i]));
            let (m, n) = (output_item(a[i])->Entries_0, output_item(b[i])->Entries_0);
            assert(m[0].1 == n[0].1 && m[1].1 == n[1].1 && m[2].1 == n[2].1);
            law_statuses_differ(a[i].status, b[i].status);
            cbor::lemma_bytes_differ(a[i].output_hash@, b[i].output_hash@);
        }
    }
}

/// Whether two runners saw the same of a step, as far as it goes into the output:
/// a process that a limit ended leaves only the limit, and one without an exit
/// code counts as one with the code that stands in for it.
pub open spec fn seen_alike(a: StepReport, b: StepReport) -> bool {
    match (a, b) {
        (StepReport::Wasm(Ok(x)), StepReport::Wasm(Ok(y))) => x == y,
        (StepReport::Fetch(Ok(x)), StepReport::Fetch(Ok(y))) => x.resolved_sha@ == y.resolved_sha@
            && x.tree_hash@ == y.tree_hash@,
        (StepReport::Fetch(Err(x)), StepReport::Fetch(Err(y))) => {
            ||| x is GitNotFound && y is GitNotFound
            ||| x is CloneFailed && y is CloneFailed
            ||| x is CheckoutFailed && y is CheckoutFailed
            ||| x is ResolveFailed && y is ResolveFailed
            ||| x is Io && y is Io
        },
        (StepReport::Native(x), StepReport::Native(y)) => native_alike(x, y),
        (StepReport::Nothing, StepReport::Nothing) => true,
        _ => false,
    }
}

/// Whether two runners saw the same of a process.
pub open spec fn native_alike(a: NativeReport, b: NativeReport) -> bool {
    match (a, b) {
        (NativeReport::SpawnFailed { kind_id: x }, NativeReport::SpawnFailed { kind_id: y }) => x
            == y,
        (
            NativeReport::Exited { success, code, oom_killed, stdout, stderr },
            NativeReport::Exited {
                success: success_b,
                code: code_b,
                oom_killed: oom_killed_b,
                stdout: stdout_b,
                stderr: stderr_b,
            },
        ) => {
            &&& oom_killed == oom_killed_b
            &&& !oom_killed ==> {
                &&& success == success_b
                &&& (match code {
                    Some(c) => c as int,
                    None => if success {
                        0
                    } else {
                        -1
                    },
                }) == (match code_b {
                    Some(c) => c as int,
                    None => if success {
                        0
                    } else {
                        -1
                    },
                })
                &&& stdout@ == stdout_b@
                &&& stderr@ == stderr_b@
            }
        },
        (NativeReport::KilledByWall, NativeReport::KilledByWall) => true,
        (NativeReport::KilledByCpu, NativeReport::KilledByCpu) => true,
        _ => false,
    }
}

/// Runners that saw different things of a process differ: for one native step,
/// two processes that exited by themselves and have one document agree on success,
/// on the exit code and on the hash of each pipe.
pub proof fn law_different_exits_differ(s: Step, a: NativeReport, b: NativeReport)
    requires
        native_item(s, a) == native_item(s, b),
        a matches NativeReport::Exited { oom_killed, .. } && !oom_killed,
        b matches NativeReport::Exited { oom_killed, .. } && !oom_killed,
    ensures
        match (a, b) {
            (
                NativeReport::Exited { success, code, stdout, stderr, .. },
                NativeReport::Exited {
                    success: success_b,
                    code: code_b,
                    stdout: stdout_b,
                    stderr: stderr_b,
                    ..
                },
            ) => {
                &&& success == success_b
                &&& code is Some && code_b is Some ==> code == code_b
                &&& boundary::sha::sha256_of(stdout@) == boundary::sha::sha256_of(stdout_b@)
                &&& boundary::sha::sha256_of(stderr@) == boundary::sha::sha256_of(stderr_b@)
            },
            _ => false,
        },
{
    lemma_native_documents(s, a, b);
}

proof fn lemma_native_documents(s: Step, a: NativeReport, b: NativeReport)
    requires
        native_item(s, a) == native_item(s, b),
    ensures
        match (a, b) {
            (
                NativeReport::Exited { success, code, oom_killed, stdout, stderr },
                NativeReport::Exited {
                    success: success_b,
                    code: code_b,
                    oom_killed: oom_killed_b,
                    stdout: stdout_b,
                    stderr: stderr_b,
                },
            ) => {
                &&& oom_killed == oom_killed_b
                &&& !oom_killed ==> {
                    &&& success == success_b
                    &&& (match code {
                        Some(c) => c as int,
                        None => if success {
                            0
                        } else {
                            -1
                        },
                    }) == (match code_b {
                        Some(c) => c as int,
                        None => if success {
                            0
                        } else {
                            -1
                        },
                    })
                    &&& boundary::sha::sha256_of(stdout@) == boundary::sha::sha256_of(stdout_b@)
                    &&& boundary::sha::sha256_of(stderr@) == boundary::sha::sha256_of(stderr_b@)
                }
            },
            (NativeReport::SpawnFailed { kind_id: x }, NativeReport::SpawnFailed { kind_id: y }) => x
                == y,
            (NativeReport::KilledByWall, NativeReport::KilledByCpu) => false,
            (NativeReport::KilledByCpu, NativeReport::KilledByWall) => false,
            _ => true,
        },
{
    reveal_strlit("ok");
    reveal_strlit("exit_nonzero");
    assert("ok"@.len() == 2 && "exit_nonzero"@.len() == 12);
    let (x, y) = (native_item(s, a)->Array_0, native_item(s, b)->Array_0);
    assert(x == y);
    lemma_limit_names(LimitKind::Wall, LimitKind::Cpu);
    match (a, b) {
        (
            NativeReport::Exited { success, code, oom_killed, stdout, stderr },
            NativeReport::Exited {
                success: success_b,
                code: code_b,
                oom_killed: oom_killed_b,
                stdout: stdout_b,
                stderr: stderr_b,
            },
        ) => {
            assert(oom_killed ==> x.len() == 2);
            assert(oom_killed_b ==> y.len() == 2);
            if !oom_killed && !oom_killed_b {
                assert(x[1] == y[1] && x[2] == y[2] && x[3] == y[3] && x[4] == y[4]);
                cbor::lemma_bytes_differ(
                    boundary::sha::sha256_of(stdout@),
                    boundary::sha::sha256_of(stdout_b@),
                );
                cbor::lemma_bytes_differ(
                    boundary::sha::sha256_of(stderr@),
                    boundary::sha::sha256_of(stderr_b@),
                );
            }
        },
        (NativeReport::SpawnFailed { .. }, NativeReport::SpawnFailed { .. }) => {
            assert(x[2] == y[2]);
        },
        _ => {
            assert(x[1] == y[1]);
        },
    }
}

/// The output of a step binds what was seen of it: two runners that end with one
/// status and one hash for a step saw the same of it.
pub proof fn law_output_binds_what_was_seen(
    ra: RunFact,
    rb: RunFact,
    s: Step,
    a: StepReport,
    b: StepReport,
)
    requires
        answers(a, s),
        answers(b, s),
        !ends_pipeline(a),
        !ends_pipeline(b),
        a matches StepReport::Fetch(Ok(out)) ==> vstd::utf8::encode_utf8(out.resolved_sha@).len()
            <= u64::MAX,
        b matches StepReport::Fetch(Ok(out)) ==> vstd::utf8::encode_utf8(out.resolved_sha@).len()
            <= u64::MAX,
        after_step(ra, s, a).outputs.last().status == after_step(rb, s, b).outputs.last().status,
        after_step(ra, s, a).outputs.last().hash == after_step(rb, s, b).outputs.last().hash,
    ensures
        seen_alike(a, b) || hashes_collide(),
{
    let (x, y) = (step_effect(ra, s, a), step_effect(rb, s, b));
    assert(x.0 == y.0 && x.1 == y.1);
    match (s, a, b) {
        (
            Step::ExecWasm { module, .. },
            StepReport::Wasm(Ok(ExecOutcome::Returned(v))),
            StepReport::Wasm(Ok(ExecOutcome::Returned(w))),
        ) => {
            let h = boundary::sha::sha256_of(module@);
            let (p, q) = (h + wasm_runtime::result_bytes(v), h + wasm_runtime::result_bytes(w));
            lemma_bytes_or_collision(p, q);
            if p == q {
                assert(p.skip(h.len() as int) =~= wasm_runtime::result_bytes(v));
                assert(q.skip(h.len() as int) =~= wasm_runtime::result_bytes(w));
                wasm_runtime::lemma_result_bytes_differ(v, w);
            }
        },
        (Step::SourceFetch { .. }, StepReport::Fetch(Ok(o)), StepReport::Fetch(Ok(p))) => {
            let u = source_fetch::output_bytes(o.resolved_sha@, o.tree_hash@);
            let v = source_fetch::output_bytes(p.resolved_sha@, p.tree_hash@);
            lemma_bytes_or_collision(u, v);
            if u == v {
                source_fetch::law_output_binds_commit_and_tree(
                    o.resolved_sha@,
                    o.tree_hash@,
                    p.resolved_sha@,
                    p.tree_hash@,
                );
            }
        },
        (Step::SourceFetch { .. }, StepReport::Fetch(Err(e)), StepReport::Fetch(Err(f))) => {
            let (u, v) = (numbered_item(s, fetch_error_id(e)), numbered_item(s, fetch_error_id(f)));
            lemma_same_or_collision(u, v);
            if u == v {
                assert(u->Array_0[1] == v->Array_0[1]);
            }
        },
        (Step::ExecNative { .. }, StepReport::Native(m), StepReport::Native(n)) => {
            lemma_same_or_collision(native_item(s, m), native_item(s, n));
            if native_item(s, m) == native_item(s, n) {
                lemma_native_documents(s, m, n);
                if let NativeReport::Exited { stdout, stderr, oom_killed, .. } = m {
                    if let NativeReport::Exited {
                        stdout: stdout_b,
                        stderr: stderr_b,
                        oom_killed: oom_killed_b,
                        ..
                    } = n {
                        if !oom_killed && !oom_killed_b {
                            lemma_bytes_or_collision(stdout@, stdout_b@);
                            lemma_bytes_or_collision(stderr@, stderr_b@);
                        }
                    }
                }
                let (u, v) = (native_item(s, m)->Array_0, native_item(s, n)->Array_0);
                assert(u.len() == v.len());
                assert(u[1] == v[1]);
                lemma_limit_names(LimitKind::Memory, LimitKind::Wall);
                lemma_limit_names(LimitKind::Memory, LimitKind::Cpu);
            }
        },
        _ => {},
    }
}

proof fn lemma_ran_output(steps: Seq<Step>, reports: Seq<StepReport>, i: int)
    requires
        0 <= i < reports.len(),
    ensures
        ran(steps, reports).outputs.len() == reports.len(),
        ran(steps, reports).outputs[i] == after_step(
            ran(steps, reports.take(i)),
            steps[i],
            reports[i],
        ).outputs.last(),
    decreases reports.len(),
{
    lemma_ran_len(steps, reports);
    let n = reports.len() - 1;
    let less = reports.drop_last();
    lemma_ran_len(steps, less);
    if i < n {
        lemma_ran_output(steps, less, i);
        assert(less.take(i) =~= reports.take(i));
        assert(less[i] == reports[i]);
    } else {
        assert(reports.take(i) =~= less);
    }
}

/// Runners that attest to one artifact hash for a pipeline saw the same of every
/// step: where one saw something else, the artifact hashes differ.
pub proof fn law_different_observations_differ(
    steps: Seq<Step>,
    a: Seq<StepReport>,
    b: Seq<StepReport>,
    ra: PipelineResult,
    rb: PipelineResult,
    i: int,
)
    requires
        is_result(steps, a, Ok(ra)),
        is_result(steps, b, Ok(rb)),
        forall|k: int| 0 <= k < steps.len() ==> answers(a[k], #[trigger] steps[k]),
        forall|k: int| 0 <= k < steps.len() ==> answers(b[k], #[trigger] steps[k]),
        0 <= i < steps.len(),
        a[i] matches StepReport::Fetch(Ok(out)) ==> vstd::utf8::encode_utf8(
            out.resolved_sha@,
        ).len() <= u64::MAX,
        b[i] matches StepReport::Fetch(Ok(out)) ==> vstd::utf8::encode_utf8(
            out.resolved_sha@,
        ).len() <= u64::MAX,
        ra.final_artifact_hash@ == rb.final_artifact_hash@,
    ensures
        seen_alike(a[i], b[i]) || hashes_collide(),
{
    law_artifact_binds_every_output(ra.steps@, rb.steps@);
    if !hashes_collide() {
        lemma_ran_output(steps, a, i);
        lemma_ran_output(steps, b, i);
        assert(outputs_of(ra.steps@)[i] == ra.steps@[i]@);
        assert(outputs_of(rb.steps@)[i] == rb.steps@[i]@);
        assert(answers(a[i], steps[i]));
        assert(answers(b[i], steps[i]));
        assert(!ends_pipeline(a[i]));
        assert(!ends_pipeline(b[i]));
        law_output_binds_what_was_seen(
            ran(steps, a.take(i)),
            ran(steps, b.take(i)),
            steps[i],
            a[i],
            b[i],
        );
    }
}

/// The output of a log capture binds both pipes of the native step that it logs.
pub proof fn law_log_binds_both_pipes(ra: RunFact, rb: RunFact, s: Step, report: StepReport)
    requires
        s is CaptureLog,
        ra.native is Some,
        rb.native is Some,
        after_step(ra, s, report).outputs.last().hash == after_step(
            rb,
            s,
            report,
        ).outputs.last().hash,
    ensures
        hashes_collide() || (ra.native->0.stdout == rb.native->0.stdout && ra.native->0.stderr
            == rb.native->0.stderr),
{
    let (m, n) = (ra.native->0, rb.native->0);
    let (x, y) = (log_item(s, m), log_item(s, n));
    lemma_same_or_collision(x, y);
    if x == y {
        assert(x->Array_0[2] == y->Array_0[2] && x->Array_0[3] == y->Array_0[3]);
        cbor::lemma_bytes_differ(
            boundary::sha::sha256_of(m.stdout),
            boundary::sha::sha256_of(n.stdout),
        );
        cbor::lemma_bytes_differ(
            boundary::sha::sha256_of(m.stderr),
            boundary::sha::sha256_of(n.stderr),
        );
        lemma_bytes_or_collision(m.stdout, n.stdout);
        lemma_bytes_or_collision(m.stderr, n.stderr);
    }
}

/// A log capture emits what the last native step before it left: its stdout and
/// its stderr, each under the capture's name, byte for byte.
pub proof fn law_log_emits_the_last_pipes(
    run: RunFact,
    native: Step,
    process: NativeReport,
    s: Step,
    report: StepReport,
)
    requires
        native is ExecNative,
        s is CaptureLog,
    ensures
        ({
            let ran = after_step(run, native, StepReport::Native(process));
            let c = after_step(ran, s, report).captures;
            let (out, err) = (c[c.len() - 2], c[c.len() - 1]);
            &&& c.len() == run.captures.len() + 2
            &&& out.kind == CaptureKind::Stdout && out.name == s->CaptureLog_name@ + ".stdout"@
            &&& err.kind == CaptureKind::Stderr && err.name == s->CaptureLog_name@ + ".stderr"@
            &&& match process {
                NativeReport::Exited { stdout, stderr, oom_killed, .. } => if oom_killed {
                    out.bytes.len() == 0 && err.bytes.len() == 0
                } else {
                    out.bytes == stdout@ && err.bytes == stderr@
                },
                _ => out.bytes.len() == 0 && err.bytes.len() == 0,
            }
            &&& out.length == out.bytes.len() as u64
            &&& err.length == err.bytes.len() as u64
        }),
{
}

/// Only a native step changes what a log capture would emit.
pub proof fn law_pipes_stay_until_the_next_native_step(run: RunFact, s: Step, report: StepReport)
    requires
        !(s is ExecNative),
    ensures
        after_step(run, s, report).native == run.native,
{
}

/// The status of a step says how it went: a process that a limit ended hit that
/// limit, one that ended by itself succeeded or failed, and one that never started
/// failed.
pub proof fn law_status_says_how_it_went(run: RunFact, s: Step, report: StepReport)
    requires
        answers(report, s),
        !ends_pipeline(report),
    ensures
        match (report, after_step(run, s, report).outputs.last().status) {
            (StepReport::Wasm(Ok(ExecOutcome::Returned(_))), st) => st == StepStatus::Success,
            (StepReport::Wasm(Ok(ExecOutcome::LimitExceeded(k))), st) => st
                == (StepStatus::LimitExceeded {
                which: match k {
                    ExecLimitKind::Cpu => LimitKind::Cpu,
                    ExecLimitKind::Memory => LimitKind::Memory,
                    ExecLimitKind::Wall => LimitKind::Wall,
                },
            }),
            (StepReport::Fetch(f), st) => st == (if f is Ok {
                StepStatus::Success
            } else {
                StepStatus::Failed
            }),
            (StepReport::Native(NativeReport::KilledByWall), st) => st
                == (StepStatus::LimitExceeded { which: LimitKind::Wall }),
            (StepReport::Native(NativeReport::KilledByCpu), st) => st
                == (StepStatus::LimitExceeded { which: LimitKind::Cpu }),
            (StepReport::Native(NativeReport::SpawnFailed { .. }), st) => st
                == StepStatus::Failed,
            (StepReport::Native(NativeReport::Exited { success, oom_killed, .. }), st) => st == (
            if oom_killed {
                StepStatus::LimitExceeded { which: LimitKind::Memory }
            } else if success {
                StepStatus::Success
            } else {
                StepStatus::Failed
            }),
            (StepReport::Nothing, st) => match s {
                Step::ExecNative { .. } => st == StepStatus::Failed,
                Step::CaptureLog { .. } => st == (if run.native is Some {
                    StepStatus::Success
                } else {
                    StepStatus::Failed
                }),
                _ => st == StepStatus::NotImplemented,
            },
            _ => false,
        },
{
}

/// Whether two entries of an allowlist let through the same.
pub open spec fn targets_alike(a: EgressTarget, b: EgressTarget) -> bool {
    match (a, b) {
        (
            EgressTarget::Host { hostname: h, port: p, scheme: s },
            EgressTarget::Host { hostname, port, scheme },
        ) => h@ == hostname@ && p == port && s == scheme,
        (
            EgressTarget::Cidr { cidr: c, port_range_start: s, port_range_end: e },
            EgressTarget::Cidr { cidr, port_range_start, port_range_end },
        ) => c@ == cidr@ && s == port_range_start && e == port_range_end,
        _ => false,
    }
}

/// Whether two limits allow the same.
pub open spec fn limits_alike(a: Limits, b: Limits) -> bool {
    &&& a.cpu_seconds == b.cpu_seconds
    &&& a.memory_mb == b.memory_mb
    &&& a.wall_seconds == b.wall_seconds
    &&& a.network.default == b.network.default
    &&& a.network.allow@.len() == b.network.allow@.len()
    &&& forall|i: int|
        0 <= i < a.network.allow@.len() ==> targets_alike(
            #[trigger] a.network.allow@[i],
            b.network.allow@[i],
        )
}

/// Whether two steps are the same in every part.
pub open spec fn steps_alike(a: Step, b: Step) -> bool {
    match (a, b) {
        (
            Step::SourceFetch { url: u, reference: r },
            Step::SourceFetch { url, reference },
        ) => u@ == url@ && r@ == reference@,
        (
            Step::ExecWasm { module: m, args_cbor: x, limits: l },
            Step::ExecWasm { module, args_cbor, limits },
        ) => m@ == module@ && x@ == args_cbor@ && limits_alike(l, limits),
        (
            Step::ExecNative { command: c, env: e, limits: l },
            Step::ExecNative { command, env, limits },
        ) => c@.len() == command@.len() && (forall|i: int|
            0 <= i < c@.len() ==> (#[trigger] c@[i])@ == command@[i]@) && e.list() == env.list()
            && limits_alike(l, limits),
        (Step::CaptureLog { name: n }, Step::CaptureLog { name }) => n@ == name@,
        (
            Step::CaptureArtifact { path: p, name: n },
            Step::CaptureArtifact { path, name },
        ) => p@ == path@ && n@ == name@,
        _ => false,
    }
}

proof fn lemma_targets_differ(a: EgressTarget, b: EgressTarget)
    requires
        target_item(a) == target_item(b),
    ensures
        targets_alike(a, b),
{
    reveal_strlit("Host");
    reveal_strlit("Cidr");
    reveal_strlit("Http");
    reveal_strlit("Https");
    reveal_strlit("Tcp");
    assert("Host"@[0] == 'H' && "Cidr"@[0] == 'C');
    assert("Http"@.len() == 4 && "Https"@.len() == 5 && "Tcp"@.len() == 3);
    let (x, y) = (target_item(a)->Entries_0[0], target_item(b)->Entries_0[0]);
    assert(x == y);
    let (m, n) = (x.1->Entries_0, y.1->Entries_0);
    assert(m[0].1 == n[0].1 && m[1].1 == n[1].1 && m[2].1 == n[2].1);
}

proof fn lemma_limits_differ(a: Limits, b: Limits)
    requires
        limits_item(a) == limits_item(b),
    ensures
        limits_alike(a, b),
{
    reveal_strlit("Deny");
    reveal_strlit("Audit");
    assert("Deny"@[0] == 'D' && "Audit"@[0] == 'A');
    let (m, n) = (limits_item(a)->Entries_0, limits_item(b)->Entries_0);
    assert(m == n);
    assert(m[0].1 == n[0].1 && m[1].1 == n[1].1 && m[2].1 == n[2].1 && m[3].1 == n[3].1);
    let (p, q) = (policy_item(a.network)->Entries_0, policy_item(b.network)->Entries_0);
    assert(p[0].1 == q[0].1 && p[1].1 == q[1].1);
    let (s, t) = (target_items(a.network.allow@), target_items(b.network.allow@));
    assert(s == t);
    assert(s.len() == a.network.allow@.len() && t.len() == b.network.allow@.len());
    assert forall|i: int| 0 <= i < a.network.allow@.len() implies targets_alike(
        #[trigger] a.network.allow@[i],
        b.network.allow@[i],
    ) by {
        assert(s[i] == t[i]);
        lemma_targets_differ(a.network.allow@[i], b.network.allow@[i]);
    }
}

proof fn lemma_steps_differ(a: Step, b: Step)
    requires
        step_item(a) == step_item(b),
    ensures
        steps_alike(a, b),
{
    reveal_strlit("SourceFetch");
    reveal_strlit("ExecWasm");
    reveal_strlit("ExecNative");
    reveal_strlit("CaptureLog");
    reveal_strlit("CaptureArtifact");
    assert("SourceFetch"@.len() == 11 && "ExecWasm"@.len() == 8 && "CaptureArtifact"@.len() == 15);
    assert("ExecNative"@[0] == 'E' && "CaptureLog"@[0] == 'C');
    let (x, y) = (step_item(a)->Entries_0[0], step_item(b)->Entries_0[0]);
    assert(x == y && x.0 == y.0 && x.1 == y.1);
    let (m, n) = (x.1->Entries_0, y.1->Entries_0);
    assert(m[0].1 == n[0].1 && m[1].1 == n[1].1 && m[2].1 == n[2].1);
    match (a, b) {
        (
            Step::ExecWasm { module: m, args_cbor: x, limits: l },
            Step::ExecWasm { module, args_cbor, limits },
        ) => {
            cbor::lemma_bytes_differ(m@, module@);
            cbor::lemma_bytes_differ(x@, args_cbor@);
            lemma_limits_differ(l, limits);
        },
        (
            Step::ExecNative { command: c, env: e, limits: l },
            Step::ExecNative { command, env, limits },
        ) => {
            let (s, t) = (string_items(c@), string_items(command@));
            assert(s == t);
            assert(s.len() == c@.len() && t.len() == command@.len());
            assert forall|i: int| 0 <= i < c@.len() implies (#[trigger] c@[i])@ == command@[i]@ by {
                assert(s[i] == t[i]);
            }
            let (p, q) = (env_item(e.list())->Entries_0, env_item(env.list())->Entries_0);
            assert(p == q);
            assert(p.len() == e.list().len() && q.len() == env.list().len());
            assert forall|i: int| 0 <= i < p.len() implies e.list()[i] == env.list()[i] by {
                assert(p[i] == q[i]);
                assert(p[i].0 == Item::Text(e.list()[i].0) && p[i].1 == Item::Text(e.list()[i].1));
                assert(q[i].0 == Item::Text(env.list()[i].0) && q[i].1 == Item::Text(
                    env.list()[i].1,
                ));
            }
            assert(e.list() =~= env.list());
            lemma_limits_differ(l, limits);
        },
        _ => {},
    }
}

/// The document of a pipeline carries every step in every part: pipelines with one
/// document ask for the same work under the same limits.
pub proof fn law_pipeline_document_carries_every_step(p: Pipeline, q: Pipeline, i: int)
    requires
        pipeline_item(p) == pipeline_item(q),
    ensures
        p.steps@.len() == q.steps@.len(),
        0 <= i < p.steps@.len() ==> steps_alike(p.steps@[i], q.steps@[i]),
{
    let (m, n) = (pipeline_item(p)->Entries_0, pipeline_item(q)->Entries_0);
    assert(m[0].1 == n[0].1);
    let (s, t) = (step_items(p.steps@), step_items(q.steps@));
    assert(s == t);
    assert(s.len() == p.steps@.len() && t.len() == q.steps@.len());
    if 0 <= i < p.steps@.len() {
        assert(s[i] == t[i]);
        lemma_steps_differ(p.steps@[i], q.steps@[i]);
    }
}

/// A step's output tells what was asked of it: where two steps of one kind, seen
/// alike, have one hash, they are the same step. A module that returned is told by
/// its bytes alone, a fetch that succeeded by what it fetched.
pub proof fn law_output_binds_the_step(run: RunFact, s: Step, t: Step, report: StepReport)
    requires
        answers(report, s),
        answers(report, t),
        !ends_pipeline(report),
        s is ExecWasm == t is ExecWasm,
        s is SourceFetch == t is SourceFetch,
        s is ExecNative == t is ExecNative,
        s is CaptureLog == t is CaptureLog,
        after_step(run, s, report).outputs.last().hash == after_step(
            run,
            t,
            report,
        ).outputs.last().hash,
    ensures
        hashes_collide() || match report {
            StepReport::Wasm(Ok(ExecOutcome::Returned(_))) => s->module@ == t->module@,
            StepReport::Fetch(Ok(_)) => true,
            _ => steps_alike(s, t),
        },
{
    match report {
        StepReport::Wasm(Ok(ExecOutcome::Returned(v))) => {
            let (x, y) = (
                boundary::sha::sha256_of(s->module@) + wasm_runtime::result_bytes(v),
                boundary::sha::sha256_of(t->module@) + wasm_runtime::result_bytes(v),
            );
            lemma_bytes_or_collision(x, y);
            if x == y {
                let (p, q) = (
                    boundary::sha::sha256_of(s->module@),
                    boundary::sha::sha256_of(t->module@),
                );
                let n = p.len();
                assert(x.len() == n + wasm_runtime::result_bytes(v).len());
                assert(y.len() == q.len() + wasm_runtime::result_bytes(v).len());
                assert(x.take(n as int) =~= p);
                assert(y.take(n as int) =~= q);
                lemma_bytes_or_collision(s->module@, t->module@);
            }
        },
        StepReport::Wasm(Ok(ExecOutcome::LimitExceeded(k))) => {
            lemma_listed_step(limit_item(s, step_limit(k)), limit_item(t, step_limit(k)), s, t);
        },
        StepReport::Fetch(Err(e)) => {
            lemma_listed_step(
                numbered_item(s, fetch_error_id(e)),
                numbered_item(t, fetch_error_id(e)),
                s,
                t,
            );
        },
        StepReport::Native(n) => {
            lemma_listed_step(native_item(s, n), native_item(t, n), s, t);
        },
        StepReport::Nothing => match s {
            Step::ExecNative { .. } => {
                lemma_listed_step(
                    tagged_item(s, "empty_command"@),
                    tagged_item(t, "empty_command"@),
                    s,
                    t,
                );
            },
            Step::CaptureLog { .. } => match run.native {
                Some(native) => {
                    lemma_listed_step(log_item(s, native), log_item(t, native), s, t);
                },
                None => {
                    lemma_listed_step(
                        tagged_item(s, "no_preceding_exec_native"@),
                        tagged_item(t, "no_preceding_exec_native"@),
                        s,
                        t,
                    );
                },
            },
            _ => {
                lemma_same_or_collision(step_item(s), step_item(t));
                if step_item(s) == step_item(t) {
                    lemma_steps_differ(s, t);
                }
            },
        },
        _ => {},
    }
}

proof fn lemma_listed_step(x: Item, y: Item, s: Step, t: Step)
    requires
        canonical_hash(x) == canonical_hash(y),
        x is Array,
        y is Array,
        x->Array_0.len() > 0,
        y->Array_0.len() > 0,
        x->Array_0[0] == step_item(s),
        y->Array_0[0] == step_item(t),
    ensures
        steps_alike(s, t) || hashes_collide(),
{
    lemma_same_or_collision(x, y);
    if x == y {
        lemma_steps_differ(s, t);
    }
}

/// The work of a step is that of its kind; a command of no words, and what only
/// captures, is no work.
pub proof fn law_step_asks_for_its_work(s: Step)
    ensures
        work_of(s) == Work::Wasm <==> s is ExecWasm,
        work_of(s) == Work::Fetch <==> s is SourceFetch,
        work_of(s) == Work::Native <==> s is ExecNative && s->command@.len() > 0,
        work_of(s) == Work::Nothing <==> s is CaptureLog || s is CaptureArtifact || (s is ExecNative
            && s->command@.len() == 0),
{
}

/// Limits are budgets in proportion: of fuel for a CPU second, of bytes for a
/// megabyte, of nanoseconds for a second.
pub proof fn law_budget_is_in_proportion(l: Limits)
    requires
        l.cpu_seconds * FUEL_PER_CPU_SECOND <= u64::MAX,
    ensures
        budget_of(l).fuel == l.cpu_seconds * FUEL_PER_CPU_SECOND,
        l.memory_mb * 1_048_576 <= usize::MAX ==> budget_of(l).memory_bytes == l.memory_mb
            * 1_048_576,
        l.memory_mb * 1_048_576 > usize::MAX ==> budget_of(l).memory_bytes == usize::MAX,
        budget_of(l).wall_ns == l.wall_seconds * 1_000_000_000,
{
}

} // verus!
