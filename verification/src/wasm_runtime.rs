//! WebAssembly execution: deterministic payloads and the hash of what they
//! return.
//!
//! # ABI
//!
//! A payload is a binary `.wasm` module that exports:
//!
//! ```text
//! (func (export "add") (param i32 i32) (result i32))
//! ```
//!
//! The two `i32` arguments are CBOR-decoded from the argument blob as a tuple.
//! The `i32` return value is the observable output: a 4-byte little-endian value
//! which, together with the SHA-256 of the module bytes, identifies an
//! execution. Two committee members that run different modules cannot agree on
//! the same output.

use crate::boundary;
use crate::bytes;
use crate::cbor;
use crate::text;
use vstd::prelude::*;

verus! {

/// The canned `add(a, b) -> i32` module in text form. Used by demos and
/// tests when no externally supplied module is available.
pub const CANNED_WAT: &'static str = "\n(module\n    (func $add (export \"add\") (param $a i32) (param $b i32) (result i32)\n        local.get $a\n        local.get $b\n        i32.add)\n)\n";

/// The canned `mul(a, b) -> i32` module: same `add` export name, different
/// implementation.
pub const CANNED_MUL_WAT: &'static str = "\n(module\n    (func $add (export \"add\") (param $a i32) (param $b i32) (result i32)\n        local.get $a\n        local.get $b\n        i32.mul)\n)\n";

/// Compile a text module into a binary one.
///
/// # Errors
///
/// Returns a string error if the text fails to parse.
pub fn wat_to_wasm(wat: &str) -> (r: Result<Vec<u8>, String>)
    ensures
        match r {
            Ok(m) => boundary::wasm::module_of(wat@) == Ok::<Seq<u8>, Seq<char>>(m@),
            Err(e) => boundary::wasm::module_of(wat@) matches Err(cause) && e@ == "wat: "@ + cause,
        },
{
    match boundary::wasm::parse_text(wat) {
        Ok(m) => Ok(m),
        Err(e) => Err(text::joined("wat: ", e.as_str())),
    }
}

/// Bytes of the canned add module (`add(a,b) -> a+b`).
///
/// # Errors
///
/// Returns a string error if the canned text fails to parse.
pub fn canned_add_module() -> (r: Result<Vec<u8>, String>)
    ensures
        match r {
            Ok(m) => boundary::wasm::module_of(CANNED_WAT@) == Ok::<Seq<u8>, Seq<char>>(m@),
            Err(e) => boundary::wasm::module_of(CANNED_WAT@) matches Err(cause) && e@ == "wat: "@
                + cause,
        },
{
    wat_to_wasm(CANNED_WAT)
}

/// Bytes of the canned mul module (`add(a,b) -> a*b`).
///
/// # Errors
///
/// Returns a string error if the canned text fails to parse.
pub fn canned_mul_module() -> (r: Result<Vec<u8>, String>)
    ensures
        match r {
            Ok(m) => boundary::wasm::module_of(CANNED_MUL_WAT@) == Ok::<Seq<u8>, Seq<char>>(m@),
            Err(e) => boundary::wasm::module_of(CANNED_MUL_WAT@) matches Err(cause) && e@
                == "wat: "@ + cause,
        },
{
    wat_to_wasm(CANNED_MUL_WAT)
}

/// SHA-256 of the module bytes.
#[must_use]
pub fn module_hash(wasm: &[u8]) -> (r: [u8; 32])
    ensures
        r@ == boundary::sha::sha256_of(wasm@),
{
    boundary::sha::sha256(wasm)
}

/// The document of an argument pair.
pub open spec fn arguments_item(a: i32, b: i32) -> cbor::Item {
    cbor::Item::Array(seq![cbor::int_item(a as int), cbor::int_item(b as int)])
}

/// CBOR-encode `(a, b)` as the argument blob that [`execute`] expects.
#[must_use]
pub fn encode_args(a: i32, b: i32) -> (r: Vec<u8>)
    ensures
        r@ == boundary::cbor::encoding_of(arguments_item(a, b)),
{
    let mut v: Vec<cbor::Cbor> = Vec::new();
    v.push(cbor::signed(a as i64));
    v.push(cbor::signed(b as i64));
    proof {
        let items = arguments_item(a, b)->Array_0;
        assert(cbor::items(v@) =~= items);
        assert forall|i: int| 0 <= i < items.len() implies cbor::is_encodable(
            #[trigger] items[i],
            63,
        ) by {}
    }
    boundary::cbor::encode(&cbor::array(v))
}

/// Whether the encoding of a pair reads back as the pair.
pub open spec fn gives_back(blob: Seq<u8>, r: Result<(i32, i32), String>) -> bool {
    forall|a: i32, b: i32|
        blob == boundary::cbor::encoding_of(#[trigger] arguments_item(a, b)) ==> r == Ok::<
            (i32, i32),
            String,
        >((a, b))
}

/// The arguments that a blob encodes.
///
/// # Errors
///
/// Where the blob does not decode as a pair of `i32`. The blob that
/// [`encode_args`] wrote always does, and gives the pair back.
pub fn decode_args(args_cbor: &[u8]) -> (r: Result<(i32, i32), String>)
    ensures
        match r {
            Ok(p) => boundary::wasm::arguments_of(args_cbor@) == Ok::<(i32, i32), Seq<char>>(p),
            Err(e) => boundary::wasm::arguments_of(args_cbor@) matches Err(cause) && e@
                == "cbor decode args: "@ + cause,
        },
        gives_back(args_cbor@, r),
{
    match boundary::wasm::decode_pair(args_cbor) {
        Ok(p) => Ok(p),
        Err(e) => Err(text::joined("cbor decode args: ", e.as_str())),
    }
}

// ── Resource-limited execution ─────────────────────────────────────────────
/// Per-step resource budget. Zero means unlimited for each axis.
#[derive(Clone, Copy, Debug, PartialEq, Eq, Structural)]
pub struct ExecLimits {
    /// Fuel budget (≈ instruction count). `0` = unlimited.
    pub fuel: u64,
    /// Linear-memory cap in bytes. `0` = unlimited.
    pub memory_bytes: usize,
    /// Wall-clock deadline in nanoseconds. `0` = unlimited.
    pub wall_ns: u64,
}

impl ExecLimits {
    /// All limits unlimited: no enforcement at all.
    #[must_use]
    pub fn unlimited() -> (r: Self)
        ensures
            r == (ExecLimits { fuel: 0, memory_bytes: 0, wall_ns: 0 }),
    {
        ExecLimits { fuel: 0, memory_bytes: 0, wall_ns: 0 }
    }
}

/// Which resource limit a call exceeded.
#[derive(Clone, Copy, Debug, PartialEq, Eq, Structural)]
pub enum ExecLimitKind {
    /// Fuel budget exhausted (cpu).
    Cpu,
    /// Linear-memory cap exceeded.
    Memory,
    /// Wall-clock deadline reached.
    Wall,
}

/// Outcome of a limit-checked execution.
#[derive(Clone, Copy, Debug, PartialEq, Eq, Structural)]
pub enum ExecOutcome {
    /// Call returned normally with this `i32` value.
    Returned(i32),
    /// Call was terminated because it exceeded the indicated limit.
    LimitExceeded(ExecLimitKind),
}

/// One call of a module's `add` export under a budget.
#[derive(Clone, Copy, Debug, PartialEq, Eq)]
pub struct Invocation<'a> {
    /// The module.
    pub wasm: &'a [u8],
    /// First argument.
    pub a: i32,
    /// Second argument.
    pub b: i32,
    /// The budget.
    pub limits: ExecLimits,
}

/// What became of an invocation.
#[derive(Clone, Debug, PartialEq, Eq)]
pub enum CallReport {
    /// The call returned.
    Returned(i32),
    /// The call ran out of fuel.
    OutOfFuel,
    /// The call was interrupted at its deadline.
    Interrupted,
    /// The call failed otherwise; carries the error's text.
    Failed(String),
    /// There was nothing to call; carries what went wrong before it.
    NotStarted(String),
}

/// How the error of a memory growth past the cap starts.
pub const MEMORY_CAP_EXCEEDED: &'static str = "cosaci-wasm memory cap exceeded";

/// The error of a memory growth past the cap.
pub open spec fn growth_error(desired: usize, max_bytes: usize) -> Seq<char> {
    MEMORY_CAP_EXCEEDED@ + ": requested "@ + text::decimal_of(desired as nat) + " > cap "@
        + text::decimal_of(max_bytes as nat)
}

/// Whether linear memory may grow to `desired` bytes under a cap, zero being no
/// cap.
///
/// # Errors
///
/// Past the cap, with the text that [`conclude`] takes for a memory limit.
pub fn memory_growing(max_bytes: usize, desired: usize) -> (r: Result<(), String>)
    ensures
        r is Ok <==> max_bytes == 0 || desired <= max_bytes,
        r matches Err(e) ==> e@ == growth_error(desired, max_bytes),
{
    if max_bytes > 0 && desired > max_bytes {
        let mut e = MEMORY_CAP_EXCEEDED.to_owned();
        text::append_str(&mut e, ": requested ");
        text::append_decimal(&mut e, desired as u64);
        text::append_str(&mut e, " > cap ");
        text::append_decimal(&mut e, max_bytes as u64);
        return Err(e);
    }
    Ok(())
}

/// What an invocation comes to.
pub open spec fn conclusion(report: CallReport) -> Result<ExecOutcome, Seq<char>> {
    match report {
        CallReport::Returned(v) => Ok(ExecOutcome::Returned(v)),
        CallReport::OutOfFuel => Ok(ExecOutcome::LimitExceeded(ExecLimitKind::Cpu)),
        CallReport::Interrupted => Ok(ExecOutcome::LimitExceeded(ExecLimitKind::Wall)),
        CallReport::Failed(msg) => if text::holds(msg@, MEMORY_CAP_EXCEEDED@) {
            Ok(ExecOutcome::LimitExceeded(ExecLimitKind::Memory))
        } else {
            Err("call: "@ + msg@)
        },
        CallReport::NotStarted(msg) => Err(msg@),
    }
}

/// Whether a result says what it should.
pub open spec fn says<T>(r: Result<T, String>, want: Result<T, Seq<char>>) -> bool {
    match r {
        Ok(v) => want == Ok::<T, Seq<char>>(v),
        Err(e) => want == Err::<T, Seq<char>>(e@),
    }
}

/// What an invocation comes to: a value, the limit that it hit, or an error that
/// no limit explains.
///
/// # Errors
///
/// Where nothing was called, or the call failed for a reason other than a limit.
pub fn conclude(report: CallReport) -> (r: Result<ExecOutcome, String>)
    ensures
        says(r, conclusion(report)),
{
    match report {
        CallReport::Returned(v) => Ok(ExecOutcome::Returned(v)),
        CallReport::OutOfFuel => Ok(ExecOutcome::LimitExceeded(ExecLimitKind::Cpu)),
        CallReport::Interrupted => Ok(ExecOutcome::LimitExceeded(ExecLimitKind::Wall)),
        CallReport::Failed(msg) => {
            let m = text::chars_of(msg.as_str());
            let tag = text::chars_of(MEMORY_CAP_EXCEEDED);
            if text::contains(m.as_slice(), tag.as_slice()) {
                Ok(ExecOutcome::LimitExceeded(ExecLimitKind::Memory))
            } else {
                Err(text::joined("call: ", msg.as_str()))
            }
        },
        CallReport::NotStarted(msg) => Err(msg),
    }
}

/// Execute the `add` export under a resource budget, where `run` performs one
/// invocation.
///
/// # Errors
///
/// Where the arguments do not decode, in which case nothing is run, and where
/// the invocation fails for a reason other than a limit.
pub fn execute_with_limits<F>(wasm: &[u8], args_cbor: &[u8], limits: ExecLimits, run: F) -> (r:
    Result<ExecOutcome, String>) where F: Fn(Invocation<'_>) -> CallReport
    requires
        forall|i: Invocation<'_>| run.requires((i,)),
    ensures
        match boundary::wasm::arguments_of(args_cbor@) {
            Err(cause) => r matches Err(e) && e@ == "cbor decode args: "@ + cause,
            Ok(p) => exists|report: CallReport|
                run.ensures((Invocation { wasm, a: p.0, b: p.1, limits },), report)
                    && #[trigger] says(r, conclusion(report)),
        },
{
    match decode_args(args_cbor) {
        Err(e) => Err(e),
        Ok(p) => {
            let report = run(Invocation { wasm, a: p.0, b: p.1, limits });
            conclude(report)
        },
    }
}

/// How far a compiled module got without limits.
#[derive(Clone, Debug, PartialEq, Eq)]
pub enum Attempt {
    /// It could not be instantiated; carries the error's text.
    NotInstantiated(String),
    /// It has no such export; carries the error's text.
    NotFound(String),
    /// The call failed; carries the error's text.
    Failed(String),
    /// The call returned.
    Returned(i32),
}

/// Whether a report says that nothing was called, and names the stage that
/// failed with its cause.
pub open spec fn stopped_at(report: CallReport, stage: Seq<char>, cause: Seq<char>) -> bool {
    report matches CallReport::NotStarted(msg) && msg@ == stage + cause
}

/// Whether a report says what an attempt to call `add` came to.
pub open spec fn reports(report: CallReport, attempt: Attempt) -> bool {
    match attempt {
        Attempt::NotInstantiated(e) => stopped_at(report, "instance: "@, e@),
        Attempt::NotFound(e) => stopped_at(report, "get_typed_func add: "@, e@),
        Attempt::Failed(e) => report == CallReport::Failed(e),
        Attempt::Returned(v) => report == CallReport::Returned(v),
    }
}

/// The report on an attempt to call `add`.
#[must_use]
pub fn report_on(attempt: Attempt) -> (r: CallReport)
    ensures
        reports(r, attempt),
{
    match attempt {
        Attempt::NotInstantiated(e) => CallReport::NotStarted(
            text::joined("instance: ", e.as_str()),
        ),
        Attempt::NotFound(e) => CallReport::NotStarted(
            text::joined("get_typed_func add: ", e.as_str()),
        ),
        Attempt::Failed(e) => CallReport::Failed(e),
        Attempt::Returned(v) => CallReport::Returned(v),
    }
}

/// Whether calling `add` of a compiled module can come to this report.
spec fn can_run(module: wasmtime::Module, a: i32, b: i32, report: CallReport) -> bool {
    exists|attempt: Attempt| #[trigger]
        call_ensures(boundary::wasm::invoke, (&module, "add", a, b), attempt) && reports(
            report,
            attempt,
        )
}

/// Whether one invocation of the `add` export of this module with these
/// arguments, without limits, can come to this report: the module goes into the
/// compiler, `add` of what it compiles to is called with the two arguments, and
/// the first stage to fail is named with its cause.
pub closed spec fn can_report(wasm: Seq<u8>, a: i32, b: i32, report: CallReport) -> bool {
    exists|bytes: &[u8], compiled: Result<wasmtime::Module, String>|
        bytes@ == wasm && #[trigger] call_ensures(boundary::wasm::compile, (bytes,), compiled)
            && match compiled {
            Ok(module) => can_run(module, a, b, report),
            Err(e) => stopped_at(report, "module: "@, e@),
        }
}

/// One invocation without limits. What a call returns rests on the module and
/// on the machine; what is handed to each call, and what becomes of each reply,
/// is stated.
fn run_unlimited(wasm: &[u8], a: i32, b: i32) -> (r: CallReport)
    ensures
        can_report(wasm@, a, b, r),
        r is Returned || r is Failed || r is NotStarted,
{
    let compiled = boundary::wasm::compile(wasm);
    assert(call_ensures(boundary::wasm::compile, (wasm,), compiled));
    match compiled {
        Ok(module) => {
            let attempt = boundary::wasm::invoke(&module, "add", a, b);
            assert(call_ensures(boundary::wasm::invoke, (&module, "add", a, b), attempt));
            report_on(attempt)
        },
        Err(e) => CallReport::NotStarted(text::joined("module: ", e.as_str())),
    }
}

/// The name of a limit.
pub open spec fn limit_name(kind: ExecLimitKind) -> Seq<char> {
    match kind {
        ExecLimitKind::Cpu => "Cpu"@,
        ExecLimitKind::Memory => "Memory"@,
        ExecLimitKind::Wall => "Wall"@,
    }
}

/// The value of an outcome that no budget can have cut short.
pub open spec fn unlimited_value(outcome: Result<ExecOutcome, Seq<char>>) -> Result<i32, Seq<char>> {
    match outcome {
        Ok(ExecOutcome::Returned(v)) => Ok(v),
        Ok(ExecOutcome::LimitExceeded(kind)) => Err(
            "limit exceeded ("@ + limit_name(kind)
                + ") under unlimited budget — should be impossible"@,
        ),
        Err(e) => Err(e),
    }
}

/// The value of an outcome that no budget can have cut short.
///
/// # Errors
///
/// Where the outcome is an error, or says that a limit was hit all the same.
pub fn expect_unlimited(outcome: Result<ExecOutcome, String>) -> (r: Result<i32, String>)
    ensures
        ({
            let o = match outcome {
                Ok(v) => Ok::<ExecOutcome, Seq<char>>(v),
                Err(e) => Err(e@),
            };
            says(r, unlimited_value(o))
        }),
{
    match outcome {
        Ok(ExecOutcome::Returned(v)) => Ok(v),
        Ok(ExecOutcome::LimitExceeded(kind)) => {
            let mut e = "limit exceeded (".to_owned();
            match kind {
                ExecLimitKind::Cpu => text::append_str(&mut e, "Cpu"),
                ExecLimitKind::Memory => text::append_str(&mut e, "Memory"),
                ExecLimitKind::Wall => text::append_str(&mut e, "Wall"),
            }
            text::append_str(&mut e, ") under unlimited budget — should be impossible");
            Err(e)
        },
        Err(e) => Err(e),
    }
}

/// Execute the `add` export of a module against CBOR-encoded `(i32, i32)`
/// arguments, without limits. Returns the `i32` result.
///
/// # Errors
///
/// Returns a string error if the arguments fail to decode, the module fails to
/// compile or instantiate, the `add` export is missing or has the wrong
/// signature, or the call traps.
pub fn execute(wasm: &[u8], args_cbor: &[u8]) -> (r: Result<i32, String>)
    ensures
        match boundary::wasm::arguments_of(args_cbor@) {
            Err(cause) => r matches Err(e) && e@ == "cbor decode args: "@ + cause,
            Ok(p) => exists|report: CallReport|
                can_report(wasm@, p.0, p.1, report) && (report is Returned || report is Failed
                    || report is NotStarted) && #[trigger] says(
                    r,
                    unlimited_value(conclusion(report)),
                ),
        },
{
    match decode_args(args_cbor) {
        Err(e) => Err(e),
        Ok(p) => {
            let report = run_unlimited(wasm, p.0, p.1);
            let ghost rv = report;
            let r = expect_unlimited(conclude(report));
            assert(says(r, unlimited_value(conclusion(rv))));
            r
        },
    }
}

/// Compile and run the canned `add(a, b)` module.
///
/// # Errors
///
/// See [`execute`].
pub fn execute_add(a: i32, b: i32) -> (r: Result<i32, String>)
    ensures
        match boundary::wasm::module_of(CANNED_WAT@) {
            Err(cause) => r matches Err(e) && e@ == "wat: "@ + cause,
            Ok(module) => exists|report: CallReport|
                can_report(module, a, b, report) && (report is Returned || report is Failed
                    || report is NotStarted) && #[trigger] says(
                    r,
                    unlimited_value(conclusion(report)),
                ),
        },
{
    let wasm = match canned_add_module() {
        Ok(m) => m,
        Err(e) => return Err(e),
    };
    match decode_args(encode_args(a, b).as_slice()) {
        Ok(p) => {
            let report = run_unlimited(wasm.as_slice(), p.0, p.1);
            let ghost rv = report;
            let r = expect_unlimited(conclude(report));
            assert(says(r, unlimited_value(conclusion(rv))));
            r
        },
        Err(e) => {
            assert(arguments_item(a, b) == arguments_item(a, b));
            assert(false);
            Err(e)
        },
    }
}

/// The four bytes of a result, least significant first.
pub open spec fn result_bytes(result: i32) -> Seq<u8> {
    bytes::le_of(
        (if result >= 0 {
            result as int
        } else {
            result + 0x1_0000_0000
        }) as nat,
        4,
    )
}

/// SHA-256 of the module hash and the result's little-endian bytes. Binds the
/// output hash to the module that produced it, so two committee members that
/// execute different modules never agree on the same output even if they happen
/// to compute the same result.
#[must_use]
pub fn output_hash(module_hash: &[u8; 32], result: i32) -> (r: [u8; 32])
    ensures
        r@ == boundary::sha::sha256_of(module_hash@ + result_bytes(result)),
{
    let mut data: Vec<u8> = Vec::new();
    bytes::append_bytes(&mut data, module_hash.as_slice());
    let n: u128 = if result >= 0 {
        result as u128
    } else {
        (result as i64 + 0x1_0000_0000) as u128
    };
    bytes::append_le(&mut data, n, 4);
    assert(data@ =~= module_hash@ + result_bytes(result));
    boundary::sha::sha256(data.as_slice())
}

// ── Laws ───────────────────────────────────────────────────────────────────
/// A growth that the cap refuses is reported as a memory limit, whatever text
/// the runtime puts around the refusal.
pub proof fn law_refused_growth_is_a_memory_limit(
    desired: usize,
    max_bytes: usize,
    before: Seq<char>,
    after: Seq<char>,
    msg: String,
)
    requires
        msg@ == before + growth_error(desired, max_bytes) + after,
    ensures
        conclusion(CallReport::Failed(msg)) == Ok::<ExecOutcome, Seq<char>>(
            ExecOutcome::LimitExceeded(ExecLimitKind::Memory),
        ),
{
    let i = before.len() as int;
    let tag = MEMORY_CAP_EXCEEDED@;
    assert(msg@.subrange(i, i + tag.len()) =~= tag);
}

/// Different results have different bytes.
pub proof fn lemma_result_bytes_differ(a: i32, b: i32)
    requires
        result_bytes(a) == result_bytes(b),
    ensures
        a == b,
{
    reveal(vstd::arithmetic::power::pow);
    reveal_with_fuel(vstd::arithmetic::power::pow, 5);
    let m = (if a >= 0 {
        a as int
    } else {
        a + 0x1_0000_0000
    }) as nat;
    let n = (if b >= 0 {
        b as int
    } else {
        b + 0x1_0000_0000
    }) as nat;
    bytes::law_le_round_trip(m, 4);
    bytes::law_le_round_trip(n, 4);
}

/// A different module or a different result changes the bytes that the output
/// hash covers.
pub proof fn law_output_binds_module_and_result(ha: [u8; 32], a: i32, hb: [u8; 32], b: i32)
    requires
        ha@ + result_bytes(a) == hb@ + result_bytes(b),
    ensures
        ha == hb,
        a == b,
{
    let s = ha@ + result_bytes(a);
    assert(s.take(32) =~= ha@);
    assert(s.take(32) =~= hb@);
    assert(s.skip(32) =~= result_bytes(a));
    assert(s.skip(32) =~= result_bytes(b));
    lemma_result_bytes_differ(a, b);
    assert(ha =~= hb);
}

/// What a call came to: a value, the limit that it ran into, or a failure. No other
/// report makes any of these.
pub proof fn law_report_tells_the_outcome(report: CallReport, v: i32)
    ensures
        conclusion(report) == Ok::<ExecOutcome, Seq<char>>(ExecOutcome::Returned(v)) <==> report
            == CallReport::Returned(v),
        conclusion(report) == Ok::<ExecOutcome, Seq<char>>(
            ExecOutcome::LimitExceeded(ExecLimitKind::Cpu),
        ) <==> report is OutOfFuel,
        conclusion(report) == Ok::<ExecOutcome, Seq<char>>(
            ExecOutcome::LimitExceeded(ExecLimitKind::Wall),
        ) <==> report is Interrupted,
        conclusion(report) == Ok::<ExecOutcome, Seq<char>>(
            ExecOutcome::LimitExceeded(ExecLimitKind::Memory),
        ) <==> report is Failed && text::holds(report->Failed_0@, MEMORY_CAP_EXCEEDED@),
        conclusion(report) is Err <==> report is NotStarted || (report is Failed && !text::holds(
            report->Failed_0@,
            MEMORY_CAP_EXCEEDED@,
        )),
        report matches CallReport::NotStarted(msg) ==> conclusion(report) == Err::<
            ExecOutcome,
            Seq<char>,
        >(msg@),
        unlimited_value(conclusion(report)) == Ok::<i32, Seq<char>>(v) <==> report
            == CallReport::Returned(v),
{
}

/// The document of two arguments carries both, in order.
pub proof fn law_argument_document_carries_both(a: i32, b: i32, c: i32, d: i32)
    requires
        arguments_item(a, b) == arguments_item(c, d),
    ensures
        a == c,
        b == d,
{
    let (x, y) = (arguments_item(a, b)->Array_0, arguments_item(c, d)->Array_0);
    assert(x[0] == y[0] && x[1] == y[1]);
}

} // verus!
