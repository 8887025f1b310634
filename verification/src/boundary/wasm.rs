//! WebAssembly: the text format from `wat`, execution from `wasmtime`.
//!
//! What a module computes rests on the machine that runs it (its memory, its
//! stack, its code generator), so nothing is promised of the outcome of a call;
//! what the library does with each outcome is proved for every one.

use crate::wasm_runtime::Attempt;
use vstd::prelude::*;

verus! {

/// The binary module that a text writes, or the message that says why it writes
/// none.
pub uninterp spec fn module_of(text: Seq<char>) -> Result<Seq<u8>, Seq<char>>;

/// The two arguments that bytes encode, or the message that says why they encode
/// none.
pub uninterp spec fn arguments_of(bytes: Seq<u8>) -> Result<(i32, i32), Seq<char>>;

/// `wat::parse_str`: the module, or the message of the error, depends on the
/// text alone.
#[verifier::external_body]
pub(crate) fn parse_text(text: &str) -> (r: Result<Vec<u8>, String>)
    ensures
        match r {
            Ok(m) => module_of(text@) == Ok::<Seq<u8>, Seq<char>>(m@),
            Err(e) => module_of(text@) == Err::<Seq<u8>, Seq<char>>(e@),
        },
{
    wat::parse_str(text).map_err(|e| e.to_string())
}

/// `ciborium::from_reader` into a pair of `i32`: the pair, or the message of the
/// error, depends on the bytes alone, and the encoding of a pair reads back as
/// the pair.
#[verifier::external_body]
pub(crate) fn decode_pair(bytes: &[u8]) -> (r: Result<(i32, i32), String>)
    ensures
        match r {
            Ok(p) => arguments_of(bytes@) == Ok::<(i32, i32), Seq<char>>(p),
            Err(e) => arguments_of(bytes@) == Err::<(i32, i32), Seq<char>>(e@),
        },
        crate::wasm_runtime::gives_back(bytes@, r),
{
    ciborium::from_reader::<(i32, i32), _>(bytes).map_err(|e| e.to_string())
}

#[verifier::external_type_specification]
#[verifier::external_body]
pub struct ExModule(wasmtime::Module);

/// `wasmtime::Module::new` on a default engine. Nothing is promised of the
/// outcome.
#[verifier::external_body]
pub(crate) fn compile(wasm: &[u8]) -> (r: Result<wasmtime::Module, String>) {
    wasmtime::Module::new(&wasmtime::Engine::default(), wasm).map_err(|e| e.to_string())
}

/// One call of an export that takes two `i32` and returns one: on a store that
/// `wasmtime::Store::new` makes for the module's engine, with no limits,
/// `wasmtime::Instance::new` instantiates the module without imports,
/// `wasmtime::Instance::get_typed_func` looks the export up, and
/// `wasmtime::TypedFunc::call` calls it. The store never leaves this function.
/// Nothing is promised of the outcome.
#[verifier::external_body]
pub(crate) fn invoke(module: &wasmtime::Module, name: &str, a: i32, b: i32) -> (r: Attempt) {
    let mut store = wasmtime::Store::new(module.engine(), ());
    let instance = match wasmtime::Instance::new(&mut store, module, &[]) {
        Ok(i) => i,
        Err(e) => return Attempt::NotInstantiated(e.to_string()),
    };
    let func = match instance.get_typed_func::<(i32, i32), i32>(&mut store, name) {
        Ok(f) => f,
        Err(e) => return Attempt::NotFound(e.to_string()),
    };
    match func.call(&mut store, (a, b)) {
        Ok(v) => Attempt::Returned(v),
        Err(e) => Attempt::Failed(format!("{e:#}")),
    }
}

} // verus!
