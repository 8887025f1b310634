use cosaci::env_map::EnvMap;
use cosaci::jobs::{
    canonical_encoding, exec_limits, execute_pipeline, hash_canonical, step_to_cbor, work_for,
    CaptureKind, LimitKind, Limits, NativeReport, Pipeline, PipelineError, PipelineRun, Step,
    StepReport, StepStatus, Work,
};
use cosaci::native::{
    cgroup_name, cgroup_plan, cpu_usage_usec, current_cgroup_path, memory_max, must_poll,
    subtree_has_controller, wait_action, was_oom_killed, CappedBuffer, CgroupPlan, ProcessLook,
    WaitAction,
};
use cosaci::network::{
    allow_all, cidr_contains, deny_all, evaluate, parse_addr, Decision, EgressAttempt,
    EgressDefault, EgressTarget, IpAddr, NetworkPolicy, Scheme,
};
use cosaci::source_fetch;
use cosaci::source_fetch::{
    after_git, canonical_mode, execute_source_fetch, git_arguments, hash_working_tree,
    path_to_unix, walk_action, FetchStage, GitOutcome, NodeKind, SourceFetchError,
    SourceFetchOutput, TreeEntry, WalkAction,
};
use cosaci::wasm_runtime;
use cosaci::wasm_runtime::{
    canned_add_module, canned_mul_module, conclude, decode_args, encode_args, execute, execute_add,
    execute_with_limits, memory_growing, report_on, wat_to_wasm, Attempt, CallReport,
    ExecLimitKind, ExecLimits, ExecOutcome,
};
use sha2::{Digest, Sha256};

fn sha(bytes: &[u8]) -> [u8; 32] {
    Sha256::digest(bytes).into()
}

#[test]
fn canned_modules_compute() {
    let add = canned_add_module().expect("add");
    let mul = canned_mul_module().expect("mul");
    assert_eq!(execute(&add, &encode_args(21, 21)), Ok(42));
    assert_eq!(execute(&mul, &encode_args(6, -7)), Ok(-42));
    assert_eq!(execute_add(i32::MAX, 1), Ok(i32::MIN));
    assert_eq!(&add[..4], b"\0asm");
}

#[test]
fn arguments_round_trip() {
    for (a, b) in [(0, 0), (1, -1), (i32::MIN, i32::MAX)] {
        assert_eq!(decode_args(&encode_args(a, b)), Ok((a, b)));
    }
    assert_eq!(encode_args(1, -2), vec![0x82, 0x01, 0x21]);
    assert!(decode_args(&[0xff]).unwrap_err().starts_with("cbor decode args: "));
}

#[test]
fn bad_modules_are_refused() {
    assert!(wat_to_wasm("(module").unwrap_err().starts_with("wat: "));
    let starts = |wat: &str, prefix: &str| {
        let wasm = wat_to_wasm(wat).expect("wat");
        execute(&wasm, &encode_args(1, 2)).unwrap_err().starts_with(prefix)
    };
    assert!(execute(&[1, 2, 3], &encode_args(1, 2)).unwrap_err().starts_with("module: "));
    assert!(starts("(module (import \"a\" \"b\" (func)))", "instance: "));
    assert!(starts("(module)", "get_typed_func add: "));
    let trapping = "(module (func (export \"add\") (param i32 i32) (result i32) unreachable))";
    assert!(starts(trapping, "call: "));
}

#[test]
fn an_attempt_is_reported_by_its_stage() {
    assert_eq!(
        report_on(Attempt::NotInstantiated("x".into())),
        CallReport::NotStarted("instance: x".into())
    );
    assert_eq!(
        report_on(Attempt::NotFound("x".into())),
        CallReport::NotStarted("get_typed_func add: x".into())
    );
    assert_eq!(report_on(Attempt::Failed("x".into())), CallReport::Failed("x".into()));
    assert_eq!(report_on(Attempt::Returned(4)), CallReport::Returned(4));
}

#[test]
fn reports_become_outcomes() {
    assert_eq!(conclude(CallReport::Returned(3)), Ok(ExecOutcome::Returned(3)));
    assert_eq!(
        conclude(CallReport::OutOfFuel),
        Ok(ExecOutcome::LimitExceeded(ExecLimitKind::Cpu))
    );
    assert_eq!(
        conclude(CallReport::Interrupted),
        Ok(ExecOutcome::LimitExceeded(ExecLimitKind::Wall))
    );
    let refused = memory_growing(10, 11).unwrap_err();
    assert_eq!(refused, "cosaci-wasm memory cap exceeded: requested 11 > cap 10");
    assert_eq!(memory_growing(10, 10), Ok(()));
    assert_eq!(memory_growing(0, 11), Ok(()));
    assert_eq!(
        conclude(CallReport::Failed(format!("trap: {refused}"))),
        Ok(ExecOutcome::LimitExceeded(ExecLimitKind::Memory))
    );
    assert_eq!(conclude(CallReport::Failed("boom".into())), Err("call: boom".into()));
    assert_eq!(conclude(CallReport::NotStarted("compile".into())), Err("compile".into()));
}

#[test]
fn the_runner_gets_the_arguments() {
    let r = execute_with_limits(
        b"wasm",
        &encode_args(4, 5),
        ExecLimits::unlimited(),
        |i: cosaci::wasm_runtime::Invocation<'_>| CallReport::Returned(i.a * 10 + i.b),
    );
    assert_eq!(r, Ok(ExecOutcome::Returned(45)));
}

#[test]
fn an_output_binds_module_and_result() {
    let mut want = [7u8; 32].to_vec();
    want.extend_from_slice(&(-2i32).to_le_bytes());
    assert_eq!(wasm_runtime::output_hash(&[7; 32], -2), sha(&want));
}

fn wasm_step() -> Step {
    Step::ExecWasm {
        module: canned_add_module().expect("add"),
        args_cbor: encode_args(1, 2),
        limits: Limits::default(),
    }
}

fn native_step(command: Vec<String>) -> Step {
    Step::ExecNative { command, env: EnvMap::new(), limits: Limits::default() }
}

fn exited(success: bool, oom_killed: bool) -> NativeReport {
    NativeReport::Exited {
        success,
        code: Some(if success { 0 } else { 3 }),
        oom_killed,
        stdout: b"out".to_vec(),
        stderr: b"err".to_vec(),
    }
}

#[test]
fn a_pipeline_runs_step_by_step() {
    let mut run = PipelineRun::new();
    run.record(&wasm_step(), StepReport::Wasm(Ok(ExecOutcome::Returned(3)))).expect("wasm");
    let native = native_step(vec!["true".into()]);
    run.record(&native, StepReport::Native(exited(true, false))).expect("native");
    run.record(&Step::CaptureLog { name: "log".into() }, StepReport::Nothing).expect("log");
    run.record(
        &Step::CaptureArtifact { path: "p".into(), name: "n".into() },
        StepReport::Nothing,
    )
    .expect("artifact");
    let result = run.finish();
    let statuses: Vec<StepStatus> = result.steps.iter().map(|s| s.status).collect();
    assert_eq!(
        statuses,
        vec![
            StepStatus::Success,
            StepStatus::Success,
            StepStatus::Success,
            StepStatus::NotImplemented
        ]
    );
    assert_eq!(result.captures.len(), 2);
    assert_eq!(result.captures[0].bytes_inline, b"out".to_vec());
    assert_eq!(result.captures[0].sha256, sha(b"out"));
    assert_eq!(result.captures[1].kind, CaptureKind::Stderr);
    assert_eq!(
        result.steps[0].output_hash,
        wasm_runtime::output_hash(
            &wasm_runtime::module_hash(&canned_add_module().expect("add")),
            3
        )
    );
}

fn hash_of(step: &Step, report: StepReport) -> ([u8; 32], StepStatus) {
    let mut run = PipelineRun::new();
    run.record(step, report).expect("record");
    let result = run.finish();
    (result.final_artifact_hash, result.steps[0].status)
}

#[test]
fn the_same_observations_give_the_same_hash() {
    let step = native_step(vec!["x".into()]);
    let (a, s) = hash_of(&step, StepReport::Native(exited(false, false)));
    let (b, _) = hash_of(&step, StepReport::Native(exited(false, false)));
    assert_eq!(a, b);
    assert_eq!(s, StepStatus::Failed);
    let (c, s) = hash_of(&step, StepReport::Native(exited(false, true)));
    assert_eq!(s, StepStatus::LimitExceeded { which: LimitKind::Memory });
    assert_ne!(a, c);
    let (_, s) = hash_of(&step, StepReport::Native(NativeReport::KilledByWall));
    assert_eq!(s, StepStatus::LimitExceeded { which: LimitKind::Wall });
    let (_, s) = hash_of(&step, StepReport::Native(NativeReport::KilledByCpu));
    assert_eq!(s, StepStatus::LimitExceeded { which: LimitKind::Cpu });
    let (_, s) = hash_of(&step, StepReport::Native(NativeReport::SpawnFailed { kind_id: 1 }));
    assert_eq!(s, StepStatus::Failed);
}

#[test]
fn a_wasm_failure_ends_the_run() {
    let mut run = PipelineRun::new();
    assert_eq!(
        run.record(&wasm_step(), StepReport::Wasm(Err("call: boom".into()))),
        Err(PipelineError::WasmRuntime { step_index: 0, detail: "call: boom".into() })
    );
}

#[test]
fn a_whole_pipeline_is_run() {
    let pipeline = Pipeline {
        steps: vec![
            wasm_step(),
            native_step(vec!["x".into()]),
            Step::CaptureLog { name: "log".into() },
        ],
    };
    let work = |i: u32, step: &Step| match step {
        Step::ExecWasm { .. } => StepReport::Wasm(Ok(ExecOutcome::Returned(3))),
        Step::ExecNative { .. } if i == 1 => StepReport::Native(exited(false, false)),
        _ => StepReport::Nothing,
    };
    let result = execute_pipeline(&pipeline, work).expect("run");
    let statuses: Vec<StepStatus> = result.steps.iter().map(|s| s.status).collect();
    assert_eq!(statuses, vec![StepStatus::Success, StepStatus::Failed, StepStatus::Success]);
    assert_eq!(result.steps[2].step_index, 2);
    assert_eq!(result.captures[1].bytes_inline, b"err".to_vec());
    let again = execute_pipeline(&pipeline, work).expect("run");
    assert_eq!(result.final_artifact_hash, again.final_artifact_hash);
    let none = execute_pipeline(&Pipeline { steps: vec![] }, work).expect("run");
    assert_eq!(none.steps.len(), 0);
    assert_eq!(none.final_artifact_hash, sha(&[0x80]));
}

#[test]
fn a_wasm_failure_ends_a_pipeline() {
    let pipeline = Pipeline {
        steps: vec![native_step(vec!["x".into()]), wasm_step(), wasm_step()],
    };
    let work = |i: u32, step: &Step| match step {
        Step::ExecWasm { .. } => {
            assert_eq!(i, 1);
            StepReport::Wasm(Err("compile: boom".into()))
        }
        _ => StepReport::Native(exited(true, false)),
    };
    assert_eq!(
        execute_pipeline(&pipeline, work).err(),
        Some(PipelineError::WasmRuntime { step_index: 1, detail: "compile: boom".into() })
    );
}

#[test]
fn work_depends_on_the_step() {
    assert_eq!(work_for(&wasm_step()), Work::Wasm);
    assert_eq!(work_for(&native_step(vec![])), Work::Nothing);
    assert_eq!(work_for(&native_step(vec!["a".into()])), Work::Native);
    assert_eq!(
        work_for(&Step::SourceFetch { url: "u".into(), reference: "r".into() }),
        Work::Fetch
    );
}

#[test]
fn limits_become_budgets() {
    let mut l = Limits::default();
    assert_eq!(exec_limits(&l), ExecLimits::unlimited());
    l.cpu_seconds = 2;
    l.memory_mb = 3;
    l.wall_seconds = 4;
    assert_eq!(
        exec_limits(&l),
        ExecLimits { fuel: 2_000_000_000, memory_bytes: 3 << 20, wall_ns: 4_000_000_000 }
    );
}

#[test]
fn encodings_are_canonical() {
    let p = Pipeline { steps: vec![Step::CaptureLog { name: "a".into() }] };
    let want = b"\xa1\x65steps\x81\xa1\x6aCaptureLog\xa1\x64name\x61a".to_vec();
    assert_eq!(canonical_encoding(&p), Ok(want));
    let step = Step::CaptureLog { name: "a".into() };
    assert_eq!(
        hash_canonical(&step_to_cbor(&step)),
        sha(b"\xa1\x6aCaptureLog\xa1\x64name\x61a")
    );
}

#[test]
fn an_environment_is_sorted_and_overwritten() {
    let mut e = EnvMap::new();
    e.insert("B".into(), "1".into());
    e.insert("A".into(), "2".into());
    e.insert("B".into(), "3".into());
    assert_eq!(e.len(), 2);
    assert_eq!(e.at(0), (&"A".to_string(), &"2".to_string()));
    assert_eq!(e.at(1), (&"B".to_string(), &"3".to_string()));
}

#[test]
fn a_capped_buffer_keeps_the_head() {
    let mut b = CappedBuffer::new(4);
    b.read(b"ab");
    b.read(b"cdef");
    b.read(b"g");
    assert_eq!(b.into_bytes(), b"abcd".to_vec());
}

#[test]
fn a_process_is_ended_by_its_limits() {
    assert!(!must_poll(0, 0));
    assert!(must_poll(1, 0));
    let second = 1_000_000_000u128;
    let look = |elapsed, cpu| wait_action(ProcessLook::Running, elapsed, 2, cpu, 1);
    assert_eq!(look(second, Some(0)), WaitAction::LookAgain);
    assert_eq!(look(2 * second, Some(0)), WaitAction::EndByWall);
    assert_eq!(look(second, Some(1_000_000)), WaitAction::EndByCpu);
    assert_eq!(
        wait_action(ProcessLook::Exited, 9 * second, 2, None, 1),
        WaitAction::Collect
    );
}

#[test]
fn cgroup_files_are_read() {
    assert!(was_oom_killed("low 0\noom_kill 1\n"));
    assert!(!was_oom_killed("low 0\noom_kill 0\n"));
    assert_eq!(cpu_usage_usec("usage_usec 123\nuser_usec 1\n"), Some(123));
    assert_eq!(cpu_usage_usec("nothing\n"), None);
    assert_eq!(current_cgroup_path("0::/a/b\n"), Some("/sys/fs/cgroup/a/b".to_string()));
    assert_eq!(current_cgroup_path("3:cpu:/a\n"), None);
    assert!(subtree_has_controller("cpu memory", "memory"));
    assert!(!subtree_has_controller("cpu memory_x", "memory"));
    assert_eq!(cgroup_plan(0, 0, ""), CgroupPlan::NotNeeded);
    assert_eq!(cgroup_plan(1, 0, "cpu"), CgroupPlan::LacksMemory);
    assert_eq!(cgroup_plan(0, 1, "memory"), CgroupPlan::LacksCpu);
    assert_eq!(cgroup_plan(1, 1, "cpu memory"), CgroupPlan::Create);
    assert_eq!(memory_max(2), "2097152");
    assert!(cgroup_name(5, 6, 7).contains('5'));
}

fn addr(s: &str) -> IpAddr {
    let chars: Vec<char> = s.chars().collect();
    parse_addr(&chars).expect("address")
}

#[test]
fn addresses_are_parsed() {
    assert_eq!(addr("1.2.3.4"), IpAddr::V4(0x0102_0304));
    assert_eq!(addr("::1"), IpAddr::V6(1));
    assert_eq!(addr("1::"), IpAddr::V6(1 << 112));
    assert_eq!(addr("::ffff:1.2.3.4"), IpAddr::V6(0xffff_0102_0304));
    for bad in ["", "1.2.3", "1.2.3.256", "01.2.3.4", ":::", "1::2::3", "12345::"] {
        let chars: Vec<char> = bad.chars().collect();
        assert_eq!(parse_addr(&chars), None, "{bad}");
    }
}

#[test]
fn ranges_contain_addresses() {
    assert!(cidr_contains("10.0.0.0/8", addr("10.9.8.7")));
    assert!(!cidr_contains("10.0.0.0/8", addr("11.0.0.0")));
    assert!(cidr_contains("0.0.0.0/0", addr("255.1.2.3")));
    assert!(cidr_contains("1.2.3.4/32", addr("1.2.3.4")));
    assert!(!cidr_contains("1.2.3.4/33", addr("1.2.3.4")));
    assert!(cidr_contains("2001:db8::/32", addr("2001:db8::5")));
    assert!(!cidr_contains("::/0", addr("1.2.3.4")));
    assert!(!cidr_contains("nonsense", addr("1.2.3.4")));
}

#[test]
fn a_policy_decides_by_its_entries() {
    let attempt = |host, port, scheme| EgressAttempt {
        hostname: host,
        addr: addr("10.0.0.1"),
        port,
        scheme,
    };
    let policy = NetworkPolicy {
        allow: vec![
            EgressTarget::Host { hostname: "x.org".into(), port: 443, scheme: Scheme::Https },
            EgressTarget::Cidr {
                cidr: "10.0.0.0/8".into(),
                port_range_start: 5,
                port_range_end: 6,
            },
        ],
        default: EgressDefault::Deny,
    };
    let ask = |a: &EgressAttempt<'_>| evaluate(&policy, a);
    assert_eq!(ask(&attempt(Some("x.org"), 443, Scheme::Https)), Decision::Allow);
    assert_eq!(ask(&attempt(Some("x.org"), 80, Scheme::Https)), Decision::Deny);
    assert_eq!(ask(&attempt(None, 443, Scheme::Https)), Decision::Deny);
    assert_eq!(ask(&attempt(None, 6, Scheme::Tcp)), Decision::Allow);
    assert_eq!(ask(&attempt(None, 7, Scheme::Tcp)), Decision::Deny);
    let audit = NetworkPolicy { allow: vec![], default: EgressDefault::Audit };
    assert_eq!(evaluate(&audit, &attempt(None, 1, Scheme::Tcp)), Decision::Audit);
    assert_eq!(evaluate(&deny_all(), &attempt(None, 1, Scheme::Tcp)), Decision::Deny);
    assert_eq!(evaluate(&allow_all(), &attempt(None, 1, Scheme::Tcp)), Decision::Allow);
}

fn entry(path: &str) -> TreeEntry {
    TreeEntry { path: path.into(), mode: 0o644, blob_sha: [1; 32] }
}

#[test]
fn a_tree_hash_does_not_depend_on_the_walk() {
    let a = hash_working_tree(&[entry("b"), entry("a/c")]);
    assert_eq!(a, hash_working_tree(&[entry("a/c"), entry("b")]));
    assert_ne!(a, hash_working_tree(&[entry("a/c")]));
    assert_eq!(hash_working_tree(&[]), sha(b""));
}

#[test]
fn a_walk_skips_what_is_excluded() {
    let out = vec![".git".to_string()];
    assert_eq!(walk_action(NodeKind::Directory, ".git", &out), WalkAction::Skip);
    assert_eq!(walk_action(NodeKind::Directory, "src", &out), WalkAction::Descend);
    assert_eq!(walk_action(NodeKind::File, ".git", &out), WalkAction::Record);
    assert_eq!(walk_action(NodeKind::Other, "x", &out), WalkAction::Skip);
    assert_eq!(canonical_mode(0o100_755), canonical_mode(0o111));
    assert_ne!(canonical_mode(0o644), canonical_mode(0o755));
    assert_eq!(path_to_unix(&["a".to_string(), "b".to_string()]), "a/b");
}

#[test]
fn a_fetch_goes_through_its_stages() {
    let s = after_git(FetchStage::Clone, GitOutcome::Done(String::new())).expect("clone");
    assert_eq!(s, FetchStage::Checkout);
    let s = after_git(s, GitOutcome::Done(String::new())).expect("checkout");
    assert_eq!(s, FetchStage::Resolve);
    let s = after_git(s, GitOutcome::Done("abc\n".into())).expect("resolve");
    assert_eq!(s, FetchStage::Hash { resolved_sha: "abc".into() });
    assert_eq!(
        after_git(FetchStage::Clone, GitOutcome::NotFound),
        Err(SourceFetchError::GitNotFound)
    );
    assert_eq!(
        after_git(FetchStage::Clone, GitOutcome::NonZero("e".into())),
        Err(SourceFetchError::CloneFailed("e".into()))
    );
    assert_eq!(
        after_git(FetchStage::Checkout, GitOutcome::NonZero("e".into())),
        Err(SourceFetchError::CheckoutFailed("e".into()))
    );
    assert_eq!(
        after_git(FetchStage::Resolve, GitOutcome::NonZero("e".into())),
        Err(SourceFetchError::ResolveFailed("e".into()))
    );
    assert!(git_arguments(&FetchStage::Clone, "URL", "REF").contains(&"URL".to_string()));
    assert!(git_arguments(&FetchStage::Checkout, "URL", "REF").contains(&"REF".to_string()));
    let one = SourceFetchOutput { resolved_sha: "abc".into(), tree_hash: [1; 32] };
    let two = SourceFetchOutput { resolved_sha: "abd".into(), tree_hash: [1; 32] };
    assert_ne!(source_fetch::output_hash(&one), source_fetch::output_hash(&two));
}

#[test]
fn a_fetch_is_executed() {
    let git = |args: &Vec<String>| {
        let words: Vec<&str> = args.iter().map(String::as_str).collect();
        match words.as_slice() {
            ["clone", "URL", "."] | ["checkout", "REF"] => GitOutcome::Done("noise".into()),
            ["rev-parse", "HEAD"] => GitOutcome::Done(" abc\n".into()),
            _ => GitOutcome::NonZero(words.join(" ")),
        }
    };
    let walk = |exclude: &Vec<String>| {
        if exclude.len() == 1 && exclude[0] == ".git" {
            Ok(vec![entry("b"), entry("a")])
        } else {
            Err("walked .git".to_string())
        }
    };
    let out = execute_source_fetch("URL", "REF", git, walk).expect("fetch");
    assert_eq!(out.resolved_sha, "abc");
    assert_eq!(out.tree_hash, hash_working_tree(&[entry("a"), entry("b")]));
    assert_eq!(
        execute_source_fetch("OTHER", "REF", git, walk),
        Err(SourceFetchError::CloneFailed("clone OTHER .".into()))
    );
    assert_eq!(
        execute_source_fetch("URL", "GONE", git, walk),
        Err(SourceFetchError::CheckoutFailed("checkout GONE".into()))
    );
    let failing = |_: &Vec<String>| Err("denied".to_string());
    assert_eq!(
        execute_source_fetch("URL", "REF", git, failing),
        Err(SourceFetchError::Io("denied".into()))
    );
    let absent = |_: &Vec<String>| GitOutcome::NotFound;
    assert_eq!(
        execute_source_fetch("URL", "REF", absent, walk),
        Err(SourceFetchError::GitNotFound)
    );
}
