use ciborium::Value;
use cosaci::attestation::{Attestation, AttestationResult};
use cosaci::capabilities::{Capabilities, JobRequirements, Platform, Runtime, RuntimeSet};
use cosaci::env_map::EnvMap;
use cosaci::jobs::{CaptureKind, CapturedOutput, Limits, Pipeline, Step};
use cosaci::merkle_log::InclusionProof;
use cosaci::network::{EgressDefault, EgressTarget, NetworkPolicy, Scheme};
use cosaci::proto::{
    declared_length, first_frame, read_envelope, write_envelope, AdminAgentRecord,
    AdminTenantRecord, AttestationBundle, Envelope, FrameError, MAX_ENVELOPE_BYTES,
};
use cosaci::retrieval::JobBundle;
use cosaci::signing::Keypair;
use sha2::{Digest, Sha256};

fn sample_attestation() -> Attestation {
    let kp = Keypair::from_seed([0xa1; 32]);
    let mut att = Attestation {
        version: Attestation::VERSION,
        job_id: [0xab; 16],
        commit: [0x42; 32],
        runner_id: 7,
        result: AttestationResult::Pass,
        environment_hash: [0xee; 32],
        artifact_hash: [0x11; 32],
        timestamp_unix_ns: 1_700_000_000_000_000_000,
        signature: [0; 64],
    };
    att.sign_with(&kp);
    att
}

fn capture(name: &str, kind: CaptureKind, bytes: Vec<u8>) -> CapturedOutput {
    let sha256: [u8; 32] = Sha256::digest(&bytes).into();
    CapturedOutput {
        step_index: 1,
        name: name.into(),
        kind,
        sha256,
        length: bytes.len() as u64,
        bytes_inline: bytes,
    }
}

fn write_then_read(env: &Envelope) -> Envelope {
    let mut buf = Vec::new();
    write_envelope(&mut buf, env).expect("write");
    let (decoded, taken) = read_envelope(&buf).expect("read");
    assert_eq!(taken, buf.len());
    decoded
}

#[test]
fn empty_captures_round_trips() {
    let att = sample_attestation();
    let bundle = AttestationBundle::from_attestation(att.clone());
    let env = Envelope::SubmitAttestation(bundle);
    let decoded = write_then_read(&env);
    let Envelope::SubmitAttestation(decoded_bundle) = decoded else {
        panic!("decoded variant changed");
    };
    assert_eq!(decoded_bundle.attestation, att);
    assert!(decoded_bundle.captures.is_empty());
}

#[test]
fn populated_captures_round_trip_byte_equal() {
    let att = sample_attestation();
    let captures = vec![
        capture("build.stdout", CaptureKind::Stdout, b"compile ok\n".to_vec()),
        capture("build.stderr", CaptureKind::Stderr, b"warning: foo\n".to_vec()),
    ];
    let bundle = AttestationBundle { attestation: att, captures };
    let env = Envelope::SubmitAttestation(bundle);

    let mut buf1 = Vec::new();
    write_envelope(&mut buf1, &env).expect("write 1");
    let (decoded, _) = read_envelope(&buf1).expect("read");
    let mut buf2 = Vec::new();
    write_envelope(&mut buf2, &decoded).expect("write 2");
    assert_eq!(buf1, buf2, "re-encode produced different CBOR bytes");
}

#[test]
fn empty_captures_is_shorter_on_wire_than_populated() {
    let att = sample_attestation();
    let empty = AttestationBundle::from_attestation(att.clone());
    let populated = AttestationBundle {
        attestation: att,
        captures: vec![capture("x", CaptureKind::Stdout, b"ten-bytes!".to_vec())],
    };
    let mut buf_empty = Vec::new();
    let mut buf_pop = Vec::new();
    write_envelope(&mut buf_empty, &Envelope::SubmitAttestation(empty)).expect("write empty");
    write_envelope(&mut buf_pop, &Envelope::SubmitAttestation(populated)).expect("write pop");
    assert!(
        buf_empty.len() < buf_pop.len(),
        "empty captures should not be serialized: empty={} pop={}",
        buf_empty.len(),
        buf_pop.len()
    );
}

#[test]
fn capture_sha256_survives_wire() {
    let att = sample_attestation();
    let bytes = b"some output bytes that aren't aligned to a power of two".to_vec();
    let cap = capture("payload", CaptureKind::Stdout, bytes);
    let bundle = AttestationBundle { attestation: att, captures: vec![cap] };
    let env = Envelope::SubmitAttestation(bundle);
    let decoded = write_then_read(&env);
    let Envelope::SubmitAttestation(decoded_bundle) = decoded else {
        panic!("variant changed");
    };
    let cap = &decoded_bundle.captures[0];
    let recomputed: [u8; 32] = Sha256::digest(&cap.bytes_inline).into();
    assert_eq!(
        recomputed, cap.sha256,
        "capture sha256 doesn't match bytes_inline after wire round-trip"
    );
    assert_eq!(cap.length as usize, cap.bytes_inline.len());
}

fn offer() -> RuntimeSet {
    RuntimeSet::of(&[Runtime::Wasm, Runtime::Docker])
}

fn pipeline() -> Pipeline {
    let mut env = EnvMap::new();
    env.insert("B".into(), "2".into());
    env.insert("A".into(), "1".into());
    let limits = Limits {
        cpu_seconds: 1,
        memory_mb: 2,
        wall_seconds: 3,
        network: NetworkPolicy {
            allow: vec![
                EgressTarget::Host { hostname: "x.org".into(), port: 443, scheme: Scheme::Https },
                EgressTarget::Cidr {
                    cidr: "10.0.0.0/8".into(),
                    port_range_start: 1,
                    port_range_end: 9,
                },
            ],
            default: EgressDefault::Audit,
        },
    };
    Pipeline {
        steps: vec![
            Step::SourceFetch { url: "u".into(), reference: "main".into() },
            Step::ExecWasm {
                module: vec![0, 1, 255],
                args_cbor: vec![],
                limits: Limits::default(),
            },
            Step::ExecNative { command: vec!["ls".into(), "-l".into()], env, limits },
            Step::CaptureLog { name: "log".into() },
            Step::CaptureArtifact { path: "p".into(), name: "n".into() },
        ],
    }
}

fn every_message() -> Vec<Envelope> {
    let record = AdminAgentRecord {
        runner_id: 3,
        signing_fp: [1; 32],
        vrf_fp: [2; 32],
        enrolled_at_unix_ns: -5,
        initial_reputation_thousandths: 750,
    };
    let tenant = AdminTenantRecord {
        tenant_id: 9,
        signing_fp: [3; 32],
        rate_capacity: 10,
        rate_refill_per_sec: 11,
        registered_at_unix_ns: 12,
    };
    vec![
        Envelope::Register {
            runner_id: u64::MAX,
            signing_pubkey: [1; 32],
            vrf_pubkey: [2; 32],
            vrf_output: [3; 32],
            vrf_proof: [4; 64],
            stake: 100,
            capabilities: Capabilities {
                cpu: 4,
                memory_mb: 4096,
                platform: Platform::DarwinAarch64,
                runtimes: offer(),
            },
        },
        Envelope::VrfClaim { job_id: 1, vrf_output: [5; 32], vrf_proof: [6; 64] },
        Envelope::SubmitAttestation(AttestationBundle {
            attestation: sample_attestation(),
            captures: vec![capture("a", CaptureKind::Artifact, vec![1, 2, 3])],
        }),
        Envelope::RegisterAck,
        Envelope::JobSeed { job_id: 2, seed: [7; 32] },
        Envelope::Assign {
            job_id: 3,
            pipeline: pipeline(),
            requirements: JobRequirements {
                cpu: 1,
                memory_mb: 2,
                platform: Platform::LinuxX86_64,
                runtimes: RuntimeSet::new(),
            },
            deadline_unix_ns: -1,
        },
        Envelope::Shutdown,
        Envelope::GetJob { job_id: u64::MAX },
        Envelope::GetLogRoot,
        Envelope::JobBundleResponse(JobBundle {
            job_id: 4,
            pipeline_hash: [8; 32],
            committee_attestations: vec![sample_attestation(), sample_attestation()],
            consensus_artifact: [9; 32],
            merkle_proof: InclusionProof {
                position: 1,
                entry: [9; 32],
                proof_hashes: vec![[1; 32], [2; 32]],
                length_at_proof: 3,
            },
            log_root: [10; 32],
            log_position: 1,
            log_length_at_anchor: 3,
        }),
        Envelope::JobNotFound { job_id: 42 },
        Envelope::LogRoot { root: None, length: 0 },
        Envelope::LogRoot { root: Some([0xab; 32]), length: 1234 },
        Envelope::AdminHello { admin_pubkey: [1; 32], ts_unix_ns: 5, signature: [2; 64] },
        Envelope::AdminWelcome,
        Envelope::AdminError { reason: "x".repeat(1024) },
        Envelope::AdminError { reason: String::new() },
        Envelope::AdminListAgents,
        Envelope::AdminAgentList { entries: vec![record] },
        Envelope::AdminAgentList { entries: vec![] },
        Envelope::AdminGetLogRoot,
        Envelope::AdminLogRoot { root: Some([0xcd; 32]), length: u64::MAX },
        Envelope::AdminListTenants,
        Envelope::AdminTenantList { entries: vec![tenant, tenant] },
        Envelope::AdminEnrollAgent {
            runner_id: 1,
            signing_fp: [1; 32],
            vrf_fp: [2; 32],
            enrolled_at_unix_ns: i64::MIN,
            initial_reputation_thousandths: 1000,
        },
        Envelope::AdminEnrollAck,
        Envelope::AdminRevokeAgent { runner_id: 7 },
        Envelope::AdminRevokeAck,
        Envelope::AdminAddTenant {
            tenant_id: 1,
            signing_fp: [1; 32],
            rate_capacity: 2,
            rate_refill_per_sec: 3,
            registered_at_unix_ns: 4,
        },
        Envelope::AdminAddTenantAck,
        Envelope::AdminRevokeTenant { tenant_id: 42 },
        Envelope::AdminRevokeTenantAck,
    ]
}

#[test]
fn every_message_round_trips() {
    for e in every_message() {
        assert_eq!(write_then_read(&e), e);
    }
}

#[test]
fn messages_follow_each_other_on_a_stream() {
    let all = every_message();
    let mut stream = Vec::new();
    for e in &all {
        write_envelope(&mut stream, e).expect("write");
    }
    let mut at = 0;
    for e in &all {
        let (got, taken) = read_envelope(&stream[at..]).expect("read");
        assert_eq!(&got, e);
        at += taken;
    }
    assert_eq!(at, stream.len());
}

#[test]
fn a_unit_message_is_its_name() {
    let mut buf = Vec::new();
    write_envelope(&mut buf, &Envelope::Shutdown).expect("write");
    assert_eq!(buf, b"\x00\x00\x00\x09\x68Shutdown".to_vec());
}

#[test]
fn a_message_with_a_field_is_a_map() {
    let mut buf = Vec::new();
    write_envelope(&mut buf, &Envelope::GetJob { job_id: 5 }).expect("write");
    assert_eq!(buf, b"\x00\x00\x00\x11\xa1\x66GetJob\xa1\x66job_id\x05".to_vec());
}

#[test]
fn every_truncation_is_an_unexpected_end() {
    let mut buf = Vec::new();
    write_envelope(&mut buf, &Envelope::GetJob { job_id: 5 }).expect("write");
    for n in 0..buf.len() {
        assert_eq!(read_envelope(&buf[..n]), Err(FrameError::UnexpectedEnd));
    }
}

#[test]
fn an_oversize_message_is_not_written() {
    let oversize = Envelope::AdminError { reason: "x".repeat(20 * 1024 * 1024) };
    let mut buf = vec![1u8];
    match write_envelope(&mut buf, &oversize) {
        Err(FrameError::TooLong(n)) => assert!(n > MAX_ENVELOPE_BYTES),
        other => panic!("expected TooLong, got {other:?}"),
    }
    assert_eq!(buf, vec![1u8]);
}

#[test]
fn an_oversize_declaration_is_refused_before_its_payload() {
    assert_eq!(declared_length([1, 0, 0, 0]), Ok(16_777_216));
    assert_eq!(declared_length([1, 0, 0, 1]), Err(FrameError::DeclaredTooLong(16_777_217)));
    assert_eq!(
        first_frame(&[0xff, 0xff, 0xff, 0xff]),
        Err(FrameError::DeclaredTooLong(0xffff_ffff))
    );
}

#[test]
fn a_payload_that_is_no_message_is_malformed() {
    assert!(matches!(read_envelope(&[0, 0, 0, 1, 0xff]), Err(FrameError::Malformed(_))));
    assert!(matches!(read_envelope(&[0, 0, 0, 1, 0x05]), Err(FrameError::Malformed(_))));
    assert!(matches!(read_envelope(&[0, 0, 0, 2, 0x61, 0x41]), Err(FrameError::Malformed(_))));
}

#[test]
fn frame_errors_say_what_happened() {
    assert_eq!(FrameError::TooLong(16_777_217).message(), "envelope 16777217 > max 16777216");
    assert_eq!(
        FrameError::DeclaredTooLong(20_000_000).message(),
        "incoming envelope declared 20000000 bytes > max 16777216"
    );
    assert_eq!(FrameError::UnexpectedEnd.message(), "failed to fill whole buffer");
    assert_eq!(FrameError::Malformed("why".into()).message(), "cbor decode: why");
}

fn payload(bytes: &[u8]) -> Result<Envelope, FrameError> {
    let mut frame = (bytes.len() as u32).to_be_bytes().to_vec();
    frame.extend_from_slice(bytes);
    read_envelope(&frame).map(|(env, _)| env)
}

#[test]
fn a_repeated_field_is_refused() {
    let malformed = Err(FrameError::Malformed("malformed GetJob".into()));
    assert_eq!(payload(b"\xa1\x66GetJob\xa2\x66job_id\x05\x66job_id\x05"), malformed);
    assert_eq!(
        payload(b"\xa1\x66GetJob\xa3\x61x\x00\x66job_id\x05\x61x\x01"),
        Ok(Envelope::GetJob { job_id: 5 })
    );
}

#[test]
fn tags_say_nothing_and_names_may_be_bytes() {
    let want = Ok(Envelope::GetJob { job_id: 5 });
    assert_eq!(payload(b"\xc5\xa1\x66GetJob\xa1\xc5\x66job_id\xc5\xc6\x05"), want);
    assert_eq!(payload(b"\xa1\x46GetJob\xa1\x46job_id\x05"), want);
    assert!(payload(b"\x48Shutdown").is_err());
    assert_eq!(payload(b"\xc5\x68Shutdown"), Ok(Envelope::Shutdown));
}

#[test]
fn a_fraction_is_no_number() {
    let sent = b"\xa1\x66GetJob\xa1\x66job_id\xfb\x40\x1c\x00\x00\x00\x00\x00\x00";
    assert_eq!(payload(sent), Err(FrameError::Malformed("malformed GetJob".into())));
}

#[test]
fn a_refused_message_is_named() {
    let say = |s: &str| Err(FrameError::Malformed(s.into()));
    assert_eq!(payload(b"\x05"), say("not a message"));
    assert_eq!(payload(b"\xa2\x61A\x00\x61B\x00"), say("not a message"));
    assert_eq!(payload(b"\x65Hello"), say("unknown message Hello"));
    assert_eq!(payload(b"\xa1\x65Hello\x00"), say("unknown message Hello"));
    assert_eq!(payload(b"\x66GetJob"), say("malformed GetJob"));
}

#[test]
fn a_message_without_fields_is_a_name_or_a_map() {
    let want = Ok(Envelope::Shutdown);
    assert_eq!(payload(b"\x68Shutdown"), want);
    assert_eq!(payload(b"\xa1\x68Shutdown\xf6"), want);
    assert_eq!(payload(b"\xa1\x6aGetLogRoot\xf6"), Ok(Envelope::GetLogRoot));
}

#[test]
fn fields_may_stand_by_place() {
    assert_eq!(payload(b"\xa1\x66GetJob\x81\x07"), Ok(Envelope::GetJob { job_id: 7 }));
    assert_eq!(
        payload(b"\xa1\x70AdminRevokeAgent\x81\x07"),
        Ok(Envelope::AdminRevokeAgent { runner_id: 7 })
    );
    assert_eq!(
        payload(b"\xa1\x66GetJob\x80"),
        Err(FrameError::Malformed("malformed GetJob".into()))
    );
}

/// Puts the fields of every choice of this name in an array, and changes it.
fn by_place(doc: &mut Value, choice: &str, change: &dyn Fn(&mut Vec<Value>)) {
    match doc {
        Value::Array(v) => v.iter_mut().for_each(|x| by_place(x, choice, change)),
        Value::Map(m) => {
            for (k, x) in m.iter_mut() {
                if k.as_text() == Some(choice) {
                    if let Some(fields) = x.as_map() {
                        let mut list: Vec<Value> = fields.iter().map(|f| f.1.clone()).collect();
                        change(&mut list);
                        *x = Value::Array(list);
                    }
                }
                by_place(x, choice, change);
            }
        }
        _ => {}
    }
}

#[test]
fn the_fields_of_a_step_may_stand_by_place() {
    let sent = Envelope::Assign {
        job_id: 3,
        pipeline: pipeline(),
        requirements: JobRequirements {
            cpu: 1,
            memory_mb: 2,
            platform: Platform::LinuxX86_64,
            runtimes: RuntimeSet::new(),
        },
        deadline_unix_ns: -1,
    };
    let mut frame = Vec::new();
    write_envelope(&mut frame, &sent).expect("write");
    let read_with = |choice: &str, change: &dyn Fn(&mut Vec<Value>)| {
        let mut doc: Value = ciborium::from_reader(&frame[4..]).expect("document");
        by_place(&mut doc, choice, change);
        let mut bytes = Vec::new();
        ciborium::into_writer(&doc, &mut bytes).expect("encode");
        assert_ne!(bytes, frame[4..]);
        payload(&bytes)
    };
    for choice in ["SourceFetch", "ExecWasm", "ExecNative", "CaptureLog", "Host", "Cidr"] {
        assert_eq!(read_with(choice, &|_| {}), Ok(sent.clone()));
        assert!(read_with(choice, &|v| v.push(Value::Null)).is_err());
        assert!(read_with(choice, &|v| v.truncate(v.len() - 1)).is_err());
    }
}

#[test]
fn a_key_that_is_no_name_is_refused() {
    assert!(payload(b"\xa1\x66GetJob\xa2\x66job_id\x05\x01\x02").is_err());
    assert!(payload(b"\xa1\x66GetJob\xa2\x66job_id\x05\xf6\x02").is_err());
}

#[test]
fn a_message_gives_its_length() {
    assert_eq!(
        payload(b"\xbf\x66GetJob\xa1\x66job_id\x05\xff"),
        Err(FrameError::Malformed("malformed GetJob".into()))
    );
    assert!(payload(b"\xc5\xbf\x66GetJob\xa1\x66job_id\x05\xff").is_err());
    assert!(payload(b"\xd8\x20\xbf\x66GetJob\xa1\x66job_id\x05\xff").is_err());
    assert!(payload(b"\x7f\x68Shutdown\xff").is_err());
    assert_eq!(
        payload(b"\xa1\x66GetJob\xbf\x66job_id\x05\xff"),
        Ok(Envelope::GetJob { job_id: 5 })
    );
}
