use std::cell::Cell;
use std::collections::HashMap;
use std::rc::Rc;

use cosaci::admin_auth::{verify_admin_hello_at, AdminAuthCheck, AdminKeySet, AdminRecord};
use cosaci::agent::{u64_to_uuid, vrf_assign_committee, Action, Agent};
use cosaci::attestation::{Attestation, AttestationResult};
use cosaci::auditor::{
    after_attempt, examine, read_job_reply, read_root_reply, Attempt, Finding, JobReply, NextMove,
};
use cosaci::clock::Clock;
use cosaci::coordinator::job::{
    aggregated_entry, anchor, assign_message, canned_pipeline, canned_requirements,
    choose_committee, collect_attestations, consensus_artifact, job_seed_bytes, judge_claim,
    kind_in_turn, next_job, seed_message, settle, tally, ClaimVerdict, Shortfall,
};
use cosaci::coordinator::read_api::answer;
use cosaci::coordinator::registration::{check_registration, Refusal, Runner};
use cosaci::coordinator::run::{anchor_job, assign_job, open_job, settle_job};
use cosaci::coordinator::submission::{
    check_submission, default_deadline_secs, parse_hex64, pass_gate, record_on, AuthState, JobKind,
    JobSubmission,
};
use cosaci::demo;
use cosaci::enrollment::{EnrollmentSet, ReputationField};
use cosaci::handshake::{Pump, Report, Step};
use cosaci::journal::{JournalEntry, JournalOutcome};
use cosaci::merkle_log::MerkleLog;
use cosaci::proto::{Envelope, ADMIN_HELLO_CHALLENGE, ADMIN_HELLO_FRESHNESS_NS};
use cosaci::quorum::Outcome;
use cosaci::rate_limit::RateLimiter;
use cosaci::replay::ReplayGuard;
use cosaci::signing::Keypair;
use cosaci::stake_ledger::StakeLedger;
use cosaci::submission_auth::{canonical_bytes, AuthCheck, JobSubmissionPayload};
use cosaci::tenant::TenantRegistry;
use cosaci::vrf::VrfError;

#[derive(Clone)]
struct Hand(Rc<Cell<u64>>);

impl Clock for Hand {
    fn now_ns(&self) -> u64 {
        self.0.get()
    }
}

fn fleet() -> (Vec<Agent>, Vec<Runner>) {
    let agents: Vec<Agent> = (0..5).map(|i| Agent::new(i, 100)).collect();
    let runners = agents
        .iter()
        .map(|a| check_registration(&a.register_message(), None).expect("taken"))
        .collect();
    (agents, runners)
}

fn claims(agents: &[Agent], job_id: u64) -> Vec<Envelope> {
    agents
        .iter()
        .map(|a| match a.react(seed_message(job_id)) {
            Action::Reply(e) => e,
            _ => panic!("no reply"),
        })
        .collect()
}

#[test]
fn seeds_carry_the_job() {
    let s = job_seed_bytes(0x0102);
    assert_eq!(&s[..3], &[2, 1, 0]);
    assert_eq!(s[31], 0xab);
    assert_eq!(u64_to_uuid(0x0102)[..2], [2, 1]);
    assert_ne!(job_seed_bytes(1), job_seed_bytes(2));
}

#[test]
fn an_honest_job_is_anchored_and_audited() {
    let (agents, runners) = fleet();
    let replies = claims(&agents, 1);
    let committee =
        choose_committee(1, &runners, &replies, &canned_requirements(), 3).expect("committee");
    assert_eq!(committee, vrf_assign_committee(&agents, &job_seed_bytes(1), 3));
    let module = cosaci::wasm_runtime::canned_add_module().expect("module");
    let pipeline = canned_pipeline(module, cosaci::wasm_runtime::encode_args(1, 2));
    let assigned = assign_message(1, pipeline.clone(), canned_requirements(), 5);
    let returned: Vec<Option<Envelope>> = agents
        .iter()
        .map(|a| match a.react(assigned.clone()) {
            Action::Execute { job_id, deadline_unix_ns, .. } => {
                assert_eq!(deadline_unix_ns, 60_000_000_005);
                Some(a.attest(job_id, deadline_unix_ns, [7; 32], vec![]))
            }
            _ => None,
        })
        .collect();
    let collected = collect_attestations(&runners, &committee, &returned);
    assert_eq!(collected.attestations.len(), 3);
    assert!(collected.missing.is_empty());
    let ledger =
        StakeLedger::from_stake_map(runners.iter().map(|r| (r.runner_id, r.stake)).collect());
    let t = tally(&committee, &collected.attestations, &ledger);
    assert_eq!(t.outcome, Outcome::Pass);
    assert_eq!(t.threshold, 200);
    assert_eq!(t.committee_stake, 300);
    assert_eq!(
        aggregated_entry(1, &t),
        JournalEntry::Aggregated {
            job_id: 1,
            outcome: JournalOutcome::Pass,
            artifact_hex: "07".repeat(32),
        }
    );
    let mut log = MerkleLog::new();
    let mut records = HashMap::new();
    log.append([1; 32]);
    let pos = anchor(
        1,
        &pipeline,
        &collected.attestations,
        t.consensus_artifact,
        &mut log,
        &mut records,
    );
    assert_eq!(pos, 1);
    log.append([2; 32]);
    let reply = answer(&Envelope::GetJob { job_id: 1 }, &records, &log).expect("answer");
    let JobReply::Found(bundle) = read_job_reply(reply) else {
        panic!("not found");
    };
    assert_eq!(examine(&bundle, log.len()), Finding::Verified);
    assert_eq!(examine(&bundle, 1), Finding::LogShrank);
    let mut bent = bundle.clone();
    bent.consensus_artifact = [9; 32];
    assert_eq!(examine(&bent, 3), Finding::EntryMismatch);
    bent = bundle.clone();
    bent.log_position = 0;
    assert_eq!(examine(&bent, 3), Finding::PositionMismatch);
    bent = bundle.clone();
    bent.log_length_at_anchor = 3;
    assert_eq!(examine(&bent, 3), Finding::LengthMismatch);
    bent = bundle;
    bent.log_root = [0; 32];
    assert_eq!(examine(&bent, 3), Finding::ProofRejected);
}

#[test]
fn the_read_api_only_reads() {
    let log = MerkleLog::new();
    let records = HashMap::new();
    assert_eq!(
        answer(&Envelope::GetJob { job_id: 4 }, &records, &log),
        Some(Envelope::JobNotFound { job_id: 4 })
    );
    let root = answer(&Envelope::GetLogRoot, &records, &log).expect("answer");
    assert_eq!(read_root_reply(&root), Some((None, 0)));
    assert_eq!(answer(&Envelope::Shutdown, &records, &log), None);
    assert!(matches!(read_job_reply(Envelope::JobNotFound { job_id: 4 }), JobReply::NotYet));
    assert!(matches!(read_job_reply(Envelope::Shutdown), JobReply::Unexpected));
}

#[test]
fn registration_is_checked_in_order() {
    assert_eq!(
        check_registration(&Envelope::Shutdown, None).map(|r| r.runner_id),
        Err(Refusal::NotARegistration)
    );
    let agent = Agent::new(1, 100);
    let Envelope::Register {
        runner_id,
        signing_pubkey,
        vrf_pubkey,
        vrf_output,
        vrf_proof,
        stake,
        capabilities,
    } = agent.register_message()
    else {
        panic!("no registration");
    };
    let empty = EnrollmentSet::new();
    let stolen = Envelope::Register {
        runner_id,
        signing_pubkey,
        vrf_pubkey: Agent::new(2, 100).vrf_key(),
        vrf_output,
        vrf_proof,
        stake,
        capabilities,
    };
    assert_eq!(
        check_registration(&stolen, Some(&empty)).map(|r| r.runner_id),
        Err(Refusal::VrfRejected(VrfError::InvalidProof))
    );
    assert!(matches!(
        check_registration(&agent.register_message(), Some(&empty)),
        Err(Refusal::NotEnrolled { runner_id: 1, .. })
    ));
    let mut not_a_key = [0u8; 32];
    not_a_key[0] = 2;
    let keyless = Envelope::Register {
        runner_id,
        signing_pubkey: not_a_key,
        vrf_pubkey,
        vrf_output,
        vrf_proof,
        stake,
        capabilities,
    };
    assert_eq!(
        check_registration(&keyless, None).map(|r| r.runner_id),
        Err(Refusal::BadSigningKey)
    );
}

#[test]
fn the_demonstration_fleet_is_enrolled() {
    let set = EnrollmentSet::parse(&demo::enrollment_text(5), &vec![ReputationField::Milli(1000); 5])
        .expect("parse");
    assert_eq!(set.len(), 5);
    for id in 0..demo::FLEET {
        assert!(check_registration(&Agent::new(id, 1).register_message(), Some(&set)).is_ok());
    }
    assert!(check_registration(&Agent::new(9, 1).register_message(), Some(&set)).is_err());
}

#[test]
fn claims_are_judged() {
    let (agents, runners) = fleet();
    let replies = claims(&agents, 1);
    assert!(matches!(judge_claim(1, &runners[0], &replies[0]), ClaimVerdict::Counted(_)));
    assert_eq!(judge_claim(2, &runners[0], &replies[0]), ClaimVerdict::OtherJob(1));
    assert_eq!(
        judge_claim(1, &runners[1], &replies[0]),
        ClaimVerdict::ProofRejected(VrfError::InvalidProof)
    );
    assert_eq!(judge_claim(1, &runners[0], &Envelope::Shutdown), ClaimVerdict::NotAClaim);
    let mut fewer = replies;
    fewer[0] = Envelope::Shutdown;
    assert_eq!(
        choose_committee(1, &runners, &fewer, &canned_requirements(), 5),
        Err(Shortfall { eligible: 4, candidates: 4 })
    );
}

#[test]
fn whoever_does_not_attest_is_missing() {
    let (agents, runners) = fleet();
    let committee = vec![0, 1, 2];
    let mut returned: Vec<Option<Envelope>> =
        agents.iter().map(|a| Some(a.attest(1, 5, [7; 32], vec![]))).collect();
    returned[0] = None;
    returned[1] = agents.get(2).map(|a| a.attest(1, 5, [7; 32], vec![]));
    let c = collect_attestations(&runners, &committee, &returned);
    assert_eq!(c.missing, vec![0, 1]);
    assert_eq!(c.received, vec![2]);
}

fn att(runner_id: u64, artifact: u8, pass: bool) -> Attestation {
    Attestation {
        version: 1,
        job_id: [0; 16],
        commit: [0; 32],
        runner_id,
        result: if pass { AttestationResult::Pass } else { AttestationResult::Fail },
        environment_hash: [0; 32],
        artifact_hash: [artifact; 32],
        timestamp_unix_ns: 0,
        signature: [0; 64],
    }
}

#[test]
fn dissent_is_slashed_on_a_definite_outcome() {
    let mut ledger = StakeLedger::new();
    for id in 1..=3 {
        ledger.register(id, 100);
    }
    let atts = [att(1, 7, true), att(2, 7, true), att(3, 8, true)];
    assert_eq!(consensus_artifact(&atts), [7; 32]);
    assert_eq!(consensus_artifact(&[]), [0; 32]);
    let t = tally(&[1, 2, 3], &atts, &ledger);
    assert!(settle(&t, &atts, &mut ledger, false, |w: u64| w / 4).is_empty());
    let events = settle(&t, &atts, &mut ledger, true, |w: u64| w / 4);
    assert_eq!(events.len(), 1);
    assert_eq!(ledger.stake_of(3), 75);
    let open = tally(&[1, 2, 3], &[att(1, 7, true)], &ledger);
    assert_eq!(open.outcome, Outcome::Retry);
    assert!(settle(&open, &[att(1, 7, true)], &mut ledger, true, |w: u64| w).is_empty());
    let failed = tally(&[1], &[att(1, 7, false)], &ledger);
    assert_eq!(failed.outcome, Outcome::Fail);
    assert_eq!(failed.threshold, 67);
}

#[test]
fn jobs_are_counted_and_take_turns() {
    assert_eq!(next_job(0, 3, false), Some(1));
    assert_eq!(next_job(3, 3, false), None);
    assert_eq!(next_job(0, 3, true), None);
    assert_eq!(kind_in_turn(1), JobKind::Add);
    assert_eq!(kind_in_turn(2), JobKind::Mul);
    assert_eq!(JobKind::from_wire("mul"), Some(JobKind::Mul));
    assert_eq!(JobKind::from_wire("Mul"), None);
    assert_eq!(default_deadline_secs(), 60);
}

#[test]
fn lines_are_records_or_not() {
    assert_eq!(record_on("  {}  "), Some("{}".to_string()));
    assert_eq!(record_on("  # note"), None);
    assert_eq!(record_on(" \t"), None);
    assert_eq!(parse_hex64(&"0a".repeat(64)), Some([10; 64]));
    assert_eq!(parse_hex64(&"0A".repeat(64)), None);
    assert_eq!(parse_hex64("0a"), None);
}

fn submission(kp: &Keypair) -> JobSubmission {
    let payload = JobSubmissionPayload {
        tenant_id: demo::DEMO_TENANT_ID,
        kind: "add".into(),
        a: 1,
        b: 2,
        deadline_secs: 60,
        nonce: 5,
    };
    let sig = kp.sign(&canonical_bytes(&payload).expect("bytes")).to_bytes();
    JobSubmission {
        kind: JobKind::Add,
        a: 1,
        b: 2,
        deadline_secs: 60,
        tenant_id: Some(demo::DEMO_TENANT_ID),
        nonce: Some(5),
        pubkey_hex: Some(cosaci::text::hex(&kp.verifying_key().to_bytes())),
        signature_hex: Some(cosaci::text::hex(&sig)),
    }
}

#[test]
fn a_signed_submission_passes() {
    let kp = Keypair::from_seed(demo::demo_tenant_seed());
    let registry = TenantRegistry::parse(&demo::tenants_text(5)).expect("parse");
    let clock = Hand(Rc::new(Cell::new(1000)));
    let mut limiter = RateLimiter::new(clock.clone(), 0, 0);
    let mut guard = ReplayGuard::new(clock.clone(), 100);
    let sub = submission(&kp);
    let mut unsigned = sub.clone();
    unsigned.signature_hex = None;
    assert_eq!(
        check_submission(&unsigned, 1000, &registry, &mut limiter, &mut guard),
        AuthCheck::BadSignature
    );
    assert_eq!(
        check_submission(&sub, 1000, &registry, &mut limiter, &mut guard),
        AuthCheck::Admitted
    );
    let mut gate = Some(AuthState { registry, limiter, replay_guard: guard });
    assert_eq!(pass_gate(&sub, 1000, &mut gate), AuthCheck::ReplayDetected);
    let mut none: Option<AuthState<Hand>> = None;
    assert_eq!(pass_gate(&unsigned, 1000, &mut none), AuthCheck::Admitted);
}

#[test]
fn the_demonstration_has_its_arguments() {
    let paths = demo::Paths {
        ca: "ca".into(),
        server_cert: "sc".into(),
        server_key: "sk".into(),
        enrollment: "en".into(),
        tenants: "te".into(),
    };
    let base = "--addr A --ca ca --cert sc --key sk --fleet 5 --committee 3 --enrollment en";
    let args = |k: demo::RoundKind| demo::coordinator_args("A", &paths, &k).join(" ");
    assert_eq!(args(demo::RoundKind::Sigterm), base);
    assert_eq!(
        args(demo::RoundKind::Bounded { read_addr: Some("R".into()), journal: "J".into() }),
        format!("{base} --max-jobs 3 --read-addr R --journal J")
    );
    assert_eq!(
        args(demo::RoundKind::SubmitStdin),
        format!("{base} --submit-stdin --queue-cap 8 --tenants te")
    );
    assert_eq!(
        demo::agent_args(2, "A", "ca", "c", "k").join(" "),
        "--id 2 --addr A --ca ca --cert c --key k --server-name cosaci.local --stake 100"
    );
    assert_eq!(
        demo::auditor_args("R", "ca", "c", "k").join(" "),
        "--addr R --ca ca --cert c --key k --server-name cosaci.local --job-id 1"
    );
    let lines = demo::submission_lines();
    assert!(lines[0].starts_with("{\"kind\":\"add\",\"a\":1,\"b\":2,"));
    assert!(lines[1].contains("\"nonce\":178,"));
}

#[test]
fn an_auditor_retries() {
    assert_eq!(after_attempt(1, 2, Attempt::NotYet), NextMove { wait: true, again: true });
    assert_eq!(after_attempt(2, 2, Attempt::NotYet), NextMove { wait: false, again: false });
    assert_eq!(after_attempt(2, 2, Attempt::Failed), NextMove { wait: true, again: false });
}

#[test]
fn a_handshake_is_given_up() {
    let mut p = Pump::new();
    let mut steps = 0;
    loop {
        let report = match p.due {
            Step::AskClient | Step::AskServer => Report::Wants(true),
            Step::FlushClient | Step::FlushServer => Report::Wrote(true),
            Step::FeedServer | Step::FeedClient => Report::Read,
            Step::AskBoth => Report::Handshaking { client: true, server: false },
            Step::Done | Step::GiveUp => break,
        };
        p.advance(report);
        steps += 1;
    }
    assert_eq!(p.due, Step::GiveUp);
    assert_eq!(p.rounds, 50);
    assert_eq!(steps, 350);
    let mut q = Pump { rounds: 3, due: Step::AskBoth };
    q.advance(Report::Handshaking { client: false, server: false });
    assert_eq!(q.due, Step::Done);
}

#[test]
fn an_admin_session_opens() {
    let kp = Keypair::from_seed([3; 32]);
    let Envelope::AdminHello { admin_pubkey, ts_unix_ns, signature } =
        cosaci::admin::hello(&kp, 77)
    else {
        panic!("no hello");
    };
    let mut set = AdminKeySet::new();
    set.insert(AdminRecord {
        admin_id: 1,
        signing_fp: cosaci::admin_auth::fingerprint(&admin_pubkey),
        enrolled_at_unix_ns: 0,
    })
    .expect("insert");
    assert_eq!(
        verify_admin_hello_at(
            &set,
            &admin_pubkey,
            ts_unix_ns,
            &signature,
            ADMIN_HELLO_CHALLENGE.as_bytes(),
            ADMIN_HELLO_FRESHNESS_NS,
            78
        ),
        AdminAuthCheck::Authorized { admin_id: 1 }
    );
}

#[test]
fn a_job_runs_its_course() {
    let (agents, runners) = fleet();
    let opening = open_job(4);
    assert_eq!(opening.entry, JournalEntry::JobSubmitted { job_id: 4 });
    assert_eq!(opening.message, seed_message(4));
    let mut ledger =
        StakeLedger::from_stake_map(runners.iter().map(|r| (r.runner_id, r.stake)).collect());
    let pipeline = canned_pipeline(vec![1], vec![2]);
    let assigned = assign_job(
        4,
        &runners,
        &claims(&agents, 4),
        3,
        pipeline.clone(),
        canned_requirements(),
        5,
    )
    .expect("enough runners");
    assert_eq!(assigned.committee, vrf_assign_committee(&agents, &job_seed_bytes(4), 3));
    assert_eq!(
        assigned.entry,
        JournalEntry::CommitteeSelected { job_id: 4, committee: assigned.committee.clone() }
    );
    assert_eq!(
        assigned.message,
        assign_message(4, pipeline.clone(), canned_requirements(), 5)
    );
    let dissenter = assigned.committee[2];
    let returned: Vec<Option<Envelope>> = agents
        .iter()
        .map(|a| {
            let artifact = if a.runner_id() == dissenter { [8; 32] } else { [7; 32] };
            Some(a.attest(4, 60, artifact, vec![]))
        })
        .collect();
    let collected = collect_attestations(&runners, &assigned.committee, &returned);
    let settled =
        settle_job(4, &assigned.committee, &collected, &mut ledger, true, |w: u64| w / 4);
    assert_eq!(settled.tally.outcome, Outcome::Pass);
    assert_eq!(settled.tally.consensus_artifact, [7; 32]);
    assert_eq!(settled.entries.len(), 4);
    for (entry, id) in settled.entries.iter().zip(&collected.received) {
        assert_eq!(entry, &JournalEntry::AttestationReceived { job_id: 4, runner_id: *id });
    }
    assert_eq!(settled.entries[3], aggregated_entry(4, &settled.tally));
    assert_eq!(settled.slashed.len(), 1);
    assert_eq!(ledger.stake_of(dissenter), 75);

    let (mut log, mut records) = (MerkleLog::new(), HashMap::new());
    let anchored =
        anchor_job(4, &pipeline, &collected, &settled.tally, &mut log, &mut records);
    assert_eq!(anchored, Some(JournalEntry::Anchored { job_id: 4, position: 0 }));
    assert_eq!(log.entry_at(0), Some([7; 32]));
    assert_eq!(records[&4].committee_attestations.len(), 3);

    let mut failed = settled.tally;
    failed.outcome = Outcome::Fail;
    assert_eq!(anchor_job(5, &pipeline, &collected, &failed, &mut log, &mut records), None);
    assert_eq!((log.len(), records.len()), (1, 1));
    let short = assign_job(
        4,
        &runners,
        &claims(&agents, 4),
        6,
        pipeline,
        canned_requirements(),
        5,
    );
    assert_eq!(short.err(), Some(Shortfall { eligible: 5, candidates: 5 }));
}
