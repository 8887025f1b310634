use std::cell::Cell;
use std::collections::HashMap;
use std::rc::Rc;

use cosaci::admin_auth::{
    verify_admin_hello, verify_admin_hello_at, AdminAuthCheck, AdminError, AdminKeySet, AdminRecord,
};
use cosaci::aggregator::{AggregationState, Aggregator};
use cosaci::attestation::{Attestation, AttestationResult};
use cosaci::clock::Clock;
use cosaci::enrollment::{
    fingerprint, fingerprint_hex, reputation_fields, EnrolledRecord, EnrollmentSet, ReputationField,
};
use cosaci::github_checks::{
    build_payload, status_to_check_status, CheckConclusion, CheckStatus, JobContext,
};
use cosaci::journal::{
    entry_line, reconstruct_state, replay, JobState, JournalEntry, JournalOutcome,
};
use cosaci::lease::{LeaseError, LeaseManager};
use cosaci::partial_quorum::{resolve_with_dropouts, stake_map_from_pairs, two_thirds_threshold};
use cosaci::quorum::{Outcome, Vote, VoteResult};
use cosaci::rate_limit::RateLimiter;
use cosaci::replay::{AcceptError, ReplayGuard};
use cosaci::replicated_cluster::{ClusterError, Side, TwoReplicaCluster};
use cosaci::sharding::{shard_of, ShardedStore};
use cosaci::signing::Keypair;
use cosaci::stake_ledger::{SlashEvent, StakeLedger};
use cosaci::status::Status;
use cosaci::submission_auth::{
    canonical_bytes, pubkey_fingerprint, verify_and_admit, AuthCheck, JobSubmissionPayload,
};
use cosaci::tenant::{parse_hex32, TenantError, TenantRecord, TenantRegistry};

#[derive(Clone)]
struct Hand(Rc<Cell<u64>>);

impl Clock for Hand {
    fn now_ns(&self) -> u64 {
        self.0.get()
    }
}

fn hand(at: u64) -> Hand {
    Hand(Rc::new(Cell::new(at)))
}

const SECOND: u64 = 1_000_000_000;

#[test]
fn a_bucket_refills_with_time() {
    let clock = hand(0);
    let mut limiter = RateLimiter::new(clock.clone(), 2, 1);
    assert!(limiter.accept(1, 1));
    assert!(limiter.accept(1, 1));
    assert!(!limiter.accept(1, 1));
    assert!(limiter.accept(2, 2));
    clock.0.set(SECOND);
    assert_eq!(limiter.tokens_of(1), 1);
    assert!(limiter.accept(1, 1));
    clock.0.set(100 * SECOND);
    assert_eq!(limiter.tokens_of(1), 2);
    assert_eq!(limiter.tokens_of(77), 2);
    assert_eq!(limiter.capacity(), 2);
    assert!(limiter.accept_with_config(9, 5, 5, 0));
    assert!(!limiter.accept_with_config(9, 1, 5, 0));
}

#[test]
fn a_nonce_counts_once_in_its_window() {
    let clock = hand(1000);
    let mut guard = ReplayGuard::new(clock.clone(), 100);
    assert_eq!(guard.accept(7, 1000), Ok(()));
    assert_eq!(guard.accept(7, 1000), Err(AcceptError::Replay));
    assert_eq!(guard.accept(8, 899), Err(AcceptError::StaleTimestamp));
    assert_eq!(guard.accept(8, 1101), Err(AcceptError::StaleTimestamp));
    assert_eq!(guard.accept(8, 900), Ok(()));
    assert_eq!(guard.count(), 2);
    clock.0.set(1100);
    assert!(!guard.is_known(7));
    assert_eq!(guard.accept(7, 1100), Ok(()));
}

#[test]
fn one_lease_per_job_and_runner() {
    let clock = hand(0);
    let mut m = LeaseManager::new(clock.clone(), 10);
    assert_eq!(m.acquire(1, 1), Ok(0));
    assert_eq!(m.acquire(1, 1), Err(LeaseError::AlreadyLeased));
    assert_eq!(m.acquire(1, 2), Ok(1));
    assert_eq!(m.count_active_for_job(1), 2);
    clock.0.set(10);
    assert_eq!(m.active_lease_for(1, 1), None);
    assert!(m.acquire(1, 1).is_ok());
}

#[test]
fn a_lease_is_replicated_until_a_heal_drops_it() {
    let clock = hand(0);
    let mut c = TwoReplicaCluster::new(clock, 10);
    assert_eq!(c.acquire(Side::A, 1, 1), Ok(()));
    assert!(c.side_has_active(Side::B, 1, 1));
    assert_eq!(c.acquire(Side::B, 1, 1), Err(ClusterError::AlreadyLeased));
    c.partition(Side::A);
    assert!(c.is_partitioned());
    c.heal();
    assert!(!c.is_partitioned());
    assert_eq!(c.global_active_count(1, 1), 1);
}

#[test]
fn split_brain_shows_in_the_count_of_a_job() {
    let clock = hand(0);
    let mut c = TwoReplicaCluster::new(clock.clone(), 10);
    assert_eq!(c.acquire(Side::A, 1, 1), Ok(()));
    assert_eq!(c.global_active_count_for_job(1), 2);
    c.partition(Side::B);
    assert_eq!(c.acquire(Side::A, 1, 2), Ok(()));
    assert_eq!(c.acquire(Side::B, 1, 3), Ok(()));
    assert_eq!(c.global_active_count_for_job(1), 4);
    assert_eq!(c.global_active_count_for_job(2), 0);
    c.heal();
    assert_eq!(c.global_active_count_for_job(1), 2);
    assert!(!c.side_has_active(Side::A, 1, 2));
    assert!(c.side_has_active(Side::B, 1, 3));
    clock.0.set(SECOND);
    assert_eq!(c.global_active_count_for_job(1), 0);
}

#[test]
fn keys_survive_a_rebalance() {
    let mut s = ShardedStore::new(3);
    for k in 0..20 {
        s.put(k, k * 10);
    }
    s.rebalance(7);
    assert_eq!(s.n_shards(), 7);
    assert_eq!(s.len(), 20);
    for k in 0..20 {
        assert_eq!(s.get(k), Some(k * 10));
    }
    assert_eq!(s.remove(4), Some(40));
    assert_eq!(s.remove(4), None);
    assert!(!s.contains_key(4));
    assert!(shard_of(99, 7) < 7);
    assert_eq!(s.shard_load(7), None);
}

fn vote(runner_id: u64, pass: bool) -> Vote {
    Vote { runner_id, result: if pass { VoteResult::Pass } else { VoteResult::Fail } }
}

#[test]
fn an_aggregator_settles_once() {
    let stake: HashMap<u64, u64> = [(1, 10), (2, 10), (3, 10)].into_iter().collect();
    let mut a = Aggregator::with_max_retries(20, stake.clone(), 1);
    assert_eq!(a.receive_vote(vote(1, true)), AggregationState::Pending);
    assert_eq!(a.trigger_aggregation(), AggregationState::Pending);
    assert_eq!(a.retries(), 1);
    assert_eq!(a.receive_vote(vote(2, true)), AggregationState::Pass);
    assert_eq!(a.receive_vote(vote(3, false)), AggregationState::Pass);
    assert_eq!(a.vote_count(), 2);
    assert!(a.is_terminal());
    let mut idle = Aggregator::with_max_retries(20, stake.clone(), 1);
    assert_eq!(idle.trigger_aggregation(), AggregationState::Pending);
    assert_eq!(idle.trigger_aggregation(), AggregationState::Escalate);
    let mut late = Aggregator::new(20, stake);
    assert_eq!(late.timeout(), AggregationState::Escalate);
}

#[test]
fn dropouts_are_left_out_of_the_threshold() {
    let stake = stake_map_from_pairs(&[(1, 100), (2, 100), (3, 100)]);
    let p = resolve_with_dropouts(
        &[1, 2, 3],
        &[vote(1, true), vote(3, true)],
        &stake,
        two_thirds_threshold,
    );
    assert_eq!(p.outcome, Outcome::Pass);
    assert_eq!(p.missing, vec![2]);
    assert_eq!(p.responding, vec![1, 3]);
    assert_eq!(p.responding_stake, 200);
    assert_eq!(p.threshold, 134);
    assert_eq!(two_thirds_threshold(300), 200);
    assert_eq!(two_thirds_threshold(100), 67);
}

fn att(runner_id: u64, artifact: u8) -> Attestation {
    Attestation {
        version: 1,
        job_id: [0; 16],
        commit: [0; 32],
        runner_id,
        result: AttestationResult::Pass,
        environment_hash: [0; 32],
        artifact_hash: [artifact; 32],
        timestamp_unix_ns: 0,
        signature: [0; 64],
    }
}

#[test]
fn dissenters_are_slashed_and_nobody_else() {
    let mut l = StakeLedger::new();
    l.register(1, 100);
    l.register(2, 100);
    let events =
        l.slash_minority([9; 32], &[att(1, 9), att(2, 8), att(77, 8)], |w: u64| w / 4);
    assert_eq!(
        events,
        vec![SlashEvent { runner_id: 2, stake_before: 100, stake_after: 75, slashed: 25 }]
    );
    assert_eq!(l.stake_of(1), 100);
    assert_eq!(l.stake_of(2), 75);
    assert_eq!(l.slash(2, 1000).stake_after, 0);
    assert_eq!(l.stake_of(99), 0);
}

fn fp(byte: u8) -> String {
    fingerprint_hex(&[byte; 32])
}

#[test]
fn an_enrollment_file_is_read() {
    let file = format!("# head\n\n 7 {} {} -5 0.75 \n7 {} {} 6 1\n", fp(1), fp(2), fp(3), fp(4));
    assert_eq!(reputation_fields(&file), vec!["0.75".to_string(), "1".to_string()]);
    let set = EnrollmentSet::parse(
        &file,
        &[ReputationField::Milli(750), ReputationField::Milli(1000)],
    )
    .expect("parse");
    assert_eq!(set.len(), 1);
    assert!(set.is_enrolled(7, &[3; 32], &[4; 32]));
    assert!(!set.is_enrolled(7, &[1; 32], &[2; 32]));
    assert!(!set.is_enrolled(8, &[3; 32], &[4; 32]));
    assert_eq!(
        set.get(7),
        Some(&EnrolledRecord {
            runner_id: 7,
            signing_fp: [3; 32],
            vrf_fp: [4; 32],
            enrolled_at_unix_ns: 6,
            initial_reputation_milli: 1000,
        })
    );
}

#[test]
fn each_fault_of_an_enrollment_line_has_its_message() {
    let say = |line: String, rep: ReputationField| match EnrollmentSet::parse(&line, &[rep]) {
        Err(e) => e.message(),
        Ok(_) => panic!("parsed: {line}"),
    };
    let ok = || ReputationField::Milli(1);
    let h = fp(1);
    assert_eq!(say("7".into(), ok()), "enrollment line 1: missing field signing_fp");
    assert_eq!(say("x".into(), ok()), "enrollment line 1: runner_id: invalid digit found in string");
    assert_eq!(
        say(format!("7 {h} {h} 5 1.0 extra"), ok()),
        "enrollment line 1: trailing fields after initial_reputation"
    );
    assert_eq!(
        say(format!("7 {h} {h} 5 2.0"), ReputationField::OutOfRange("2".into())),
        "enrollment line 1: initial_reputation 2 not in [0.0, 1.0]"
    );
    assert_eq!(
        say(format!("7 {h} {h} 5 x"), ReputationField::NotANumber),
        "enrollment line 1: initial_reputation: invalid float literal"
    );
    assert_eq!(
        say(format!("7 ab {h} 5 1.0"), ok()),
        "enrollment line 1: signing_fp: expected 64 hex chars, got 2"
    );
    assert_eq!(
        say(format!("7 {h} g{} 5 1.0", &h[1..]), ok()),
        "enrollment line 1: vrf_fp: non-hex byte 0x67"
    );
    let capital = "AB".repeat(32);
    assert_eq!(
        say(format!("7 {capital} {h} 5 1.0"), ok()),
        "enrollment line 1: signing_fp: non-hex byte 0x41"
    );
    assert_eq!(
        say(format!("7 {h} {capital} 5 1.0"), ok()),
        "enrollment line 1: vrf_fp: non-hex byte 0x41"
    );
}

#[test]
fn a_tenant_file_is_read() {
    let reg = TenantRegistry::parse(&format!("# t\n1 {} 100 10 5\n", fp(7))).expect("parse");
    assert_eq!(
        reg.get(1),
        Some(&TenantRecord {
            tenant_id: 1,
            signing_fp: [7; 32],
            rate_capacity: 100,
            rate_refill_per_sec: 10,
            registered_at_unix_ns: 5,
        })
    );
    let say = |file: String| match TenantRegistry::parse(&file) {
        Err(e) => e.message(),
        Ok(_) => panic!("parsed: {file}"),
    };
    assert_eq!(say("1".into()), "tenants.txt line 1: missing field: signing_fp_hex");
    assert_eq!(
        say(format!("1 {} 1 1 1 1", fp(7))),
        "tenants.txt line 1: trailing fields after registered_at_unix_ns"
    );
    assert_eq!(
        say(format!("1 {} 1 1 1", "AB".repeat(32))),
        "tenants.txt line 1: signing_fp_hex not 64 lowercase-hex chars"
    );
    assert_eq!(
        say(format!("1 {} x 1 1", fp(7))),
        "tenants.txt line 1: rate_capacity not a u64"
    );
    let twice = format!("1 {} 1 1 1\n1 {} 1 1 1\n", fp(7), fp(8));
    assert_eq!(say(twice), "tenant_id 1 already registered");
    let mut again = reg;
    let record = *again.get(1).expect("record");
    assert_eq!(again.insert(record), Err(TenantError::AlreadyRegistered { tenant_id: 1 }));
    assert_eq!(parse_hex32(&fp(9)), Some([9; 32]));
    assert_eq!(parse_hex32("09"), None);
}

fn payload() -> JobSubmissionPayload {
    JobSubmissionPayload {
        tenant_id: 1,
        kind: "add".into(),
        a: 1,
        b: -2,
        deadline_secs: 60,
        nonce: u128::MAX,
    }
}

#[test]
fn the_admission_checks_come_in_order() {
    let kp = Keypair::from_seed([5; 32]);
    let pk = kp.verifying_key().to_bytes();
    let mut reg = TenantRegistry::new();
    let clock = hand(1000 * SECOND);
    let mut limiter = RateLimiter::new(clock.clone(), 0, 0);
    let mut guard = ReplayGuard::new(clock.clone(), 10 * SECOND);
    let now = 1000 * SECOND;
    let p = payload();
    let sig = kp.sign(&canonical_bytes(&p).expect("bytes")).to_bytes();
    assert_eq!(
        verify_and_admit(&p, &pk, &sig, now, &reg, &mut limiter, &mut guard),
        AuthCheck::UnknownTenant
    );
    reg.insert(TenantRecord {
        tenant_id: 1,
        signing_fp: pubkey_fingerprint(&pk),
        rate_capacity: 1,
        rate_refill_per_sec: 0,
        registered_at_unix_ns: 0,
    })
    .expect("insert");
    let mut other = p.clone();
    other.a = 2;
    assert_eq!(
        verify_and_admit(&other, &pk, &sig, now, &reg, &mut limiter, &mut guard),
        AuthCheck::BadSignature
    );
    assert_eq!(
        verify_and_admit(&p, &pk, &sig, now, &reg, &mut limiter, &mut guard),
        AuthCheck::Admitted
    );
    assert_eq!(
        verify_and_admit(&p, &pk, &sig, now, &reg, &mut limiter, &mut guard),
        AuthCheck::ReplayDetected
    );
    let mut next = p;
    next.nonce = 3;
    let sig = kp.sign(&canonical_bytes(&next).expect("bytes")).to_bytes();
    assert_eq!(
        verify_and_admit(&next, &pk, &sig, now, &reg, &mut limiter, &mut guard),
        AuthCheck::RateLimited
    );
}

#[test]
fn an_admin_hello_is_checked() {
    let kp = Keypair::from_seed([6; 32]);
    let pk = kp.verifying_key().to_bytes();
    let challenge = b"challenge";
    let mut signed = challenge.to_vec();
    signed.extend_from_slice(&500u64.to_le_bytes());
    let sig = kp.sign(&signed).to_bytes();
    let mut set = AdminKeySet::new();
    assert_eq!(
        verify_admin_hello_at(&set, &pk, 500, &sig, challenge, 10, 500),
        AdminAuthCheck::Unauthorized
    );
    let record = AdminRecord { admin_id: 3, signing_fp: fingerprint(&pk), enrolled_at_unix_ns: 0 };
    set.insert(record).expect("insert");
    assert!(matches!(set.insert(record), Err(AdminError::AlreadyEnrolled { .. })));
    let at = |now: u64| verify_admin_hello_at(&set, &pk, 500, &sig, challenge, 10, now);
    assert_eq!(at(510), AdminAuthCheck::Authorized { admin_id: 3 });
    assert_eq!(at(490), AdminAuthCheck::Authorized { admin_id: 3 });
    assert_eq!(at(511), AdminAuthCheck::Unauthorized);
    assert_eq!(
        verify_admin_hello(&set, &pk, 500, &sig, challenge, 10, &hand(505)),
        AdminAuthCheck::Authorized { admin_id: 3 }
    );
    assert_eq!(
        verify_admin_hello_at(&set, &pk, 501, &sig, challenge, 10, 500),
        AdminAuthCheck::Unauthorized
    );
    let parsed = AdminKeySet::parse(&format!("3 {} 0\n", fingerprint_hex(&fingerprint(&pk))));
    assert_eq!(parsed.expect("parse").len(), 1);
    match AdminKeySet::parse("3\n") {
        Err(e) => {
            assert_eq!(e.message(), "admin_keys.txt line 1: missing field: signing_fp_hex");
        }
        Ok(_) => panic!("parsed"),
    }
}

#[test]
fn admins_are_listed_in_one_order() {
    let admin = |admin_id: u64, fp: u8| AdminRecord {
        admin_id,
        signing_fp: [fp; 32],
        enrolled_at_unix_ns: 0,
    };
    let mut set = AdminKeySet::new();
    for record in [admin(3, 1), admin(2, 9), admin(2, 4)] {
        set.insert(record).expect("insert");
    }
    let mut other = AdminKeySet::new();
    for record in [admin(2, 4), admin(3, 1), admin(2, 9)] {
        other.insert(record).expect("insert");
    }
    assert_eq!(set.iter(), vec![admin(2, 4), admin(2, 9), admin(3, 1)]);
    assert_eq!(set.iter(), other.iter());
    match set.insert(admin(7, 1)) {
        Err(e) => assert_eq!(
            e.message(),
            "admin signing_fp [01, 01, 01, 01]… already enrolled"
        ),
        Ok(()) => panic!("inserted"),
    }
}

#[test]
fn a_large_refill_fills_the_bucket() {
    let clock = hand(0);
    let mut limiter = RateLimiter::new(clock.clone(), u64::MAX, u64::MAX);
    assert!(limiter.accept(1, u64::MAX));
    assert_eq!(limiter.tokens_of(1), 0);
    clock.0.set(1_000_000_001);
    assert_eq!(limiter.tokens_of(1), u64::MAX);
}

#[test]
fn loads_count_the_keys_of_a_shard() {
    let loads = |s: &ShardedStore| -> Vec<usize> {
        (0..s.n_shards()).map(|i| s.shard_load(i).expect("load")).collect()
    };
    let mut s = ShardedStore::new(4);
    for k in 0..30 {
        let before = loads(&s);
        s.put(k, k);
        let mut want = before.clone();
        want[shard_of(k, 4)] += 1;
        assert_eq!(loads(&s), want);
        s.put(k, k + 1);
        assert_eq!(loads(&s), want);
    }
    let counted = |s: &ShardedStore| -> Vec<usize> {
        let keys = s.all_keys();
        (0..s.n_shards())
            .map(|i| keys.iter().filter(|k| shard_of(**k, s.n_shards()) == i).count())
            .collect()
    };
    assert_eq!(loads(&s), counted(&s));
    let mut once = s.clone();
    once.rebalance(3);
    s.rebalance(7);
    assert_eq!(loads(&s), counted(&s));
    s.rebalance(3);
    assert_eq!(loads(&s), loads(&once));
    assert_eq!(once.get(5), Some(6));
}

#[test]
fn connected_replicas_stay_in_step() {
    let clock = hand(0);
    let mut c = TwoReplicaCluster::new(clock.clone(), 10);
    for at in 0..40u64 {
        clock.0.set(at);
        let side = if at % 3 == 0 { Side::A } else { Side::B };
        let _ = c.acquire(side, at % 2, at % 5);
        let _ = c.side_has_active(Side::A, 0, 0);
        for runner in 0..5 {
            let n = c.global_active_count(at % 2, runner);
            assert!(n == 0 || n == 2);
        }
    }
}

#[test]
fn a_journal_is_replayed() {
    let entries = vec![
        JournalEntry::JobSubmitted { job_id: 1 },
        JournalEntry::CommitteeSelected { job_id: 1, committee: vec![3, 4] },
        JournalEntry::AttestationReceived { job_id: 1, runner_id: 3 },
        JournalEntry::Aggregated {
            job_id: 1,
            outcome: JournalOutcome::Pass,
            artifact_hex: "ab".into(),
        },
        JournalEntry::Anchored { job_id: 1, position: 0 },
        JournalEntry::JobSubmitted { job_id: 2 },
        JournalEntry::Aggregated {
            job_id: 3,
            outcome: JournalOutcome::Escalate,
            artifact_hex: "cd".into(),
        },
    ];
    let mut file = String::new();
    for e in &entries {
        file.push_str(&entry_line(e));
    }
    assert_eq!(
        entry_line(&entries[1]),
        "{\"k\":\"CommitteeSelected\",\"job_id\":1,\"committee\":[3,4]}\n"
    );
    assert_eq!(replay(&file), entries);
    let torn = format!("{file}{{\"k\":\"JobSubmitted\",\"job_id\":9}}");
    assert_eq!(replay(&torn), entries);
    let noisy = format!("not json\n\n{file}");
    assert_eq!(replay(&noisy), entries);
    let state = reconstruct_state(&entries);
    assert_eq!(state.pending_re_run(), vec![2]);
    assert_eq!(state.pending_re_anchor(), vec![3]);
    assert!(state.anchored_jobs().contains(&1));
    assert!(matches!(state.jobs.get(&1), Some(JobState::Anchored { position: 0 })));
}

fn only(line: &str) -> Option<JournalEntry> {
    let found = replay(&format!("{line}\n"));
    assert!(found.len() < 2);
    found.into_iter().next()
}

#[test]
fn a_journal_line_has_each_field_once() {
    let submitted = Some(JournalEntry::JobSubmitted { job_id: 7 });
    assert_eq!(only(r#"{"job_id":7,"k":"JobSubmitted"}"#), submitted);
    assert_eq!(only(r#"{"k":"JobSubmitted","job_id":7,"x":1,"x":2.5}"#), submitted);
    assert_eq!(only(r#"{"k":"JobSubmitted","job_id":6,"job_id":7}"#), None);
    assert_eq!(only(r#"{"k":"JobSubmitted","k":"JobSubmitted","job_id":7}"#), None);
    assert_eq!(only(r#"{"k":"JobSubmitted","job_id":-7}"#), None);
    assert_eq!(only(r#"{"k":"JobSubmitted","job_id":7.0}"#), None);
    assert_eq!(only(r#"{"k":"JobSubmitted"}"#), None);
    assert_eq!(only(r#"{"k":"Other","job_id":7}"#), None);
    assert_eq!(only(r#"{"k":null,"job_id":true}"#), None);
}

#[test]
fn a_journal_line_may_be_an_array() {
    assert_eq!(only(r#"["JobSubmitted",7]"#), Some(JournalEntry::JobSubmitted { job_id: 7 }));
    assert_eq!(
        only(r#"["CommitteeSelected",7,[1,2]]"#),
        Some(JournalEntry::CommitteeSelected { job_id: 7, committee: vec![1, 2] })
    );
    assert_eq!(
        only(r#"["Anchored",7,9]"#),
        Some(JournalEntry::Anchored { job_id: 7, position: 9 })
    );
    assert_eq!(only(r#"["JobSubmitted",7,8]"#), None);
    assert_eq!(only(r#"["Anchored",7]"#), None);
    assert_eq!(only("[]"), None);
}

#[test]
fn a_journal_outcome_is_a_name_or_an_object() {
    let line = |outcome: &str| {
        only(&format!(
            r#"{{"k":"Aggregated","job_id":7,"outcome":{outcome},"artifact_hex":"ab"}}"#
        ))
    };
    let passed = Some(JournalEntry::Aggregated {
        job_id: 7,
        outcome: JournalOutcome::Pass,
        artifact_hex: "ab".into(),
    });
    assert_eq!(line(r#""Pass""#), passed);
    assert_eq!(line(r#"{"Pass":null}"#), passed);
    assert_eq!(line(r#"{"Pass":{}}"#), passed);
    assert_eq!(line(r#"{"Pass":1}"#), None);
    assert_eq!(line(r#"{"Pass":null,"Fail":null}"#), None);
    assert_eq!(line("{}"), None);
    assert_eq!(line(r#""Passed""#), None);
    assert_eq!(only(r#"["Aggregated",7,{"Pass":null},"ab"]"#), passed);
}

#[test]
fn a_status_maps_to_a_check() {
    assert_eq!(status_to_check_status(Status::Pending), (CheckStatus::Queued, None));
    assert_eq!(
        status_to_check_status(Status::QuorumVerifying),
        (CheckStatus::InProgress, None)
    );
    assert_eq!(
        status_to_check_status(Status::Failure),
        (CheckStatus::Completed, Some(CheckConclusion::Failure))
    );
    let ctx = JobContext {
        name: "n",
        commit_sha: "c",
        details_url: Some("u"),
        summary: "s",
        title: "t",
    };
    let p = build_payload(Status::Success, &ctx);
    assert_eq!(p.head_sha, "c");
    assert_eq!(p.details_url, Some("u".to_string()));
    assert_eq!(p.output.title, "t");
    assert_eq!(p.conclusion, Some(CheckConclusion::Success));
}
