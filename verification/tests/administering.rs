use cosaci::admin::{
    agents_table, append_line, enroll_in, enroll_message, expect_ack, expect_agents,
    expect_log_root, expect_tenants, log_report, parse_command, parse_enroll, parse_revoke,
    parse_tenant, parse_tenant_revoke, reputation_text, revoke_in, short_fingerprint,
    tenant_message, tenants_table, Ack, Command, ReplyError, ReputationArg, Target, USAGE,
};
use cosaci::cli::{arg_or, optional_flag, required_flag, seed_of};
use cosaci::enrollment::{EnrolledRecord, EnrollmentSet, ReputationField};
use cosaci::proto::{AdminAgentRecord, AdminTenantRecord, Envelope};

fn args(line: &str) -> Vec<String> {
    line.split_whitespace().map(|s| s.to_string()).collect()
}

fn fp(byte: u8) -> String {
    cosaci::text::hex(&[byte; 32])
}

fn whole() -> ReputationArg {
    ReputationArg::InRange { thousandths: 1000, shown: "1".into() }
}

#[test]
fn commands_are_recognised() {
    assert_eq!(parse_command(&[]), Ok(Command::Help));
    assert_eq!(parse_command(&args("-h")), Ok(Command::Help));
    assert_eq!(parse_command(&args("agents list")), Ok(Command::AgentsList));
    assert_eq!(parse_command(&args("tenants add x")), Ok(Command::TenantsAdd));
    assert_eq!(parse_command(&args("log root")), Ok(Command::LogRoot));
    assert_eq!(
        parse_command(&args("agents")),
        Err("agents: missing verb (list, enroll, revoke)".into())
    );
    assert_eq!(
        parse_command(&args("log x")),
        Err("unknown log verb `x` (expected: root)".into())
    );
    assert_eq!(
        parse_command(&args("tenants x")),
        Err("unknown tenants verb `x` (expected: list, add, revoke)".into())
    );
    assert_eq!(
        parse_command(&args("nope")),
        Err(format!("unknown subcommand `nope`\n\n{USAGE}"))
    );
}

#[test]
fn flags_are_found() {
    let a = args("p --x 1 --x 2 --y");
    assert_eq!(optional_flag(&a, "--x"), Some("1".to_string()));
    assert_eq!(optional_flag(&a, "--y"), None);
    assert_eq!(required_flag(&a, "--z"), Err("missing required flag --z".into()));
    assert_eq!(arg_or(&a, "--y", "d"), "d");
    assert_eq!(seed_of(&[1; 40]), Some([1; 32]));
    assert_eq!(seed_of(&[1; 31]), None);
}

#[test]
fn an_enrollment_is_read_from_a_command() {
    let line = format!("--runner-id 7 --signing-fp {} --vrf-fp {} --enrollment f", fp(1), fp(2));
    let a = args(&line);
    assert_eq!(reputation_text(&a), "1.0");
    let q = parse_enroll(&a, whole(), 5).expect("request");
    assert_eq!(q.record.enrolled_at_unix_ns, 5);
    assert_eq!(q.target, Target::File("f".into()));
    let wired = parse_enroll(&args(&format!("{line} --coord c --at -9")), whole(), 5).expect("ok");
    assert_eq!(wired.target, Target::Coord("c".into()));
    assert_eq!(wired.record.enrolled_at_unix_ns, -9);
    assert!(matches!(
        enroll_message(&wired.record),
        Envelope::AdminEnrollAgent { runner_id: 7, initial_reputation_thousandths: 1000, .. }
    ));
    let say = |l: &str, rep: ReputationArg| match parse_enroll(&args(l), rep, 5) {
        Err(e) => e,
        Ok(_) => panic!("parsed {l}"),
    };
    assert_eq!(say("", whole()), "missing required flag --runner-id");
    assert_eq!(say("--runner-id x", whole()), "--runner-id: invalid digit found in string");
    assert_eq!(say("--runner-id 7", whole()), "missing required flag --signing-fp");
    assert_eq!(
        say(&line, ReputationArg::NotANumber("invalid float literal".into())),
        "--reputation: invalid float literal"
    );
    assert_eq!(
        say(&line, ReputationArg::OutOfRange("2".into())),
        "--reputation 2 not in [0.0, 1.0]"
    );
    let short = format!("--runner-id 7 --signing-fp ab --vrf-fp {}", fp(2));
    assert_eq!(say(&short, whole()), "--signing-fp: expected 64 hex chars, got 2");
    assert_eq!(say(&line.replace("--enrollment f", ""), whole()), "missing required flag --enrollment");
}

fn record(runner_id: u64) -> EnrolledRecord {
    EnrolledRecord {
        runner_id,
        signing_fp: [1; 32],
        vrf_fp: [2; 32],
        enrolled_at_unix_ns: 5,
        initial_reputation_milli: 750,
    }
}

#[test]
fn what_is_enrolled_is_read_back() {
    let file = enroll_in("f", "# head", &[], &record(7), "0.75").expect("enroll");
    assert_eq!(file, format!("# head\n7 {} {} 5 0.75\n", fp(1), fp(2)));
    let reps = [ReputationField::Milli(750)];
    let set = EnrollmentSet::parse(&file, &reps).expect("parse");
    assert_eq!(set.get(7), Some(&record(7)));
    assert_eq!(
        enroll_in("f", &file, &reps, &record(7), "0.75"),
        Err("runner_id 7 is already enrolled in f; revoke first if you mean to replace".into())
    );
    let two = enroll_in("f", &file, &reps, &record(8), "1").expect("enroll");
    let gone = revoke_in("f", &two, 7).expect("revoke");
    assert_eq!(gone, format!("# head\n8 {} {} 5 1\n", fp(1), fp(2)));
    assert_eq!(revoke_in("f", &gone, 7), Err("runner_id 7 not found in f".into()));
    assert!(enroll_in("f", "bad", &reps, &record(7), "1").unwrap_err().starts_with("load f: "));
    assert_eq!(append_line("", "x"), "x\n");
}

#[test]
fn a_revocation_keeps_comments_and_blank_lines() {
    let file = "# 7\n\n  7 a\n+7 b\n8 c";
    assert_eq!(revoke_in("f", file, 7), Ok("# 7\n\n8 c\n".into()));
    assert_eq!(
        parse_revoke(&args("--runner-id 7 --enrollment f")),
        Ok((7, Target::File("f".into())))
    );
}

#[test]
fn a_tenant_is_read_from_a_command() {
    let line = format!(
        "--coord c --tenant-id 1 --signing-fp {} --rate-capacity 2 --rate-refill-per-sec 3",
        fp(9)
    );
    let (coord, t) = parse_tenant(&args(&line), 44).expect("tenant");
    assert_eq!(coord, "c");
    assert_eq!((t.tenant_id, t.rate_capacity, t.rate_refill_per_sec), (1, 2, 3));
    assert_eq!(t.registered_at_unix_ns, 44);
    assert!(matches!(
        tenant_message(&t),
        Envelope::AdminAddTenant { tenant_id: 1, registered_at_unix_ns: 44, .. }
    ));
    assert_eq!(parse_tenant(&[], 1).map(|t| t.0), Err("missing required flag --coord".into()));
    assert_eq!(
        parse_tenant(&args(&format!("{line} --at x")), 1).map(|t| t.0),
        Err("--at: invalid digit found in string".into())
    );
    assert_eq!(
        parse_tenant_revoke(&args("--coord c --tenant-id 4")),
        Ok(("c".to_string(), 4))
    );
}

#[test]
fn replies_are_what_was_asked_for_or_not() {
    assert_eq!(expect_ack(Envelope::AdminEnrollAck, Ack::Enrolled), Ok(()));
    assert_eq!(
        expect_ack(Envelope::AdminEnrollAck, Ack::Revoked),
        Err(ReplyError::Unexpected)
    );
    let no = || Envelope::AdminError { reason: "no".into() };
    assert_eq!(expect_ack(no(), Ack::Welcome), Err(ReplyError::Rejected("no".into())));
    assert_eq!(expect_agents(no()), Err(ReplyError::Rejected("no".into())));
    assert_eq!(expect_tenants(Envelope::AdminTenantList { entries: vec![] }), Ok(vec![]));
    assert_eq!(
        expect_log_root(Envelope::AdminLogRoot { root: None, length: 0 }),
        Ok((None, 0))
    );
    assert_eq!(expect_log_root(Envelope::Shutdown), Err(ReplyError::Unexpected));
}

#[test]
fn tables_are_aligned_and_sorted() {
    let agent = |runner_id, thousandths| AdminAgentRecord {
        runner_id,
        signing_fp: [1; 32],
        vrf_fp: [2; 32],
        enrolled_at_unix_ns: -5,
        initial_reputation_thousandths: thousandths,
    };
    let head = format!(
        "{:<10}  {:<16}  {:<16}  {:>22}  {:>10}\n",
        "runner_id", "signing_fp", "vrf_fp", "enrolled_at", "reputation"
    );
    let row = |id: u64, rep: f32| {
        format!(
            "{:<10}  {:<16}  {:<16}  {:>22}  {:>10.3}\n",
            id,
            &fp(1)[..16],
            &fp(2)[..16],
            -5,
            rep
        )
    };
    assert_eq!(
        agents_table(&[agent(9, 5000), agent(3, 750), agent(12345678901, 5)]),
        format!("{head}{}{}{}", row(3, 0.75), row(9, 1.0), row(12345678901, 0.005))
    );
    let tenant = AdminTenantRecord {
        tenant_id: 1,
        signing_fp: [1; 32],
        rate_capacity: 2,
        rate_refill_per_sec: 3,
        registered_at_unix_ns: 4,
    };
    assert_eq!(
        tenants_table(&[tenant]),
        format!(
            "{:<10}  {:<16}  {:>10}  {:>14}  {:>22}\n{:<10}  {:<16}  {:>10}  {:>14}  {:>22}\n",
            "tenant_id",
            "signing_fp",
            "capacity",
            "refill_per_s",
            "registered_at",
            1,
            &fp(1)[..16],
            2,
            3,
            4
        )
    );
    assert_eq!(short_fingerprint(&[0xab; 32]), "ab".repeat(8));
}

#[test]
fn a_log_is_reported() {
    assert_eq!(log_report(None, 0), "length: 0 (log is empty; no root)\n");
    assert_eq!(
        log_report(Some([0xab; 32]), 3),
        format!("length: 3\nroot:   {}\n", "ab".repeat(32))
    );
}
