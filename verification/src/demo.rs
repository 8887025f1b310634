//! The demonstration: a launcher that starts a coordinator and a fleet of agents
//! with everything they need. What the files hold, and with which arguments the
//! programs start.

use crate::agent::Agent;
use crate::enrollment::fingerprint;
use crate::handshake::SUBJECT_SERVER;
use crate::signing::Keypair;
use crate::submission_auth::JobSubmissionPayload;
use crate::text;
use crate::webhook::listener::sign_and_serialize;
use vstd::prelude::*;

verus! {

/// Agents in the fleet.
pub const FLEET: u64 = 5;

/// Members of a committee.
pub const COMMITTEE: u64 = 3;

/// Jobs of the bounded round.
pub const MAX_JOBS_BOUNDED: u64 = 3;

/// Number of the demonstration tenant.
pub const DEMO_TENANT_ID: u64 = 1;

/// Stake of each agent.
pub const STAKE: u64 = 100;

/// The seed of the tenant's signing key.
pub open spec fn tenant_seed() -> Seq<u8> {
    seq![0xdeu8, 0xadu8, 0xbeu8, 0xefu8] + Seq::new(28, |i: int| 0u8)
}

/// The seed of the tenant's signing key.
#[must_use]
pub fn demo_tenant_seed() -> (r: [u8; 32])
    ensures
        r@ == tenant_seed(),
{
    let mut seed: [u8; 32] = [0u8; 32];
    seed[0] = 0xde;
    seed[1] = 0xad;
    seed[2] = 0xbe;
    seed[3] = 0xef;
    assert(seed@ =~= tenant_seed());
    seed
}

// ── Files ──────────────────────────────────────────────────────────────────
/// The fingerprint of an agent's signing key.
pub open spec fn signing_fp_of(id: u64) -> Seq<u8> {
    crate::boundary::sha::sha256_of(
        crate::boundary::ed25519::public_key_of(crate::agent::numbered_seed(id, 0)),
    )
}

/// The fingerprint of an agent's VRF key.
pub open spec fn vrf_fp_of(id: u64) -> Seq<u8> {
    crate::boundary::sha::sha256_of(
        crate::boundary::vrf::vrf_key_of(crate::agent::numbered_seed(id, 0xff)),
    )
}

/// The enrollment of an agent.
pub open spec fn enrollment_for(id: u64, now_unix_ns: i64) -> crate::enrollment::Enrollment {
    crate::enrollment::Enrollment {
        runner_id: id,
        signing_fp: signing_fp_of(id),
        vrf_fp: vrf_fp_of(id),
        enrolled_at_unix_ns: now_unix_ns,
        initial_reputation_milli: 1000,
    }
}

/// The enrollment file of the first `n` agents.
pub open spec fn enrollment_file(n: nat, now_unix_ns: i64) -> Seq<char>
    decreases n,
{
    if n == 0 {
        "# CosaCI demo enrollment file\n"@
    } else {
        enrollment_file((n - 1) as nat, now_unix_ns) + crate::enrollment::line_of(
            enrollment_for((n - 1) as u64, now_unix_ns),
            "1.0"@,
        ).push('\n')
    }
}

/// The enrollment file of the fleet.
#[must_use]
pub fn enrollment_text(now_unix_ns: i64) -> (r: String)
    ensures
        r@ == enrollment_file(FLEET as nat, now_unix_ns),
{
    let mut out = "# CosaCI demo enrollment file\n".to_owned();
    let mut id: u64 = 0;
    while id < FLEET
        invariant
            id <= FLEET,
            out@ == enrollment_file(id as nat, now_unix_ns),
        decreases FLEET - id,
    {
        let agent = Agent::new(id, STAKE);
        let record = crate::enrollment::EnrolledRecord {
            runner_id: id,
            signing_fp: fingerprint(&agent.signing_key()),
            vrf_fp: fingerprint(&agent.vrf_key()),
            enrolled_at_unix_ns: now_unix_ns,
            initial_reputation_milli: 1000,
        };
        assert(record@ == enrollment_for(id, now_unix_ns));
        let line = crate::admin::enroll_line(&record, "1.0");
        let ghost before = out@;
        text::append_str(&mut out, line.as_str());
        out.push('\n');
        assert(out@ =~= before + line@.push('\n'));
        id = id + 1;
    }
    out
}

/// The record of the tenant.
pub open spec fn tenant_entry(now_unix_ns: u64) -> crate::tenant::TenantEntry {
    crate::tenant::TenantEntry {
        tenant_id: DEMO_TENANT_ID,
        signing_fp: crate::boundary::sha::sha256_of(
            crate::boundary::ed25519::public_key_of(tenant_seed()),
        ),
        rate_capacity: 100,
        rate_refill_per_sec: 10,
        registered_at_unix_ns: now_unix_ns,
    }
}

/// The tenant file.
#[must_use]
pub fn tenants_text(now_unix_ns: u64) -> (r: String)
    ensures
        r@ == "# CosaCI demo tenant registry\n"@ + crate::tenant::line_of(
            tenant_entry(now_unix_ns),
        ) + "\n"@,
{
    let pk = Keypair::from_seed(demo_tenant_seed()).verifying_key().to_bytes();
    let fp = fingerprint(&pk);
    let mut line = text::decimal(DEMO_TENANT_ID);
    line.push(' ');
    text::append_hex(&mut line, fp.as_slice());
    text::append_str(&mut line, " 100 10 ");
    text::append_decimal(&mut line, now_unix_ns);
    proof {
        let e = tenant_entry(now_unix_ns);
        let w = seq![
            text::decimal_of(e.tenant_id as nat),
            text::hex_of(e.signing_fp),
            text::decimal_of(e.rate_capacity as nat),
            text::decimal_of(e.rate_refill_per_sec as nat),
            text::decimal_of(e.registered_at_unix_ns as nat),
        ];
        reveal_strlit(" 100 10 ");
        reveal_with_fuel(text::decimal_of, 4);
        assert(text::decimal_of(100) =~= seq!['1', '0', '0']);
        assert(text::decimal_of(10) =~= seq!['1', '0']);
        reveal_with_fuel(text::spaced, 6);
        assert(w.skip(1)[0] == w[1]);
        assert(w.skip(1).skip(1)[0] == w[2]);
        assert(w.skip(1).skip(1).skip(1)[0] == w[3]);
        assert(w.skip(1).skip(1).skip(1).skip(1)[0] == w[4]);
        assert(line@ =~= text::spaced(w));
    }
    let mut out = text::joined("# CosaCI demo tenant registry\n", line.as_str());
    text::append_str(&mut out, "\n");
    out
}

/// What the tenant submits.
pub open spec fn is_submission(p: JobSubmissionPayload, second: bool) -> bool {
    &&& p.tenant_id == DEMO_TENANT_ID
    &&& p.deadline_secs == 60
    &&& if second {
        p.kind@ == "mul"@ && p.a == 3 && p.b == 5 && p.nonce == 0xb2
    } else {
        p.kind@ == "add"@ && p.a == 1 && p.b == 2 && p.nonce == 0xa1
    }
}

fn submission(second: bool) -> (r: JobSubmissionPayload)
    ensures
        is_submission(r, second),
{
    if second {
        JobSubmissionPayload {
            tenant_id: DEMO_TENANT_ID,
            kind: "mul".to_owned(),
            a: 3,
            b: 5,
            deadline_secs: 60,
            nonce: 0xb2,
        }
    } else {
        JobSubmissionPayload {
            tenant_id: DEMO_TENANT_ID,
            kind: "add".to_owned(),
            a: 1,
            b: 2,
            deadline_secs: 60,
            nonce: 0xa1,
        }
    }
}

/// The line of a submission that the tenant signed.
pub open spec fn signed_line(p: JobSubmissionPayload) -> Seq<char> {
    crate::webhook::listener::submission_line(
        p,
        crate::boundary::ed25519::public_key_of(tenant_seed()),
        crate::boundary::ed25519::signature_of(
            tenant_seed(),
            crate::submission_auth::signed_bytes(p),
        ),
    )
}

/// The lines that the launcher pipes to the coordinator: an addition and a
/// multiplication, each signed by the tenant.
#[must_use]
pub fn submission_lines() -> (r: Vec<String>)
    ensures
        r@.len() == 2,
        exists|p: JobSubmissionPayload|
            is_submission(p, false) && r@[0]@ == #[trigger] signed_line(p),
        exists|p: JobSubmissionPayload|
            is_submission(p, true) && r@[1]@ == #[trigger] signed_line(p),
{
    let kp = Keypair::from_seed(demo_tenant_seed());
    let first = submission(false);
    let second = submission(true);
    let mut out: Vec<String> = Vec::new();
    out.push(sign_and_serialize(&first, &kp));
    out.push(sign_and_serialize(&second, &kp));
    assert(out@[0]@ == signed_line(first));
    assert(out@[1]@ == signed_line(second));
    out
}

// ── Arguments ──────────────────────────────────────────────────────────────
/// Which round is run.
#[derive(Clone, Debug, PartialEq, Eq)]
pub enum RoundKind {
    /// A bounded number of jobs.
    Bounded {
        /// Address of the read API, if an auditor is to use it.
        read_addr: Option<String>,
        /// Journal of the coordinator.
        journal: String,
    },
    /// Jobs until the coordinator is told to stop.
    Sigterm,
    /// Jobs that are submitted on standard input.
    SubmitStdin,
}

/// Where the launcher put what the programs need.
#[derive(Clone, Debug, PartialEq, Eq)]
pub struct Paths {
    /// Certificate of the authority.
    pub ca: String,
    /// Certificate of the server.
    pub server_cert: String,
    /// Key of the server.
    pub server_key: String,
    /// Enrollment file.
    pub enrollment: String,
    /// Tenant file.
    pub tenants: String,
}

/// The views of a list of texts.
pub open spec fn words_in(v: Seq<String>) -> Seq<Seq<char>> {
    v.map_values(|s: String| s@)
}

fn push_word(out: &mut Vec<String>, word: &str)
    ensures
        words_in(final(out)@) == words_in(old(out)@).push(word@),
{
    out.push(word.to_owned());
    assert(words_in(out@) =~= words_in(old(out)@).push(word@));
}

/// The arguments that a kind of round adds.
pub open spec fn round_args(paths: Paths, kind: RoundKind) -> Seq<Seq<char>> {
    match kind {
        RoundKind::Bounded { read_addr, journal } => seq![
            "--max-jobs"@,
            text::decimal_of(MAX_JOBS_BOUNDED as nat),
        ] + (match read_addr {
            Some(a) => seq!["--read-addr"@, a@],
            None => seq![],
        }) + seq!["--journal"@, journal@],
        RoundKind::Sigterm => seq![],
        RoundKind::SubmitStdin => seq![
            "--submit-stdin"@,
            "--queue-cap"@,
            "8"@,
            "--tenants"@,
            paths.tenants@,
        ],
    }
}

/// The arguments of the coordinator.
#[must_use]
pub fn coordinator_args(addr: &str, paths: &Paths, kind: &RoundKind) -> (r: Vec<String>)
    ensures
        words_in(r@) == seq![
            "--addr"@,
            addr@,
            "--ca"@,
            paths.ca@,
            "--cert"@,
            paths.server_cert@,
            "--key"@,
            paths.server_key@,
            "--fleet"@,
            text::decimal_of(FLEET as nat),
            "--committee"@,
            text::decimal_of(COMMITTEE as nat),
            "--enrollment"@,
            paths.enrollment@,
        ] + round_args(*paths, *kind),
{
    let mut out: Vec<String> = Vec::new();
    assert(words_in(out@) =~= Seq::<Seq<char>>::empty());
    push_word(&mut out, "--addr");
    push_word(&mut out, addr);
    push_word(&mut out, "--ca");
    push_word(&mut out, paths.ca.as_str());
    push_word(&mut out, "--cert");
    push_word(&mut out, paths.server_cert.as_str());
    push_word(&mut out, "--key");
    push_word(&mut out, paths.server_key.as_str());
    push_word(&mut out, "--fleet");
    push_word(&mut out, text::decimal(FLEET).as_str());
    push_word(&mut out, "--committee");
    push_word(&mut out, text::decimal(COMMITTEE).as_str());
    push_word(&mut out, "--enrollment");
    push_word(&mut out, paths.enrollment.as_str());
    let ghost common = words_in(out@);
    match kind {
        RoundKind::Bounded { read_addr, journal } => {
            push_word(&mut out, "--max-jobs");
            push_word(&mut out, text::decimal(MAX_JOBS_BOUNDED).as_str());
            match read_addr {
                Some(a) => {
                    push_word(&mut out, "--read-addr");
                    push_word(&mut out, a.as_str());
                },
                None => {},
            }
            push_word(&mut out, "--journal");
            push_word(&mut out, journal.as_str());
        },
        RoundKind::Sigterm => {},
        RoundKind::SubmitStdin => {
            push_word(&mut out, "--submit-stdin");
            push_word(&mut out, "--queue-cap");
            push_word(&mut out, "8");
            push_word(&mut out, "--tenants");
            push_word(&mut out, paths.tenants.as_str());
        },
    }
    assert(words_in(out@) =~= common + round_args(*paths, *kind));
    out
}

/// The arguments of an agent.
#[must_use]
pub fn agent_args(id: u64, addr: &str, ca: &str, cert: &str, key: &str) -> (r: Vec<String>)
    ensures
        words_in(r@) == seq![
            "--id"@,
            text::decimal_of(id as nat),
            "--addr"@,
            addr@,
            "--ca"@,
            ca@,
            "--cert"@,
            cert@,
            "--key"@,
            key@,
            "--server-name"@,
            SUBJECT_SERVER@,
            "--stake"@,
            text::decimal_of(STAKE as nat),
        ],
{
    let mut out: Vec<String> = Vec::new();
    assert(words_in(out@) =~= Seq::<Seq<char>>::empty());
    push_word(&mut out, "--id");
    push_word(&mut out, text::decimal(id).as_str());
    push_word(&mut out, "--addr");
    push_word(&mut out, addr);
    push_word(&mut out, "--ca");
    push_word(&mut out, ca);
    push_word(&mut out, "--cert");
    push_word(&mut out, cert);
    push_word(&mut out, "--key");
    push_word(&mut out, key);
    push_word(&mut out, "--server-name");
    push_word(&mut out, SUBJECT_SERVER);
    push_word(&mut out, "--stake");
    push_word(&mut out, text::decimal(STAKE).as_str());
    out
}

/// The arguments of the auditor, for the first job.
#[must_use]
pub fn auditor_args(read_addr: &str, ca: &str, cert: &str, key: &str) -> (r: Vec<String>)
    ensures
        words_in(r@) == seq![
            "--addr"@,
            read_addr@,
            "--ca"@,
            ca@,
            "--cert"@,
            cert@,
            "--key"@,
            key@,
            "--server-name"@,
            SUBJECT_SERVER@,
            "--job-id"@,
            "1"@,
        ],
{
    let mut out: Vec<String> = Vec::new();
    assert(words_in(out@) =~= Seq::<Seq<char>>::empty());
    push_word(&mut out, "--addr");
    push_word(&mut out, read_addr);
    push_word(&mut out, "--ca");
    push_word(&mut out, ca);
    push_word(&mut out, "--cert");
    push_word(&mut out, cert);
    push_word(&mut out, "--key");
    push_word(&mut out, key);
    push_word(&mut out, "--server-name");
    push_word(&mut out, SUBJECT_SERVER);
    push_word(&mut out, "--job-id");
    push_word(&mut out, "1");
    out
}

/// The demo's enrollment file has a line for every runner, with its own keys.
pub proof fn law_every_runner_is_enrolled(n: nat, now_unix_ns: i64, id: u64) -> (parts: (
    Seq<char>,
    Seq<char>,
))
    requires
        id < n <= u64::MAX,
    ensures
        enrollment_file(n, now_unix_ns) == parts.0 + crate::enrollment::line_of(
            (crate::enrollment::Enrollment {
                runner_id: id,
                signing_fp: signing_fp_of(id),
                vrf_fp: vrf_fp_of(id),
                enrolled_at_unix_ns: now_unix_ns,
                initial_reputation_milli: 1000,
            }),
            "1.0"@,
        ).push('\n') + parts.1,
    decreases n,
{
    let last = crate::enrollment::line_of(
        enrollment_for((n - 1) as u64, now_unix_ns),
        "1.0"@,
    ).push('\n');
    let before = enrollment_file((n - 1) as nat, now_unix_ns);
    if id == n - 1 {
        assert(before + last + Seq::<char>::empty() =~= before + last);
        (before, Seq::empty())
    } else {
        let (a, b) = law_every_runner_is_enrolled((n - 1) as nat, now_unix_ns, id);
        let line = crate::enrollment::line_of(enrollment_for(id, now_unix_ns), "1.0"@).push('\n');
        assert(a + line + b + last =~= a + line + (b + last));
        (a, b + last)
    }
}

} // verus!
