//! The administrative command line: its commands, the edits of the enrollment
//! file, the messages to a running coordinator, and the tables it prints.

use crate::cli;
use crate::cli::{optional_flag, required_flag};
use crate::enrollment;
use crate::enrollment::{EnrolledRecord, EnrollmentSet, ReputationField};
use crate::proto::{AdminAgentRecord, AdminTenantRecord, Envelope, ADMIN_HELLO_CHALLENGE};
use crate::bytes;
use crate::signing::Keypair;
use crate::tenant::TenantRecord;
use crate::text;
use vstd::prelude::*;

verus! {

/// How the command line is used.
pub const USAGE: &'static str = "cosaci-admin — administrative CLI for a CosaCI deployment\n\nUSAGE:\n    cosaci-admin <subcommand> [args]\n\nFILESYSTEM-MODE SUBCOMMANDS (operate on local files):\n    agents list     --enrollment <path>\n    agents enroll   --enrollment <path> --runner-id <u64>\n                    --signing-fp <hex64> --vrf-fp <hex64>\n                    [--reputation <0.0..=1.0>] [--at <unix_ns>]\n    agents revoke   --enrollment <path> --runner-id <u64>\n    log root        --log <path>\n\nWIRE-MODE SUBCOMMANDS (talk to a running coord; mutations take\neffect on next coord restart):\n    agents list     --coord <addr> --ca <ca.pem> --cert <admin.pem>\n                    --key <admin.key.pem> --admin-key <seed-file>\n                    [--server-name <name>]\n    agents enroll   --coord <addr> ... (same auth flags)\n                    --runner-id <u64>\n                    --signing-fp <hex64> --vrf-fp <hex64>\n                    [--reputation <0.0..=1.0>] [--at <unix_ns>]\n    agents revoke   --coord <addr> ... (same auth flags)\n                    --runner-id <u64>\n    log root        --coord <addr> ...   (same auth flags)\n    tenants list    --coord <addr> ...\n    tenants add     --coord <addr> ... --tenant-id <u64>\n                    --signing-fp <hex64>\n                    --rate-capacity <u64> --rate-refill-per-sec <u64>\n                    [--at <unix_ns>]\n    tenants revoke  --coord <addr> ... --tenant-id <u64>\n\nEXAMPLES:\n    # filesystem\n    cosaci-admin agents list --enrollment /etc/cosaci/enrollment.txt\n    cosaci-admin agents enroll \\\n        --enrollment /etc/cosaci/enrollment.txt \\\n        --runner-id 7 \\\n        --signing-fp $(sha256sum agent-7.signing.pub | cut -d' ' -f1) \\\n        --vrf-fp     $(sha256sum agent-7.vrf.pub     | cut -d' ' -f1) \\\n        --reputation 1.0\n    cosaci-admin log root --log /var/lib/cosaci/attest.log\n    # wire (read-only in v0.3)\n    cosaci-admin agents list \\\n        --coord 10.0.0.1:7880 \\\n        --ca /etc/cosaci/ca.pem \\\n        --cert /etc/cosaci/admin.pem \\\n        --key  /etc/cosaci/admin.key.pem \\\n        --admin-key /etc/cosaci/admin.seed\n    cosaci-admin log root --coord 10.0.0.1:7880 --ca ... --cert ... --key ... --admin-key ...\n";

// ── Commands ───────────────────────────────────────────────────────────────
/// What to do.
#[derive(Clone, Copy, Debug, PartialEq, Eq, Structural)]
pub enum Command {
    /// Print how the command line is used.
    Help,
    /// List the enrolled agents.
    AgentsList,
    /// Enroll an agent.
    AgentsEnroll,
    /// Revoke an agent.
    AgentsRevoke,
    /// List the tenants.
    TenantsList,
    /// Register a tenant.
    TenantsAdd,
    /// Revoke a tenant.
    TenantsRevoke,
    /// Print the root of the log.
    LogRoot,
}

/// What was understood, or what to say of it.
pub open spec fn says<T>(r: Result<T, String>, want: Result<T, Seq<char>>) -> bool {
    match r {
        Ok(v) => want == Ok::<T, Seq<char>>(v),
        Err(e) => want == Err::<T, Seq<char>>(e@),
    }
}

/// The verb of a command, the second argument.
pub open spec fn verb_of(args: Seq<String>) -> Option<Seq<char>> {
    if args.len() >= 2 {
        Some(args[1]@)
    } else {
        None
    }
}

/// The command of an argument list, or what to say of it.
pub open spec fn command_of(args: Seq<String>) -> Result<Command, Seq<char>> {
    if args.len() == 0 {
        Ok(Command::Help)
    } else if args[0]@ == "agents"@ {
        match verb_of(args) {
            None => Err("agents: missing verb (list, enroll, revoke)"@),
            Some(v) => if v == "list"@ {
                Ok(Command::AgentsList)
            } else if v == "enroll"@ {
                Ok(Command::AgentsEnroll)
            } else if v == "revoke"@ {
                Ok(Command::AgentsRevoke)
            } else {
                Err("unknown agents verb `"@ + v + "` (expected: list, enroll, revoke)"@)
            },
        }
    } else if args[0]@ == "tenants"@ {
        match verb_of(args) {
            None => Err("tenants: missing verb (list, add, revoke)"@),
            Some(v) => if v == "list"@ {
                Ok(Command::TenantsList)
            } else if v == "add"@ {
                Ok(Command::TenantsAdd)
            } else if v == "revoke"@ {
                Ok(Command::TenantsRevoke)
            } else {
                Err("unknown tenants verb `"@ + v + "` (expected: list, add, revoke)"@)
            },
        }
    } else if args[0]@ == "log"@ {
        match verb_of(args) {
            None => Err("log: missing verb (root)"@),
            Some(v) => if v == "root"@ {
                Ok(Command::LogRoot)
            } else {
                Err("unknown log verb `"@ + v + "` (expected: root)"@)
            },
        }
    } else if args[0]@ == "--help"@ || args[0]@ == "-h"@ || args[0]@ == "help"@ {
        Ok(Command::Help)
    } else {
        Err("unknown subcommand `"@ + args[0]@ + "`\n\n"@ + USAGE@)
    }
}

fn quoted(before: &str, word: &str, after: &str) -> (r: String)
    ensures
        r@ == before@ + word@ + after@,
{
    let mut s = text::joined(before, word);
    text::append_str(&mut s, after);
    s
}

/// The command of an argument list, without the program's name.
///
/// # Errors
///
/// Where there is no such command; the error says which there are.
pub fn parse_command(args: &[String]) -> (r: Result<Command, String>)
    ensures
        says(r, command_of(args@)),
{
    if args.len() == 0 {
        return Ok(Command::Help);
    }
    let first = args[0].as_str();
    if text::str_eq(first, "agents") {
        if args.len() < 2 {
            return Err("agents: missing verb (list, enroll, revoke)".to_owned());
        }
        let v = args[1].as_str();
        if text::str_eq(v, "list") {
            Ok(Command::AgentsList)
        } else if text::str_eq(v, "enroll") {
            Ok(Command::AgentsEnroll)
        } else if text::str_eq(v, "revoke") {
            Ok(Command::AgentsRevoke)
        } else {
            Err(quoted("unknown agents verb `", v, "` (expected: list, enroll, revoke)"))
        }
    } else if text::str_eq(first, "tenants") {
        if args.len() < 2 {
            return Err("tenants: missing verb (list, add, revoke)".to_owned());
        }
        let v = args[1].as_str();
        if text::str_eq(v, "list") {
            Ok(Command::TenantsList)
        } else if text::str_eq(v, "add") {
            Ok(Command::TenantsAdd)
        } else if text::str_eq(v, "revoke") {
            Ok(Command::TenantsRevoke)
        } else {
            Err(quoted("unknown tenants verb `", v, "` (expected: list, add, revoke)"))
        }
    } else if text::str_eq(first, "log") {
        if args.len() < 2 {
            return Err("log: missing verb (root)".to_owned());
        }
        let v = args[1].as_str();
        if text::str_eq(v, "root") {
            Ok(Command::LogRoot)
        } else {
            Err(quoted("unknown log verb `", v, "` (expected: root)"))
        }
    } else if text::str_eq(first, "--help") || text::str_eq(first, "-h") || text::str_eq(
        first,
        "help",
    ) {
        Ok(Command::Help)
    } else {
        let mut s = quoted("unknown subcommand `", first, "`\n\n");
        text::append_str(&mut s, USAGE);
        Err(s)
    }
}

// ── Flags ──────────────────────────────────────────────────────────────────
/// The number after a flag.
pub open spec fn number_of(args: Seq<String>, flag: Seq<char>) -> Result<u64, Seq<char>> {
    match cli::value_of(args, flag) {
        None => Err(cli::missing(flag)),
        Some(s) => match text::unsigned_in(s, u64::MAX as nat) {
            Ok(n) => Ok(n as u64),
            Err(e) => Err(flag + ": "@ + e.words()),
        },
    }
}

fn number_flag(args: &[String], flag: &str) -> (r: Result<u64, String>)
    ensures
        says(r, number_of(args@, flag@)),
{
    let s = match required_flag(args, flag) {
        Ok(s) => s,
        Err(e) => return Err(e),
    };
    match text::read_unsigned(text::chars_of(s.as_str()).as_slice(), u64::MAX) {
        Ok(n) => Ok(n),
        Err(e) => Err(quoted(flag, ": ", e.message())),
    }
}

/// What is said of a fingerprint that is no 64 hex digits.
pub open spec fn hex_fault(e: text::HexError) -> Seq<char> {
    match e {
        text::HexError::Length(n) => "expected 64 hex chars, got "@ + text::decimal_of(n as nat),
        text::HexError::NonHex(b) => "non-hex byte 0x"@ + text::hex_of(seq![b]),
    }
}

/// The fingerprint that a text writes, for a flag.
pub open spec fn fingerprint_in(s: Seq<char>, flag: Seq<char>) -> Result<Seq<u8>, Seq<char>> {
    match text::hex32_of(vstd::utf8::encode_utf8(s), true) {
        Ok(b) => Ok(b),
        Err(e) => Err(flag + ": "@ + hex_fault(e)),
    }
}

fn parse_fingerprint(s: &str, flag: &str) -> (r: Result<[u8; 32], String>)
    ensures
        match r {
            Ok(b) => fingerprint_in(s@, flag@) == Ok::<Seq<u8>, Seq<char>>(b@),
            Err(e) => fingerprint_in(s@, flag@) == Err::<Seq<u8>, Seq<char>>(e@),
        },
{
    match text::read_hex32(s.as_bytes(), true) {
        Ok(b) => Ok(b),
        Err(e) => {
            let mut msg = text::joined(flag, ": ");
            let ghost start = msg@;
            match e {
                text::HexError::Length(n) => {
                    text::append_str(&mut msg, "expected 64 hex chars, got ");
                    text::append_decimal(&mut msg, n as u64);
                },
                text::HexError::NonHex(b) => {
                    text::append_str(&mut msg, "non-hex byte 0x");
                    let one: [u8; 1] = [b];
                    text::append_hex(&mut msg, one.as_slice());
                    assert(one@ =~= seq![b]);
                },
            }
            assert(msg@ =~= start + hex_fault(e));
            Err(msg)
        },
    }
}

/// Where a change goes.
#[derive(Clone, Debug, PartialEq, Eq)]
pub enum Target {
    /// To a running coordinator at this address.
    Coord(String),
    /// To this file.
    File(String),
}

/// Where a change goes.
pub enum Place {
    /// To a running coordinator at this address.
    Coord(Seq<char>),
    /// To this file.
    File(Seq<char>),
}

impl View for Target {
    type V = Place;

    open spec fn view(&self) -> Place {
        match self {
            Target::Coord(s) => Place::Coord(s@),
            Target::File(s) => Place::File(s@),
        }
    }
}

/// Where a change goes: to the coordinator if one is named, else to a file.
pub open spec fn place_of(args: Seq<String>, flag: Seq<char>) -> Result<Place, Seq<char>> {
    match cli::value_of(args, "--coord"@) {
        Some(addr) => Ok(Place::Coord(addr)),
        None => match cli::value_of(args, flag) {
            Some(path) => Ok(Place::File(path)),
            None => Err(cli::missing(flag)),
        },
    }
}

/// Where a change goes: to the coordinator if one is named, else to the file
/// after `flag`.
///
/// # Errors
///
/// Where neither is named.
pub fn target(args: &[String], flag: &str) -> (r: Result<Target, String>)
    ensures
        match r {
            Ok(t) => place_of(args@, flag@) == Ok::<Place, Seq<char>>(t@),
            Err(e) => place_of(args@, flag@) == Err::<Place, Seq<char>>(e@),
        },
{
    match optional_flag(args, "--coord") {
        Some(addr) => Ok(Target::Coord(addr)),
        None => match required_flag(args, flag) {
            Ok(path) => Ok(Target::File(path)),
            Err(e) => Err(e),
        },
    }
}

// ── Enrolling an agent ─────────────────────────────────────────────────────
/// The reputation that a command names, as it reads as a number.
#[derive(Clone, Debug, PartialEq, Eq)]
pub enum ReputationArg {
    /// No number; carries what is wrong with it.
    NotANumber(String),
    /// Not between zero and one; carries the number as it is shown.
    OutOfRange(String),
    /// Between zero and one.
    InRange {
        /// In thousandths, rounded.
        thousandths: u16,
        /// As it is shown.
        shown: String,
    },
}

/// The text that names the reputation of an agent.
#[must_use]
pub fn reputation_text(args: &[String]) -> (r: String)
    ensures
        r@ == cli::arg_of(args@, "--reputation"@, "1.0"@),
{
    cli::arg_or(args, "--reputation", "1.0")
}

/// An enrollment that was asked for.
#[derive(Clone, Debug, PartialEq, Eq)]
pub struct EnrollRequest {
    /// The record.
    pub record: EnrolledRecord,
    /// Its reputation as it is shown.
    pub shown: String,
    /// Where it goes.
    pub target: Target,
}

/// An enrollment that was asked for.
pub struct EnrollFact {
    /// The record.
    pub record: enrollment::Enrollment,
    /// Its reputation as it is shown.
    pub shown: Seq<char>,
    /// Where it goes.
    pub target: Place,
}

impl View for EnrollRequest {
    type V = EnrollFact;

    open spec fn view(&self) -> EnrollFact {
        EnrollFact { record: self.record@, shown: self.shown@, target: self.target@ }
    }
}

/// The time after `--at`, or the time it is.
pub open spec fn moment_of(args: Seq<String>, now_unix_ns: i64) -> Result<i64, Seq<char>> {
    match cli::value_of(args, "--at"@) {
        None => Ok(now_unix_ns),
        Some(s) => match text::signed_in(s, i64::MIN as int, i64::MAX as int) {
            Ok(n) => Ok(n as i64),
            Err(e) => Err("--at: "@ + e.words()),
        },
    }
}

fn moment(args: &[String], now_unix_ns: i64) -> (r: Result<i64, String>)
    ensures
        says(r, moment_of(args@, now_unix_ns)),
{
    match optional_flag(args, "--at") {
        None => Ok(now_unix_ns),
        Some(s) => match text::read_signed(text::chars_of(s.as_str()).as_slice()) {
            Ok(n) => Ok(n),
            Err(e) => Err(text::joined("--at: ", e.message())),
        },
    }
}

/// The enrollment that a command asks for, or what is wrong with it. What is
/// wrong first is said.
pub open spec fn enrollment_of(
    args: Seq<String>,
    reputation: ReputationArg,
    now_unix_ns: i64,
) -> Result<EnrollFact, Seq<char>> {
    match number_of(args, "--runner-id"@) {
        Err(e) => Err(e),
        Ok(runner_id) => match (
            cli::value_of(args, "--signing-fp"@),
            cli::value_of(args, "--vrf-fp"@),
        ) {
            (None, _) => Err(cli::missing("--signing-fp"@)),
            (_, None) => Err(cli::missing("--vrf-fp"@)),
            (Some(signing), Some(vrf)) => match reputation {
                ReputationArg::NotANumber(cause) => Err("--reputation: "@ + cause@),
                ReputationArg::OutOfRange(shown) => Err(
                    "--reputation "@ + shown@ + " not in [0.0, 1.0]"@,
                ),
                ReputationArg::InRange { thousandths, shown } => match fingerprint_in(
                    signing,
                    "--signing-fp"@,
                ) {
                    Err(e) => Err(e),
                    Ok(signing_fp) => match fingerprint_in(vrf, "--vrf-fp"@) {
                        Err(e) => Err(e),
                        Ok(vrf_fp) => match moment_of(args, now_unix_ns) {
                            Err(e) => Err(e),
                            Ok(enrolled_at_unix_ns) => match place_of(args, "--enrollment"@) {
                                Err(e) => Err(e),
                                Ok(target) => Ok(
                                    EnrollFact {
                                        record: enrollment::Enrollment {
                                            runner_id,
                                            signing_fp,
                                            vrf_fp,
                                            enrolled_at_unix_ns,
                                            initial_reputation_milli: thousandths,
                                        },
                                        shown: shown@,
                                        target,
                                    },
                                ),
                            },
                        },
                    },
                },
            },
        },
    }
}

/// Read the enrollment that a command asks for. `reputation` is what
/// [`reputation_text`] reads as, and `now_unix_ns` stands in for a missing time.
///
/// # Errors
///
/// The first thing that is wrong with the command.
pub fn parse_enroll(args: &[String], reputation: ReputationArg, now_unix_ns: i64) -> (r: Result<
    EnrollRequest,
    String,
>)
    ensures
        match r {
            Ok(q) => enrollment_of(args@, reputation, now_unix_ns) == Ok::<EnrollFact, Seq<char>>(
                q@,
            ),
            Err(e) => enrollment_of(args@, reputation, now_unix_ns) == Err::<EnrollFact, Seq<char>>(
                e@,
            ),
        },
{
    let runner_id: u64 = match number_flag(args, "--runner-id") {
        Ok(n) => n,
        Err(e) => return Err(e),
    };
    let signing = match required_flag(args, "--signing-fp") {
        Ok(s) => s,
        Err(e) => return Err(e),
    };
    let vrf = match required_flag(args, "--vrf-fp") {
        Ok(s) => s,
        Err(e) => return Err(e),
    };
    let (thousandths, shown) = match reputation {
        ReputationArg::NotANumber(cause) => return Err(
            text::joined("--reputation: ", cause.as_str()),
        ),
        ReputationArg::OutOfRange(shown) => return Err(
            quoted("--reputation ", shown.as_str(), " not in [0.0, 1.0]"),
        ),
        ReputationArg::InRange { thousandths, shown } => (thousandths, shown),
    };
    let signing_fp = match parse_fingerprint(signing.as_str(), "--signing-fp") {
        Ok(b) => b,
        Err(e) => return Err(e),
    };
    let vrf_fp = match parse_fingerprint(vrf.as_str(), "--vrf-fp") {
        Ok(b) => b,
        Err(e) => return Err(e),
    };
    let enrolled_at_unix_ns: i64 = match moment(args, now_unix_ns) {
        Ok(n) => n,
        Err(e) => return Err(e),
    };
    let target = match target(args, "--enrollment") {
        Ok(t) => t,
        Err(e) => return Err(e),
    };
    Ok(
        EnrollRequest {
            record: EnrolledRecord {
                runner_id,
                signing_fp,
                vrf_fp,
                enrolled_at_unix_ns,
                initial_reputation_milli: thousandths,
            },
            shown,
            target,
        },
    )
}

/// The message that enrolls an agent with a running coordinator.
#[must_use]
pub fn enroll_message(record: &EnrolledRecord) -> (r: Envelope)
    ensures
        r == (Envelope::AdminEnrollAgent {
            runner_id: record.runner_id,
            signing_fp: record.signing_fp,
            vrf_fp: record.vrf_fp,
            enrolled_at_unix_ns: record.enrolled_at_unix_ns,
            initial_reputation_thousandths: record.initial_reputation_milli as u32,
        }),
{
    Envelope::AdminEnrollAgent {
        runner_id: record.runner_id,
        signing_fp: record.signing_fp,
        vrf_fp: record.vrf_fp,
        enrolled_at_unix_ns: record.enrolled_at_unix_ns,
        initial_reputation_thousandths: record.initial_reputation_milli as u32,
    }
}

/// A file with one more line; a last line that does not end is ended first.
pub open spec fn with_line(file: Seq<char>, line: Seq<char>) -> Seq<char> {
    if text::is_whole(file) {
        file + line.push('\n')
    } else {
        file.push('\n') + line.push('\n')
    }
}

/// A file with one more line.
#[must_use]
pub fn append_line(file: &str, line: &str) -> (r: String)
    ensures
        r@ == with_line(file@, line@),
{
    let chars = text::chars_of(file);
    let mut out = file.to_owned();
    if chars.len() > 0 && chars[chars.len() - 1] != '\n' {
        out.push('\n');
    }
    text::append_str(&mut out, line);
    out.push('\n');
    assert(out@ =~= with_line(file@, line@));
    out
}

/// The line that enrolls an agent.
#[must_use]
pub fn enroll_line(record: &EnrolledRecord, shown: &str) -> (r: String)
    ensures
        r@ == enrollment::line_of(record@, shown@),
{
    let mut s = text::decimal(record.runner_id);
    s.push(' ');
    text::append_hex(&mut s, record.signing_fp.as_slice());
    s.push(' ');
    text::append_hex(&mut s, record.vrf_fp.as_slice());
    s.push(' ');
    text::append_signed(&mut s, record.enrolled_at_unix_ns);
    s.push(' ');
    text::append_str(&mut s, shown);
    proof {
        let w = enrollment::words_for(record@, shown@);
        reveal_with_fuel(text::spaced, 6);
        assert(w.skip(1)[0] == w[1]);
        assert(w.skip(1).skip(1)[0] == w[2]);
        assert(w.skip(1).skip(1).skip(1)[0] == w[3]);
        assert(w.skip(1).skip(1).skip(1).skip(1)[0] == w[4]);
        assert(s@ =~= enrollment::line_of(record@, shown@));
    }
    s
}

/// What is said of an agent that is enrolled already.
pub open spec fn already_enrolled(runner_id: u64, path: Seq<char>) -> Seq<char> {
    "runner_id "@ + text::decimal_of(runner_id as nat) + " is already enrolled in "@ + path
        + "; revoke first if you mean to replace"@
}

/// The enrollment file after an agent was enrolled, or why it cannot be.
pub open spec fn enrolled_file(
    path: Seq<char>,
    file: Seq<char>,
    set: Result<Map<u64, enrollment::Enrollment>, enrollment::EnrollmentError>,
    record: enrollment::Enrollment,
    shown: Seq<char>,
) -> Result<Seq<char>, Seq<char>> {
    match set {
        Err(e) => Err("load "@ + path + ": "@ + e.message_spec()),
        Ok(set) => if set.contains_key(record.runner_id) {
            Err(already_enrolled(record.runner_id, path))
        } else {
            Ok(with_line(file, enrollment::line_of(record, shown)))
        },
    }
}

/// Enroll an agent in a file. `reputations` are the reputation fields of the
/// file's records, as they read as numbers.
///
/// # Errors
///
/// Where the file does not parse, or the agent is enrolled in it already: whoever
/// means to replace a record has to revoke it first.
pub fn enroll_in(
    path: &str,
    file: &str,
    reputations: &[ReputationField],
    record: &EnrolledRecord,
    shown: &str,
) -> (r: Result<String, String>)
    requires
        reputations@.len() == text::records_of(text::lines_of(file@)).len(),
    ensures
        ({
            let set = enrollment::set_of(
                text::records_of(text::lines_of(file@)),
                reputations@,
            );
            match r {
                Ok(s) => enrolled_file(path@, file@, set, record@, shown@) == Ok::<
                    Seq<char>,
                    Seq<char>,
                >(s@),
                Err(e) => enrolled_file(path@, file@, set, record@, shown@) == Err::<
                    Seq<char>,
                    Seq<char>,
                >(e@),
            }
        }),
{
    match EnrollmentSet::parse(file, reputations) {
        Err(e) => {
            let mut s = quoted("load ", path, ": ");
            text::append_str(&mut s, e.message().as_str());
            Err(s)
        },
        Ok(set) => {
            if set.get(record.runner_id).is_some() {
                let mut s = "runner_id ".to_owned();
                text::append_decimal(&mut s, record.runner_id);
                text::append_str(&mut s, " is already enrolled in ");
                text::append_str(&mut s, path);
                text::append_str(&mut s, "; revoke first if you mean to replace");
                return Err(s);
            }
            let line = enroll_line(record, shown);
            Ok(append_line(file, line.as_str()))
        },
    }
}

// ── Revoking an agent ──────────────────────────────────────────────────────
/// Whether a line of the enrollment file is the record of an agent: no comment,
/// and its first word is the agent's number.
pub open spec fn is_record_of(line: Seq<char>, runner_id: u64) -> bool {
    let t = text::skip_white(line, false);
    &&& t.len() > 0
    &&& t[0] != '#'
    &&& text::words_of(line, false).len() > 0
    &&& text::unsigned_of(text::words_of(line, false)[0], u64::MAX as nat) == Some(
        runner_id as nat,
    )
}

/// The lines without the records of an agent, each ended.
pub open spec fn without_records(lines: Seq<Seq<char>>, runner_id: u64) -> Seq<char>
    decreases lines.len(),
{
    if lines.len() == 0 {
        Seq::empty()
    } else if is_record_of(lines.last(), runner_id) {
        without_records(lines.drop_last(), runner_id)
    } else {
        without_records(lines.drop_last(), runner_id) + lines.last().push('\n')
    }
}

/// Whether a file holds a record of an agent.
pub open spec fn has_record(lines: Seq<Seq<char>>, runner_id: u64) -> bool {
    exists|i: int| 0 <= i < lines.len() && #[trigger] is_record_of(lines[i], runner_id)
}

/// The enrollment file after an agent was revoked, or why it cannot be.
pub open spec fn revoked_file(path: Seq<char>, file: Seq<char>, runner_id: u64) -> Result<
    Seq<char>,
    Seq<char>,
> {
    let lines = text::lines_of(file);
    if has_record(lines, runner_id) {
        Ok(without_records(lines, runner_id))
    } else {
        Err("runner_id "@ + text::decimal_of(runner_id as nat) + " not found in "@ + path)
    }
}

fn names_runner(line: &[char], runner_id: u64) -> (r: bool)
    ensures
        r == is_record_of(line@, runner_id),
{
    let words = text::words(line, false);
    if words.len() == 0 {
        proof {
            assert(text::texts(words@).len() == 0);
        }
        return false;
    }
    assert(text::texts(words@)[0] == words@[0]@);
    proof {
        text::lemma_first_char(line@, false);
    }
    let first = words[0].as_slice();
    if first.len() == 0 || first[0] == '#' {
        return false;
    }
    match text::parse_unsigned(first, u64::MAX) {
        Some(n) => n == runner_id,
        None => false,
    }
}

/// Revoke an agent in a file: every record of it is dropped, and comments, blank
/// lines and other records stay.
///
/// # Errors
///
/// Where the file holds no record of the agent.
pub fn revoke_in(path: &str, file: &str, runner_id: u64) -> (r: Result<String, String>)
    ensures
        match r {
            Ok(s) => revoked_file(path@, file@, runner_id) == Ok::<Seq<char>, Seq<char>>(s@),
            Err(e) => revoked_file(path@, file@, runner_id) == Err::<Seq<char>, Seq<char>>(e@),
        },
{
    let lines = text::lines(text::chars_of(file).as_slice());
    let ghost all = text::lines_of(file@);
    let mut found: bool = false;
    let mut out = String::new();
    let mut i: usize = 0;
    assert(all.take(0) =~= Seq::<Seq<char>>::empty());
    assert(out@ =~= Seq::<char>::empty());
    while i < lines.len()
        invariant
            i <= lines@.len(),
            all == text::texts(lines@),
            out@ == without_records(all.take(i as int), runner_id),
            found == has_record(all.take(i as int), runner_id),
        decreases lines@.len() - i,
    {
        let line = lines[i].as_slice();
        assert(all[i as int] == line@);
        assert(all.take(i + 1).drop_last() =~= all.take(i as int));
        let ghost was = all.take(i as int);
        let ghost now = all.take(i + 1);
        if names_runner(line, runner_id) {
            assert(is_record_of(now[i as int], runner_id));
            found = true;
        } else {
            text::append_chars(&mut out, line);
            out.push('\n');
            assert(out@ =~= without_records(was, runner_id) + all[i as int].push('\n'));
            proof {
                if has_record(was, runner_id) {
                    let k = choose|k: int|
                        0 <= k < was.len() && #[trigger] is_record_of(was[k], runner_id);
                    assert(is_record_of(now[k], runner_id));
                }
                if has_record(now, runner_id) {
                    let k = choose|k: int|
                        0 <= k < now.len() && #[trigger] is_record_of(now[k], runner_id);
                    assert(is_record_of(was[k], runner_id));
                }
            }
        }
        i = i + 1;
    }
    assert(all.take(i as int) =~= all);
    if found {
        Ok(out)
    } else {
        let mut s = "runner_id ".to_owned();
        text::append_decimal(&mut s, runner_id);
        text::append_str(&mut s, " not found in ");
        text::append_str(&mut s, path);
        Err(s)
    }
}

/// The agent that a revocation names, and where the change goes.
///
/// # Errors
///
/// The first thing that is wrong with the command.
pub fn parse_revoke(args: &[String]) -> (r: Result<(u64, Target), String>)
    ensures
        match (number_of(args@, "--runner-id"@), place_of(args@, "--enrollment"@)) {
            (Err(e), _) => r matches Err(x) && x@ == e,
            (Ok(_), Err(e)) => r matches Err(x) && x@ == e,
            (Ok(id), Ok(place)) => r matches Ok(q) && q.0 == id && q.1@ == place,
        },
{
    let runner_id: u64 = match number_flag(args, "--runner-id") {
        Ok(n) => n,
        Err(e) => return Err(e),
    };
    match target(args, "--enrollment") {
        Ok(t) => Ok((runner_id, t)),
        Err(e) => Err(e),
    }
}

// ── Tenants ────────────────────────────────────────────────────────────────
/// The time after `--at` of a tenant, or the time it is.
pub open spec fn tenant_moment_of(args: Seq<String>, now_unix_ns: u64) -> Result<u64, Seq<char>> {
    match cli::value_of(args, "--at"@) {
        None => Ok(now_unix_ns),
        Some(_) => number_of(args, "--at"@),
    }
}

/// The registration that a command asks for: the coordinator, and the record; or
/// what is wrong with it. What is wrong first is said.
pub open spec fn registration_of(args: Seq<String>, now_unix_ns: u64) -> Result<
    (Seq<char>, crate::tenant::TenantEntry),
    Seq<char>,
> {
    match cli::value_of(args, "--coord"@) {
        None => Err(cli::missing("--coord"@)),
        Some(coord) => match number_of(args, "--tenant-id"@) {
            Err(e) => Err(e),
            Ok(tenant_id) => match cli::value_of(args, "--signing-fp"@) {
                None => Err(cli::missing("--signing-fp"@)),
                Some(signing) => match fingerprint_in(signing, "--signing-fp"@) {
                    Err(e) => Err(e),
                    Ok(signing_fp) => match number_of(args, "--rate-capacity"@) {
                        Err(e) => Err(e),
                        Ok(rate_capacity) => match number_of(args, "--rate-refill-per-sec"@) {
                            Err(e) => Err(e),
                            Ok(rate_refill_per_sec) => match tenant_moment_of(args, now_unix_ns) {
                                Err(e) => Err(e),
                                Ok(registered_at_unix_ns) => Ok(
                                    (
                                        coord,
                                        crate::tenant::TenantEntry {
                                            tenant_id,
                                            signing_fp,
                                            rate_capacity,
                                            rate_refill_per_sec,
                                            registered_at_unix_ns,
                                        },
                                    ),
                                ),
                            },
                        },
                    },
                },
            },
        },
    }
}

/// Read the registration that a command asks for: the coordinator, and the
/// record. `now_unix_ns` stands in for a missing time.
///
/// # Errors
///
/// The first thing that is wrong with the command.
pub fn parse_tenant(args: &[String], now_unix_ns: u64) -> (r: Result<(String, TenantRecord), String>)
    ensures
        match r {
            Ok(q) => registration_of(args@, now_unix_ns) == Ok::<
                (Seq<char>, crate::tenant::TenantEntry),
                Seq<char>,
            >((q.0@, q.1@)),
            Err(e) => registration_of(args@, now_unix_ns) == Err::<
                (Seq<char>, crate::tenant::TenantEntry),
                Seq<char>,
            >(e@),
        },
{
    let coord = match required_flag(args, "--coord") {
        Ok(s) => s,
        Err(e) => return Err(e),
    };
    let tenant_id: u64 = match number_flag(args, "--tenant-id") {
        Ok(n) => n,
        Err(e) => return Err(e),
    };
    let signing = match required_flag(args, "--signing-fp") {
        Ok(s) => s,
        Err(e) => return Err(e),
    };
    let signing_fp = match parse_fingerprint(signing.as_str(), "--signing-fp") {
        Ok(b) => b,
        Err(e) => return Err(e),
    };
    let rate_capacity: u64 = match number_flag(args, "--rate-capacity") {
        Ok(n) => n,
        Err(e) => return Err(e),
    };
    let rate_refill_per_sec: u64 = match number_flag(args, "--rate-refill-per-sec") {
        Ok(n) => n,
        Err(e) => return Err(e),
    };
    let registered_at_unix_ns: u64 = match optional_flag(args, "--at") {
        None => now_unix_ns,
        Some(_) => match number_flag(args, "--at") {
            Ok(n) => n,
            Err(e) => return Err(e),
        },
    };
    Ok(
        (
            coord,
            TenantRecord {
                tenant_id,
                signing_fp,
                rate_capacity,
                rate_refill_per_sec,
                registered_at_unix_ns,
            },
        ),
    )
}

/// The message that registers a tenant.
#[must_use]
pub fn tenant_message(record: &TenantRecord) -> (r: Envelope)
    ensures
        r == (Envelope::AdminAddTenant {
            tenant_id: record.tenant_id,
            signing_fp: record.signing_fp,
            rate_capacity: record.rate_capacity,
            rate_refill_per_sec: record.rate_refill_per_sec,
            registered_at_unix_ns: record.registered_at_unix_ns,
        }),
{
    Envelope::AdminAddTenant {
        tenant_id: record.tenant_id,
        signing_fp: record.signing_fp,
        rate_capacity: record.rate_capacity,
        rate_refill_per_sec: record.rate_refill_per_sec,
        registered_at_unix_ns: record.registered_at_unix_ns,
    }
}

/// The tenant that a revocation names, and the coordinator.
///
/// # Errors
///
/// The first thing that is wrong with the command.
pub fn parse_tenant_revoke(args: &[String]) -> (r: Result<(String, u64), String>)
    ensures
        match (cli::value_of(args@, "--coord"@), number_of(args@, "--tenant-id"@)) {
            (None, _) => r matches Err(x) && x@ == cli::missing("--coord"@),
            (Some(_), Err(e)) => r matches Err(x) && x@ == e,
            (Some(coord), Ok(id)) => r matches Ok(q) && q.0@ == coord && q.1 == id,
        },
{
    let coord = match required_flag(args, "--coord") {
        Ok(s) => s,
        Err(e) => return Err(e),
    };
    match number_flag(args, "--tenant-id") {
        Ok(n) => Ok((coord, n)),
        Err(e) => Err(e),
    }
}

// ── The session with a coordinator ─────────────────────────────────────────
/// The bytes of the admin challenge.
pub open spec fn admin_challenge_bytes() -> Seq<u8> {
    vstd::utf8::encode_utf8(ADMIN_HELLO_CHALLENGE@)
}

/// The message that opens a session: the admin's key, the time, and a signature
/// over the challenge and the time.
#[must_use]
pub fn hello(kp: &Keypair, now_ns: u64) -> (r: Envelope)
    ensures
        r matches Envelope::AdminHello { admin_pubkey, ts_unix_ns, signature } && {
            &&& admin_pubkey@ == crate::boundary::ed25519::public_key_of(kp@)
            &&& crate::boundary::ed25519::is_public_key(admin_pubkey@)
            &&& ts_unix_ns == now_ns
            &&& signature@ == crate::boundary::ed25519::signature_of(
                kp@,
                crate::admin_auth::hello_message(admin_challenge_bytes(), now_ns),
            )
            &&& !crate::boundary::ed25519::commits_to_identity(signature@)
                ==> crate::boundary::ed25519::signature_accepted(
                admin_pubkey@,
                crate::admin_auth::hello_message(admin_challenge_bytes(), now_ns),
                signature@,
            )
        },
{
    let mut signed = bytes::copy_bytes(ADMIN_HELLO_CHALLENGE.as_bytes());
    bytes::append_le(&mut signed, now_ns as u128, 8);
    let signature = kp.sign(signed.as_slice()).to_bytes();
    Envelope::AdminHello {
        admin_pubkey: kp.verifying_key().to_bytes(),
        ts_unix_ns: now_ns,
        signature,
    }
}

/// Why a reply is not what was asked for.
#[derive(Clone, Debug, PartialEq, Eq)]
pub enum ReplyError {
    /// The coordinator refuses; carries its reason.
    Rejected(String),
    /// The reply is of another kind.
    Unexpected,
}

/// What stands in for a reply that is not what was asked for.
pub open spec fn is_refusal(reply: Envelope, e: ReplyError) -> bool {
    match reply {
        Envelope::AdminError { reason } => e == ReplyError::Rejected(reason),
        _ => e == ReplyError::Unexpected,
    }
}

fn refusal(reply: Envelope) -> (r: ReplyError)
    ensures
        is_refusal(reply, r),
{
    match reply {
        Envelope::AdminError { reason } => ReplyError::Rejected(reason),
        _ => ReplyError::Unexpected,
    }
}

/// What acknowledges a change.
#[derive(Clone, Copy, Debug, PartialEq, Eq, Structural)]
pub enum Ack {
    /// The session is open.
    Welcome,
    /// The agent is enrolled.
    Enrolled,
    /// The agent is revoked.
    Revoked,
    /// The tenant is registered.
    TenantAdded,
    /// The tenant is revoked.
    TenantRevoked,
}

/// The message of an acknowledgement.
pub open spec fn ack_message(a: Ack) -> Envelope {
    match a {
        Ack::Welcome => Envelope::AdminWelcome,
        Ack::Enrolled => Envelope::AdminEnrollAck,
        Ack::Revoked => Envelope::AdminRevokeAck,
        Ack::TenantAdded => Envelope::AdminAddTenantAck,
        Ack::TenantRevoked => Envelope::AdminRevokeTenantAck,
    }
}

/// Whether a reply acknowledges what was asked for.
///
/// # Errors
///
/// Where it does not.
pub fn expect_ack(reply: Envelope, want: Ack) -> (r: Result<(), ReplyError>)
    ensures
        r is Ok <==> reply == ack_message(want),
        r matches Err(e) ==> is_refusal(reply, e),
{
    match (&reply, want) {
        (Envelope::AdminWelcome, Ack::Welcome) => Ok(()),
        (Envelope::AdminEnrollAck, Ack::Enrolled) => Ok(()),
        (Envelope::AdminRevokeAck, Ack::Revoked) => Ok(()),
        (Envelope::AdminAddTenantAck, Ack::TenantAdded) => Ok(()),
        (Envelope::AdminRevokeTenantAck, Ack::TenantRevoked) => Ok(()),
        _ => Err(refusal(reply)),
    }
}

/// The agents that a reply lists.
///
/// # Errors
///
/// Where the reply is no list of agents.
pub fn expect_agents(reply: Envelope) -> (r: Result<Vec<AdminAgentRecord>, ReplyError>)
    ensures
        match reply {
            Envelope::AdminAgentList { entries } => r == Ok::<Vec<AdminAgentRecord>, ReplyError>(
                entries,
            ),
            _ => r matches Err(e) && is_refusal(reply, e),
        },
{
    match reply {
        Envelope::AdminAgentList { entries } => Ok(entries),
        other => Err(refusal(other)),
    }
}

/// The tenants that a reply lists.
///
/// # Errors
///
/// Where the reply is no list of tenants.
pub fn expect_tenants(reply: Envelope) -> (r: Result<Vec<AdminTenantRecord>, ReplyError>)
    ensures
        match reply {
            Envelope::AdminTenantList { entries } => r == Ok::<Vec<AdminTenantRecord>, ReplyError>(
                entries,
            ),
            _ => r matches Err(e) && is_refusal(reply, e),
        },
{
    match reply {
        Envelope::AdminTenantList { entries } => Ok(entries),
        other => Err(refusal(other)),
    }
}

/// The root and length that a reply gives.
///
/// # Errors
///
/// Where the reply gives none.
pub fn expect_log_root(reply: Envelope) -> (r: Result<(Option<[u8; 32]>, u64), ReplyError>)
    ensures
        match reply {
            Envelope::AdminLogRoot { root, length } => r == Ok::<
                (Option<[u8; 32]>, u64),
                ReplyError,
            >((root, length)),
            _ => r matches Err(e) && is_refusal(reply, e),
        },
{
    match reply {
        Envelope::AdminLogRoot { root, length } => Ok((root, length)),
        other => Err(refusal(other)),
    }
}

// ── Tables ─────────────────────────────────────────────────────────────────
/// Spaces.
pub open spec fn spaces(n: int) -> Seq<char> {
    Seq::new(
        if n > 0 {
            n as nat
        } else {
            0
        },
        |i: int| ' ',
    )
}

/// A text at the left of a column.
pub open spec fn at_left(s: Seq<char>, width: int) -> Seq<char> {
    s + spaces(width - s.len())
}

/// A text at the right of a column.
pub open spec fn at_right(s: Seq<char>, width: int) -> Seq<char> {
    spaces(width - s.len()) + s
}

fn append_spaces(out: &mut String, used: usize, width: usize)
    ensures
        final(out)@ == old(out)@ + spaces(width - used),
{
    let ghost before = out@;
    let mut n: usize = used;
    assert(spaces(0) =~= Seq::<char>::empty());
    while n < width
        invariant
            used <= n,
            n <= width || n == used,
            out@ == before + spaces(n - used),
        decreases width - n,
    {
        out.push(' ');
        n = n + 1;
        assert(out@ =~= before + spaces(n - used));
    }
    assert(spaces(width - used) =~= spaces(n - used));
}

fn append_left(out: &mut String, s: &str, width: usize)
    ensures
        final(out)@ == old(out)@ + at_left(s@, width as int),
{
    let n: usize = text::chars_of(s).len();
    text::append_str(out, s);
    append_spaces(out, n, width);
    assert(out@ =~= old(out)@ + at_left(s@, width as int));
}

fn append_right(out: &mut String, s: &str, width: usize)
    ensures
        final(out)@ == old(out)@ + at_right(s@, width as int),
{
    let n: usize = text::chars_of(s).len();
    append_spaces(out, n, width);
    text::append_str(out, s);
    assert(out@ =~= old(out)@ + at_right(s@, width as int));
}

/// The first eight bytes of a fingerprint in hex.
#[must_use]
pub fn short_fingerprint(fp: &[u8; 32]) -> (r: String)
    ensures
        r@ == text::hex_of(fp@.take(8)),
{
    let part = vstd::slice::slice_subrange(fp.as_slice(), 0, 8);
    assert(part@ =~= fp@.take(8));
    text::hex(part)
}

/// A number of thousandths with three decimals.
pub open spec fn three_decimals(n: nat) -> Seq<char> {
    text::decimal_of(n / 1000) + seq![
        '.',
        text::digit_char(n / 100 % 10),
        text::digit_char(n / 10 % 10),
        text::digit_char(n % 10),
    ]
}

fn decimals(n: u32) -> (r: String)
    ensures
        r@ == three_decimals(n as nat),
{
    let mut s = text::decimal((n / 1000) as u64);
    s.push('.');
    s.push(text::digit_of((n / 100 % 10) as u64));
    s.push(text::digit_of((n / 10 % 10) as u64));
    s.push(text::digit_of((n % 10) as u64));
    assert(s@ =~= three_decimals(n as nat));
    s
}

/// The head of the table of agents.
pub open spec fn agents_head() -> Seq<char> {
    "runner_id   signing_fp        vrf_fp                       enrolled_at  reputation\n"@
}

/// A row of the table of agents.
pub open spec fn agent_row(e: AdminAgentRecord) -> Seq<char> {
    let thousandths = if e.initial_reputation_thousandths > 1000 {
        1000
    } else {
        e.initial_reputation_thousandths as nat
    };
    at_left(text::decimal_of(e.runner_id as nat), 10) + "  "@ + at_left(
        text::hex_of(e.signing_fp@.take(8)),
        16,
    ) + "  "@ + at_left(text::hex_of(e.vrf_fp@.take(8)), 16) + "  "@ + at_right(
        text::signed_decimal_of(e.enrolled_at_unix_ns as int),
        22,
    ) + "  "@ + at_right(three_decimals(thousandths), 10) + "\n"@
}

fn append_agent(out: &mut String, e: &AdminAgentRecord)
    ensures
        final(out)@ == old(out)@ + agent_row(*e),
{
    append_left(out, text::decimal(e.runner_id).as_str(), 10);
    text::append_str(out, "  ");
    append_left(out, short_fingerprint(&e.signing_fp).as_str(), 16);
    text::append_str(out, "  ");
    append_left(out, short_fingerprint(&e.vrf_fp).as_str(), 16);
    text::append_str(out, "  ");
    let mut at = String::new();
    text::append_signed(&mut at, e.enrolled_at_unix_ns);
    assert(at@ =~= text::signed_decimal_of(e.enrolled_at_unix_ns as int));
    append_right(out, at.as_str(), 22);
    text::append_str(out, "  ");
    let thousandths: u32 = if e.initial_reputation_thousandths > 1000 {
        1000
    } else {
        e.initial_reputation_thousandths
    };
    append_right(out, decimals(thousandths).as_str(), 10);
    text::append_str(out, "\n");
    assert(out@ =~= old(out)@ + agent_row(*e));
}

/// The head of the table of tenants.
pub open spec fn tenants_head() -> Seq<char> {
    "tenant_id   signing_fp          capacity    refill_per_s           registered_at\n"@
}

/// A row of the table of tenants.
pub open spec fn tenant_row(e: AdminTenantRecord) -> Seq<char> {
    at_left(text::decimal_of(e.tenant_id as nat), 10) + "  "@ + at_left(
        text::hex_of(e.signing_fp@.take(8)),
        16,
    ) + "  "@ + at_right(text::decimal_of(e.rate_capacity as nat), 10) + "  "@ + at_right(
        text::decimal_of(e.rate_refill_per_sec as nat),
        14,
    ) + "  "@ + at_right(text::decimal_of(e.registered_at_unix_ns as nat), 22) + "\n"@
}

fn append_tenant(out: &mut String, e: &AdminTenantRecord)
    ensures
        final(out)@ == old(out)@ + tenant_row(*e),
{
    append_left(out, text::decimal(e.tenant_id).as_str(), 10);
    text::append_str(out, "  ");
    append_left(out, short_fingerprint(&e.signing_fp).as_str(), 16);
    text::append_str(out, "  ");
    append_right(out, text::decimal(e.rate_capacity).as_str(), 10);
    text::append_str(out, "  ");
    append_right(out, text::decimal(e.rate_refill_per_sec).as_str(), 14);
    text::append_str(out, "  ");
    append_right(out, text::decimal(e.registered_at_unix_ns).as_str(), 22);
    text::append_str(out, "\n");
    assert(out@ =~= old(out)@ + tenant_row(*e));
}

/// Whether a list of places goes through rows in the order of their numbers; rows
/// of one number keep their order.
pub open spec fn is_order(order: Seq<int>, ids: Seq<u64>) -> bool {
    &&& order.len() == ids.len()
    &&& forall|i: int| 0 <= i < order.len() ==> 0 <= #[trigger] order[i] < ids.len()
    &&& forall|i: int, j: int|
        0 <= i < j < order.len() ==> comes_before(ids, #[trigger] order[i], #[trigger] order[j])
}

/// Whether one row comes before another.
pub open spec fn comes_before(ids: Seq<u64>, a: int, b: int) -> bool {
    ids[a] < ids[b] || (ids[a] == ids[b] && a < b)
}

fn place_in_order(ids: &[u64]) -> (r: Vec<usize>)
    ensures
        is_order(r@.map_values(|x: usize| x as int), ids@),
{
    let mut order: Vec<usize> = Vec::new();
    let mut n: usize = 0;
    while n < ids.len()
        invariant
            n <= ids@.len(),
            order@.len() == n,
            forall|i: int| 0 <= i < n ==> #[trigger] order@[i] < n,
            forall|i: int, j: int|
                0 <= i < j < n ==> comes_before(
                    ids@,
                    #[trigger] order@[i] as int,
                    #[trigger] order@[j] as int,
                ),
        decreases ids@.len() - n,
    {
        let mut k: usize = n;
        while k > 0 && ids[order[k - 1]] > ids[n]
            invariant
                k <= n < ids@.len(),
                order@.len() == n,
                forall|i: int| 0 <= i < n ==> #[trigger] order@[i] < n,
                forall|i: int| k <= i < n ==> ids@[#[trigger] order@[i] as int] > ids@[n as int],
            decreases k,
        {
            k = k - 1;
        }
        let ghost before = order@;
        order.insert(k, n);
        proof {
            let after = order@;
            assert(after == before.insert(k as int, n));
            assert forall|i: int| 0 <= i < n + 1 implies #[trigger] after[i] < n + 1 by {
                if i < k {
                    assert(after[i] == before[i]);
                } else if i > k {
                    assert(after[i] == before[i - 1]);
                }
            }
            assert forall|i: int, j: int| 0 <= i < j < n + 1 implies comes_before(
                ids@,
                #[trigger] after[i] as int,
                #[trigger] after[j] as int,
            ) by {
                if j < k {
                    assert(after[i] == before[i] && after[j] == before[j]);
                } else if j == k {
                    assert(after[i] == before[i]);
                    if i < k - 1 {
                        assert(comes_before(ids@, before[i] as int, before[k - 1] as int));
                    }
                } else if i < k {
                    assert(after[i] == before[i] && after[j] == before[j - 1]);
                } else if i == k {
                    assert(after[j] == before[j - 1]);
                } else {
                    assert(after[i] == before[i - 1] && after[j] == before[j - 1]);
                }
            }
        }
        n = n + 1;
    }
    proof {
        let m = order@.map_values(|x: usize| x as int);
        assert forall|i: int, j: int| 0 <= i < j < m.len() implies comes_before(
            ids@,
            #[trigger] m[i],
            #[trigger] m[j],
        ) by {
            assert(comes_before(ids@, order@[i] as int, order@[j] as int));
        }
    }
    order
}

/// The numbers of agents.
pub open spec fn agent_ids(entries: Seq<AdminAgentRecord>) -> Seq<u64> {
    entries.map_values(|e: AdminAgentRecord| e.runner_id)
}

/// The rows of agents at these places.
pub open spec fn agent_rows(entries: Seq<AdminAgentRecord>, order: Seq<int>) -> Seq<char>
    decreases order.len(),
{
    if order.len() == 0 {
        Seq::empty()
    } else {
        agent_rows(entries, order.drop_last()) + agent_row(entries[order.last()])
    }
}

/// The table of agents, in the order of their numbers.
#[must_use]
pub fn agents_table(entries: &[AdminAgentRecord]) -> (r: String)
    ensures
        exists|order: Seq<int>| #[trigger]
            is_order(order, agent_ids(entries@)) && r@ == agents_head() + agent_rows(
                entries@,
                order,
            ),
{
    let mut ids: Vec<u64> = Vec::new();
    let mut i: usize = 0;
    while i < entries.len()
        invariant
            i <= entries@.len(),
            ids@ == agent_ids(entries@.take(i as int)),
        decreases entries@.len() - i,
    {
        ids.push(entries[i].runner_id);
        i = i + 1;
        assert(ids@ =~= agent_ids(entries@.take(i as int)));
    }
    assert(entries@.take(i as int) =~= entries@);
    let order = place_in_order(ids.as_slice());
    let ghost places = order@.map_values(|x: usize| x as int);
    let mut out =
        "runner_id   signing_fp        vrf_fp                       enrolled_at  reputation\n".to_owned();
    let mut k: usize = 0;
    assert(places.take(0) =~= Seq::<int>::empty());
    assert(agents_head() + agent_rows(entries@, places.take(0)) =~= agents_head());
    while k < order.len()
        invariant
            k <= order@.len(),
            places == order@.map_values(|x: usize| x as int),
            is_order(places, ids@),
            ids@.len() == entries@.len(),
            out@ == agents_head() + agent_rows(entries@, places.take(k as int)),
        decreases order@.len() - k,
    {
        let p: usize = order[k];
        assert(places[k as int] == p);
        append_agent(&mut out, &entries[p]);
        assert(places.take(k + 1).drop_last() =~= places.take(k as int));
        assert(out@ =~= agents_head() + agent_rows(entries@, places.take(k + 1)));
        k = k + 1;
    }
    assert(places.take(k as int) =~= places);
    out
}

/// The numbers of tenants.
pub open spec fn tenant_ids(entries: Seq<AdminTenantRecord>) -> Seq<u64> {
    entries.map_values(|e: AdminTenantRecord| e.tenant_id)
}

/// The rows of tenants at these places.
pub open spec fn tenant_rows(entries: Seq<AdminTenantRecord>, order: Seq<int>) -> Seq<char>
    decreases order.len(),
{
    if order.len() == 0 {
        Seq::empty()
    } else {
        tenant_rows(entries, order.drop_last()) + tenant_row(entries[order.last()])
    }
}

/// The table of tenants, in the order of their numbers.
#[must_use]
pub fn tenants_table(entries: &[AdminTenantRecord]) -> (r: String)
    ensures
        exists|order: Seq<int>| #[trigger]
            is_order(order, tenant_ids(entries@)) && r@ == tenants_head() + tenant_rows(
                entries@,
                order,
            ),
{
    let mut ids: Vec<u64> = Vec::new();
    let mut i: usize = 0;
    while i < entries.len()
        invariant
            i <= entries@.len(),
            ids@ == tenant_ids(entries@.take(i as int)),
        decreases entries@.len() - i,
    {
        ids.push(entries[i].tenant_id);
        i = i + 1;
        assert(ids@ =~= tenant_ids(entries@.take(i as int)));
    }
    assert(entries@.take(i as int) =~= entries@);
    let order = place_in_order(ids.as_slice());
    let ghost places = order@.map_values(|x: usize| x as int);
    let mut out =
        "tenant_id   signing_fp          capacity    refill_per_s           registered_at\n".to_owned();
    let mut k: usize = 0;
    assert(places.take(0) =~= Seq::<int>::empty());
    assert(tenants_head() + tenant_rows(entries@, places.take(0)) =~= tenants_head());
    while k < order.len()
        invariant
            k <= order@.len(),
            places == order@.map_values(|x: usize| x as int),
            is_order(places, ids@),
            ids@.len() == entries@.len(),
            out@ == tenants_head() + tenant_rows(entries@, places.take(k as int)),
        decreases order@.len() - k,
    {
        let p: usize = order[k];
        assert(places[k as int] == p);
        append_tenant(&mut out, &entries[p]);
        assert(places.take(k + 1).drop_last() =~= places.take(k as int));
        assert(out@ =~= tenants_head() + tenant_rows(entries@, places.take(k + 1)));
        k = k + 1;
    }
    assert(places.take(k as int) =~= places);
    out
}

/// The record of an enrolled agent as the table takes it.
#[must_use]
pub fn agent_record(e: &EnrolledRecord) -> (r: AdminAgentRecord)
    ensures
        r == (AdminAgentRecord {
            runner_id: e.runner_id,
            signing_fp: e.signing_fp,
            vrf_fp: e.vrf_fp,
            enrolled_at_unix_ns: e.enrolled_at_unix_ns,
            initial_reputation_thousandths: e.initial_reputation_milli as u32,
        }),
{
    AdminAgentRecord {
        runner_id: e.runner_id,
        signing_fp: e.signing_fp,
        vrf_fp: e.vrf_fp,
        enrolled_at_unix_ns: e.enrolled_at_unix_ns,
        initial_reputation_thousandths: e.initial_reputation_milli as u32,
    }
}

/// What is said of a log.
#[must_use]
pub fn log_report(root: Option<[u8; 32]>, length: u64) -> (r: String)
    ensures
        r@ == match root {
            Some(root) => "length: "@ + text::decimal_of(length as nat) + "\nroot:   "@
                + text::hex_of(root@) + "\n"@,
            None => "length: 0 (log is empty; no root)\n"@,
        },
{
    match root {
        Some(root) => {
            let mut s = "length: ".to_owned();
            text::append_decimal(&mut s, length);
            text::append_str(&mut s, "\nroot:   ");
            text::append_hex(&mut s, root.as_slice());
            text::append_str(&mut s, "\n");
            s
        },
        None => "length: 0 (log is empty; no root)\n".to_owned(),
    }
}

// ── Laws ───────────────────────────────────────────────────────────────────
/// The order of a table is the only one there is.
pub proof fn law_order_is_unique(a: Seq<int>, b: Seq<int>, ids: Seq<u64>)
    requires
        is_order(a, ids),
        is_order(b, ids),
    ensures
        a == b,
{
    lemma_order_covers(a, ids);
    lemma_order_covers(b, ids);
    lemma_orders_agree(a, b, ids, a.len() as int);
    assert(a =~= b);
}

proof fn lemma_orders_agree(a: Seq<int>, b: Seq<int>, ids: Seq<u64>, n: int)
    requires
        is_order(a, ids),
        is_order(b, ids),
        forall|p: int| 0 <= p < ids.len() ==> #[trigger] a.contains(p),
        forall|p: int| 0 <= p < ids.len() ==> #[trigger] b.contains(p),
        0 <= n <= a.len(),
    ensures
        forall|i: int| 0 <= i < n ==> a[i] == b[i],
    decreases n,
{
    if n > 0 {
        lemma_orders_agree(a, b, ids, n - 1);
        let k = n - 1;
        assert(b.contains(a[k]));
        assert(a.contains(b[k]));
        let i = choose|i: int| 0 <= i < b.len() && b[i] == a[k];
        let j = choose|j: int| 0 <= j < a.len() && a[j] == b[k];
        if i < k {
            assert(a[i] == b[i]);
            assert(comes_before(ids, a[i], a[k]));
        }
        if j < k {
            assert(a[j] == b[j]);
            assert(comes_before(ids, b[j], b[k]));
        }
        if i > k && j > k {
            assert(comes_before(ids, b[k], b[i]));
            assert(comes_before(ids, a[k], a[j]));
        }
    }
}

proof fn lemma_order_covers(order: Seq<int>, ids: Seq<u64>)
    requires
        is_order(order, ids),
    ensures
        forall|p: int| 0 <= p < ids.len() ==> #[trigger] order.contains(p),
{
    let all = Set::new(|p: int| 0 <= p < ids.len());
    vstd::set_lib::lemma_int_range(0, ids.len() as int);
    assert(all =~= vstd::set_lib::set_int_range(0, ids.len() as int));
    assert(order.no_duplicates()) by {
        assert forall|i: int, j: int| 0 <= i < order.len() && 0 <= j < order.len() && i
            != j implies order[i] != order[j] by {
            if i < j {
                assert(comes_before(ids, order[i], order[j]));
            } else {
                assert(comes_before(ids, order[j], order[i]));
            }
        }
    }
    order.unique_seq_to_set();
    assert(order.to_set().subset_of(all)) by {
        assert forall|p: int| order.to_set().contains(p) implies all.contains(p) by {
            let i = choose|i: int| 0 <= i < order.len() && order[i] == p;
            assert(0 <= order[i] < ids.len());
        }
    }
    vstd::set_lib::lemma_subset_equality(order.to_set(), all);
    assert forall|p: int| 0 <= p < ids.len() implies #[trigger] order.contains(p) by {
        assert(all.contains(p));
        assert(order.to_set().contains(p));
    }
}

/// What was enrolled is in the file: after an agent was enrolled, the file reads
/// as it did, with one record more.
pub proof fn law_enrolled_agent_is_read_back(
    path: Seq<char>,
    file: Seq<char>,
    reputations: Seq<ReputationField>,
    record: enrollment::Enrollment,
    shown: Seq<char>,
)
    requires
        record.signing_fp.len() == 32,
        record.vrf_fp.len() == 32,
        text::is_word(shown, false),
        reputations.len() == text::records_of(text::lines_of(file)).len(),
        !text::is_whole(file) ==> file.last() != '\r',
        enrolled_file(
            path,
            file,
            enrollment::set_of(text::records_of(text::lines_of(file)), reputations),
            record,
            shown,
        ) is Ok,
    ensures
        ({
            let was = enrollment::set_of(text::records_of(text::lines_of(file)), reputations);
            let new = enrolled_file(path, file, was, record, shown)->Ok_0;
            let now = text::records_of(text::lines_of(new));
            &&& now.len() == reputations.len() + 1
            &&& enrollment::set_of(
                now,
                reputations.push(ReputationField::Milli(record.initial_reputation_milli)),
            ) == Ok::<Map<u64, enrollment::Enrollment>, enrollment::EnrollmentError>(
                was->Ok_0.insert(record.runner_id, record),
            )
        }),
{
    let line = enrollment::line_of(record, shown);
    let was = enrollment::set_of(text::records_of(text::lines_of(file)), reputations);
    let new = with_line(file, line);
    lemma_line_is_plain(record, shown);
    text::lemma_one_line(line);
    let whole = if text::is_whole(file) {
        file
    } else {
        file.push('\n')
    };
    assert(new =~= whole + line.push('\n'));
    text::lemma_lines_concat(whole, line.push('\n'));
    if !text::is_whole(file) {
        text::lemma_lines_ended(file);
    }
    let old_lines = text::lines_of(file);
    assert(text::lines_of(new) == old_lines.push(line));
    let new_lines = text::lines_of(new);
    assert(new_lines.drop_last() =~= old_lines);
    text::lemma_trimmed_self(line);
    let old_records = text::records_of(old_lines);
    let now = text::records_of(new_lines);
    assert(now == old_records.push((new_lines.len() as int, line)));
    assert(now.drop_last() =~= old_records);
    let more = reputations.push(ReputationField::Milli(record.initial_reputation_milli));
    lemma_set_of_prefix(old_records, reputations, more);
    enrollment::law_line_round_trip(record, shown);
}

/// Fields beyond the records do not matter.
proof fn lemma_set_of_prefix(
    records: Seq<(int, Seq<char>)>,
    a: Seq<ReputationField>,
    b: Seq<ReputationField>,
)
    requires
        records.len() <= a.len(),
        records.len() <= b.len(),
        forall|i: int| 0 <= i < records.len() ==> a[i] == b[i],
    ensures
        enrollment::set_of(records, a) == enrollment::set_of(records, b),
    decreases records.len(),
{
    if records.len() > 0 {
        lemma_set_of_prefix(records.drop_last(), a, b);
    }
}

/// The line of a record neither starts nor ends with space, is no comment, and
/// does not break.
proof fn lemma_line_is_plain(record: enrollment::Enrollment, shown: Seq<char>)
    requires
        record.signing_fp.len() == 32,
        record.vrf_fp.len() == 32,
        text::is_word(shown, false),
    ensures
        ({
            let line = enrollment::line_of(record, shown);
            &&& line.len() > 0
            &&& !text::is_white(line[0])
            &&& line[0] != '#'
            &&& !text::is_white(line.last())
            &&& !line.contains('\n')
            &&& line.last() != '\r'
        }),
{
    let w = enrollment::words_for(record, shown);
    text::lemma_decimal_is_word(record.runner_id as nat, false);
    text::lemma_hex_is_word(record.signing_fp, false);
    text::lemma_hex_is_word(record.vrf_fp, false);
    text::lemma_signed_is_word(record.enrolled_at_unix_ns as int, false);
    text::lemma_spaced_is_plain(w);
    text::law_decimal_round_trip(record.runner_id as nat, u64::MAX as nat);
}

proof fn lemma_without_records(lines: Seq<Seq<char>>, runner_id: u64)
    requires
        forall|i: int| 0 <= i < lines.len() ==> !(#[trigger] lines[i]).contains('\n'),
        forall|i: int| 0 <= i < lines.len() ==> text::without_cr(#[trigger] lines[i]) == lines[i],
    ensures
        text::is_whole(without_records(lines, runner_id)),
        text::lines_of(without_records(lines, runner_id)) == lines.filter(
            |line: Seq<char>| !is_record_of(line, runner_id),
        ),
    decreases lines.len(),
{
    let keep = |line: Seq<char>| !is_record_of(line, runner_id);
    reveal(Seq::filter);
    if lines.len() > 0 {
        let less = lines.drop_last();
        assert forall|i: int| 0 <= i < less.len() implies !(#[trigger] less[i]).contains('\n') by {
            assert(less[i] == lines[i]);
        }
        assert forall|i: int| 0 <= i < less.len() implies text::without_cr(#[trigger] less[i])
            == less[i] by {
            assert(less[i] == lines[i]);
        }
        lemma_without_records(less, runner_id);
        let last = lines[lines.len() - 1];
        if keep(last) {
            text::lemma_one_line(last);
            text::lemma_lines_concat(without_records(less, runner_id), last.push('\n'));
            assert(text::lines_of(without_records(lines, runner_id)) =~= less.filter(keep).push(
                last,
            ));
        }
    }
}

/// A revoked agent is gone: no line of the file is a record of it any more, and
/// every line that was none is still there, in its order.
pub proof fn law_revoked_agent_is_gone(path: Seq<char>, file: Seq<char>, runner_id: u64)
    requires
        revoked_file(path, file, runner_id) is Ok,
        forall|i: int|
            0 <= i < text::lines_of(file).len() ==> text::without_cr(
                #[trigger] text::lines_of(file)[i],
            ) == text::lines_of(file)[i],
    ensures
        text::lines_of(revoked_file(path, file, runner_id)->Ok_0) == text::lines_of(file).filter(
            |line: Seq<char>| !is_record_of(line, runner_id),
        ),
        !has_record(text::lines_of(revoked_file(path, file, runner_id)->Ok_0), runner_id),
{
    let lines = text::lines_of(file);
    text::lemma_lines_do_not_break(file);
    lemma_without_records(lines, runner_id);
    let keep = |line: Seq<char>| !is_record_of(line, runner_id);
    let kept = lines.filter(keep);
    if has_record(kept, runner_id) {
        let i = choose|i: int| 0 <= i < kept.len() && #[trigger] is_record_of(kept[i], runner_id);
        lines.lemma_filter_pred(keep, i);
    }
}

/// Revoking keeps every line but the runner's own records, in order.
pub proof fn law_other_lines_are_kept(
    a: Seq<Seq<char>>,
    b: Seq<Seq<char>>,
    line: Seq<char>,
    runner_id: u64,
)
    ensures
        without_records(Seq::empty(), runner_id).len() == 0,
        without_records(a + b, runner_id) == without_records(a, runner_id) + without_records(
            b,
            runner_id,
        ),
        is_record_of(line, runner_id) ==> without_records(seq![line], runner_id).len() == 0,
        !is_record_of(line, runner_id) ==> without_records(seq![line], runner_id) == line.push(
            '\n',
        ),
    decreases b.len(),
{
    assert(seq![line].drop_last() =~= Seq::empty());
    reveal_with_fuel(without_records, 2);
    assert(Seq::<char>::empty() + line.push('\n') =~= line.push('\n'));
    if b.len() > 0 {
        law_other_lines_are_kept(a, b.drop_last(), line, runner_id);
        assert((a + b).drop_last() =~= a + b.drop_last());
        assert(without_records(a + b, runner_id) =~= without_records(a, runner_id)
            + without_records(b, runner_id));
    } else {
        assert(a + b =~= a);
        assert(without_records(a + b, runner_id) =~= without_records(a, runner_id)
            + without_records(b, runner_id));
    }
}

/// A line is a runner's record exactly if it is no comment and its first word is
/// the runner's number.
pub proof fn law_record_begins_with_its_number(
    runner_id: u64,
    rest: Seq<Seq<char>>,
    other: u64,
)
    requires
        forall|i: int| 0 <= i < rest.len() ==> text::is_word(#[trigger] rest[i], false),
    ensures
        is_record_of(
            text::spaced(seq![text::decimal_of(runner_id as nat)] + rest),
            other,
        ) <==> runner_id == other,
        !is_record_of(seq!['#'] + text::spaced(seq![text::decimal_of(runner_id as nat)] + rest), other),
{
    let number = text::decimal_of(runner_id as nat);
    let words = seq![number] + rest;
    text::lemma_decimal_is_word(runner_id as nat, false);
    assert forall|i: int| 0 <= i < words.len() implies text::is_word(#[trigger] words[i], false) by {
        if i > 0 {
            assert(words[i] == rest[i - 1]);
        }
    }
    text::law_words_round_trip(words, false);
    text::law_decimal_round_trip(runner_id as nat, u64::MAX as nat);
    text::lemma_decimal_digits(runner_id as nat);
    let line = text::spaced(words);
    lemma_spaced_begins(words);
    assert(line[0] == number[0]);
    assert(text::is_digit(number[0]));
    assert(!text::separates(number[0], false));
    assert(text::skip_white(line, false) == line);
    let comment = seq!['#'] + line;
    assert(comment[0] == '#');
    assert(text::skip_white(comment, false) == comment);
}

proof fn lemma_spaced_begins(words: Seq<Seq<char>>)
    requires
        words.len() > 0,
        words[0].len() > 0,
    ensures
        text::spaced(words).len() > 0,
        text::spaced(words)[0] == words[0][0],
    decreases words.len(),
{
    if words.len() > 1 {
        lemma_spaced_begins(words.drop_last());
    }
}

/// Every agent has its row, where it stands in the order.
pub proof fn law_agent_rows_follow_the_order(
    entries: Seq<AdminAgentRecord>,
    a: Seq<int>,
    b: Seq<int>,
    i: int,
)
    ensures
        agent_rows(entries, Seq::empty()).len() == 0,
        agent_rows(entries, seq![i]) == agent_row(entries[i]),
        agent_rows(entries, a + b) == agent_rows(entries, a) + agent_rows(entries, b),
    decreases b.len(),
{
    let row = agent_row(entries[i]);
    assert(seq![i].drop_last() =~= Seq::<int>::empty());
    assert(agent_rows(entries, seq![i].drop_last()) == Seq::<char>::empty());
    assert(agent_rows(entries, seq![i]) == Seq::<char>::empty() + row);
    assert(Seq::<char>::empty() + row =~= row);
    let front = agent_rows(entries, a);
    if b.len() > 0 {
        let less = agent_rows(entries, b.drop_last());
        let last = agent_row(entries[b.last()]);
        law_agent_rows_follow_the_order(entries, a, b.drop_last(), i);
        assert((a + b).drop_last() =~= a + b.drop_last());
        assert(agent_rows(entries, a + b) == front + less + last);
        assert(front + less + last =~= front + (less + last));
    } else {
        assert(a + b =~= a);
        assert(front + Seq::<char>::empty() =~= front);
    }
}

/// Every tenant has its row, where it stands in the order.
pub proof fn law_tenant_rows_follow_the_order(
    entries: Seq<AdminTenantRecord>,
    a: Seq<int>,
    b: Seq<int>,
    i: int,
)
    ensures
        tenant_rows(entries, Seq::empty()).len() == 0,
        tenant_rows(entries, seq![i]) == tenant_row(entries[i]),
        tenant_rows(entries, a + b) == tenant_rows(entries, a) + tenant_rows(entries, b),
    decreases b.len(),
{
    let row = tenant_row(entries[i]);
    assert(seq![i].drop_last() =~= Seq::<int>::empty());
    assert(tenant_rows(entries, seq![i].drop_last()) == Seq::<char>::empty());
    assert(tenant_rows(entries, seq![i]) == Seq::<char>::empty() + row);
    assert(Seq::<char>::empty() + row =~= row);
    let front = tenant_rows(entries, a);
    if b.len() > 0 {
        let less = tenant_rows(entries, b.drop_last());
        let last = tenant_row(entries[b.last()]);
        law_tenant_rows_follow_the_order(entries, a, b.drop_last(), i);
        assert((a + b).drop_last() =~= a + b.drop_last());
        assert(tenant_rows(entries, a + b) == front + less + last);
        assert(front + less + last =~= front + (less + last));
    } else {
        assert(a + b =~= a);
        assert(front + Seq::<char>::empty() =~= front);
    }
}

/// An order lists every entry once.
pub proof fn law_order_misses_nothing(order: Seq<int>, ids: Seq<u64>, k: int)
    requires
        is_order(order, ids),
        0 <= k < ids.len(),
    ensures
        order.contains(k),
        order.no_duplicates(),
{
    assert forall|i: int, j: int| 0 <= i < order.len() && 0 <= j < order.len() && i
        != j implies order[i] != order[j] by {
        if i < j {
            assert(comes_before(ids, order[i], order[j]));
        } else {
            assert(comes_before(ids, order[j], order[i]));
        }
    }
    let all = vstd::set_lib::set_int_range(0, ids.len() as int);
    vstd::set_lib::lemma_int_range(0, ids.len() as int);
    order.unique_seq_to_set();
    assert(order.to_set().subset_of(all)) by {
        assert forall|x: int| order.to_set().contains(x) implies all.contains(x) by {
            let i = choose|i: int| 0 <= i < order.len() && order[i] == x;
            assert(0 <= order[i] < ids.len());
        }
    }
    vstd::set_lib::lemma_set_subset_finite(all, order.to_set());
    vstd::set_lib::lemma_subset_equality(order.to_set(), all);
    assert(order.to_set().contains(k));
}

/// A column is as wide as it should be, and holds its text at its side.
pub proof fn law_columns_are_padded(s: Seq<char>, width: nat)
    ensures
        at_left(s, width as int).len() == if s.len() > width {
            s.len()
        } else {
            width
        },
        at_right(s, width as int).len() == at_left(s, width as int).len(),
        at_left(s, width as int).take(s.len() as int) == s,
        at_right(s, width as int).skip(at_right(s, width as int).len() - s.len()) == s,
        forall|i: int|
            s.len() <= i < at_left(s, width as int).len() ==> #[trigger] at_left(
                s,
                width as int,
            )[i] == ' ',
        forall|i: int|
            0 <= i < at_right(s, width as int).len() - s.len() ==> #[trigger] at_right(
                s,
                width as int,
            )[i] == ' ',
{
}

/// A request for a file, or for a coordinator: the address wins where both are
/// given.
pub proof fn law_address_wins(args: Seq<String>, flag: Seq<char>)
    ensures
        cli::value_of(args, "--coord"@) matches Some(addr) ==> place_of(args, flag) == Ok::<
            Place,
            Seq<char>,
        >(Place::Coord(addr)),
        cli::value_of(args, "--coord"@) is None ==> {
            &&& cli::value_of(args, flag) matches Some(path) ==> place_of(args, flag) == Ok::<
                Place,
                Seq<char>,
            >(Place::File(path))
            &&& cli::value_of(args, flag) is None ==> place_of(args, flag) is Err
        },
{
}

/// An enrollment takes every value from its own flag.
pub proof fn law_enrollment_follows_its_flags(
    args: Seq<String>,
    reputation: ReputationArg,
    now_unix_ns: i64,
)
    ensures
        enrollment_of(args, reputation, now_unix_ns) matches Ok(f) ==> {
            &&& number_of(args, "--runner-id"@) == Ok::<u64, Seq<char>>(f.record.runner_id)
            &&& cli::value_of(args, "--signing-fp"@) is Some
            &&& text::hex32_of(
                vstd::utf8::encode_utf8(cli::value_of(args, "--signing-fp"@)->0),
                true,
            ) == Ok::<Seq<u8>, text::HexError>(f.record.signing_fp)
            &&& cli::value_of(args, "--vrf-fp"@) is Some
            &&& text::hex32_of(
                vstd::utf8::encode_utf8(cli::value_of(args, "--vrf-fp"@)->0),
                true,
            ) == Ok::<Seq<u8>, text::HexError>(f.record.vrf_fp)
            &&& cli::value_of(args, "--at"@) is None ==> f.record.enrolled_at_unix_ns
                == now_unix_ns
            &&& cli::value_of(args, "--at"@) matches Some(s) ==> text::signed_in(
                s,
                i64::MIN as int,
                i64::MAX as int,
            ) == Ok::<int, text::NumberError>(f.record.enrolled_at_unix_ns as int)
            &&& reputation matches ReputationArg::InRange { thousandths, shown }
                && f.record.initial_reputation_milli == thousandths && f.shown == shown@
            &&& place_of(args, "--enrollment"@) == Ok::<Place, Seq<char>>(f.target)
        },
{
}

/// A tenant takes every value from its own flag.
pub proof fn law_tenant_follows_its_flags(args: Seq<String>, now_unix_ns: u64)
    ensures
        registration_of(args, now_unix_ns) matches Ok((coord, t)) ==> {
            &&& cli::value_of(args, "--coord"@) == Some(coord)
            &&& number_of(args, "--tenant-id"@) == Ok::<u64, Seq<char>>(t.tenant_id)
            &&& number_of(args, "--rate-capacity"@) == Ok::<u64, Seq<char>>(t.rate_capacity)
            &&& number_of(args, "--rate-refill-per-sec"@) == Ok::<u64, Seq<char>>(
                t.rate_refill_per_sec,
            )
            &&& cli::value_of(args, "--signing-fp"@) is Some
            &&& text::hex32_of(
                vstd::utf8::encode_utf8(cli::value_of(args, "--signing-fp"@)->0),
                true,
            ) == Ok::<Seq<u8>, text::HexError>(t.signing_fp)
            &&& cli::value_of(args, "--at"@) is None ==> t.registered_at_unix_ns == now_unix_ns
            &&& cli::value_of(args, "--at"@) is Some ==> number_of(args, "--at"@) == Ok::<
                u64,
                Seq<char>,
            >(t.registered_at_unix_ns)
        },
{
}

/// A number is read from what follows its flag.
pub proof fn law_number_is_read(args: Seq<String>, flag: Seq<char>, n: u64)
    ensures
        cli::value_of(args, flag) == Some(text::decimal_of(n as nat)) ==> number_of(args, flag)
            == Ok::<u64, Seq<char>>(n),
        cli::value_of(args, flag) is None ==> number_of(args, flag) == Err::<u64, Seq<char>>(
            "missing required flag "@ + flag,
        ),
{
    if cli::value_of(args, flag) == Some(text::decimal_of(n as nat)) {
        text::law_decimal_round_trip(n as nat, u64::MAX as nat);
    }
}

/// Every command is called by its own two words.
pub proof fn law_commands_are_called_by_name(args: Seq<String>)
    requires
        args.len() >= 2,
    ensures
        args[0]@ == "agents"@ && args[1]@ == "list"@ ==> command_of(args) == Ok::<
            Command,
            Seq<char>,
        >(Command::AgentsList),
        args[0]@ == "agents"@ && args[1]@ == "enroll"@ ==> command_of(args) == Ok::<
            Command,
            Seq<char>,
        >(Command::AgentsEnroll),
        args[0]@ == "agents"@ && args[1]@ == "revoke"@ ==> command_of(args) == Ok::<
            Command,
            Seq<char>,
        >(Command::AgentsRevoke),
        args[0]@ == "tenants"@ && args[1]@ == "list"@ ==> command_of(args) == Ok::<
            Command,
            Seq<char>,
        >(Command::TenantsList),
        args[0]@ == "tenants"@ && args[1]@ == "add"@ ==> command_of(args) == Ok::<
            Command,
            Seq<char>,
        >(Command::TenantsAdd),
        args[0]@ == "tenants"@ && args[1]@ == "revoke"@ ==> command_of(args) == Ok::<
            Command,
            Seq<char>,
        >(Command::TenantsRevoke),
        args[0]@ == "log"@ && args[1]@ == "root"@ ==> command_of(args) == Ok::<
            Command,
            Seq<char>,
        >(Command::LogRoot),
{
    reveal_strlit("agents");
    reveal_strlit("tenants");
    reveal_strlit("log");
    reveal_strlit("list");
    reveal_strlit("enroll");
    reveal_strlit("revoke");
    reveal_strlit("add");
    assert("agents"@.len() == 6 && "tenants"@.len() == 7 && "log"@.len() == 3);
    assert("list"@[0] == 'l' && "enroll"@[0] == 'e' && "revoke"@[0] == 'r' && "add"@[0] == 'a');
}

proof fn lemma_spaces_add_no_word(n: int, rest: Seq<char>)
    ensures
        text::words_of(spaces(n) + rest, false) == text::words_of(rest, false),
    decreases n,
{
    if n > 0 {
        lemma_spaces_add_no_word(n - 1, rest);
        text::lemma_leading_white(' ', spaces(n - 1) + rest, false);
        assert(spaces(n) + rest =~= seq![' '] + (spaces(n - 1) + rest));
    } else {
        assert(spaces(n) + rest =~= rest);
    }
}

proof fn lemma_column(w: Seq<char>, width: int, gap: Seq<char>, rest: Seq<char>)
    requires
        text::is_word(w, false),
        gap.len() > 0,
        gap == "  "@ || gap == "\n"@,
    ensures
        text::words_of(at_left(w, width) + gap + rest, false) == seq![w] + text::words_of(
            rest,
            false,
        ),
        text::words_of(at_right(w, width) + gap + rest, false) == seq![w] + text::words_of(
            rest,
            false,
        ),
{
    reveal_strlit("  ");
    reveal_strlit("\n");
    let pad = spaces(width - w.len());
    let tail = gap + rest;
    lemma_gap(gap, rest);
    lemma_spaces_add_no_word(width - w.len(), tail);
    assert((pad + tail)[0] == ' ' || (pad + tail)[0] == '\n');
    text::lemma_first_word(w, pad + tail, false);
    assert(at_left(w, width) + gap + rest =~= w + (pad + tail));
    text::lemma_first_word(w, tail, false);
    lemma_spaces_add_no_word(width - w.len(), w + tail);
    assert(at_right(w, width) + gap + rest =~= pad + (w + tail));
}

proof fn lemma_gap(gap: Seq<char>, rest: Seq<char>)
    requires
        gap == "  "@ || gap == "\n"@,
    ensures
        gap.len() > 0,
        gap[0] == ' ' || gap[0] == '\n',
        text::words_of(gap + rest, false) == text::words_of(rest, false),
{
    reveal_strlit("  ");
    reveal_strlit("\n");
    if gap == "  "@ {
        assert(gap + rest =~= seq![' '] + (seq![' '] + rest));
        text::lemma_leading_white(' ', seq![' '] + rest, false);
        text::lemma_leading_white(' ', rest, false);
    } else {
        assert(gap + rest =~= seq!['\n'] + rest);
        text::lemma_leading_white('\n', rest, false);
    }
}

proof fn lemma_thousandths_are_a_word(n: nat)
    ensures
        text::is_word(three_decimals(n), false),
{
    let w = three_decimals(n);
    let d = text::decimal_of(n / 1000);
    text::lemma_decimal_digits(n / 1000);
    assert forall|i: int| 0 <= i < w.len() implies !text::separates(#[trigger] w[i], false) by {
        if i < d.len() {
            assert(w[i] == d[i]);
            assert(text::is_digit(d[i]));
        }
    }
}

/// The row of an agent reads as its number, the starts of its keys' hashes, the
/// time, and its reputation, which is one at most.
pub proof fn law_agent_row_tells_the_agent(e: AdminAgentRecord)
    ensures
        text::words_of(agent_row(e), false) == seq![
            text::decimal_of(e.runner_id as nat),
            text::hex_of(e.signing_fp@.take(8)),
            text::hex_of(e.vrf_fp@.take(8)),
            text::signed_decimal_of(e.enrolled_at_unix_ns as int),
            three_decimals(
                if e.initial_reputation_thousandths > 1000 {
                    1000
                } else {
                    e.initial_reputation_thousandths as nat
                },
            ),
        ],
{
    let thousandths = if e.initial_reputation_thousandths > 1000 {
        1000
    } else {
        e.initial_reputation_thousandths as nat
    };
    let (a, b, c) = (
        text::decimal_of(e.runner_id as nat),
        text::hex_of(e.signing_fp@.take(8)),
        text::hex_of(e.vrf_fp@.take(8)),
    );
    let (d, f) = (
        text::signed_decimal_of(e.enrolled_at_unix_ns as int),
        three_decimals(thousandths),
    );
    text::lemma_decimal_is_word(e.runner_id as nat, false);
    text::lemma_hex_is_word(e.signing_fp@.take(8), false);
    text::lemma_hex_is_word(e.vrf_fp@.take(8), false);
    text::lemma_signed_is_word(e.enrolled_at_unix_ns as int, false);
    lemma_thousandths_are_a_word(thousandths);
    lemma_gap("  "@, Seq::empty());
    lemma_gap("\n"@, Seq::empty());
    let t5 = at_right(f, 10) + "\n"@ + Seq::<char>::empty();
    let t4 = at_right(d, 22) + "  "@ + t5;
    let t3 = at_left(c, 16) + "  "@ + t4;
    let t2 = at_left(b, 16) + "  "@ + t3;
    let t1 = at_left(a, 10) + "  "@ + t2;
    lemma_column(f, 10, "\n"@, Seq::empty());
    lemma_column(d, 22, "  "@, t5);
    lemma_column(c, 16, "  "@, t4);
    lemma_column(b, 16, "  "@, t3);
    lemma_column(a, 10, "  "@, t2);
    let p1 = at_left(a, 10) + "  "@;
    let p2 = p1 + at_left(b, 16) + "  "@;
    let p3 = p2 + at_left(c, 16) + "  "@;
    let p4 = p3 + at_right(d, 22) + "  "@;
    assert(agent_row(e) == p4 + at_right(f, 10) + "\n"@);
    assert(p4 + at_right(f, 10) + "\n"@ =~= p4 + t5);
    assert(p4 + t5 =~= p3 + t4);
    assert(p3 + t4 =~= p2 + t3);
    assert(p2 + t3 =~= p1 + t2);
    assert(text::words_of(Seq::<char>::empty(), false).len() == 0);
    assert(text::words_of(t1, false) =~= seq![a, b, c, d, f]);
}

/// The row of a tenant reads as its number, the start of its key's hash, its
/// capacity, its rate and the time.
pub proof fn law_tenant_row_tells_the_tenant(e: AdminTenantRecord)
    ensures
        text::words_of(tenant_row(e), false) == seq![
            text::decimal_of(e.tenant_id as nat),
            text::hex_of(e.signing_fp@.take(8)),
            text::decimal_of(e.rate_capacity as nat),
            text::decimal_of(e.rate_refill_per_sec as nat),
            text::decimal_of(e.registered_at_unix_ns as nat),
        ],
{
    let (a, b) = (text::decimal_of(e.tenant_id as nat), text::hex_of(e.signing_fp@.take(8)));
    let (c, d, f) = (
        text::decimal_of(e.rate_capacity as nat),
        text::decimal_of(e.rate_refill_per_sec as nat),
        text::decimal_of(e.registered_at_unix_ns as nat),
    );
    text::lemma_decimal_is_word(e.tenant_id as nat, false);
    text::lemma_hex_is_word(e.signing_fp@.take(8), false);
    text::lemma_decimal_is_word(e.rate_capacity as nat, false);
    text::lemma_decimal_is_word(e.rate_refill_per_sec as nat, false);
    text::lemma_decimal_is_word(e.registered_at_unix_ns as nat, false);
    lemma_gap("  "@, Seq::empty());
    lemma_gap("\n"@, Seq::empty());
    let t5 = at_right(f, 22) + "\n"@ + Seq::<char>::empty();
    let t4 = at_right(d, 14) + "  "@ + t5;
    let t3 = at_right(c, 10) + "  "@ + t4;
    let t2 = at_left(b, 16) + "  "@ + t3;
    let t1 = at_left(a, 10) + "  "@ + t2;
    lemma_column(f, 22, "\n"@, Seq::empty());
    lemma_column(d, 14, "  "@, t5);
    lemma_column(c, 10, "  "@, t4);
    lemma_column(b, 16, "  "@, t3);
    lemma_column(a, 10, "  "@, t2);
    let p1 = at_left(a, 10) + "  "@;
    let p2 = p1 + at_left(b, 16) + "  "@;
    let p3 = p2 + at_right(c, 10) + "  "@;
    let p4 = p3 + at_right(d, 14) + "  "@;
    assert(tenant_row(e) == p4 + at_right(f, 22) + "\n"@);
    assert(p4 + at_right(f, 22) + "\n"@ =~= p4 + t5);
    assert(p4 + t5 =~= p3 + t4);
    assert(p3 + t4 =~= p2 + t3);
    assert(p2 + t3 =~= p1 + t2);
    assert(text::words_of(Seq::<char>::empty(), false).len() == 0);
    assert(text::words_of(t1, false) =~= seq![a, b, c, d, f]);
}

/// Thousandths are written as a number with three decimals.
pub proof fn law_thousandths_are_decimals(n: nat)
    ensures
        ({
            let parts = text::split_of(three_decimals(n), '.');
            &&& parts.len() == 2
            &&& parts[0] == text::decimal_of(n / 1000)
            &&& parts[1].len() == 3
            &&& forall|i: int| 0 <= i < 3 ==> '0' <= #[trigger] parts[1][i] <= '9'
            &&& text::number_of(parts[1]) == n % 1000
        }),
{
    let whole = text::decimal_of(n / 1000);
    let (a, b, c) = (n / 100 % 10, n / 10 % 10, n % 10);
    let f = seq![text::digit_char(a), text::digit_char(b), text::digit_char(c)];
    lemma_three_digits(a, b, c);
    lemma_last_digits(n);
    lemma_split_at_the_point(n / 1000, f);
    assert(three_decimals(n) =~= whole + (seq!['.'] + f));
}

proof fn lemma_last_digits(n: nat)
    ensures
        n % 1000 == 100 * (n / 100 % 10) + 10 * (n / 10 % 10) + n % 10,
{
    let m = n as int;
    vstd::arithmetic::div_mod::lemma_div_denominator(m, 10, 10);
    vstd::arithmetic::div_mod::lemma_div_denominator(m, 100, 10);
    vstd::arithmetic::div_mod::lemma_fundamental_div_mod(m, 10);
    vstd::arithmetic::div_mod::lemma_fundamental_div_mod(m / 10, 10);
    vstd::arithmetic::div_mod::lemma_fundamental_div_mod(m / 100, 10);
    vstd::arithmetic::div_mod::lemma_fundamental_div_mod(m, 1000);
}

proof fn lemma_split_at_the_point(n: nat, f: Seq<char>)
    requires
        !f.contains('.'),
    ensures
        text::split_of(text::decimal_of(n) + (seq!['.'] + f), '.') == seq![text::decimal_of(n), f],
{
    let whole = text::decimal_of(n);
    text::lemma_decimal_digits(n);
    assert(!whole.contains('.')) by {
        if whole.contains('.') {
            let i = choose|i: int| 0 <= i < whole.len() && whole[i] == '.';
            assert(text::is_digit(whole[i]));
        }
    }
    text::law_split_at_the_first(whole, '.', f);
    text::law_split_at_the_first(f, '.', Seq::empty());
    assert(whole + (seq!['.'] + f) =~= whole + seq!['.'] + f);
    assert(seq![whole] + seq![f] =~= seq![whole, f]);
}

proof fn lemma_three_digits(a: nat, b: nat, c: nat)
    requires
        a < 10,
        b < 10,
        c < 10,
    ensures
        ({
            let f = seq![text::digit_char(a), text::digit_char(b), text::digit_char(c)];
            &&& text::number_of(f) == 100 * a + 10 * b + c
            &&& forall|i: int| 0 <= i < 3 ==> '0' <= #[trigger] f[i] <= '9'
            &&& !f.contains('.')
        }),
{
    let (x, y, z) = (text::digit_char(a), text::digit_char(b), text::digit_char(c));
    let f = seq![x, y, z];
    assert(text::digit_value(x) == a && text::digit_value(y) == b && text::digit_value(z) == c);
    assert(f.drop_last() =~= seq![x, y]);
    assert(seq![x, y].drop_last() =~= seq![x]);
    assert(seq![x].drop_last() =~= Seq::<char>::empty());
    assert(text::number_of(Seq::<char>::empty()) == 0);
    assert(text::number_of(seq![x]) == a);
    assert(text::number_of(seq![x, y]) == 10 * a + b);
    assert('0' <= x <= '9' && '0' <= y <= '9' && '0' <= z <= '9');
}

/// Every acknowledgement has a message of its own.
pub proof fn law_acknowledgements_differ(a: Ack, b: Ack)
    requires
        ack_message(a) == ack_message(b),
    ensures
        a == b,
{
}

} // verus!
