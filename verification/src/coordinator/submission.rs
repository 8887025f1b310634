//! Job submissions: one JSON record per line, gated per tenant.
//!
//! The auth fields of a record are optional in themselves; a gate that is set up
//! refuses a record that lacks one, with the verdict for a bad signature.

use crate::clock::Clock;
use crate::rate_limit::RateLimiter;
use crate::replay::ReplayGuard;
use crate::submission_auth::{verify_and_admit, AuthCheck, JobSubmissionPayload};
use crate::tenant::{parse_hex32, TenantRegistry};
use crate::text;
use vstd::prelude::*;

verus! {

/// Which canned module a job runs.
#[derive(Clone, Copy, Debug, PartialEq, Eq, Structural)]
pub enum JobKind {
    /// Addition.
    Add,
    /// Multiplication.
    Mul,
}

impl JobKind {
    /// The name of a kind in a record.
    pub open spec fn wire_name(self) -> Seq<char> {
        match self {
            JobKind::Add => "add"@,
            JobKind::Mul => "mul"@,
        }
    }

    /// The name of a kind in a record; it is also what a tenant signs.
    #[must_use]
    pub fn as_wire(self) -> (r: &'static str)
        ensures
            r@ == self.wire_name(),
    {
        match self {
            JobKind::Add => "add",
            JobKind::Mul => "mul",
        }
    }

    /// The kind of a name.
    #[must_use]
    pub fn from_wire(name: &str) -> (r: Option<JobKind>)
        ensures
            match r {
                Some(k) => name@ == k.wire_name(),
                None => forall|k: JobKind| name@ != #[trigger] k.wire_name(),
            },
    {
        if text::str_eq(name, "add") {
            Some(JobKind::Add)
        } else if text::str_eq(name, "mul") {
            Some(JobKind::Mul)
        } else {
            None
        }
    }
}

/// Deadline of a record that names none, in seconds.
#[must_use]
pub fn default_deadline_secs() -> (r: u32)
    ensures
        r == 60,
{
    60
}

/// One job submission.
#[derive(Clone, Debug, PartialEq, Eq)]
pub struct JobSubmission {
    /// Which module to run.
    pub kind: JobKind,
    /// First argument.
    pub a: i32,
    /// Second argument.
    pub b: i32,
    /// Deadline in seconds.
    pub deadline_secs: u32,
    /// Tenant that signed the record.
    pub tenant_id: Option<u64>,
    /// Replay-protection nonce.
    pub nonce: Option<u128>,
    /// Lowercase-hex public key of the signer.
    pub pubkey_hex: Option<String>,
    /// Lowercase-hex signature over the canonical bytes of the payload.
    pub signature_hex: Option<String>,
}

/// Whether a line of input is a record: neither blank nor a comment.
pub open spec fn is_record(line: Seq<char>) -> bool {
    text::trimmed(line).len() > 0 && text::trimmed(line)[0] != '#'
}

/// The record on a line of input, without the space around it; none where the
/// line is blank or a comment.
#[must_use]
pub fn record_on(line: &str) -> (r: Option<String>)
    ensures
        r is Some <==> is_record(line@),
        r matches Some(s) ==> s@ == text::trimmed(line@),
{
    let chars = text::trim(text::chars_of(line).as_slice());
    if chars.len() == 0 || chars[0] == '#' {
        None
    } else {
        Some(text::string_of(chars.as_slice()))
    }
}

/// The sixty-four bytes that a text writes in lowercase hex.
pub open spec fn hex64_of(s: Seq<char>) -> Option<Seq<u8>> {
    let b = vstd::utf8::encode_utf8(s);
    if b.len() == 128 {
        text::hex_bytes_of(b, false)
    } else {
        None
    }
}

/// Parse 128 lowercase-hex characters into a signature. `None` for any other
/// character or length.
#[must_use]
pub fn parse_hex64(s: &str) -> (r: Option<[u8; 64]>)
    ensures
        match r {
            Some(b) => hex64_of(s@) == Some(b@),
            None => hex64_of(s@) is None,
        },
{
    let raw = s.as_bytes();
    if raw.len() != 128 {
        return None;
    }
    let v = match text::read_hex(raw, false) {
        Some(v) => v,
        None => return None,
    };
    let mut out: [u8; 64] = [0u8; 64];
    let mut i: usize = 0;
    while i < 64
        invariant
            i <= 64,
            v@.len() == 64,
            forall|k: int| 0 <= k < i ==> out@[k] == v@[k],
        decreases 64 - i,
    {
        let b: u8 = v[i];
        out[i] = b;
        i = i + 1;
    }
    assert(out@ =~= v@);
    Some(out)
}

/// The thirty-two bytes that a text writes in lowercase hex.
pub open spec fn hex32_in(s: Seq<char>) -> Option<Seq<u8>> {
    match text::hex32_of(vstd::utf8::encode_utf8(s), false) {
        Ok(b) => Some(b),
        Err(_) => None,
    }
}

/// The auth fields of a submission: tenant, nonce, key and signature; none where
/// one is missing or malformed.
pub open spec fn credentials_of(sub: JobSubmission) -> Option<(u64, u128, Seq<u8>, Seq<u8>)> {
    match (sub.tenant_id, sub.nonce, sub.pubkey_hex, sub.signature_hex) {
        (Some(tenant_id), Some(nonce), Some(pubkey_hex), Some(signature_hex)) => match (
            hex32_in(pubkey_hex@),
            hex64_of(signature_hex@),
        ) {
            (Some(pubkey), Some(signature)) => Some((tenant_id, nonce, pubkey, signature)),
            _ => None,
        },
        _ => None,
    }
}

/// Whether a payload is what a tenant signs for a submission.
pub open spec fn is_payload_of(
    p: JobSubmissionPayload,
    sub: JobSubmission,
    tenant_id: u64,
    nonce: u128,
) -> bool {
    &&& p.tenant_id == tenant_id
    &&& p.kind@ == sub.kind.wire_name()
    &&& p.a == sub.a
    &&& p.b == sub.b
    &&& p.deadline_secs == sub.deadline_secs
    &&& p.nonce == nonce
}

/// What the auth gate may say of a submission, and what it then remembers.
pub open spec fn is_verdict(
    sub: JobSubmission,
    now_ns: u64,
    registry: Map<u64, crate::tenant::TenantEntry>,
    ttl: u64,
    before: crate::submission_auth::GateState,
    r: AuthCheck,
    after: crate::submission_auth::GateState,
) -> bool {
    match credentials_of(sub) {
        None => r == AuthCheck::BadSignature && after == before,
        Some((tenant_id, nonce, pubkey, signature)) => exists|
            p: JobSubmissionPayload,
            at: crate::submission_auth::Readings,
        |
            is_payload_of(p, sub, tenant_id, nonce) && (r, after)
                == #[trigger] crate::submission_auth::gate(
                p,
                pubkey,
                signature,
                now_ns,
                registry,
                ttl,
                before,
                at,
            ),
    }
}

/// Judge a submission: its payload is rebuilt and goes through the auth gate of its
/// tenant. A missing or malformed auth field counts as a bad signature.
pub fn check_submission<C: Clock>(
    sub: &JobSubmission,
    now_ns: u64,
    registry: &TenantRegistry,
    limiter: &mut RateLimiter<C>,
    replay_guard: &mut ReplayGuard<C>,
) -> (r: AuthCheck)
    ensures
        final(limiter).same_defaults(old(limiter)),
        final(replay_guard).ttl() == old(replay_guard).ttl(),
        is_verdict(
            *sub,
            now_ns,
            registry@,
            old(replay_guard).ttl(),
            crate::submission_auth::GateState { held: old(replay_guard)@, buckets: old(limiter)@ },
            r,
            crate::submission_auth::GateState {
                held: final(replay_guard)@,
                buckets: final(limiter)@,
            },
        ),
{
    let (tenant_id, nonce, pubkey_hex, signature_hex) = match (
        sub.tenant_id,
        sub.nonce,
        &sub.pubkey_hex,
        &sub.signature_hex,
    ) {
        (Some(t), Some(n), Some(p), Some(s)) => (t, n, p, s),
        _ => return AuthCheck::BadSignature,
    };
    let pubkey = match parse_hex32(pubkey_hex.as_str()) {
        Some(k) => k,
        None => return AuthCheck::BadSignature,
    };
    let signature = match parse_hex64(signature_hex.as_str()) {
        Some(s) => s,
        None => return AuthCheck::BadSignature,
    };
    let payload = JobSubmissionPayload {
        tenant_id,
        kind: sub.kind.as_wire().to_owned(),
        a: sub.a,
        b: sub.b,
        deadline_secs: sub.deadline_secs,
        nonce,
    };
    assert(credentials_of(*sub) == Some((tenant_id, nonce, pubkey@, signature@)));
    assert(is_payload_of(payload, *sub, tenant_id, nonce));
    let ghost before = crate::submission_auth::GateState {
        held: replay_guard@,
        buckets: limiter@,
    };
    let ghost ttl = replay_guard.ttl();
    let r = verify_and_admit(
        &payload,
        &pubkey,
        &signature,
        now_ns,
        registry,
        limiter,
        replay_guard,
    );
    proof {
        let after = crate::submission_auth::GateState { held: replay_guard@, buckets: limiter@ };
        let at = choose|at: crate::submission_auth::Readings|
            (r, after) == #[trigger] crate::submission_auth::gate(
                payload,
                pubkey@,
                signature@,
                now_ns,
                registry@,
                ttl,
                before,
                at,
            );
        let c = credentials_of(*sub)->0;
        assert(is_payload_of(payload, *sub, c.0, c.1));
        let g = crate::submission_auth::gate(
            payload,
            c.2,
            c.3,
            now_ns,
            registry@,
            ttl,
            before,
            at,
        );
        assert(r == g.0 && after == g.1);
    }
    r
}

/// What a gate consults on every submission.
pub struct AuthState<C: Clock> {
    /// Tenants.
    pub registry: TenantRegistry,
    /// Token buckets.
    pub limiter: RateLimiter<C>,
    /// Nonces in the replay window.
    pub replay_guard: ReplayGuard<C>,
}

impl<C: Clock> AuthState<C> {
    /// What the auth gate remembers.
    pub open spec fn memory(&self) -> crate::submission_auth::GateState {
        crate::submission_auth::GateState {
            held: self.replay_guard@,
            buckets: self.limiter@,
        }
    }
}

/// Whether a submission goes into the queue: where there is no gate it does, and
/// else the auth gate has to let it through.
pub fn pass_gate<C: Clock>(sub: &JobSubmission, now_ns: u64, gate: &mut Option<AuthState<C>>) -> (r:
    AuthCheck)
    ensures
        match (*old(gate), *final(gate)) {
            (None, None) => r == AuthCheck::Admitted,
            (Some(was), Some(is)) => {
                &&& is.registry == was.registry
                &&& is.limiter.same_defaults(&was.limiter)
                &&& is.replay_guard.ttl() == was.replay_guard.ttl()
                &&& is_verdict(
                    *sub,
                    now_ns,
                    was.registry@,
                    was.replay_guard.ttl(),
                    was.memory(),
                    r,
                    is.memory(),
                )
            },
            _ => false,
        },
{
    match gate {
        None => AuthCheck::Admitted,
        Some(state) => check_submission(
            sub,
            now_ns,
            &state.registry,
            &mut state.limiter,
            &mut state.replay_guard,
        ),
    }
}

/// What a tenant's tool writes into the auth fields is what the auth gate reads.
pub proof fn law_credentials_round_trip(
    sub: JobSubmission,
    tenant_id: u64,
    nonce: u128,
    pubkey: Seq<u8>,
    signature: Seq<u8>,
)
    requires
        pubkey.len() == 32,
        signature.len() == 64,
        sub.tenant_id == Some(tenant_id),
        sub.nonce == Some(nonce),
        sub.pubkey_hex matches Some(s) && s@ == text::hex_of(pubkey),
        sub.signature_hex matches Some(s) && s@ == text::hex_of(signature),
    ensures
        credentials_of(sub) == Some((tenant_id, nonce, pubkey, signature)),
{
    text::law_hex_round_trip(pubkey, false);
    text::law_hex_bytes_round_trip(signature, false);
}

/// A submission without credentials is refused whatever the auth gate remembers, and
/// costs the tenant nothing.
pub proof fn law_unsigned_submission_is_refused(
    sub: JobSubmission,
    now_ns: u64,
    registry: Map<u64, crate::tenant::TenantEntry>,
    ttl: u64,
    before: crate::submission_auth::GateState,
    r: AuthCheck,
    after: crate::submission_auth::GateState,
)
    requires
        credentials_of(sub) is None,
        is_verdict(sub, now_ns, registry, ttl, before, r, after),
    ensures
        r == AuthCheck::BadSignature,
        after == before,
{
}

/// All four credentials are needed: without one of them there are none, and where
/// there are some, they are those of the submission.
pub proof fn law_all_credentials_are_needed(sub: JobSubmission)
    ensures
        sub.tenant_id is None || sub.nonce is None || sub.pubkey_hex is None
            || sub.signature_hex is None ==> credentials_of(sub) is None,
        credentials_of(sub) matches Some((tenant_id, nonce, pubkey, signature)) ==> sub.tenant_id
            == Some(tenant_id) && sub.nonce == Some(nonce) && hex32_in(sub.pubkey_hex->0@) == Some(
            pubkey,
        ) && hex64_of(sub.signature_hex->0@) == Some(signature),
{
}

/// A submission is admitted only if its tenant signed just this job: the payload
/// under the signature has the kind, the numbers and the deadline that it carries,
/// and the tenant and nonce that it names.
pub proof fn law_admitted_submission_was_signed(
    sub: JobSubmission,
    now_ns: u64,
    registry: Map<u64, crate::tenant::TenantEntry>,
    ttl: u64,
    before: crate::submission_auth::GateState,
    after: crate::submission_auth::GateState,
)
    requires
        is_verdict(sub, now_ns, registry, ttl, before, AuthCheck::Admitted, after),
    ensures
        sub.tenant_id is Some,
        registry.contains_key(sub.tenant_id->0),
        exists|p: JobSubmissionPayload, pubkey: Seq<u8>, signature: Seq<u8>|
            {
                &&& p.tenant_id == sub.tenant_id->0
                &&& Some(p.nonce) == sub.nonce
                &&& p.kind@ == sub.kind.wire_name()
                &&& p.a == sub.a && p.b == sub.b && p.deadline_secs == sub.deadline_secs
                &&& crate::boundary::sha::sha256_of(pubkey)
                    == registry[sub.tenant_id->0].signing_fp
                &&& #[trigger] crate::boundary::ed25519::signature_accepted(
                    pubkey,
                    crate::submission_auth::signed_bytes(p),
                    signature,
                )
            },
{
    let (tenant_id, nonce, pubkey, signature) = credentials_of(sub)->0;
    let (p, at) = choose|p: JobSubmissionPayload, at: crate::submission_auth::Readings|
        is_payload_of(p, sub, tenant_id, nonce) && (AuthCheck::Admitted, after)
            == #[trigger] crate::submission_auth::gate(
            p,
            pubkey,
            signature,
            now_ns,
            registry,
            ttl,
            before,
            at,
        );
    crate::submission_auth::law_admission_needs_everything(
        p,
        pubkey,
        signature,
        now_ns,
        registry,
        ttl,
        before,
        at,
        0,
    );
    assert(crate::boundary::ed25519::signature_accepted(
        pubkey,
        crate::submission_auth::signed_bytes(p),
        signature,
    ));
}

/// Blank lines and comments submit nothing, however far they stand to the right;
/// every other line is a record.
pub proof fn law_comments_submit_nothing(left: Seq<char>, s: Seq<char>)
    requires
        forall|i: int| 0 <= i < left.len() ==> text::is_white(#[trigger] left[i]),
        s.len() > 0 ==> !text::is_white(s[0]) && !text::is_white(s.last()),
    ensures
        is_record(left + s) <==> s.len() > 0 && s[0] != '#',
{
    assert(left + s =~= left + s + Seq::<char>::empty());
    text::law_trim_takes_whitespace(left, s, Seq::empty());
}

} // verus!
