//! Submission authentication + rate-limit gate.
//!
//! Pure layer between the wire and the job queue. Four gates apply, in order:
//!
//! 1. **Tenant lookup**: unknown tenants are rejected before any signature
//!    work.
//! 2. **Signature verification**: the fingerprint of the submitted pubkey must
//!    be the registered one, and the signature must verify over the canonical
//!    bytes of the payload.
//! 3. **Replay check**: a nonce that the tenant used within the window is
//!    rejected.
//! 4. **Rate limiting**: the per-tenant token bucket, with the tenant's own
//!    capacity + refill, decides admission.

use crate::boundary::cbor::encode;
use crate::boundary::sha::sha256;
use crate::bytes::{append_le, bytes_eq, read_le};
use crate::cbor;
use crate::clock::Clock;
use crate::rate_limit::RateLimiter;
use crate::replay::ReplayGuard;
use crate::signing::{verify, Signature, VerifyingKey};
use crate::tenant::{fingerprint, TenantId, TenantRegistry};
use vstd::prelude::*;

verus! {

/// Canonical, signable shape of a job submission. The tenant signs the
/// canonical encoding of this struct; tampering with any field invalidates the
/// signature.
#[derive(Clone, Debug, PartialEq, Eq)]
pub struct JobSubmissionPayload {
    /// Tenant id this submission is signed under.
    pub tenant_id: TenantId,
    /// Canned-job kind discriminator.
    pub kind: String,
    /// First i32 argument.
    pub a: i32,
    /// Second i32 argument.
    pub b: i32,
    /// Per-job deadline in seconds.
    pub deadline_secs: u32,
    /// Replay-protection nonce; a freshly-generated random value is the
    /// expected client behavior.
    pub nonce: u128,
}

/// The document that a payload is encoded as.
pub open spec fn payload_item(p: JobSubmissionPayload) -> cbor::Item {
    cbor::Item::Entries(
        seq![
            cbor::field("tenant_id"@, cbor::Item::Uint(p.tenant_id as nat)),
            cbor::field("kind"@, cbor::Item::Text(p.kind@)),
            cbor::field("a"@, cbor::int_item(p.a as int)),
            cbor::field("b"@, cbor::int_item(p.b as int)),
            cbor::field("deadline_secs"@, cbor::Item::Uint(p.deadline_secs as nat)),
            cbor::field("nonce"@, cbor::Item::Uint(p.nonce as nat)),
        ],
    )
}

/// The bytes that a tenant signs.
pub open spec fn signed_bytes(p: JobSubmissionPayload) -> Seq<u8> {
    crate::boundary::cbor::encoding_of(payload_item(p))
}

/// Canonical signable bytes of a [`JobSubmissionPayload`].
///
/// # Errors
///
/// None: encoding into memory does not fail. The `Result` keeps callers from
/// assuming so.
pub fn canonical_bytes(payload: &JobSubmissionPayload) -> (r: Result<Vec<u8>, String>)
    ensures
        r matches Ok(b) && b@ == signed_bytes(*payload),
{
    let record = cbor::Record::new().with("tenant_id", cbor::uint(payload.tenant_id)).with(
        "kind",
        cbor::text(payload.kind.as_str()),
    ).with("a", cbor::signed(payload.a as i64)).with("b", cbor::signed(payload.b as i64)).with(
        "deadline_secs",
        cbor::uint(payload.deadline_secs as u64),
    ).with("nonce", cbor::Cbor::Uint(payload.nonce));
    proof {
        let m = payload_item(*payload)->Entries_0;
        assert(record@ =~= m);
        assert forall|i: int| 0 <= i < m.len() implies cbor::is_encodable((#[trigger] m[i]).0, 63)
            && cbor::is_encodable(m[i].1, 63) by {}
    }
    Ok(encode(&record.done()))
}

/// Outcome of running the auth gate on one submission.
#[derive(Clone, Copy, Debug, PartialEq, Eq, Structural)]
pub enum AuthCheck {
    /// Signature valid + rate-limit token consumed. Coordinator
    /// proceeds to enqueue the job.
    Admitted,
    /// `tenant_id` not found in the registry.
    UnknownTenant,
    /// Pubkey fingerprint didn't match the registry, or signature
    /// verification failed against the canonical bytes. The two share a
    /// verdict on purpose.
    BadSignature,
    /// Tenant's rate bucket is empty.
    RateLimited,
    /// Submission's `nonce` was already accepted within the
    /// replay-protection window. The signature was valid, so this is
    /// alertable rather than a routine reject.
    ReplayDetected,
}

/// Per-tenant replay key: the first eight bytes, as a number, of the SHA-256
/// of tenant id and nonce.
pub open spec fn replay_key(tenant_id: u64, nonce: u128) -> nat {
    crate::bytes::le_value(
        crate::boundary::sha::sha256_of(
            crate::bytes::le_of(tenant_id as nat, 8) + crate::bytes::le_of(nonce as nat, 16),
        ).take(8),
    )
}

/// Whether a submission is signed by the tenant whose key has this fingerprint.
pub open spec fn is_authentic(
    p: JobSubmissionPayload,
    signing_fp: Seq<u8>,
    pubkey: Seq<u8>,
    signature: Seq<u8>,
) -> bool {
    &&& crate::boundary::sha::sha256_of(pubkey) == signing_fp
    &&& crate::boundary::ed25519::is_public_key(pubkey)
    &&& crate::boundary::ed25519::signature_accepted(pubkey, signed_bytes(p), signature)
}

/// What the auth gate remembers between submissions.
pub struct GateState {
    /// Nonces in the replay window.
    pub held: Map<u64, u64>,
    /// Token buckets.
    pub buckets: Map<u64, crate::rate_limit::TokenBucket>,
}

/// The clock readings that one submission meets.
pub struct Readings {
    /// For the sweep of expired nonces.
    pub sweep: u64,
    /// For the replay check.
    pub replay: u64,
    /// For the rate limit.
    pub rate: u64,
}

/// The verdict of the auth gate on one submission, and what it remembers after.
/// Nothing is recorded and no token is spent unless the verdict is `Admitted`.
pub open spec fn gate(
    p: JobSubmissionPayload,
    pubkey: Seq<u8>,
    signature: Seq<u8>,
    now_ns: u64,
    registry: Map<u64, crate::tenant::TenantEntry>,
    ttl: u64,
    before: GateState,
    at: Readings,
) -> (AuthCheck, GateState) {
    if !registry.contains_key(p.tenant_id) {
        (AuthCheck::UnknownTenant, before)
    } else {
        let tenant = registry[p.tenant_id];
        let key = replay_key(p.tenant_id, p.nonce) as u64;
        let window = crate::replay::swept(before.held, ttl, at.sweep);
        let bucket = crate::rate_limit::bucket_for(
            before.buckets,
            p.tenant_id,
            tenant.rate_capacity,
            tenant.rate_refill_per_sec,
            at.rate,
        );
        if !is_authentic(p, tenant.signing_fp, pubkey, signature) {
            (AuthCheck::BadSignature, before)
        } else if crate::replay::verdict(window, ttl, at.replay, key, now_ns) is Err {
            (AuthCheck::ReplayDetected, GateState { held: window, buckets: before.buckets })
        } else {
            let buckets = before.buckets.insert(
                p.tenant_id,
                crate::rate_limit::consumed(bucket, 1, at.rate),
            );
            if crate::rate_limit::refilled(bucket, at.rate).tokens < 1 {
                (AuthCheck::RateLimited, GateState { held: window, buckets })
            } else {
                (
                    AuthCheck::Admitted,
                    GateState { held: window.insert(key, at.replay), buckets },
                )
            }
        }
    }
}

/// Apply the four-stage gate to one submission. The rate limiter and the
/// replay guard are consumed only on `Admitted`: a forged, replayed or
/// rate-limited submission neither spends a token nor claims a nonce.
///
/// Stage order matters:
/// 1. Tenant lookup (cheapest reject; no signature work for
///    unknown tenants).
/// 2. Signature verification (so an attacker can't probe
///    nonce-uniqueness without a valid signature).
/// 3. Replay check (so a replayed submission doesn't drain the
///    legit tenant's rate bucket).
/// 4. Rate limit (consumes one token).
pub fn verify_and_admit<C: Clock>(
    payload: &JobSubmissionPayload,
    pubkey: &[u8; 32],
    signature: &[u8; 64],
    now_ns: u64,
    registry: &TenantRegistry,
    rate_limiter: &mut RateLimiter<C>,
    replay_guard: &mut ReplayGuard<C>,
) -> (r: AuthCheck)
    ensures
        final(rate_limiter).same_defaults(old(rate_limiter)),
        final(replay_guard).ttl() == old(replay_guard).ttl(),
        exists|at: Readings|
            (r, GateState { held: final(replay_guard)@, buckets: final(rate_limiter)@ })
                == #[trigger] gate(
                *payload,
                pubkey@,
                signature@,
                now_ns,
                registry@,
                old(replay_guard).ttl(),
                GateState { held: old(replay_guard)@, buckets: old(rate_limiter)@ },
                at,
            ),
{
    let ghost before = GateState { held: replay_guard@, buckets: rate_limiter@ };
    let ghost ttl = replay_guard.ttl();
    let ghost mut at = Readings { sweep: 0, replay: 0, rate: 0 };
    let tenant = match registry.get(payload.tenant_id) {
        Some(t) => t,
        None => {
            assert((AuthCheck::UnknownTenant, before) == gate(
                *payload,
                pubkey@,
                signature@,
                now_ns,
                registry@,
                ttl,
                before,
                at,
            ));
            return AuthCheck::UnknownTenant;
        },
    };
    if !signature_is_authentic(payload, &tenant.signing_fp, pubkey, signature) {
        assert((AuthCheck::BadSignature, before) == gate(
            *payload,
            pubkey@,
            signature@,
            now_ns,
            registry@,
            ttl,
            before,
            at,
        ));
        return AuthCheck::BadSignature;
    }
    let key: u64 = fold_replay_key(payload.tenant_id, payload.nonce);
    let checked = replay_guard.check(key, now_ns);
    proof {
        let (s, n) = choose|s: u64, n: u64|
            replay_guard@ == crate::replay::swept(before.held, ttl, s)
                && match #[trigger] crate::replay::verdict(
                crate::replay::swept(before.held, ttl, s),
                ttl,
                n,
                key,
                now_ns,
            ) {
                Ok(()) => checked == Ok::<u64, crate::replay::AcceptError>(n),
                Err(e) => checked == Err::<u64, crate::replay::AcceptError>(e),
            };
        at = Readings { sweep: s, replay: n, rate: 0 };
    }
    let at_replay: u64 = match checked {
        Ok(n) => n,
        Err(_) => {
            assert((
                AuthCheck::ReplayDetected,
                GateState { held: replay_guard@, buckets: rate_limiter@ },
            ) == gate(
                *payload,
                pubkey@,
                signature@,
                now_ns,
                registry@,
                ttl,
                before,
                at,
            ));
            return AuthCheck::ReplayDetected;
        },
    };
    let admitted = rate_limiter.accept_with_config(
        payload.tenant_id,
        1,
        tenant.rate_capacity,
        tenant.rate_refill_per_sec,
    );
    proof {
        let now = choose|now: u64|
            {
                let b = #[trigger] crate::rate_limit::bucket_for(
                    before.buckets,
                    payload.tenant_id,
                    tenant.rate_capacity,
                    tenant.rate_refill_per_sec,
                    now,
                );
                &&& admitted == (crate::rate_limit::refilled(b, now).tokens >= 1)
                &&& rate_limiter@ == before.buckets.insert(
                    payload.tenant_id,
                    crate::rate_limit::consumed(b, 1, now),
                )
            };
        at = Readings { rate: now, ..at };
    }
    let r = if admitted {
        replay_guard.record(key, at_replay);
        AuthCheck::Admitted
    } else {
        AuthCheck::RateLimited
    };
    assert((r, GateState { held: replay_guard@, buckets: rate_limiter@ }) == gate(
        *payload,
        pubkey@,
        signature@,
        now_ns,
        registry@,
        ttl,
        before,
        at,
    ));
    r
}

/// Whether a submission is signed by the tenant whose key has this fingerprint.
#[must_use]
pub fn signature_is_authentic(
    payload: &JobSubmissionPayload,
    signing_fp: &[u8; 32],
    pubkey: &[u8; 32],
    signature: &[u8; 64],
) -> (r: bool)
    ensures
        r == is_authentic(*payload, signing_fp@, pubkey@, signature@),
{
    let fp = fingerprint(pubkey);
    if !bytes_eq(&fp, signing_fp) {
        return false;
    }
    let bytes = match canonical_bytes(payload) {
        Ok(b) => b,
        Err(_) => return false,
    };
    match VerifyingKey::from_bytes(pubkey) {
        Ok(key) => verify(&key, bytes.as_slice(), &Signature::from_bytes(signature)).is_ok(),
        Err(_) => false,
    }
}

/// Per-tenant replay key. Hashing, rather than mixing the two numbers, keeps a
/// tenant from claiming keys that belong to another.
fn fold_replay_key(tenant_id: TenantId, nonce: u128) -> (r: u64)
    ensures
        r == replay_key(tenant_id, nonce),
{
    let mut input: Vec<u8> = Vec::new();
    append_le(&mut input, tenant_id as u128, 8);
    append_le(&mut input, nonce, 16);
    assert(input@ =~= crate::bytes::le_of(tenant_id as nat, 8) + crate::bytes::le_of(
        nonce as nat,
        16,
    ));
    let digest = sha256(input.as_slice());
    let head = vstd::slice::slice_subrange(digest.as_slice(), 0, 8);
    assert(head@ =~= digest@.take(8));
    read_le(head)
}

/// SHA-256 of a tenant's pubkey.
#[must_use]
pub fn pubkey_fingerprint(pubkey: &[u8; 32]) -> (r: [u8; 32])
    ensures
        r@ == crate::boundary::sha::sha256_of(pubkey@),
{
    sha256(pubkey)
}

/// Who is not admitted costs nothing: no bucket has fewer tokens than its
/// refill gives it, and no nonce is claimed.
pub proof fn law_only_admission_consumes(
    p: JobSubmissionPayload,
    pubkey: Seq<u8>,
    signature: Seq<u8>,
    now_ns: u64,
    registry: Map<u64, crate::tenant::TenantEntry>,
    ttl: u64,
    before: GateState,
    at: Readings,
)
    requires
        gate(p, pubkey, signature, now_ns, registry, ttl, before, at).0 != AuthCheck::Admitted,
    ensures
        ({
            let (verdict, after) = gate(
                p,
                pubkey,
                signature,
                now_ns,
                registry,
                ttl,
                before,
                at,
            );
            &&& forall|n: u64| #[trigger] after.held.contains_key(n) ==> before.held.contains_key(n)
            &&& verdict != AuthCheck::RateLimited ==> after.buckets == before.buckets
            &&& verdict == AuthCheck::RateLimited ==> after.buckets == before.buckets.insert(
                p.tenant_id,
                crate::rate_limit::refilled(
                    crate::rate_limit::bucket_for(
                        before.buckets,
                        p.tenant_id,
                        registry[p.tenant_id].rate_capacity,
                        registry[p.tenant_id].rate_refill_per_sec,
                        at.rate,
                    ),
                    at.rate,
                ),
            )
        }),
{
}

/// A submission that was admitted is not admitted again within the window, and
/// the attempt costs its tenant no token.
pub proof fn law_replay_is_detected(
    p: JobSubmissionPayload,
    pubkey: Seq<u8>,
    signature: Seq<u8>,
    first_ns: u64,
    second_ns: u64,
    registry: Map<u64, crate::tenant::TenantEntry>,
    ttl: u64,
    before: GateState,
    first: Readings,
    second: Readings,
)
    requires
        gate(p, pubkey, signature, first_ns, registry, ttl, before, first).0
            == AuthCheck::Admitted,
        crate::clock::elapsed(second.sweep, first.replay) < ttl,
    ensures
        ({
            let after = gate(p, pubkey, signature, first_ns, registry, ttl, before, first).1;
            let (verdict, last) = gate(
                p,
                pubkey,
                signature,
                second_ns,
                registry,
                ttl,
                after,
                second,
            );
            verdict == AuthCheck::ReplayDetected && last.buckets == after.buckets
        }),
{
}

/// The signature covers the whole submission: payloads that are signed alike agree
/// in every field.
pub proof fn law_signature_covers_the_payload(p: JobSubmissionPayload, q: JobSubmissionPayload)
    requires
        signed_bytes(p) == signed_bytes(q),
    ensures
        ({
            ||| exists|x: cbor::Item, y: cbor::Item|
                x != y && #[trigger] crate::boundary::cbor::encoding_of(x)
                    == #[trigger] crate::boundary::cbor::encoding_of(y)
            ||| {
                &&& p.tenant_id == q.tenant_id
                &&& p.kind@ == q.kind@
                &&& p.a == q.a
                &&& p.b == q.b
                &&& p.deadline_secs == q.deadline_secs
                &&& p.nonce == q.nonce
            }
        }),
{
    let (x, y) = (payload_item(p), payload_item(q));
    if x == y {
        let (m, n) = (x->Entries_0, y->Entries_0);
        assert(m == n);
        assert(m[0].1 == n[0].1 && m[1].1 == n[1].1 && m[2].1 == n[2].1);
        assert(m[3].1 == n[3].1 && m[4].1 == n[4].1 && m[5].1 == n[5].1);
    } else {
        assert(crate::boundary::cbor::encoding_of(x) == crate::boundary::cbor::encoding_of(y));
    }
}

/// The replay key tells submissions apart by tenant and by nonce.
pub proof fn law_replay_key_tells_apart(t: u64, n: u128, u: u64, m: u128)
    requires
        replay_key(t, n) == replay_key(u, m),
    ensures
        ({
            ||| t == u && n == m
            ||| exists|x: Seq<u8>, y: Seq<u8>|
                x != y && crate::bytes::le_value(
                    (#[trigger] crate::boundary::sha::sha256_of(x)).take(8),
                ) == crate::bytes::le_value(
                    (#[trigger] crate::boundary::sha::sha256_of(y)).take(8),
                )
        }),
{
    let x = crate::bytes::le_of(t as nat, 8) + crate::bytes::le_of(n as nat, 16);
    let y = crate::bytes::le_of(u as nat, 8) + crate::bytes::le_of(m as nat, 16);
    crate::bytes::law_le_round_trip(t as nat, 8);
    crate::bytes::law_le_round_trip(u as nat, 8);
    crate::bytes::law_le_round_trip(n as nat, 16);
    crate::bytes::law_le_round_trip(m as nat, 16);
    if x == y {
        assert(x.take(8) =~= crate::bytes::le_of(t as nat, 8));
        assert(y.take(8) =~= crate::bytes::le_of(u as nat, 8));
        assert(x.skip(8) =~= crate::bytes::le_of(n as nat, 16));
        assert(y.skip(8) =~= crate::bytes::le_of(m as nat, 16));
        lemma_wide_enough();
    } else {
        assert(crate::bytes::le_value(crate::boundary::sha::sha256_of(x).take(8))
            == crate::bytes::le_value(crate::boundary::sha::sha256_of(y).take(8)));
    }
}

proof fn lemma_wide_enough()
    ensures
        vstd::arithmetic::power::pow(256, 8) == 0x1_0000_0000_0000_0000,
        vstd::arithmetic::power::pow(256, 16) == 0x1_0000_0000_0000_0000
            * 0x1_0000_0000_0000_0000int,
{
    reveal(vstd::arithmetic::power::pow);
    reveal_with_fuel(vstd::arithmetic::power::pow, 9);
    vstd::arithmetic::power::lemma_pow_adds(256, 8, 8);
}

/// A submission is admitted exactly if everything is in order: the tenant is
/// registered, the key is the one on file, the signature covers the payload, the
/// nonce is fresh and there is a token for it.
pub proof fn law_admission_needs_everything(
    p: JobSubmissionPayload,
    pubkey: Seq<u8>,
    signature: Seq<u8>,
    now_ns: u64,
    registry: Map<u64, crate::tenant::TenantEntry>,
    ttl: u64,
    before: GateState,
    at: Readings,
    other: u64,
)
    ensures
        ({
            let (verdict, after) = gate(p, pubkey, signature, now_ns, registry, ttl, before, at);
            let tenant = registry[p.tenant_id];
            let key = replay_key(p.tenant_id, p.nonce) as u64;
            let window = crate::replay::swept(before.held, ttl, at.sweep);
            let bucket = crate::rate_limit::bucket_for(
                before.buckets,
                p.tenant_id,
                tenant.rate_capacity,
                tenant.rate_refill_per_sec,
                at.rate,
            );
            let known = registry.contains_key(p.tenant_id);
            let signed = crate::boundary::sha::sha256_of(pubkey) == tenant.signing_fp
                && crate::boundary::ed25519::is_public_key(pubkey)
                && crate::boundary::ed25519::signature_accepted(
                pubkey,
                signed_bytes(p),
                signature,
            );
            let fresh = crate::replay::verdict(window, ttl, at.replay, key, now_ns) is Ok;
            let funded = crate::rate_limit::refilled(bucket, at.rate).tokens >= 1;
            &&& verdict == AuthCheck::UnknownTenant <==> !known
            &&& verdict == AuthCheck::BadSignature <==> known && !signed
            &&& verdict == AuthCheck::ReplayDetected <==> known && signed && !fresh
            &&& verdict == AuthCheck::RateLimited <==> known && signed && fresh && !funded
            &&& verdict == AuthCheck::Admitted <==> known && signed && fresh && funded
            &&& verdict == AuthCheck::Admitted ==> {
                &&& after.held.contains_key(key) && after.held[key] == at.replay
                &&& after.buckets.contains_key(p.tenant_id)
                &&& after.buckets[p.tenant_id].tokens == crate::rate_limit::refilled(
                    bucket,
                    at.rate,
                ).tokens - 1
                &&& other != p.tenant_id ==> after.buckets.contains_key(other)
                    == before.buckets.contains_key(other)
                &&& other != p.tenant_id && before.buckets.contains_key(other)
                    ==> after.buckets[other] == before.buckets[other]
            }
        }),
{
}

} // verus!
