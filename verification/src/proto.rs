//! Wire protocol between coordinator, agents, auditors and administrators.
//!
//! Messages are CBOR-encoded [`Envelope`] values prefixed with a 4-byte
//! big-endian length. A frame is made by [`write_envelope`] and taken off a
//! stream by [`read_envelope`].

use crate::attestation::Attestation;
use crate::boundary;
use crate::bytes;
use crate::capabilities::{Capabilities, JobRequirements};
use crate::cbor;
use crate::cbor::{Cbor, Item, Record};
use crate::jobs::{CapturedOutput, Pipeline};
use crate::retrieval::JobBundle;
use crate::text;
use crate::wire;
use vstd::prelude::*;

verus! {

/// Fixed VRF challenge for the registration proof. Only the holder of the secret
/// key that matches a VRF public key can have produced its output for this
/// string.
pub const VRF_REGISTRATION_CHALLENGE: &'static str = "cosaci-runner-registration-v1";

/// The bytes of the registration challenge.
pub open spec fn challenge_bytes() -> Seq<u8> {
    vstd::utf8::encode_utf8(VRF_REGISTRATION_CHALLENGE@)
}

/// The bytes of the registration challenge.
#[must_use]
pub fn registration_challenge() -> (r: &'static [u8])
    ensures
        r@ == challenge_bytes(),
        r@.len() == 29,
{
    let r = VRF_REGISTRATION_CHALLENGE.as_bytes();
    proof {
        reveal_strlit("cosaci-runner-registration-v1");
        let chars = VRF_REGISTRATION_CHALLENGE@;
        assert(vstd::utf8::is_ascii_chars(chars));
        vstd::utf8::is_ascii_chars_encode_utf8(chars);
    }
    r
}

/// Fixed challenge prefix the admin client signs, followed by the timestamp.
/// Binds the signature to the admin protocol.
pub const ADMIN_HELLO_CHALLENGE: &'static str = "cosaci-admin-hello-v1";

/// Default freshness window for [`Envelope::AdminHello`], in nanoseconds, on
/// either side of the coordinator's clock.
pub const ADMIN_HELLO_FRESHNESS_NS: u64 = 60_000_000_000;

/// Maximum envelope payload size (16 MiB). Bounds the damage a malformed length
/// prefix can do.
pub const MAX_ENVELOPE_BYTES: usize = 16_777_216;

/// Wire shape of one admin-list-agents record.
#[derive(Clone, Copy, Debug, PartialEq, Eq)]
pub struct AdminAgentRecord {
    /// Runner identifier.
    pub runner_id: u64,
    /// SHA-256 fingerprint of the runner's signing pubkey.
    pub signing_fp: [u8; 32],
    /// SHA-256 fingerprint of the runner's VRF pubkey.
    pub vrf_fp: [u8; 32],
    /// Unix-ns timestamp the operator recorded at enrollment time.
    pub enrolled_at_unix_ns: i64,
    /// Initial reputation in thousandths (0..=1000 is 0.0..=1.0).
    pub initial_reputation_thousandths: u32,
}

/// Wire shape of one admin-list-tenants record.
#[derive(Clone, Copy, Debug, PartialEq, Eq)]
pub struct AdminTenantRecord {
    /// Tenant identifier.
    pub tenant_id: u64,
    /// SHA-256 fingerprint of the tenant's signing pubkey.
    pub signing_fp: [u8; 32],
    /// Bucket capacity.
    pub rate_capacity: u64,
    /// Refill rate in tokens per second.
    pub rate_refill_per_sec: u64,
    /// Unix-ns timestamp of the registration.
    pub registered_at_unix_ns: u64,
}

/// A signed attestation and the payloads that were captured on the way to it.
#[derive(Clone, Debug, PartialEq, Eq)]
pub struct AttestationBundle {
    /// The attestation.
    pub attestation: Attestation,
    /// Captured payloads. Not covered by the signature; each carries the hash of
    /// its own bytes. Left out of the document where there are none.
    pub captures: Vec<CapturedOutput>,
}

impl AttestationBundle {
    /// A bundle without captures.
    #[must_use]
    pub fn from_attestation(attestation: Attestation) -> (r: Self)
        ensures
            r.attestation == attestation,
            r.captures@ == Seq::<CapturedOutput>::empty(),
    {
        AttestationBundle { attestation, captures: Vec::new() }
    }
}

/// All messages of the protocol.
#[allow(inconsistent_fields)]
#[derive(Clone, Debug, PartialEq, Eq)]
pub enum Envelope {
    // ── Agent → Coordinator ────────────────────────────────────────────
    /// Agent announces itself and its capabilities.
    Register {
        /// Runner identifier the agent is announcing itself as.
        runner_id: u64,
        /// Ed25519 verifying key the runner will sign attestations with.
        signing_pubkey: [u8; 32],
        /// VRF public key.
        vrf_pubkey: [u8; 32],
        /// VRF output for [`VRF_REGISTRATION_CHALLENGE`].
        vrf_output: [u8; 32],
        /// Proof that `vrf_output` was produced by the holder of
        /// `vrf_pubkey`'s secret key.
        vrf_proof: [u8; 64],
        /// Stake the runner is committing.
        stake: u64,
        /// What this runner offers.
        capabilities: Capabilities,
    },
    /// Agent's VRF evaluation of the per-job seed.
    VrfClaim {
        /// Job the claim is for.
        job_id: u64,
        /// VRF output for the job seed.
        vrf_output: [u8; 32],
        /// Proof of `vrf_output`.
        vrf_proof: [u8; 64],
    },
    /// Agent returns a signed attestation for an assigned job.
    SubmitAttestation(AttestationBundle),
    // ── Coordinator → Agent ────────────────────────────────────────────
    /// Coordinator acknowledges a `Register`.
    RegisterAck,
    /// Coordinator broadcasts a per-job seed to every registered agent.
    JobSeed {
        /// Job identifier this seed corresponds to.
        job_id: u64,
        /// Per-job seed bytes; agent runs VRF over this.
        seed: [u8; 32],
    },
    /// Coordinator assigns a job to a committee member.
    Assign {
        /// Job identifier the agent should attest under.
        job_id: u64,
        /// Typed pipeline definition.
        pipeline: Pipeline,
        /// What this job requires of a runner.
        requirements: JobRequirements,
        /// Wall-clock deadline (unix ns) by which the attestation must
        /// be returned.
        deadline_unix_ns: i64,
    },
    /// Coordinator tells this agent no further work is coming.
    Shutdown,
    // ── Read API ───────────────────────────────────────────────────────
    /// Request the coordinator's record for a single job.
    GetJob {
        /// Job to look up.
        job_id: u64,
    },
    /// Request the coordinator's current Merkle log root + length.
    GetLogRoot,
    /// Response to [`Envelope::GetJob`] on hit.
    JobBundleResponse(JobBundle),
    /// Response to [`Envelope::GetJob`] on miss.
    JobNotFound {
        /// The job_id that was requested.
        job_id: u64,
    },
    /// Response to [`Envelope::GetLogRoot`]. `root` is `None` for an empty log.
    LogRoot {
        /// Current Merkle root over all `length` entries, or `None`.
        root: Option<[u8; 32]>,
        /// Number of entries in the log.
        length: u64,
    },
    // ── Administration ─────────────────────────────────────────────────
    /// Open an authenticated admin session.
    AdminHello {
        /// Ed25519 verifying key of the admin client.
        admin_pubkey: [u8; 32],
        /// Wall-clock timestamp at hello time, unix ns.
        ts_unix_ns: u64,
        /// Signature over [`ADMIN_HELLO_CHALLENGE`] and the timestamp.
        signature: [u8; 64],
    },
    /// Coordinator's accept response to [`Envelope::AdminHello`].
    AdminWelcome,
    /// Coordinator's reject response to any admin envelope.
    AdminError {
        /// Short reason.
        reason: String,
    },
    /// List the enrolled agents.
    AdminListAgents,
    /// Response to [`Envelope::AdminListAgents`].
    AdminAgentList {
        /// Records, sorted by `runner_id`.
        entries: Vec<AdminAgentRecord>,
    },
    /// Read the current Merkle log root + length.
    AdminGetLogRoot,
    /// Response to [`Envelope::AdminGetLogRoot`].
    AdminLogRoot {
        /// Current Merkle root over all `length` entries, or `None`
        /// for an empty log.
        root: Option<[u8; 32]>,
        /// Number of entries in the log.
        length: u64,
    },
    /// List the registered tenants.
    AdminListTenants,
    /// Response to [`Envelope::AdminListTenants`].
    AdminTenantList {
        /// Records.
        entries: Vec<AdminTenantRecord>,
    },
    /// Enroll an agent.
    AdminEnrollAgent {
        /// Runner identifier.
        runner_id: u64,
        /// SHA-256 fingerprint of the runner's signing pubkey.
        signing_fp: [u8; 32],
        /// SHA-256 fingerprint of the runner's VRF pubkey.
        vrf_fp: [u8; 32],
        /// Unix-ns timestamp of the enrollment.
        enrolled_at_unix_ns: i64,
        /// Initial reputation in thousandths.
        initial_reputation_thousandths: u32,
    },
    /// Response to [`Envelope::AdminEnrollAgent`].
    AdminEnrollAck,
    /// Revoke an agent.
    AdminRevokeAgent {
        /// Runner identifier.
        runner_id: u64,
    },
    /// Response to [`Envelope::AdminRevokeAgent`].
    AdminRevokeAck,
    /// Register a tenant.
    AdminAddTenant {
        /// Tenant identifier.
        tenant_id: u64,
        /// SHA-256 fingerprint of the tenant's signing pubkey.
        signing_fp: [u8; 32],
        /// Bucket capacity.
        rate_capacity: u64,
        /// Refill rate in tokens per second.
        rate_refill_per_sec: u64,
        /// Unix-ns timestamp of the registration.
        registered_at_unix_ns: u64,
    },
    /// Response to [`Envelope::AdminAddTenant`].
    AdminAddTenantAck,
    /// Revoke a tenant.
    AdminRevokeTenant {
        /// Tenant identifier.
        tenant_id: u64,
    },
    /// Response to [`Envelope::AdminRevokeTenant`].
    AdminRevokeTenantAck,
}

// ── Documents ──────────────────────────────────────────────────────────────

/// The document of an agent record.
pub open spec fn agent_record_item(v: AdminAgentRecord) -> Item {
    Item::Entries(
        seq![
            cbor::field("runner_id"@, Item::Uint(v.runner_id as nat)),
            cbor::field("signing_fp"@, cbor::byte_items(v.signing_fp@)),
            cbor::field("vrf_fp"@, cbor::byte_items(v.vrf_fp@)),
            cbor::field("enrolled_at_unix_ns"@, cbor::int_item(v.enrolled_at_unix_ns as int)),
            cbor::field("initial_reputation_thousandths"@, Item::Uint(v.initial_reputation_thousandths as nat)),
        ],
    )
}

fn agent_record_to_cbor(v: &AdminAgentRecord) -> (r: Cbor)
    ensures
        r.item() == agent_record_item(*v),
{
    let rec = Record::new().with("runner_id", cbor::uint(v.runner_id)).with("signing_fp", cbor::bytes(v.signing_fp.as_slice())).with("vrf_fp", cbor::bytes(v.vrf_fp.as_slice())).with("enrolled_at_unix_ns", cbor::signed(v.enrolled_at_unix_ns)).with("initial_reputation_thousandths", cbor::uint(v.initial_reputation_thousandths as u64));
    assert(rec@ =~= agent_record_item(*v)->Entries_0);
    rec.done()
}

/// Whether a document is an agent record.
pub open spec fn is_agent_record(item: Item, v: AdminAgentRecord) -> bool {
    &&& cbor::is_uint(cbor::field_of(item, "runner_id"@), v.runner_id as nat)
    &&& cbor::is_bytes(cbor::field_of(item, "signing_fp"@), v.signing_fp@)
    &&& cbor::is_bytes(cbor::field_of(item, "vrf_fp"@), v.vrf_fp@)
    &&& cbor::is_int(cbor::field_of(item, "enrolled_at_unix_ns"@), v.enrolled_at_unix_ns as int)
    &&& cbor::is_uint(cbor::field_of(item, "initial_reputation_thousandths"@), v.initial_reputation_thousandths as nat)
}

/// Reads an agent record.
#[must_use]
pub fn read_agent_record(doc: &Cbor) -> (r: Option<AdminAgentRecord>)
    ensures
        match r {
            Some(v) => is_agent_record(doc.item(), v),
            None => forall|v: AdminAgentRecord| !is_agent_record(doc.item(), v),
        },
{
    let runner_id = match cbor::read_uint(doc.field("runner_id"), u64::MAX) {
        Some(x) => x,
        None => return None,
    };
    let signing_fp = match cbor::read_bytes32(doc.field("signing_fp")) {
        Some(x) => x,
        None => return None,
    };
    let vrf_fp = match cbor::read_bytes32(doc.field("vrf_fp")) {
        Some(x) => x,
        None => return None,
    };
    let enrolled_at_unix_ns = match cbor::read_int(doc.field("enrolled_at_unix_ns")) {
        Some(x) => x,
        None => return None,
    };
    let initial_reputation_thousandths = match cbor::read_uint(doc.field("initial_reputation_thousandths"), 4_294_967_295) {
        Some(x) => x,
        None => return None,
    };
    Some(AdminAgentRecord { runner_id, signing_fp, vrf_fp, enrolled_at_unix_ns, initial_reputation_thousandths: initial_reputation_thousandths as u32 })
}

#[verifier::spinoff_prover]
#[verifier::rlimit(60)]
proof fn lemma_agent_record(v: AdminAgentRecord, w: AdminAgentRecord)
    ensures
        cbor::is_plain(agent_record_item(v), 2),
        is_agent_record(agent_record_item(v), v),
        is_agent_record(agent_record_item(v), w) ==> agent_record_item(w) == agent_record_item(v),
{
    reveal_strlit("runner_id");
    reveal_strlit("signing_fp");
    reveal_strlit("vrf_fp");
    reveal_strlit("enrolled_at_unix_ns");
    reveal_strlit("initial_reputation_thousandths");
    assert("runner_id"@.len() == 9 && "signing_fp"@.len() == 10 && "vrf_fp"@.len() == 6 && "enrolled_at_unix_ns"@.len() == 19);
    assert("initial_reputation_thousandths"@.len() == 30);
    let m = agent_record_item(v)->Entries_0;
    assert(m[0] == cbor::field("runner_id"@, Item::Uint(v.runner_id as nat)));
    assert(m[1] == cbor::field("signing_fp"@, cbor::byte_items(v.signing_fp@)));
    assert(m[2] == cbor::field("vrf_fp"@, cbor::byte_items(v.vrf_fp@)));
    assert(m[3] == cbor::field("enrolled_at_unix_ns"@, cbor::int_item(v.enrolled_at_unix_ns as int)));
    assert(m[4] == cbor::field("initial_reputation_thousandths"@, Item::Uint(v.initial_reputation_thousandths as nat)));
    assert(cbor::names_differ(m));
    cbor::lemma_fields(m);
    cbor::lemma_bytes_plain(v.signing_fp@);
    cbor::lemma_bytes_differ(v.signing_fp@, w.signing_fp@);
    cbor::lemma_bytes_plain(v.vrf_fp@);
    cbor::lemma_bytes_differ(v.vrf_fp@, w.vrf_fp@);
    assert forall|i: int| 0 <= i < m.len() implies cbor::is_plain((#[trigger] m[i]).0, 1)
        && cbor::is_plain(m[i].1, 1) by {
        if i == 0 {
        } else if i == 1 {
        } else if i == 2 {
        } else if i == 3 {
        } else if i == 4 {
        }
    }
    if is_agent_record(agent_record_item(v), w) {
        assert(agent_record_item(w)->Entries_0 =~= m);
    }
}

/// The documents of a list: agent record.
pub open spec fn agent_record_items(v: Seq<AdminAgentRecord>) -> Seq<Item> {
    Seq::new(v.len(), |i: int| agent_record_item(v[i]))
}

/// Whether a field is this list: agent record.
pub open spec fn is_agent_record_list(x: Option<Item>, list: Seq<AdminAgentRecord>) -> bool {
    match x {
        Some(Item::Array(v)) => v.len() == list.len() && forall|i: int|
            0 <= i < v.len() ==> is_agent_record(#[trigger] v[i], list[i]),
        _ => false,
    }
}

fn agent_record_list_to_cbor(list: &Vec<AdminAgentRecord>) -> (r: Cbor)
    ensures
        r.item() == Item::Array(agent_record_items(list@)),
{
    let mut v: Vec<Cbor> = Vec::new();
    let mut i: usize = 0;
    while i < list.len()
        invariant
            i <= list.len(),
            v.len() == i,
            forall|k: int| 0 <= k < i ==> (#[trigger] v@[k]).item() == agent_record_item(list@[k]),
        decreases list.len() - i,
    {
        v.push(agent_record_to_cbor(&list[i]));
        i = i + 1;
    }
    assert(cbor::items(v@) =~= agent_record_items(list@));
    cbor::array(v)
}

fn read_agent_record_list(x: Option<&Cbor>) -> (r: Option<Vec<AdminAgentRecord>>)
    ensures
        match r {
            Some(v) => is_agent_record_list(cbor::maybe(x), v@),
            None => forall|v: Seq<AdminAgentRecord>| !is_agent_record_list(cbor::maybe(x), v),
        },
{
    match x {
        Some(Cbor::Array(v)) => {
            let ghost all = cbor::items(v@);
            proof {
                cbor::lemma_array_item(*v);
            }
            let mut out: Vec<AdminAgentRecord> = Vec::new();
            let mut i: usize = 0;
            while i < v.len()
                invariant
                    i <= v.len(),
                    all == cbor::items(v@),
                    cbor::maybe(x) == Some(Item::Array(all)),
                    out@.len() == i,
                    forall|k: int| 0 <= k < i ==> is_agent_record(#[trigger] all[k], out@[k]),
                decreases v.len() - i,
            {
                assert(all[i as int] == v@[i as int].item());
                match read_agent_record(&v[i]) {
                    Some(e) => out.push(e),
                    None => {
                        assert forall|s: Seq<AdminAgentRecord>| !is_agent_record_list(cbor::maybe(x), s) by {
                            assert(!is_agent_record(all[i as int], s[i as int]));
                        }
                        return None;
                    },
                }
                i = i + 1;
            }
            Some(out)
        },
        _ => None,
    }
}

proof fn lemma_agent_record_list(a: Seq<AdminAgentRecord>, b: Seq<AdminAgentRecord>)
    ensures
        cbor::is_plain(Item::Array(agent_record_items(a)), 3),
        is_agent_record_list(Some(Item::Array(agent_record_items(a))), a),
        is_agent_record_list(Some(Item::Array(agent_record_items(a))), b) ==> agent_record_items(b)
            == agent_record_items(a),
{
    let v = agent_record_items(a);
    assert forall|i: int| 0 <= i < v.len() implies cbor::is_plain(#[trigger] v[i], 2) && is_agent_record(
        v[i],
        a[i],
    ) by {
        lemma_agent_record(a[i], a[i]);
    }
    if is_agent_record_list(Some(Item::Array(v)), b) {
        assert forall|i: int| 0 <= i < v.len() implies agent_record_item(b[i]) == agent_record_item(a[i]) by {
            assert(is_agent_record(v[i], b[i]));
            lemma_agent_record(a[i], b[i]);
        }
        assert(agent_record_items(b) =~= v);
    }
}

/// The document of a tenant record.
pub open spec fn tenant_record_item(v: AdminTenantRecord) -> Item {
    Item::Entries(
        seq![
            cbor::field("tenant_id"@, Item::Uint(v.tenant_id as nat)),
            cbor::field("signing_fp"@, cbor::byte_items(v.signing_fp@)),
            cbor::field("rate_capacity"@, Item::Uint(v.rate_capacity as nat)),
            cbor::field("rate_refill_per_sec"@, Item::Uint(v.rate_refill_per_sec as nat)),
            cbor::field("registered_at_unix_ns"@, Item::Uint(v.registered_at_unix_ns as nat)),
        ],
    )
}

fn tenant_record_to_cbor(v: &AdminTenantRecord) -> (r: Cbor)
    ensures
        r.item() == tenant_record_item(*v),
{
    let rec = Record::new().with("tenant_id", cbor::uint(v.tenant_id)).with("signing_fp", cbor::bytes(v.signing_fp.as_slice())).with("rate_capacity", cbor::uint(v.rate_capacity)).with("rate_refill_per_sec", cbor::uint(v.rate_refill_per_sec)).with("registered_at_unix_ns", cbor::uint(v.registered_at_unix_ns));
    assert(rec@ =~= tenant_record_item(*v)->Entries_0);
    rec.done()
}

/// Whether a document is a tenant record.
pub open spec fn is_tenant_record(item: Item, v: AdminTenantRecord) -> bool {
    &&& cbor::is_uint(cbor::field_of(item, "tenant_id"@), v.tenant_id as nat)
    &&& cbor::is_bytes(cbor::field_of(item, "signing_fp"@), v.signing_fp@)
    &&& cbor::is_uint(cbor::field_of(item, "rate_capacity"@), v.rate_capacity as nat)
    &&& cbor::is_uint(cbor::field_of(item, "rate_refill_per_sec"@), v.rate_refill_per_sec as nat)
    &&& cbor::is_uint(cbor::field_of(item, "registered_at_unix_ns"@), v.registered_at_unix_ns as nat)
}

/// Reads a tenant record.
#[must_use]
pub fn read_tenant_record(doc: &Cbor) -> (r: Option<AdminTenantRecord>)
    ensures
        match r {
            Some(v) => is_tenant_record(doc.item(), v),
            None => forall|v: AdminTenantRecord| !is_tenant_record(doc.item(), v),
        },
{
    let tenant_id = match cbor::read_uint(doc.field("tenant_id"), u64::MAX) {
        Some(x) => x,
        None => return None,
    };
    let signing_fp = match cbor::read_bytes32(doc.field("signing_fp")) {
        Some(x) => x,
        None => return None,
    };
    let rate_capacity = match cbor::read_uint(doc.field("rate_capacity"), u64::MAX) {
        Some(x) => x,
        None => return None,
    };
    let rate_refill_per_sec = match cbor::read_uint(doc.field("rate_refill_per_sec"), u64::MAX) {
        Some(x) => x,
        None => return None,
    };
    let registered_at_unix_ns = match cbor::read_uint(doc.field("registered_at_unix_ns"), u64::MAX) {
        Some(x) => x,
        None => return None,
    };
    Some(AdminTenantRecord { tenant_id, signing_fp, rate_capacity, rate_refill_per_sec, registered_at_unix_ns })
}

#[verifier::spinoff_prover]
#[verifier::rlimit(60)]
proof fn lemma_tenant_record(v: AdminTenantRecord, w: AdminTenantRecord)
    ensures
        cbor::is_plain(tenant_record_item(v), 2),
        is_tenant_record(tenant_record_item(v), v),
        is_tenant_record(tenant_record_item(v), w) ==> tenant_record_item(w) == tenant_record_item(v),
{
    reveal_strlit("tenant_id");
    reveal_strlit("signing_fp");
    reveal_strlit("rate_capacity");
    reveal_strlit("rate_refill_per_sec");
    reveal_strlit("registered_at_unix_ns");
    assert("tenant_id"@.len() == 9 && "signing_fp"@.len() == 10 && "rate_capacity"@.len() == 13 && "rate_refill_per_sec"@.len() == 19);
    assert("registered_at_unix_ns"@.len() == 21);
    let m = tenant_record_item(v)->Entries_0;
    assert(m[0] == cbor::field("tenant_id"@, Item::Uint(v.tenant_id as nat)));
    assert(m[1] == cbor::field("signing_fp"@, cbor::byte_items(v.signing_fp@)));
    assert(m[2] == cbor::field("rate_capacity"@, Item::Uint(v.rate_capacity as nat)));
    assert(m[3] == cbor::field("rate_refill_per_sec"@, Item::Uint(v.rate_refill_per_sec as nat)));
    assert(m[4] == cbor::field("registered_at_unix_ns"@, Item::Uint(v.registered_at_unix_ns as nat)));
    assert(cbor::names_differ(m));
    cbor::lemma_fields(m);
    cbor::lemma_bytes_plain(v.signing_fp@);
    cbor::lemma_bytes_differ(v.signing_fp@, w.signing_fp@);
    assert forall|i: int| 0 <= i < m.len() implies cbor::is_plain((#[trigger] m[i]).0, 1)
        && cbor::is_plain(m[i].1, 1) by {
        if i == 0 {
        } else if i == 1 {
        } else if i == 2 {
        } else if i == 3 {
        } else if i == 4 {
        }
    }
    if is_tenant_record(tenant_record_item(v), w) {
        assert(tenant_record_item(w)->Entries_0 =~= m);
    }
}

/// The documents of a list: tenant record.
pub open spec fn tenant_record_items(v: Seq<AdminTenantRecord>) -> Seq<Item> {
    Seq::new(v.len(), |i: int| tenant_record_item(v[i]))
}

/// Whether a field is this list: tenant record.
pub open spec fn is_tenant_record_list(x: Option<Item>, list: Seq<AdminTenantRecord>) -> bool {
    match x {
        Some(Item::Array(v)) => v.len() == list.len() && forall|i: int|
            0 <= i < v.len() ==> is_tenant_record(#[trigger] v[i], list[i]),
        _ => false,
    }
}

fn tenant_record_list_to_cbor(list: &Vec<AdminTenantRecord>) -> (r: Cbor)
    ensures
        r.item() == Item::Array(tenant_record_items(list@)),
{
    let mut v: Vec<Cbor> = Vec::new();
    let mut i: usize = 0;
    while i < list.len()
        invariant
            i <= list.len(),
            v.len() == i,
            forall|k: int| 0 <= k < i ==> (#[trigger] v@[k]).item() == tenant_record_item(list@[k]),
        decreases list.len() - i,
    {
        v.push(tenant_record_to_cbor(&list[i]));
        i = i + 1;
    }
    assert(cbor::items(v@) =~= tenant_record_items(list@));
    cbor::array(v)
}

fn read_tenant_record_list(x: Option<&Cbor>) -> (r: Option<Vec<AdminTenantRecord>>)
    ensures
        match r {
            Some(v) => is_tenant_record_list(cbor::maybe(x), v@),
            None => forall|v: Seq<AdminTenantRecord>| !is_tenant_record_list(cbor::maybe(x), v),
        },
{
    match x {
        Some(Cbor::Array(v)) => {
            let ghost all = cbor::items(v@);
            proof {
                cbor::lemma_array_item(*v);
            }
            let mut out: Vec<AdminTenantRecord> = Vec::new();
            let mut i: usize = 0;
            while i < v.len()
                invariant
                    i <= v.len(),
                    all == cbor::items(v@),
                    cbor::maybe(x) == Some(Item::Array(all)),
                    out@.len() == i,
                    forall|k: int| 0 <= k < i ==> is_tenant_record(#[trigger] all[k], out@[k]),
                decreases v.len() - i,
            {
                assert(all[i as int] == v@[i as int].item());
                match read_tenant_record(&v[i]) {
                    Some(e) => out.push(e),
                    None => {
                        assert forall|s: Seq<AdminTenantRecord>| !is_tenant_record_list(cbor::maybe(x), s) by {
                            assert(!is_tenant_record(all[i as int], s[i as int]));
                        }
                        return None;
                    },
                }
                i = i + 1;
            }
            Some(out)
        },
        _ => None,
    }
}

proof fn lemma_tenant_record_list(a: Seq<AdminTenantRecord>, b: Seq<AdminTenantRecord>)
    ensures
        cbor::is_plain(Item::Array(tenant_record_items(a)), 3),
        is_tenant_record_list(Some(Item::Array(tenant_record_items(a))), a),
        is_tenant_record_list(Some(Item::Array(tenant_record_items(a))), b) ==> tenant_record_items(b)
            == tenant_record_items(a),
{
    let v = tenant_record_items(a);
    assert forall|i: int| 0 <= i < v.len() implies cbor::is_plain(#[trigger] v[i], 2) && is_tenant_record(
        v[i],
        a[i],
    ) by {
        lemma_tenant_record(a[i], a[i]);
    }
    if is_tenant_record_list(Some(Item::Array(v)), b) {
        assert forall|i: int| 0 <= i < v.len() implies tenant_record_item(b[i]) == tenant_record_item(a[i]) by {
            assert(is_tenant_record(v[i], b[i]));
            lemma_tenant_record(a[i], b[i]);
        }
        assert(tenant_record_items(b) =~= v);
    }
}

/// The document of an attestation bundle; without captures the field is left out.
pub open spec fn bundle_item(v: AttestationBundle) -> Item {
    if v.captures@.len() == 0 {
        Item::Entries(
            seq![
                cbor::field("attestation"@, crate::attestation::attestation_item(v.attestation)),
            ],
        )
    } else {
        Item::Entries(
            seq![
                cbor::field("attestation"@, crate::attestation::attestation_item(v.attestation)),
                cbor::field(
                    "captures"@,
                    Item::Array(wire::captured_output_items(v.captures@)),
                ),
            ],
        )
    }
}

fn bundle_to_cbor(v: &AttestationBundle) -> (r: Cbor)
    ensures
        r.item() == bundle_item(*v),
{
    let rec = Record::new().with("attestation", crate::attestation::to_cbor(&v.attestation));
    let rec = if v.captures.len() == 0 {
        rec
    } else {
        rec.with("captures", wire::captured_output_list_to_cbor(&v.captures))
    };
    assert(rec@ =~= bundle_item(*v)->Entries_0);
    rec.done()
}

/// Whether a field is these captures; a missing one is none.
pub open spec fn is_captures(x: Option<Item>, list: Seq<CapturedOutput>) -> bool {
    match x {
        None => list.len() == 0,
        Some(_) => wire::is_captured_output_list(x, list),
    }
}

/// Whether a document is an attestation bundle.
pub open spec fn is_bundle(item: Item, v: AttestationBundle) -> bool {
    &&& wire::is_some_attestation(cbor::field_of(item, "attestation"@), v.attestation)
    &&& is_captures(cbor::field_of(item, "captures"@), v.captures@)
}

/// Whether a field is this attestation bundle.
pub open spec fn is_some_bundle(x: Option<Item>, v: AttestationBundle) -> bool {
    match x {
        Some(item) => is_bundle(item, v),
        None => false,
    }
}

/// Reads an attestation bundle.
#[must_use]
pub fn read_bundle(doc: &Cbor) -> (r: Option<AttestationBundle>)
    ensures
        match r {
            Some(v) => is_bundle(doc.item(), v),
            None => forall|v: AttestationBundle| !is_bundle(doc.item(), v),
        },
{
    let attestation = match wire::read_some_attestation(doc.field("attestation")) {
        Some(x) => x,
        None => return None,
    };
    match doc.field("captures") {
        None => Some(AttestationBundle { attestation, captures: Vec::new() }),
        Some(x) => match wire::read_captured_output_list(Some(x)) {
            Some(captures) => Some(AttestationBundle { attestation, captures }),
            None => None,
        },
    }
}

proof fn lemma_bundle(v: AttestationBundle, w: AttestationBundle)
    ensures
        cbor::is_plain(bundle_item(v), 5),
        is_bundle(bundle_item(v), v),
        is_bundle(bundle_item(v), w) ==> bundle_item(w) == bundle_item(v),
{
    reveal_strlit("attestation");
    reveal_strlit("captures");
    assert("attestation"@.len() == 11 && "captures"@.len() == 8);
    let m = bundle_item(v)->Entries_0;
    assert(m[0] == cbor::field(
        "attestation"@,
        crate::attestation::attestation_item(v.attestation),
    ));
    assert(cbor::names_differ(m));
    cbor::lemma_fields(m);
    wire::lemma_attestation(v.attestation, w.attestation);
    wire::lemma_captured_output_list(v.captures@, w.captures@);
    cbor::lemma_plain_more(m[0].1, 2, 4);
    if v.captures@.len() > 0 {
        assert(m[1] == cbor::field(
            "captures"@,
            Item::Array(wire::captured_output_items(v.captures@)),
        ));
        cbor::lemma_plain_more(m[1].1, 3, 4);
    }
    assert forall|i: int| 0 <= i < m.len() implies cbor::is_plain((#[trigger] m[i]).0, 4)
        && cbor::is_plain(m[i].1, 4) by {
        if i == 0 {
        } else if i == 1 {
        }
    }
    if is_bundle(bundle_item(v), w) {
        if v.captures@.len() > 0 {
            assert(wire::captured_output_items(w.captures@).len() == w.captures@.len());
        }
        assert(bundle_item(w)->Entries_0 =~= m);
    }
}

/// The name of a message.
pub open spec fn message_name(e: Envelope) -> Seq<char> {
    match e {
        Envelope::Register { .. } => "Register"@,
        Envelope::VrfClaim { .. } => "VrfClaim"@,
        Envelope::SubmitAttestation(_) => "SubmitAttestation"@,
        Envelope::RegisterAck => "RegisterAck"@,
        Envelope::JobSeed { .. } => "JobSeed"@,
        Envelope::Assign { .. } => "Assign"@,
        Envelope::Shutdown => "Shutdown"@,
        Envelope::GetJob { .. } => "GetJob"@,
        Envelope::GetLogRoot => "GetLogRoot"@,
        Envelope::JobBundleResponse(_) => "JobBundleResponse"@,
        Envelope::JobNotFound { .. } => "JobNotFound"@,
        Envelope::LogRoot { .. } => "LogRoot"@,
        Envelope::AdminHello { .. } => "AdminHello"@,
        Envelope::AdminWelcome => "AdminWelcome"@,
        Envelope::AdminError { .. } => "AdminError"@,
        Envelope::AdminListAgents => "AdminListAgents"@,
        Envelope::AdminAgentList { .. } => "AdminAgentList"@,
        Envelope::AdminGetLogRoot => "AdminGetLogRoot"@,
        Envelope::AdminLogRoot { .. } => "AdminLogRoot"@,
        Envelope::AdminListTenants => "AdminListTenants"@,
        Envelope::AdminTenantList { .. } => "AdminTenantList"@,
        Envelope::AdminEnrollAgent { .. } => "AdminEnrollAgent"@,
        Envelope::AdminEnrollAck => "AdminEnrollAck"@,
        Envelope::AdminRevokeAgent { .. } => "AdminRevokeAgent"@,
        Envelope::AdminRevokeAck => "AdminRevokeAck"@,
        Envelope::AdminAddTenant { .. } => "AdminAddTenant"@,
        Envelope::AdminAddTenantAck => "AdminAddTenantAck"@,
        Envelope::AdminRevokeTenant { .. } => "AdminRevokeTenant"@,
        Envelope::AdminRevokeTenantAck => "AdminRevokeTenantAck"@,
    }
}

/// The number of a message's kind.
pub open spec fn kind_of(e: Envelope) -> nat {
    match e {
        Envelope::Register { .. } => 0,
        Envelope::VrfClaim { .. } => 1,
        Envelope::SubmitAttestation(_) => 2,
        Envelope::RegisterAck => 3,
        Envelope::JobSeed { .. } => 4,
        Envelope::Assign { .. } => 5,
        Envelope::Shutdown => 6,
        Envelope::GetJob { .. } => 7,
        Envelope::GetLogRoot => 8,
        Envelope::JobBundleResponse(_) => 9,
        Envelope::JobNotFound { .. } => 10,
        Envelope::LogRoot { .. } => 11,
        Envelope::AdminHello { .. } => 12,
        Envelope::AdminWelcome => 13,
        Envelope::AdminError { .. } => 14,
        Envelope::AdminListAgents => 15,
        Envelope::AdminAgentList { .. } => 16,
        Envelope::AdminGetLogRoot => 17,
        Envelope::AdminLogRoot { .. } => 18,
        Envelope::AdminListTenants => 19,
        Envelope::AdminTenantList { .. } => 20,
        Envelope::AdminEnrollAgent { .. } => 21,
        Envelope::AdminEnrollAck => 22,
        Envelope::AdminRevokeAgent { .. } => 23,
        Envelope::AdminRevokeAck => 24,
        Envelope::AdminAddTenant { .. } => 25,
        Envelope::AdminAddTenantAck => 26,
        Envelope::AdminRevokeTenant { .. } => 27,
        Envelope::AdminRevokeTenantAck => 28,
    }
}

/// The number of the kind that a name is of.
pub open spec fn kind_named(name: Seq<char>) -> nat {
    if name == "Register"@ {
        0
    } else if name == "VrfClaim"@ {
        1
    } else if name == "SubmitAttestation"@ {
        2
    } else if name == "RegisterAck"@ {
        3
    } else if name == "JobSeed"@ {
        4
    } else if name == "Assign"@ {
        5
    } else if name == "Shutdown"@ {
        6
    } else if name == "GetJob"@ {
        7
    } else if name == "GetLogRoot"@ {
        8
    } else if name == "JobBundleResponse"@ {
        9
    } else if name == "JobNotFound"@ {
        10
    } else if name == "LogRoot"@ {
        11
    } else if name == "AdminHello"@ {
        12
    } else if name == "AdminWelcome"@ {
        13
    } else if name == "AdminError"@ {
        14
    } else if name == "AdminListAgents"@ {
        15
    } else if name == "AdminAgentList"@ {
        16
    } else if name == "AdminGetLogRoot"@ {
        17
    } else if name == "AdminLogRoot"@ {
        18
    } else if name == "AdminListTenants"@ {
        19
    } else if name == "AdminTenantList"@ {
        20
    } else if name == "AdminEnrollAgent"@ {
        21
    } else if name == "AdminEnrollAck"@ {
        22
    } else if name == "AdminRevokeAgent"@ {
        23
    } else if name == "AdminRevokeAck"@ {
        24
    } else if name == "AdminAddTenant"@ {
        25
    } else if name == "AdminAddTenantAck"@ {
        26
    } else if name == "AdminRevokeTenant"@ {
        27
    } else if name == "AdminRevokeTenantAck"@ {
        28
    } else {
        29
    }
}

fn number_of(name: &str) -> (r: u8)
    ensures
        r == kind_named(name@),
{
    if text::str_eq(name, "Register") {
        0
    } else if text::str_eq(name, "VrfClaim") {
        1
    } else if text::str_eq(name, "SubmitAttestation") {
        2
    } else if text::str_eq(name, "RegisterAck") {
        3
    } else if text::str_eq(name, "JobSeed") {
        4
    } else if text::str_eq(name, "Assign") {
        5
    } else if text::str_eq(name, "Shutdown") {
        6
    } else if text::str_eq(name, "GetJob") {
        7
    } else if text::str_eq(name, "GetLogRoot") {
        8
    } else if text::str_eq(name, "JobBundleResponse") {
        9
    } else if text::str_eq(name, "JobNotFound") {
        10
    } else if text::str_eq(name, "LogRoot") {
        11
    } else if text::str_eq(name, "AdminHello") {
        12
    } else if text::str_eq(name, "AdminWelcome") {
        13
    } else if text::str_eq(name, "AdminError") {
        14
    } else if text::str_eq(name, "AdminListAgents") {
        15
    } else if text::str_eq(name, "AdminAgentList") {
        16
    } else if text::str_eq(name, "AdminGetLogRoot") {
        17
    } else if text::str_eq(name, "AdminLogRoot") {
        18
    } else if text::str_eq(name, "AdminListTenants") {
        19
    } else if text::str_eq(name, "AdminTenantList") {
        20
    } else if text::str_eq(name, "AdminEnrollAgent") {
        21
    } else if text::str_eq(name, "AdminEnrollAck") {
        22
    } else if text::str_eq(name, "AdminRevokeAgent") {
        23
    } else if text::str_eq(name, "AdminRevokeAck") {
        24
    } else if text::str_eq(name, "AdminAddTenant") {
        25
    } else if text::str_eq(name, "AdminAddTenantAck") {
        26
    } else if text::str_eq(name, "AdminRevokeTenant") {
        27
    } else if text::str_eq(name, "AdminRevokeTenantAck") {
        28
    } else {
        29
    }
}

#[verifier::rlimit(40)]
proof fn lemma_kind_named(e: Envelope)
    ensures
        kind_named(message_name(e)) == kind_of(e),
{
    reveal_strlit("Register");
    reveal_strlit("VrfClaim");
    reveal_strlit("SubmitAttestation");
    reveal_strlit("RegisterAck");
    reveal_strlit("JobSeed");
    reveal_strlit("Assign");
    reveal_strlit("Shutdown");
    reveal_strlit("GetJob");
    reveal_strlit("GetLogRoot");
    reveal_strlit("JobBundleResponse");
    reveal_strlit("JobNotFound");
    reveal_strlit("LogRoot");
    reveal_strlit("AdminHello");
    reveal_strlit("AdminWelcome");
    reveal_strlit("AdminError");
    reveal_strlit("AdminListAgents");
    reveal_strlit("AdminAgentList");
    reveal_strlit("AdminGetLogRoot");
    reveal_strlit("AdminLogRoot");
    reveal_strlit("AdminListTenants");
    reveal_strlit("AdminTenantList");
    reveal_strlit("AdminEnrollAgent");
    reveal_strlit("AdminEnrollAck");
    reveal_strlit("AdminRevokeAgent");
    reveal_strlit("AdminRevokeAck");
    reveal_strlit("AdminAddTenant");
    reveal_strlit("AdminAddTenantAck");
    reveal_strlit("AdminRevokeTenant");
    reveal_strlit("AdminRevokeTenantAck");
    assert("Register"@.len() == 8 && "VrfClaim"@.len() == 8 && "SubmitAttestation"@.len() == 17 && "RegisterAck"@.len() == 11);
    assert("JobSeed"@.len() == 7 && "Assign"@.len() == 6 && "Shutdown"@.len() == 8 && "GetJob"@.len() == 6);
    assert("GetLogRoot"@.len() == 10 && "JobBundleResponse"@.len() == 17 && "JobNotFound"@.len() == 11 && "LogRoot"@.len() == 7);
    assert("AdminHello"@.len() == 10 && "AdminWelcome"@.len() == 12 && "AdminError"@.len() == 10 && "AdminListAgents"@.len() == 15);
    assert("AdminAgentList"@.len() == 14 && "AdminGetLogRoot"@.len() == 15 && "AdminLogRoot"@.len() == 12 && "AdminListTenants"@.len() == 16);
    assert("AdminTenantList"@.len() == 15 && "AdminEnrollAgent"@.len() == 16 && "AdminEnrollAck"@.len() == 14 && "AdminRevokeAgent"@.len() == 16);
    assert("AdminRevokeAck"@.len() == 14 && "AdminAddTenant"@.len() == 14 && "AdminAddTenantAck"@.len() == 17 && "AdminRevokeTenant"@.len() == 17);
    assert("AdminRevokeTenantAck"@.len() == 20);
    assert("AdminAddTenant"@[5] == 'A' && "AdminAddTenant"@[6] == 'd' && "AdminAddTenantAck"@[0] == 'A' && "AdminAddTenantAck"@[5] == 'A');
    assert("AdminAgentList"@[5] == 'A' && "AdminAgentList"@[6] == 'g' && "AdminEnrollAck"@[5] == 'E' && "AdminEnrollAgent"@[5] == 'E');
    assert("AdminError"@[0] == 'A' && "AdminError"@[5] == 'E' && "AdminGetLogRoot"@[5] == 'G' && "AdminHello"@[0] == 'A');
    assert("AdminHello"@[5] == 'H' && "AdminListAgents"@[5] == 'L' && "AdminListTenants"@[5] == 'L' && "AdminLogRoot"@[5] == 'L');
    assert("AdminRevokeAck"@[5] == 'R' && "AdminRevokeAgent"@[5] == 'R' && "AdminRevokeTenant"@[0] == 'A' && "AdminRevokeTenant"@[5] == 'R');
    assert("AdminTenantList"@[5] == 'T' && "AdminWelcome"@[5] == 'W' && "Assign"@[0] == 'A' && "GetJob"@[0] == 'G');
    assert("GetLogRoot"@[0] == 'G' && "JobBundleResponse"@[0] == 'J' && "JobNotFound"@[0] == 'J' && "JobSeed"@[0] == 'J');
    assert("LogRoot"@[0] == 'L' && "Register"@[0] == 'R' && "RegisterAck"@[0] == 'R' && "Shutdown"@[0] == 'S');
    assert("SubmitAttestation"@[0] == 'S' && "VrfClaim"@[0] == 'V');
}

/// What a message carries, if it carries anything.
pub open spec fn body_item(e: Envelope) -> Option<Item> {
    match e {
        Envelope::Register { runner_id, signing_pubkey, vrf_pubkey, vrf_output, vrf_proof, stake, capabilities } => Some(
            Item::Entries(
                seq![
                    cbor::field("runner_id"@, Item::Uint(runner_id as nat)),
                    cbor::field("signing_pubkey"@, cbor::byte_items(signing_pubkey@)),
                    cbor::field("vrf_pubkey"@, cbor::byte_items(vrf_pubkey@)),
                    cbor::field("vrf_output"@, cbor::byte_items(vrf_output@)),
                    cbor::field("vrf_proof"@, cbor::byte_items(vrf_proof@)),
                    cbor::field("stake"@, Item::Uint(stake as nat)),
                    cbor::field("capabilities"@, wire::capabilities_item(capabilities)),
                ],
            ),
        ),
        Envelope::VrfClaim { job_id, vrf_output, vrf_proof } => Some(
            Item::Entries(
                seq![
                    cbor::field("job_id"@, Item::Uint(job_id as nat)),
                    cbor::field("vrf_output"@, cbor::byte_items(vrf_output@)),
                    cbor::field("vrf_proof"@, cbor::byte_items(vrf_proof@)),
                ],
            ),
        ),
        Envelope::SubmitAttestation(b) => Some(bundle_item(b)),
        Envelope::RegisterAck => None,
        Envelope::JobSeed { job_id, seed } => Some(
            Item::Entries(
                seq![
                    cbor::field("job_id"@, Item::Uint(job_id as nat)),
                    cbor::field("seed"@, cbor::byte_items(seed@)),
                ],
            ),
        ),
        Envelope::Assign { job_id, pipeline, requirements, deadline_unix_ns } => Some(
            Item::Entries(
                seq![
                    cbor::field("job_id"@, Item::Uint(job_id as nat)),
                    cbor::field("pipeline"@, crate::jobs::pipeline_item(pipeline)),
                    cbor::field("requirements"@, wire::requirements_item(requirements)),
                    cbor::field("deadline_unix_ns"@, cbor::int_item(deadline_unix_ns as int)),
                ],
            ),
        ),
        Envelope::Shutdown => None,
        Envelope::GetJob { job_id } => Some(
            Item::Entries(
                seq![
                    cbor::field("job_id"@, Item::Uint(job_id as nat)),
                ],
            ),
        ),
        Envelope::GetLogRoot => None,
        Envelope::JobBundleResponse(b) => Some(wire::job_bundle_item(b)),
        Envelope::JobNotFound { job_id } => Some(
            Item::Entries(
                seq![
                    cbor::field("job_id"@, Item::Uint(job_id as nat)),
                ],
            ),
        ),
        Envelope::LogRoot { root, length } => Some(
            Item::Entries(
                seq![
                    cbor::field("root"@, wire::optional_hash_item(root)),
                    cbor::field("length"@, Item::Uint(length as nat)),
                ],
            ),
        ),
        Envelope::AdminHello { admin_pubkey, ts_unix_ns, signature } => Some(
            Item::Entries(
                seq![
                    cbor::field("admin_pubkey"@, cbor::byte_items(admin_pubkey@)),
                    cbor::field("ts_unix_ns"@, Item::Uint(ts_unix_ns as nat)),
                    cbor::field("signature"@, cbor::byte_items(signature@)),
                ],
            ),
        ),
        Envelope::AdminWelcome => None,
        Envelope::AdminError { reason } => Some(
            Item::Entries(
                seq![
                    cbor::field("reason"@, Item::Text(reason@)),
                ],
            ),
        ),
        Envelope::AdminListAgents => None,
        Envelope::AdminAgentList { entries } => Some(
            Item::Entries(
                seq![
                    cbor::field("entries"@, Item::Array(agent_record_items(entries@))),
                ],
            ),
        ),
        Envelope::AdminGetLogRoot => None,
        Envelope::AdminLogRoot { root, length } => Some(
            Item::Entries(
                seq![
                    cbor::field("root"@, wire::optional_hash_item(root)),
                    cbor::field("length"@, Item::Uint(length as nat)),
                ],
            ),
        ),
        Envelope::AdminListTenants => None,
        Envelope::AdminTenantList { entries } => Some(
            Item::Entries(
                seq![
                    cbor::field("entries"@, Item::Array(tenant_record_items(entries@))),
                ],
            ),
        ),
        Envelope::AdminEnrollAgent { runner_id, signing_fp, vrf_fp, enrolled_at_unix_ns, initial_reputation_thousandths } => Some(
            Item::Entries(
                seq![
                    cbor::field("runner_id"@, Item::Uint(runner_id as nat)),
                    cbor::field("signing_fp"@, cbor::byte_items(signing_fp@)),
                    cbor::field("vrf_fp"@, cbor::byte_items(vrf_fp@)),
                    cbor::field("enrolled_at_unix_ns"@, cbor::int_item(enrolled_at_unix_ns as int)),
                    cbor::field("initial_reputation_thousandths"@, Item::Uint(initial_reputation_thousandths as nat)),
                ],
            ),
        ),
        Envelope::AdminEnrollAck => None,
        Envelope::AdminRevokeAgent { runner_id } => Some(
            Item::Entries(
                seq![
                    cbor::field("runner_id"@, Item::Uint(runner_id as nat)),
                ],
            ),
        ),
        Envelope::AdminRevokeAck => None,
        Envelope::AdminAddTenant { tenant_id, signing_fp, rate_capacity, rate_refill_per_sec, registered_at_unix_ns } => Some(
            Item::Entries(
                seq![
                    cbor::field("tenant_id"@, Item::Uint(tenant_id as nat)),
                    cbor::field("signing_fp"@, cbor::byte_items(signing_fp@)),
                    cbor::field("rate_capacity"@, Item::Uint(rate_capacity as nat)),
                    cbor::field("rate_refill_per_sec"@, Item::Uint(rate_refill_per_sec as nat)),
                    cbor::field("registered_at_unix_ns"@, Item::Uint(registered_at_unix_ns as nat)),
                ],
            ),
        ),
        Envelope::AdminAddTenantAck => None,
        Envelope::AdminRevokeTenant { tenant_id } => Some(
            Item::Entries(
                seq![
                    cbor::field("tenant_id"@, Item::Uint(tenant_id as nat)),
                ],
            ),
        ),
        Envelope::AdminRevokeTenantAck => None,
    }
}

/// The document of a message: its name, or a map from its name to what it carries.
pub open spec fn envelope_item(e: Envelope) -> Item {
    match body_item(e) {
        Some(body) => cbor::choice(message_name(e), body),
        None => Item::Text(message_name(e)),
    }
}

/// Whether what a document carries is what a message carries: its fields by name
/// or, in an array, by place. A message without fields carries anything.
pub open spec fn is_body(x: Option<Item>, e: Envelope) -> bool {
    match e {
        Envelope::Register { runner_id, signing_pubkey, vrf_pubkey, vrf_output, vrf_proof, stake, capabilities } => match x {
            Some(x) => {
                &&& cbor::is_uint(cbor::part_of(x, "runner_id"@, 0), runner_id as nat)
                &&& cbor::is_bytes(cbor::part_of(x, "signing_pubkey"@, 1), signing_pubkey@)
                &&& cbor::is_bytes(cbor::part_of(x, "vrf_pubkey"@, 2), vrf_pubkey@)
                &&& cbor::is_bytes(cbor::part_of(x, "vrf_output"@, 3), vrf_output@)
                &&& cbor::is_bytes(cbor::part_of(x, "vrf_proof"@, 4), vrf_proof@)
                &&& cbor::is_uint(cbor::part_of(x, "stake"@, 5), stake as nat)
                &&& wire::is_some_capabilities(cbor::part_of(x, "capabilities"@, 6), capabilities)
            },
            None => false,
        },
        Envelope::VrfClaim { job_id, vrf_output, vrf_proof } => match x {
            Some(x) => {
                &&& cbor::is_uint(cbor::part_of(x, "job_id"@, 0), job_id as nat)
                &&& cbor::is_bytes(cbor::part_of(x, "vrf_output"@, 1), vrf_output@)
                &&& cbor::is_bytes(cbor::part_of(x, "vrf_proof"@, 2), vrf_proof@)
            },
            None => false,
        },
        Envelope::SubmitAttestation(b) => is_some_bundle(x, b),
        Envelope::RegisterAck => true,
        Envelope::JobSeed { job_id, seed } => match x {
            Some(x) => {
                &&& cbor::is_uint(cbor::part_of(x, "job_id"@, 0), job_id as nat)
                &&& cbor::is_bytes(cbor::part_of(x, "seed"@, 1), seed@)
            },
            None => false,
        },
        Envelope::Assign { job_id, pipeline, requirements, deadline_unix_ns } => match x {
            Some(x) => {
                &&& cbor::is_uint(cbor::part_of(x, "job_id"@, 0), job_id as nat)
                &&& wire::is_some_pipeline(cbor::part_of(x, "pipeline"@, 1), pipeline)
                &&& wire::is_some_requirements(cbor::part_of(x, "requirements"@, 2), requirements)
                &&& cbor::is_int(cbor::part_of(x, "deadline_unix_ns"@, 3), deadline_unix_ns as int)
            },
            None => false,
        },
        Envelope::Shutdown => true,
        Envelope::GetJob { job_id } => match x {
            Some(x) => {
                &&& cbor::is_uint(cbor::part_of(x, "job_id"@, 0), job_id as nat)
            },
            None => false,
        },
        Envelope::GetLogRoot => true,
        Envelope::JobBundleResponse(b) => wire::is_some_job_bundle(x, b),
        Envelope::JobNotFound { job_id } => match x {
            Some(x) => {
                &&& cbor::is_uint(cbor::part_of(x, "job_id"@, 0), job_id as nat)
            },
            None => false,
        },
        Envelope::LogRoot { root, length } => match x {
            Some(x) => {
                &&& wire::is_optional_hash(cbor::part_of(x, "root"@, 0), root)
                &&& cbor::is_uint(cbor::part_of(x, "length"@, 1), length as nat)
            },
            None => false,
        },
        Envelope::AdminHello { admin_pubkey, ts_unix_ns, signature } => match x {
            Some(x) => {
                &&& cbor::is_bytes(cbor::part_of(x, "admin_pubkey"@, 0), admin_pubkey@)
                &&& cbor::is_uint(cbor::part_of(x, "ts_unix_ns"@, 1), ts_unix_ns as nat)
                &&& cbor::is_bytes(cbor::part_of(x, "signature"@, 2), signature@)
            },
            None => false,
        },
        Envelope::AdminWelcome => true,
        Envelope::AdminError { reason } => match x {
            Some(x) => {
                &&& cbor::is_text(cbor::part_of(x, "reason"@, 0), reason@)
            },
            None => false,
        },
        Envelope::AdminListAgents => true,
        Envelope::AdminAgentList { entries } => match x {
            Some(x) => {
                &&& is_agent_record_list(cbor::part_of(x, "entries"@, 0), entries@)
            },
            None => false,
        },
        Envelope::AdminGetLogRoot => true,
        Envelope::AdminLogRoot { root, length } => match x {
            Some(x) => {
                &&& wire::is_optional_hash(cbor::part_of(x, "root"@, 0), root)
                &&& cbor::is_uint(cbor::part_of(x, "length"@, 1), length as nat)
            },
            None => false,
        },
        Envelope::AdminListTenants => true,
        Envelope::AdminTenantList { entries } => match x {
            Some(x) => {
                &&& is_tenant_record_list(cbor::part_of(x, "entries"@, 0), entries@)
            },
            None => false,
        },
        Envelope::AdminEnrollAgent { runner_id, signing_fp, vrf_fp, enrolled_at_unix_ns, initial_reputation_thousandths } => match x {
            Some(x) => {
                &&& cbor::is_uint(cbor::part_of(x, "runner_id"@, 0), runner_id as nat)
                &&& cbor::is_bytes(cbor::part_of(x, "signing_fp"@, 1), signing_fp@)
                &&& cbor::is_bytes(cbor::part_of(x, "vrf_fp"@, 2), vrf_fp@)
                &&& cbor::is_int(cbor::part_of(x, "enrolled_at_unix_ns"@, 3), enrolled_at_unix_ns as int)
                &&& cbor::is_uint(cbor::part_of(x, "initial_reputation_thousandths"@, 4), initial_reputation_thousandths as nat)
            },
            None => false,
        },
        Envelope::AdminEnrollAck => true,
        Envelope::AdminRevokeAgent { runner_id } => match x {
            Some(x) => {
                &&& cbor::is_uint(cbor::part_of(x, "runner_id"@, 0), runner_id as nat)
            },
            None => false,
        },
        Envelope::AdminRevokeAck => true,
        Envelope::AdminAddTenant { tenant_id, signing_fp, rate_capacity, rate_refill_per_sec, registered_at_unix_ns } => match x {
            Some(x) => {
                &&& cbor::is_uint(cbor::part_of(x, "tenant_id"@, 0), tenant_id as nat)
                &&& cbor::is_bytes(cbor::part_of(x, "signing_fp"@, 1), signing_fp@)
                &&& cbor::is_uint(cbor::part_of(x, "rate_capacity"@, 2), rate_capacity as nat)
                &&& cbor::is_uint(cbor::part_of(x, "rate_refill_per_sec"@, 3), rate_refill_per_sec as nat)
                &&& cbor::is_uint(cbor::part_of(x, "registered_at_unix_ns"@, 4), registered_at_unix_ns as nat)
            },
            None => false,
        },
        Envelope::AdminAddTenantAck => true,
        Envelope::AdminRevokeTenant { tenant_id } => match x {
            Some(x) => {
                &&& cbor::is_uint(cbor::part_of(x, "tenant_id"@, 0), tenant_id as nat)
            },
            None => false,
        },
        Envelope::AdminRevokeTenantAck => true,
    }
}

/// Whether a document is this message.
pub open spec fn is_envelope(item: Item, e: Envelope) -> bool {
    match cbor::choice_of(item) {
        Some((name, body)) => kind_named(name) == kind_of(e) && is_body(body, e),
        None => false,
    }
}

/// The document of a message.
#[must_use]
pub fn to_cbor(e: &Envelope) -> (r: Cbor)
    ensures
        r.item() == envelope_item(*e),
{
    match e {
        Envelope::Register { runner_id, signing_pubkey, vrf_pubkey, vrf_output, vrf_proof, stake, capabilities } => {
            let rec = Record::new().with("runner_id", cbor::uint(*runner_id)).with("signing_pubkey", cbor::bytes(signing_pubkey.as_slice())).with("vrf_pubkey", cbor::bytes(vrf_pubkey.as_slice())).with("vrf_output", cbor::bytes(vrf_output.as_slice())).with("vrf_proof", cbor::bytes(vrf_proof.as_slice())).with("stake", cbor::uint(*stake)).with("capabilities", wire::capabilities_to_cbor(capabilities));
            assert(rec@ =~= body_item(*e)->0->Entries_0);
            cbor::choose_one("Register", rec.done())
        },
        Envelope::VrfClaim { job_id, vrf_output, vrf_proof } => {
            let rec = Record::new().with("job_id", cbor::uint(*job_id)).with("vrf_output", cbor::bytes(vrf_output.as_slice())).with("vrf_proof", cbor::bytes(vrf_proof.as_slice()));
            assert(rec@ =~= body_item(*e)->0->Entries_0);
            cbor::choose_one("VrfClaim", rec.done())
        },
        Envelope::SubmitAttestation(b) => cbor::choose_one("SubmitAttestation", bundle_to_cbor(b)),
        Envelope::RegisterAck => cbor::text("RegisterAck"),
        Envelope::JobSeed { job_id, seed } => {
            let rec = Record::new().with("job_id", cbor::uint(*job_id)).with("seed", cbor::bytes(seed.as_slice()));
            assert(rec@ =~= body_item(*e)->0->Entries_0);
            cbor::choose_one("JobSeed", rec.done())
        },
        Envelope::Assign { job_id, pipeline, requirements, deadline_unix_ns } => {
            let rec = Record::new().with("job_id", cbor::uint(*job_id)).with("pipeline", crate::jobs::pipeline_to_cbor(pipeline)).with("requirements", wire::requirements_to_cbor(requirements)).with("deadline_unix_ns", cbor::signed(*deadline_unix_ns));
            assert(rec@ =~= body_item(*e)->0->Entries_0);
            cbor::choose_one("Assign", rec.done())
        },
        Envelope::Shutdown => cbor::text("Shutdown"),
        Envelope::GetJob { job_id } => {
            let rec = Record::new().with("job_id", cbor::uint(*job_id));
            assert(rec@ =~= body_item(*e)->0->Entries_0);
            cbor::choose_one("GetJob", rec.done())
        },
        Envelope::GetLogRoot => cbor::text("GetLogRoot"),
        Envelope::JobBundleResponse(b) => cbor::choose_one("JobBundleResponse", wire::job_bundle_to_cbor(b)),
        Envelope::JobNotFound { job_id } => {
            let rec = Record::new().with("job_id", cbor::uint(*job_id));
            assert(rec@ =~= body_item(*e)->0->Entries_0);
            cbor::choose_one("JobNotFound", rec.done())
        },
        Envelope::LogRoot { root, length } => {
            let rec = Record::new().with("root", wire::optional_hash_to_cbor(root)).with("length", cbor::uint(*length));
            assert(rec@ =~= body_item(*e)->0->Entries_0);
            cbor::choose_one("LogRoot", rec.done())
        },
        Envelope::AdminHello { admin_pubkey, ts_unix_ns, signature } => {
            let rec = Record::new().with("admin_pubkey", cbor::bytes(admin_pubkey.as_slice())).with("ts_unix_ns", cbor::uint(*ts_unix_ns)).with("signature", cbor::bytes(signature.as_slice()));
            assert(rec@ =~= body_item(*e)->0->Entries_0);
            cbor::choose_one("AdminHello", rec.done())
        },
        Envelope::AdminWelcome => cbor::text("AdminWelcome"),
        Envelope::AdminError { reason } => {
            let rec = Record::new().with("reason", cbor::text(reason.as_str()));
            assert(rec@ =~= body_item(*e)->0->Entries_0);
            cbor::choose_one("AdminError", rec.done())
        },
        Envelope::AdminListAgents => cbor::text("AdminListAgents"),
        Envelope::AdminAgentList { entries } => {
            let rec = Record::new().with("entries", agent_record_list_to_cbor(entries));
            assert(rec@ =~= body_item(*e)->0->Entries_0);
            cbor::choose_one("AdminAgentList", rec.done())
        },
        Envelope::AdminGetLogRoot => cbor::text("AdminGetLogRoot"),
        Envelope::AdminLogRoot { root, length } => {
            let rec = Record::new().with("root", wire::optional_hash_to_cbor(root)).with("length", cbor::uint(*length));
            assert(rec@ =~= body_item(*e)->0->Entries_0);
            cbor::choose_one("AdminLogRoot", rec.done())
        },
        Envelope::AdminListTenants => cbor::text("AdminListTenants"),
        Envelope::AdminTenantList { entries } => {
            let rec = Record::new().with("entries", tenant_record_list_to_cbor(entries));
            assert(rec@ =~= body_item(*e)->0->Entries_0);
            cbor::choose_one("AdminTenantList", rec.done())
        },
        Envelope::AdminEnrollAgent { runner_id, signing_fp, vrf_fp, enrolled_at_unix_ns, initial_reputation_thousandths } => {
            let rec = Record::new().with("runner_id", cbor::uint(*runner_id)).with("signing_fp", cbor::bytes(signing_fp.as_slice())).with("vrf_fp", cbor::bytes(vrf_fp.as_slice())).with("enrolled_at_unix_ns", cbor::signed(*enrolled_at_unix_ns)).with("initial_reputation_thousandths", cbor::uint(*initial_reputation_thousandths as u64));
            assert(rec@ =~= body_item(*e)->0->Entries_0);
            cbor::choose_one("AdminEnrollAgent", rec.done())
        },
        Envelope::AdminEnrollAck => cbor::text("AdminEnrollAck"),
        Envelope::AdminRevokeAgent { runner_id } => {
            let rec = Record::new().with("runner_id", cbor::uint(*runner_id));
            assert(rec@ =~= body_item(*e)->0->Entries_0);
            cbor::choose_one("AdminRevokeAgent", rec.done())
        },
        Envelope::AdminRevokeAck => cbor::text("AdminRevokeAck"),
        Envelope::AdminAddTenant { tenant_id, signing_fp, rate_capacity, rate_refill_per_sec, registered_at_unix_ns } => {
            let rec = Record::new().with("tenant_id", cbor::uint(*tenant_id)).with("signing_fp", cbor::bytes(signing_fp.as_slice())).with("rate_capacity", cbor::uint(*rate_capacity)).with("rate_refill_per_sec", cbor::uint(*rate_refill_per_sec)).with("registered_at_unix_ns", cbor::uint(*registered_at_unix_ns));
            assert(rec@ =~= body_item(*e)->0->Entries_0);
            cbor::choose_one("AdminAddTenant", rec.done())
        },
        Envelope::AdminAddTenantAck => cbor::text("AdminAddTenantAck"),
        Envelope::AdminRevokeTenant { tenant_id } => {
            let rec = Record::new().with("tenant_id", cbor::uint(*tenant_id));
            assert(rec@ =~= body_item(*e)->0->Entries_0);
            cbor::choose_one("AdminRevokeTenant", rec.done())
        },
        Envelope::AdminRevokeTenantAck => cbor::text("AdminRevokeTenantAck"),
    }
}

fn read_register(x: &Cbor) -> (r: Option<Envelope>)
    ensures
        match r {
            Some(e) => e is Register && is_body(Some(x.item()), e),
            None => forall|e: Envelope| e is Register ==> !#[trigger] is_body(Some(x.item()), e),
        },
{
    let runner_id = match cbor::read_uint(x.part("runner_id", 0), u64::MAX) {
        Some(x) => x,
        None => return None,
    };
    let signing_pubkey = match cbor::read_bytes32(x.part("signing_pubkey", 1)) {
        Some(x) => x,
        None => return None,
    };
    let vrf_pubkey = match cbor::read_bytes32(x.part("vrf_pubkey", 2)) {
        Some(x) => x,
        None => return None,
    };
    let vrf_output = match cbor::read_bytes32(x.part("vrf_output", 3)) {
        Some(x) => x,
        None => return None,
    };
    let vrf_proof = match cbor::read_bytes64(x.part("vrf_proof", 4)) {
        Some(x) => x,
        None => return None,
    };
    let stake = match cbor::read_uint(x.part("stake", 5), u64::MAX) {
        Some(x) => x,
        None => return None,
    };
    let capabilities = match wire::read_some_capabilities(x.part("capabilities", 6)) {
        Some(x) => x,
        None => return None,
    };
    Some(Envelope::Register { runner_id, signing_pubkey, vrf_pubkey, vrf_output, vrf_proof, stake, capabilities })
}

fn read_vrf_claim(x: &Cbor) -> (r: Option<Envelope>)
    ensures
        match r {
            Some(e) => e is VrfClaim && is_body(Some(x.item()), e),
            None => forall|e: Envelope| e is VrfClaim ==> !#[trigger] is_body(Some(x.item()), e),
        },
{
    let job_id = match cbor::read_uint(x.part("job_id", 0), u64::MAX) {
        Some(x) => x,
        None => return None,
    };
    let vrf_output = match cbor::read_bytes32(x.part("vrf_output", 1)) {
        Some(x) => x,
        None => return None,
    };
    let vrf_proof = match cbor::read_bytes64(x.part("vrf_proof", 2)) {
        Some(x) => x,
        None => return None,
    };
    Some(Envelope::VrfClaim { job_id, vrf_output, vrf_proof })
}

fn read_job_seed(x: &Cbor) -> (r: Option<Envelope>)
    ensures
        match r {
            Some(e) => e is JobSeed && is_body(Some(x.item()), e),
            None => forall|e: Envelope| e is JobSeed ==> !#[trigger] is_body(Some(x.item()), e),
        },
{
    let job_id = match cbor::read_uint(x.part("job_id", 0), u64::MAX) {
        Some(x) => x,
        None => return None,
    };
    let seed = match cbor::read_bytes32(x.part("seed", 1)) {
        Some(x) => x,
        None => return None,
    };
    Some(Envelope::JobSeed { job_id, seed })
}

fn read_assign(x: &Cbor) -> (r: Option<Envelope>)
    ensures
        match r {
            Some(e) => e is Assign && is_body(Some(x.item()), e),
            None => forall|e: Envelope| e is Assign ==> !#[trigger] is_body(Some(x.item()), e),
        },
{
    let job_id = match cbor::read_uint(x.part("job_id", 0), u64::MAX) {
        Some(x) => x,
        None => return None,
    };
    let pipeline = match wire::read_some_pipeline(x.part("pipeline", 1)) {
        Some(x) => x,
        None => return None,
    };
    let requirements = match wire::read_some_requirements(x.part("requirements", 2)) {
        Some(x) => x,
        None => return None,
    };
    let deadline_unix_ns = match cbor::read_int(x.part("deadline_unix_ns", 3)) {
        Some(x) => x,
        None => return None,
    };
    Some(Envelope::Assign { job_id, pipeline, requirements, deadline_unix_ns })
}

fn read_get_job(x: &Cbor) -> (r: Option<Envelope>)
    ensures
        match r {
            Some(e) => e is GetJob && is_body(Some(x.item()), e),
            None => forall|e: Envelope| e is GetJob ==> !#[trigger] is_body(Some(x.item()), e),
        },
{
    let job_id = match cbor::read_uint(x.part("job_id", 0), u64::MAX) {
        Some(x) => x,
        None => return None,
    };
    Some(Envelope::GetJob { job_id })
}

fn read_job_not_found(x: &Cbor) -> (r: Option<Envelope>)
    ensures
        match r {
            Some(e) => e is JobNotFound && is_body(Some(x.item()), e),
            None => forall|e: Envelope| e is JobNotFound ==> !#[trigger] is_body(Some(x.item()), e),
        },
{
    let job_id = match cbor::read_uint(x.part("job_id", 0), u64::MAX) {
        Some(x) => x,
        None => return None,
    };
    Some(Envelope::JobNotFound { job_id })
}

fn read_log_root(x: &Cbor) -> (r: Option<Envelope>)
    ensures
        match r {
            Some(e) => e is LogRoot && is_body(Some(x.item()), e),
            None => forall|e: Envelope| e is LogRoot ==> !#[trigger] is_body(Some(x.item()), e),
        },
{
    let root = match wire::read_optional_hash(x.part("root", 0)) {
        Some(x) => x,
        None => return None,
    };
    let length = match cbor::read_uint(x.part("length", 1), u64::MAX) {
        Some(x) => x,
        None => return None,
    };
    Some(Envelope::LogRoot { root, length })
}

fn read_admin_hello(x: &Cbor) -> (r: Option<Envelope>)
    ensures
        match r {
            Some(e) => e is AdminHello && is_body(Some(x.item()), e),
            None => forall|e: Envelope| e is AdminHello ==> !#[trigger] is_body(Some(x.item()), e),
        },
{
    let admin_pubkey = match cbor::read_bytes32(x.part("admin_pubkey", 0)) {
        Some(x) => x,
        None => return None,
    };
    let ts_unix_ns = match cbor::read_uint(x.part("ts_unix_ns", 1), u64::MAX) {
        Some(x) => x,
        None => return None,
    };
    let signature = match cbor::read_bytes64(x.part("signature", 2)) {
        Some(x) => x,
        None => return None,
    };
    Some(Envelope::AdminHello { admin_pubkey, ts_unix_ns, signature })
}

fn read_admin_error(x: &Cbor) -> (r: Option<Envelope>)
    ensures
        match r {
            Some(e) => e is AdminError && is_body(Some(x.item()), e),
            None => forall|e: Envelope| e is AdminError ==> !#[trigger] is_body(Some(x.item()), e),
        },
{
    let reason = match cbor::read_text(x.part("reason", 0)) {
        Some(x) => x,
        None => return None,
    };
    Some(Envelope::AdminError { reason })
}

fn read_admin_agent_list(x: &Cbor) -> (r: Option<Envelope>)
    ensures
        match r {
            Some(e) => e is AdminAgentList && is_body(Some(x.item()), e),
            None => forall|e: Envelope| e is AdminAgentList ==> !#[trigger] is_body(Some(x.item()), e),
        },
{
    let entries = match read_agent_record_list(x.part("entries", 0)) {
        Some(x) => x,
        None => return None,
    };
    Some(Envelope::AdminAgentList { entries })
}

fn read_admin_log_root(x: &Cbor) -> (r: Option<Envelope>)
    ensures
        match r {
            Some(e) => e is AdminLogRoot && is_body(Some(x.item()), e),
            None => forall|e: Envelope| e is AdminLogRoot ==> !#[trigger] is_body(Some(x.item()), e),
        },
{
    let root = match wire::read_optional_hash(x.part("root", 0)) {
        Some(x) => x,
        None => return None,
    };
    let length = match cbor::read_uint(x.part("length", 1), u64::MAX) {
        Some(x) => x,
        None => return None,
    };
    Some(Envelope::AdminLogRoot { root, length })
}

fn read_admin_tenant_list(x: &Cbor) -> (r: Option<Envelope>)
    ensures
        match r {
            Some(e) => e is AdminTenantList && is_body(Some(x.item()), e),
            None => forall|e: Envelope| e is AdminTenantList ==> !#[trigger] is_body(Some(x.item()), e),
        },
{
    let entries = match read_tenant_record_list(x.part("entries", 0)) {
        Some(x) => x,
        None => return None,
    };
    Some(Envelope::AdminTenantList { entries })
}

fn read_admin_enroll_agent(x: &Cbor) -> (r: Option<Envelope>)
    ensures
        match r {
            Some(e) => e is AdminEnrollAgent && is_body(Some(x.item()), e),
            None => forall|e: Envelope| e is AdminEnrollAgent ==> !#[trigger] is_body(Some(x.item()), e),
        },
{
    let runner_id = match cbor::read_uint(x.part("runner_id", 0), u64::MAX) {
        Some(x) => x,
        None => return None,
    };
    let signing_fp = match cbor::read_bytes32(x.part("signing_fp", 1)) {
        Some(x) => x,
        None => return None,
    };
    let vrf_fp = match cbor::read_bytes32(x.part("vrf_fp", 2)) {
        Some(x) => x,
        None => return None,
    };
    let enrolled_at_unix_ns = match cbor::read_int(x.part("enrolled_at_unix_ns", 3)) {
        Some(x) => x,
        None => return None,
    };
    let initial_reputation_thousandths = match cbor::read_uint(x.part("initial_reputation_thousandths", 4), 4_294_967_295) {
        Some(x) => x,
        None => return None,
    };
    Some(Envelope::AdminEnrollAgent { runner_id, signing_fp, vrf_fp, enrolled_at_unix_ns, initial_reputation_thousandths: initial_reputation_thousandths as u32 })
}

fn read_admin_revoke_agent(x: &Cbor) -> (r: Option<Envelope>)
    ensures
        match r {
            Some(e) => e is AdminRevokeAgent && is_body(Some(x.item()), e),
            None => forall|e: Envelope| e is AdminRevokeAgent ==> !#[trigger] is_body(Some(x.item()), e),
        },
{
    let runner_id = match cbor::read_uint(x.part("runner_id", 0), u64::MAX) {
        Some(x) => x,
        None => return None,
    };
    Some(Envelope::AdminRevokeAgent { runner_id })
}

fn read_admin_add_tenant(x: &Cbor) -> (r: Option<Envelope>)
    ensures
        match r {
            Some(e) => e is AdminAddTenant && is_body(Some(x.item()), e),
            None => forall|e: Envelope| e is AdminAddTenant ==> !#[trigger] is_body(Some(x.item()), e),
        },
{
    let tenant_id = match cbor::read_uint(x.part("tenant_id", 0), u64::MAX) {
        Some(x) => x,
        None => return None,
    };
    let signing_fp = match cbor::read_bytes32(x.part("signing_fp", 1)) {
        Some(x) => x,
        None => return None,
    };
    let rate_capacity = match cbor::read_uint(x.part("rate_capacity", 2), u64::MAX) {
        Some(x) => x,
        None => return None,
    };
    let rate_refill_per_sec = match cbor::read_uint(x.part("rate_refill_per_sec", 3), u64::MAX) {
        Some(x) => x,
        None => return None,
    };
    let registered_at_unix_ns = match cbor::read_uint(x.part("registered_at_unix_ns", 4), u64::MAX) {
        Some(x) => x,
        None => return None,
    };
    Some(Envelope::AdminAddTenant { tenant_id, signing_fp, rate_capacity, rate_refill_per_sec, registered_at_unix_ns })
}

fn read_admin_revoke_tenant(x: &Cbor) -> (r: Option<Envelope>)
    ensures
        match r {
            Some(e) => e is AdminRevokeTenant && is_body(Some(x.item()), e),
            None => forall|e: Envelope| e is AdminRevokeTenant ==> !#[trigger] is_body(Some(x.item()), e),
        },
{
    let tenant_id = match cbor::read_uint(x.part("tenant_id", 0), u64::MAX) {
        Some(x) => x,
        None => return None,
    };
    Some(Envelope::AdminRevokeTenant { tenant_id })
}

/// Reads a message from a document.
#[must_use]
pub fn from_cbor(doc: &Cbor) -> (r: Option<Envelope>)
    ensures
        match r {
            Some(e) => is_envelope(doc.item(), e),
            None => forall|e: Envelope| !is_envelope(doc.item(), e),
        },
{
    let (name, value) = match doc.choice() {
        Some(c) => c,
        None => return None,
    };
    let kind: u8 = number_of(name.as_str());
    match kind {
        3 => return Some(Envelope::RegisterAck),
        6 => return Some(Envelope::Shutdown),
        8 => return Some(Envelope::GetLogRoot),
        13 => return Some(Envelope::AdminWelcome),
        15 => return Some(Envelope::AdminListAgents),
        17 => return Some(Envelope::AdminGetLogRoot),
        19 => return Some(Envelope::AdminListTenants),
        22 => return Some(Envelope::AdminEnrollAck),
        24 => return Some(Envelope::AdminRevokeAck),
        26 => return Some(Envelope::AdminAddTenantAck),
        28 => return Some(Envelope::AdminRevokeTenantAck),
        _ => {},
    }
    let x = match value {
        Some(x) => x,
        None => return None,
    };
    match kind {
        0 => read_register(x),
        1 => read_vrf_claim(x),
        2 => match read_bundle(x) {
            Some(b) => Some(Envelope::SubmitAttestation(b)),
            None => None,
        },
        4 => read_job_seed(x),
        5 => read_assign(x),
        7 => read_get_job(x),
        9 => match wire::read_job_bundle(x) {
            Some(b) => Some(Envelope::JobBundleResponse(b)),
            None => None,
        },
        10 => read_job_not_found(x),
        11 => read_log_root(x),
        12 => read_admin_hello(x),
        14 => read_admin_error(x),
        16 => read_admin_agent_list(x),
        18 => read_admin_log_root(x),
        20 => read_admin_tenant_list(x),
        21 => read_admin_enroll_agent(x),
        23 => read_admin_revoke_agent(x),
        25 => read_admin_add_tenant(x),
        27 => read_admin_revoke_tenant(x),
        _ => None,
    }
}

#[verifier::spinoff_prover]
#[verifier::rlimit(60)]
proof fn lemma_body_register(v: Envelope, w: Envelope)
    requires
        v is Register,
        w is Register,
    ensures
        cbor::is_plain(body_item(v)->0, 12),
        is_body(body_item(v), v),
        is_body(body_item(v), w) ==> body_item(w) == body_item(v),
{
    reveal_strlit("runner_id");
    reveal_strlit("signing_pubkey");
    reveal_strlit("vrf_pubkey");
    reveal_strlit("vrf_output");
    reveal_strlit("vrf_proof");
    reveal_strlit("stake");
    reveal_strlit("capabilities");
    assert("runner_id"@.len() == 9 && "signing_pubkey"@.len() == 14 && "vrf_pubkey"@.len() == 10 && "vrf_output"@.len() == 10);
    assert("vrf_proof"@.len() == 9 && "stake"@.len() == 5 && "capabilities"@.len() == 12);
    assert("runner_id"@[0] == 'r' && "vrf_output"@[4] == 'o' && "vrf_proof"@[0] == 'v' && "vrf_pubkey"@[4] == 'p');
    match (v, w) {
        (Envelope::Register { runner_id, signing_pubkey, vrf_pubkey, vrf_output, vrf_proof, stake, capabilities }, Envelope::Register { runner_id: runner_id_w, signing_pubkey: signing_pubkey_w, vrf_pubkey: vrf_pubkey_w, vrf_output: vrf_output_w, vrf_proof: vrf_proof_w, stake: stake_w, capabilities: capabilities_w }) => {
            let m = body_item(v)->0->Entries_0;
            assert(m[0] == cbor::field("runner_id"@, Item::Uint(runner_id as nat)));
            assert(m[1] == cbor::field("signing_pubkey"@, cbor::byte_items(signing_pubkey@)));
            assert(m[2] == cbor::field("vrf_pubkey"@, cbor::byte_items(vrf_pubkey@)));
            assert(m[3] == cbor::field("vrf_output"@, cbor::byte_items(vrf_output@)));
            assert(m[4] == cbor::field("vrf_proof"@, cbor::byte_items(vrf_proof@)));
            assert(m[5] == cbor::field("stake"@, Item::Uint(stake as nat)));
            assert(m[6] == cbor::field("capabilities"@, wire::capabilities_item(capabilities)));
            assert(cbor::names_differ(m));
            cbor::lemma_fields(m);
            cbor::lemma_bytes_plain(signing_pubkey@);
            cbor::lemma_bytes_differ(signing_pubkey@, signing_pubkey_w@);
            cbor::lemma_plain_more(m[1].1, 1, 11);
            cbor::lemma_bytes_plain(vrf_pubkey@);
            cbor::lemma_bytes_differ(vrf_pubkey@, vrf_pubkey_w@);
            cbor::lemma_plain_more(m[2].1, 1, 11);
            cbor::lemma_bytes_plain(vrf_output@);
            cbor::lemma_bytes_differ(vrf_output@, vrf_output_w@);
            cbor::lemma_plain_more(m[3].1, 1, 11);
            cbor::lemma_bytes_plain(vrf_proof@);
            cbor::lemma_bytes_differ(vrf_proof@, vrf_proof_w@);
            cbor::lemma_plain_more(m[4].1, 1, 11);
            wire::lemma_capabilities(capabilities, capabilities_w);
            cbor::lemma_plain_more(m[6].1, 2, 11);
            assert forall|i: int| 0 <= i < m.len() implies cbor::is_plain((#[trigger] m[i]).0, 11)
                && cbor::is_plain(m[i].1, 11) by {
                if i == 0 {
                } else if i == 1 {
                } else if i == 2 {
                } else if i == 3 {
                } else if i == 4 {
                } else if i == 5 {
                } else if i == 6 {
                }
            }
            if is_body(body_item(v), w) {
                assert(body_item(w)->0->Entries_0 =~= m);
            }
        },
        _ => {},
    }
}

proof fn lemma_body_vrf_claim(v: Envelope, w: Envelope)
    requires
        v is VrfClaim,
        w is VrfClaim,
    ensures
        cbor::is_plain(body_item(v)->0, 12),
        is_body(body_item(v), v),
        is_body(body_item(v), w) ==> body_item(w) == body_item(v),
{
    reveal_strlit("job_id");
    reveal_strlit("vrf_output");
    reveal_strlit("vrf_proof");
    assert("job_id"@.len() == 6 && "vrf_output"@.len() == 10 && "vrf_proof"@.len() == 9);
    match (v, w) {
        (Envelope::VrfClaim { job_id, vrf_output, vrf_proof }, Envelope::VrfClaim { job_id: job_id_w, vrf_output: vrf_output_w, vrf_proof: vrf_proof_w }) => {
            let m = body_item(v)->0->Entries_0;
            assert(m[0] == cbor::field("job_id"@, Item::Uint(job_id as nat)));
            assert(m[1] == cbor::field("vrf_output"@, cbor::byte_items(vrf_output@)));
            assert(m[2] == cbor::field("vrf_proof"@, cbor::byte_items(vrf_proof@)));
            assert(cbor::names_differ(m));
            cbor::lemma_fields(m);
            cbor::lemma_bytes_plain(vrf_output@);
            cbor::lemma_bytes_differ(vrf_output@, vrf_output_w@);
            cbor::lemma_plain_more(m[1].1, 1, 11);
            cbor::lemma_bytes_plain(vrf_proof@);
            cbor::lemma_bytes_differ(vrf_proof@, vrf_proof_w@);
            cbor::lemma_plain_more(m[2].1, 1, 11);
            assert forall|i: int| 0 <= i < m.len() implies cbor::is_plain((#[trigger] m[i]).0, 11)
                && cbor::is_plain(m[i].1, 11) by {
                if i == 0 {
                } else if i == 1 {
                } else if i == 2 {
                }
            }
            if is_body(body_item(v), w) {
                assert(body_item(w)->0->Entries_0 =~= m);
            }
        },
        _ => {},
    }
}

proof fn lemma_body_submit_attestation(v: Envelope, w: Envelope)
    requires
        v is SubmitAttestation,
        w is SubmitAttestation,
    ensures
        cbor::is_plain(body_item(v)->0, 12),
        is_body(body_item(v), v),
        is_body(body_item(v), w) ==> body_item(w) == body_item(v),
{
    match (v, w) {
        (Envelope::SubmitAttestation(a), Envelope::SubmitAttestation(b)) => {
            lemma_bundle(a, b);
            cbor::lemma_plain_more(bundle_item(a), 5, 12);
        },
        _ => {},
    }
}

proof fn lemma_body_job_seed(v: Envelope, w: Envelope)
    requires
        v is JobSeed,
        w is JobSeed,
    ensures
        cbor::is_plain(body_item(v)->0, 12),
        is_body(body_item(v), v),
        is_body(body_item(v), w) ==> body_item(w) == body_item(v),
{
    reveal_strlit("job_id");
    reveal_strlit("seed");
    assert("job_id"@.len() == 6 && "seed"@.len() == 4);
    match (v, w) {
        (Envelope::JobSeed { job_id, seed }, Envelope::JobSeed { job_id: job_id_w, seed: seed_w }) => {
            let m = body_item(v)->0->Entries_0;
            assert(m[0] == cbor::field("job_id"@, Item::Uint(job_id as nat)));
            assert(m[1] == cbor::field("seed"@, cbor::byte_items(seed@)));
            assert(cbor::names_differ(m));
            cbor::lemma_fields(m);
            cbor::lemma_bytes_plain(seed@);
            cbor::lemma_bytes_differ(seed@, seed_w@);
            cbor::lemma_plain_more(m[1].1, 1, 11);
            assert forall|i: int| 0 <= i < m.len() implies cbor::is_plain((#[trigger] m[i]).0, 11)
                && cbor::is_plain(m[i].1, 11) by {
                if i == 0 {
                } else if i == 1 {
                }
            }
            if is_body(body_item(v), w) {
                assert(body_item(w)->0->Entries_0 =~= m);
            }
        },
        _ => {},
    }
}

proof fn lemma_body_assign(v: Envelope, w: Envelope)
    requires
        v is Assign,
        w is Assign,
    ensures
        cbor::is_plain(body_item(v)->0, 12),
        envelope_is_valid(v) ==> is_body(body_item(v), v),
        envelope_is_valid(v) && is_body(body_item(v), w) ==> body_item(w) == body_item(v),
{
    reveal_strlit("job_id");
    reveal_strlit("pipeline");
    reveal_strlit("requirements");
    reveal_strlit("deadline_unix_ns");
    assert("job_id"@.len() == 6 && "pipeline"@.len() == 8 && "requirements"@.len() == 12 && "deadline_unix_ns"@.len() == 16);
    match (v, w) {
        (Envelope::Assign { job_id, pipeline, requirements, deadline_unix_ns }, Envelope::Assign { job_id: job_id_w, pipeline: pipeline_w, requirements: requirements_w, deadline_unix_ns: deadline_unix_ns_w }) => {
            let m = body_item(v)->0->Entries_0;
            assert(m[0] == cbor::field("job_id"@, Item::Uint(job_id as nat)));
            assert(m[1] == cbor::field("pipeline"@, crate::jobs::pipeline_item(pipeline)));
            assert(m[2] == cbor::field("requirements"@, wire::requirements_item(requirements)));
            assert(m[3] == cbor::field("deadline_unix_ns"@, cbor::int_item(deadline_unix_ns as int)));
            assert(cbor::names_differ(m));
            cbor::lemma_fields(m);
            wire::lemma_pipeline(pipeline, pipeline_w);
            cbor::lemma_plain_more(m[1].1, 9, 11);
            wire::lemma_requirements(requirements, requirements_w);
            cbor::lemma_plain_more(m[2].1, 2, 11);
            assert forall|i: int| 0 <= i < m.len() implies cbor::is_plain((#[trigger] m[i]).0, 11)
                && cbor::is_plain(m[i].1, 11) by {
                if i == 0 {
                } else if i == 1 {
                } else if i == 2 {
                } else if i == 3 {
                }
            }
            if envelope_is_valid(v) && is_body(body_item(v), w) {
                assert(body_item(w)->0->Entries_0 =~= m);
            }
        },
        _ => {},
    }
}

proof fn lemma_body_get_job(v: Envelope, w: Envelope)
    requires
        v is GetJob,
        w is GetJob,
    ensures
        cbor::is_plain(body_item(v)->0, 12),
        is_body(body_item(v), v),
        is_body(body_item(v), w) ==> body_item(w) == body_item(v),
{
    reveal_strlit("job_id");
    assert("job_id"@.len() == 6);
    match (v, w) {
        (Envelope::GetJob { job_id }, Envelope::GetJob { job_id: job_id_w }) => {
            let m = body_item(v)->0->Entries_0;
            assert(m[0] == cbor::field("job_id"@, Item::Uint(job_id as nat)));
            assert(cbor::names_differ(m));
            cbor::lemma_fields(m);

            assert forall|i: int| 0 <= i < m.len() implies cbor::is_plain((#[trigger] m[i]).0, 11)
                && cbor::is_plain(m[i].1, 11) by {
                if i == 0 {
                }
            }
            if is_body(body_item(v), w) {
                assert(body_item(w)->0->Entries_0 =~= m);
            }
        },
        _ => {},
    }
}

proof fn lemma_body_job_bundle_response(v: Envelope, w: Envelope)
    requires
        v is JobBundleResponse,
        w is JobBundleResponse,
    ensures
        cbor::is_plain(body_item(v)->0, 12),
        is_body(body_item(v), v),
        is_body(body_item(v), w) ==> body_item(w) == body_item(v),
{
    match (v, w) {
        (Envelope::JobBundleResponse(a), Envelope::JobBundleResponse(b)) => {
            wire::lemma_job_bundle(a, b);
            cbor::lemma_plain_more(wire::job_bundle_item(a), 4, 12);
        },
        _ => {},
    }
}

proof fn lemma_body_job_not_found(v: Envelope, w: Envelope)
    requires
        v is JobNotFound,
        w is JobNotFound,
    ensures
        cbor::is_plain(body_item(v)->0, 12),
        is_body(body_item(v), v),
        is_body(body_item(v), w) ==> body_item(w) == body_item(v),
{
    reveal_strlit("job_id");
    assert("job_id"@.len() == 6);
    match (v, w) {
        (Envelope::JobNotFound { job_id }, Envelope::JobNotFound { job_id: job_id_w }) => {
            let m = body_item(v)->0->Entries_0;
            assert(m[0] == cbor::field("job_id"@, Item::Uint(job_id as nat)));
            assert(cbor::names_differ(m));
            cbor::lemma_fields(m);

            assert forall|i: int| 0 <= i < m.len() implies cbor::is_plain((#[trigger] m[i]).0, 11)
                && cbor::is_plain(m[i].1, 11) by {
                if i == 0 {
                }
            }
            if is_body(body_item(v), w) {
                assert(body_item(w)->0->Entries_0 =~= m);
            }
        },
        _ => {},
    }
}

proof fn lemma_body_log_root(v: Envelope, w: Envelope)
    requires
        v is LogRoot,
        w is LogRoot,
    ensures
        cbor::is_plain(body_item(v)->0, 12),
        is_body(body_item(v), v),
        is_body(body_item(v), w) ==> body_item(w) == body_item(v),
{
    reveal_strlit("root");
    reveal_strlit("length");
    assert("root"@.len() == 4 && "length"@.len() == 6);
    match (v, w) {
        (Envelope::LogRoot { root, length }, Envelope::LogRoot { root: root_w, length: length_w }) => {
            let m = body_item(v)->0->Entries_0;
            assert(m[0] == cbor::field("root"@, wire::optional_hash_item(root)));
            assert(m[1] == cbor::field("length"@, Item::Uint(length as nat)));
            assert(cbor::names_differ(m));
            cbor::lemma_fields(m);
            wire::lemma_optional_hash(root, root_w);
            cbor::lemma_plain_more(m[0].1, 1, 11);
            assert forall|i: int| 0 <= i < m.len() implies cbor::is_plain((#[trigger] m[i]).0, 11)
                && cbor::is_plain(m[i].1, 11) by {
                if i == 0 {
                } else if i == 1 {
                }
            }
            if is_body(body_item(v), w) {
                assert(body_item(w)->0->Entries_0 =~= m);
            }
        },
        _ => {},
    }
}

proof fn lemma_body_admin_hello(v: Envelope, w: Envelope)
    requires
        v is AdminHello,
        w is AdminHello,
    ensures
        cbor::is_plain(body_item(v)->0, 12),
        is_body(body_item(v), v),
        is_body(body_item(v), w) ==> body_item(w) == body_item(v),
{
    reveal_strlit("admin_pubkey");
    reveal_strlit("ts_unix_ns");
    reveal_strlit("signature");
    assert("admin_pubkey"@.len() == 12 && "ts_unix_ns"@.len() == 10 && "signature"@.len() == 9);
    match (v, w) {
        (Envelope::AdminHello { admin_pubkey, ts_unix_ns, signature }, Envelope::AdminHello { admin_pubkey: admin_pubkey_w, ts_unix_ns: ts_unix_ns_w, signature: signature_w }) => {
            let m = body_item(v)->0->Entries_0;
            assert(m[0] == cbor::field("admin_pubkey"@, cbor::byte_items(admin_pubkey@)));
            assert(m[1] == cbor::field("ts_unix_ns"@, Item::Uint(ts_unix_ns as nat)));
            assert(m[2] == cbor::field("signature"@, cbor::byte_items(signature@)));
            assert(cbor::names_differ(m));
            cbor::lemma_fields(m);
            cbor::lemma_bytes_plain(admin_pubkey@);
            cbor::lemma_bytes_differ(admin_pubkey@, admin_pubkey_w@);
            cbor::lemma_plain_more(m[0].1, 1, 11);
            cbor::lemma_bytes_plain(signature@);
            cbor::lemma_bytes_differ(signature@, signature_w@);
            cbor::lemma_plain_more(m[2].1, 1, 11);
            assert forall|i: int| 0 <= i < m.len() implies cbor::is_plain((#[trigger] m[i]).0, 11)
                && cbor::is_plain(m[i].1, 11) by {
                if i == 0 {
                } else if i == 1 {
                } else if i == 2 {
                }
            }
            if is_body(body_item(v), w) {
                assert(body_item(w)->0->Entries_0 =~= m);
            }
        },
        _ => {},
    }
}

proof fn lemma_body_admin_error(v: Envelope, w: Envelope)
    requires
        v is AdminError,
        w is AdminError,
    ensures
        cbor::is_plain(body_item(v)->0, 12),
        is_body(body_item(v), v),
        is_body(body_item(v), w) ==> body_item(w) == body_item(v),
{
    reveal_strlit("reason");
    assert("reason"@.len() == 6);
    match (v, w) {
        (Envelope::AdminError { reason }, Envelope::AdminError { reason: reason_w }) => {
            let m = body_item(v)->0->Entries_0;
            assert(m[0] == cbor::field("reason"@, Item::Text(reason@)));
            assert(cbor::names_differ(m));
            cbor::lemma_fields(m);

            assert forall|i: int| 0 <= i < m.len() implies cbor::is_plain((#[trigger] m[i]).0, 11)
                && cbor::is_plain(m[i].1, 11) by {
                if i == 0 {
                }
            }
            if is_body(body_item(v), w) {
                assert(body_item(w)->0->Entries_0 =~= m);
            }
        },
        _ => {},
    }
}

proof fn lemma_body_admin_agent_list(v: Envelope, w: Envelope)
    requires
        v is AdminAgentList,
        w is AdminAgentList,
    ensures
        cbor::is_plain(body_item(v)->0, 12),
        is_body(body_item(v), v),
        is_body(body_item(v), w) ==> body_item(w) == body_item(v),
{
    reveal_strlit("entries");
    assert("entries"@.len() == 7);
    match (v, w) {
        (Envelope::AdminAgentList { entries }, Envelope::AdminAgentList { entries: entries_w }) => {
            let m = body_item(v)->0->Entries_0;
            assert(m[0] == cbor::field("entries"@, Item::Array(agent_record_items(entries@))));
            assert(cbor::names_differ(m));
            cbor::lemma_fields(m);
            lemma_agent_record_list(entries@, entries_w@);
            cbor::lemma_plain_more(m[0].1, 3, 11);
            assert forall|i: int| 0 <= i < m.len() implies cbor::is_plain((#[trigger] m[i]).0, 11)
                && cbor::is_plain(m[i].1, 11) by {
                if i == 0 {
                }
            }
            if is_body(body_item(v), w) {
                assert(body_item(w)->0->Entries_0 =~= m);
            }
        },
        _ => {},
    }
}

proof fn lemma_body_admin_log_root(v: Envelope, w: Envelope)
    requires
        v is AdminLogRoot,
        w is AdminLogRoot,
    ensures
        cbor::is_plain(body_item(v)->0, 12),
        is_body(body_item(v), v),
        is_body(body_item(v), w) ==> body_item(w) == body_item(v),
{
    reveal_strlit("root");
    reveal_strlit("length");
    assert("root"@.len() == 4 && "length"@.len() == 6);
    match (v, w) {
        (Envelope::AdminLogRoot { root, length }, Envelope::AdminLogRoot { root: root_w, length: length_w }) => {
            let m = body_item(v)->0->Entries_0;
            assert(m[0] == cbor::field("root"@, wire::optional_hash_item(root)));
            assert(m[1] == cbor::field("length"@, Item::Uint(length as nat)));
            assert(cbor::names_differ(m));
            cbor::lemma_fields(m);
            wire::lemma_optional_hash(root, root_w);
            cbor::lemma_plain_more(m[0].1, 1, 11);
            assert forall|i: int| 0 <= i < m.len() implies cbor::is_plain((#[trigger] m[i]).0, 11)
                && cbor::is_plain(m[i].1, 11) by {
                if i == 0 {
                } else if i == 1 {
                }
            }
            if is_body(body_item(v), w) {
                assert(body_item(w)->0->Entries_0 =~= m);
            }
        },
        _ => {},
    }
}

proof fn lemma_body_admin_tenant_list(v: Envelope, w: Envelope)
    requires
        v is AdminTenantList,
        w is AdminTenantList,
    ensures
        cbor::is_plain(body_item(v)->0, 12),
        is_body(body_item(v), v),
        is_body(body_item(v), w) ==> body_item(w) == body_item(v),
{
    reveal_strlit("entries");
    assert("entries"@.len() == 7);
    match (v, w) {
        (Envelope::AdminTenantList { entries }, Envelope::AdminTenantList { entries: entries_w }) => {
            let m = body_item(v)->0->Entries_0;
            assert(m[0] == cbor::field("entries"@, Item::Array(tenant_record_items(entries@))));
            assert(cbor::names_differ(m));
            cbor::lemma_fields(m);
            lemma_tenant_record_list(entries@, entries_w@);
            cbor::lemma_plain_more(m[0].1, 3, 11);
            assert forall|i: int| 0 <= i < m.len() implies cbor::is_plain((#[trigger] m[i]).0, 11)
                && cbor::is_plain(m[i].1, 11) by {
                if i == 0 {
                }
            }
            if is_body(body_item(v), w) {
                assert(body_item(w)->0->Entries_0 =~= m);
            }
        },
        _ => {},
    }
}

#[verifier::spinoff_prover]
#[verifier::rlimit(60)]
proof fn lemma_body_admin_enroll_agent(v: Envelope, w: Envelope)
    requires
        v is AdminEnrollAgent,
        w is AdminEnrollAgent,
    ensures
        cbor::is_plain(body_item(v)->0, 12),
        is_body(body_item(v), v),
        is_body(body_item(v), w) ==> body_item(w) == body_item(v),
{
    reveal_strlit("runner_id");
    reveal_strlit("signing_fp");
    reveal_strlit("vrf_fp");
    reveal_strlit("enrolled_at_unix_ns");
    reveal_strlit("initial_reputation_thousandths");
    assert("runner_id"@.len() == 9 && "signing_fp"@.len() == 10 && "vrf_fp"@.len() == 6 && "enrolled_at_unix_ns"@.len() == 19);
    assert("initial_reputation_thousandths"@.len() == 30);
    match (v, w) {
        (Envelope::AdminEnrollAgent { runner_id, signing_fp, vrf_fp, enrolled_at_unix_ns, initial_reputation_thousandths }, Envelope::AdminEnrollAgent { runner_id: runner_id_w, signing_fp: signing_fp_w, vrf_fp: vrf_fp_w, enrolled_at_unix_ns: enrolled_at_unix_ns_w, initial_reputation_thousandths: initial_reputation_thousandths_w }) => {
            let m = body_item(v)->0->Entries_0;
            assert(m[0] == cbor::field("runner_id"@, Item::Uint(runner_id as nat)));
            assert(m[1] == cbor::field("signing_fp"@, cbor::byte_items(signing_fp@)));
            assert(m[2] == cbor::field("vrf_fp"@, cbor::byte_items(vrf_fp@)));
            assert(m[3] == cbor::field("enrolled_at_unix_ns"@, cbor::int_item(enrolled_at_unix_ns as int)));
            assert(m[4] == cbor::field("initial_reputation_thousandths"@, Item::Uint(initial_reputation_thousandths as nat)));
            assert(cbor::names_differ(m));
            cbor::lemma_fields(m);
            cbor::lemma_bytes_plain(signing_fp@);
            cbor::lemma_bytes_differ(signing_fp@, signing_fp_w@);
            cbor::lemma_plain_more(m[1].1, 1, 11);
            cbor::lemma_bytes_plain(vrf_fp@);
            cbor::lemma_bytes_differ(vrf_fp@, vrf_fp_w@);
            cbor::lemma_plain_more(m[2].1, 1, 11);
            assert forall|i: int| 0 <= i < m.len() implies cbor::is_plain((#[trigger] m[i]).0, 11)
                && cbor::is_plain(m[i].1, 11) by {
                if i == 0 {
                } else if i == 1 {
                } else if i == 2 {
                } else if i == 3 {
                } else if i == 4 {
                }
            }
            if is_body(body_item(v), w) {
                assert(body_item(w)->0->Entries_0 =~= m);
            }
        },
        _ => {},
    }
}

proof fn lemma_body_admin_revoke_agent(v: Envelope, w: Envelope)
    requires
        v is AdminRevokeAgent,
        w is AdminRevokeAgent,
    ensures
        cbor::is_plain(body_item(v)->0, 12),
        is_body(body_item(v), v),
        is_body(body_item(v), w) ==> body_item(w) == body_item(v),
{
    reveal_strlit("runner_id");
    assert("runner_id"@.len() == 9);
    match (v, w) {
        (Envelope::AdminRevokeAgent { runner_id }, Envelope::AdminRevokeAgent { runner_id: runner_id_w }) => {
            let m = body_item(v)->0->Entries_0;
            assert(m[0] == cbor::field("runner_id"@, Item::Uint(runner_id as nat)));
            assert(cbor::names_differ(m));
            cbor::lemma_fields(m);

            assert forall|i: int| 0 <= i < m.len() implies cbor::is_plain((#[trigger] m[i]).0, 11)
                && cbor::is_plain(m[i].1, 11) by {
                if i == 0 {
                }
            }
            if is_body(body_item(v), w) {
                assert(body_item(w)->0->Entries_0 =~= m);
            }
        },
        _ => {},
    }
}

#[verifier::spinoff_prover]
#[verifier::rlimit(60)]
proof fn lemma_body_admin_add_tenant(v: Envelope, w: Envelope)
    requires
        v is AdminAddTenant,
        w is AdminAddTenant,
    ensures
        cbor::is_plain(body_item(v)->0, 12),
        is_body(body_item(v), v),
        is_body(body_item(v), w) ==> body_item(w) == body_item(v),
{
    reveal_strlit("tenant_id");
    reveal_strlit("signing_fp");
    reveal_strlit("rate_capacity");
    reveal_strlit("rate_refill_per_sec");
    reveal_strlit("registered_at_unix_ns");
    assert("tenant_id"@.len() == 9 && "signing_fp"@.len() == 10 && "rate_capacity"@.len() == 13 && "rate_refill_per_sec"@.len() == 19);
    assert("registered_at_unix_ns"@.len() == 21);
    match (v, w) {
        (Envelope::AdminAddTenant { tenant_id, signing_fp, rate_capacity, rate_refill_per_sec, registered_at_unix_ns }, Envelope::AdminAddTenant { tenant_id: tenant_id_w, signing_fp: signing_fp_w, rate_capacity: rate_capacity_w, rate_refill_per_sec: rate_refill_per_sec_w, registered_at_unix_ns: registered_at_unix_ns_w }) => {
            let m = body_item(v)->0->Entries_0;
            assert(m[0] == cbor::field("tenant_id"@, Item::Uint(tenant_id as nat)));
            assert(m[1] == cbor::field("signing_fp"@, cbor::byte_items(signing_fp@)));
            assert(m[2] == cbor::field("rate_capacity"@, Item::Uint(rate_capacity as nat)));
            assert(m[3] == cbor::field("rate_refill_per_sec"@, Item::Uint(rate_refill_per_sec as nat)));
            assert(m[4] == cbor::field("registered_at_unix_ns"@, Item::Uint(registered_at_unix_ns as nat)));
            assert(cbor::names_differ(m));
            cbor::lemma_fields(m);
            cbor::lemma_bytes_plain(signing_fp@);
            cbor::lemma_bytes_differ(signing_fp@, signing_fp_w@);
            cbor::lemma_plain_more(m[1].1, 1, 11);
            assert forall|i: int| 0 <= i < m.len() implies cbor::is_plain((#[trigger] m[i]).0, 11)
                && cbor::is_plain(m[i].1, 11) by {
                if i == 0 {
                } else if i == 1 {
                } else if i == 2 {
                } else if i == 3 {
                } else if i == 4 {
                }
            }
            if is_body(body_item(v), w) {
                assert(body_item(w)->0->Entries_0 =~= m);
            }
        },
        _ => {},
    }
}

proof fn lemma_body_admin_revoke_tenant(v: Envelope, w: Envelope)
    requires
        v is AdminRevokeTenant,
        w is AdminRevokeTenant,
    ensures
        cbor::is_plain(body_item(v)->0, 12),
        is_body(body_item(v), v),
        is_body(body_item(v), w) ==> body_item(w) == body_item(v),
{
    reveal_strlit("tenant_id");
    assert("tenant_id"@.len() == 9);
    match (v, w) {
        (Envelope::AdminRevokeTenant { tenant_id }, Envelope::AdminRevokeTenant { tenant_id: tenant_id_w }) => {
            let m = body_item(v)->0->Entries_0;
            assert(m[0] == cbor::field("tenant_id"@, Item::Uint(tenant_id as nat)));
            assert(cbor::names_differ(m));
            cbor::lemma_fields(m);

            assert forall|i: int| 0 <= i < m.len() implies cbor::is_plain((#[trigger] m[i]).0, 11)
                && cbor::is_plain(m[i].1, 11) by {
                if i == 0 {
                }
            }
            if is_body(body_item(v), w) {
                assert(body_item(w)->0->Entries_0 =~= m);
            }
        },
        _ => {},
    }
}

/// Whether what a message carries is in order.
pub open spec fn envelope_is_valid(e: Envelope) -> bool {
    match e {
        Envelope::Assign { pipeline, .. } => wire::pipeline_is_valid(pipeline),
        _ => true,
    }
}

proof fn lemma_body(v: Envelope, w: Envelope)
    requires
        kind_of(v) == kind_of(w),
    ensures
        body_item(v) matches Some(b) ==> cbor::is_plain(b, 12),
        envelope_is_valid(v) ==> is_body(body_item(v), v),
        envelope_is_valid(v) && is_body(body_item(v), w) ==> body_item(w) == body_item(v),
{
    match v {
        Envelope::Register { .. } => lemma_body_register(v, w),
        Envelope::VrfClaim { .. } => lemma_body_vrf_claim(v, w),
        Envelope::SubmitAttestation(_) => lemma_body_submit_attestation(v, w),
        Envelope::RegisterAck => {},
        Envelope::JobSeed { .. } => lemma_body_job_seed(v, w),
        Envelope::Assign { .. } => lemma_body_assign(v, w),
        Envelope::Shutdown => {},
        Envelope::GetJob { .. } => lemma_body_get_job(v, w),
        Envelope::GetLogRoot => {},
        Envelope::JobBundleResponse(_) => lemma_body_job_bundle_response(v, w),
        Envelope::JobNotFound { .. } => lemma_body_job_not_found(v, w),
        Envelope::LogRoot { .. } => lemma_body_log_root(v, w),
        Envelope::AdminHello { .. } => lemma_body_admin_hello(v, w),
        Envelope::AdminWelcome => {},
        Envelope::AdminError { .. } => lemma_body_admin_error(v, w),
        Envelope::AdminListAgents => {},
        Envelope::AdminAgentList { .. } => lemma_body_admin_agent_list(v, w),
        Envelope::AdminGetLogRoot => {},
        Envelope::AdminLogRoot { .. } => lemma_body_admin_log_root(v, w),
        Envelope::AdminListTenants => {},
        Envelope::AdminTenantList { .. } => lemma_body_admin_tenant_list(v, w),
        Envelope::AdminEnrollAgent { .. } => lemma_body_admin_enroll_agent(v, w),
        Envelope::AdminEnrollAck => {},
        Envelope::AdminRevokeAgent { .. } => lemma_body_admin_revoke_agent(v, w),
        Envelope::AdminRevokeAck => {},
        Envelope::AdminAddTenant { .. } => lemma_body_admin_add_tenant(v, w),
        Envelope::AdminAddTenantAck => {},
        Envelope::AdminRevokeTenant { .. } => lemma_body_admin_revoke_tenant(v, w),
        Envelope::AdminRevokeTenantAck => {},
    }
}

proof fn lemma_same_kind_same_name(v: Envelope, w: Envelope)
    requires
        kind_of(v) == kind_of(w),
    ensures
        message_name(v) == message_name(w),
{
}

proof fn lemma_message_is_plain(v: Envelope)
    ensures
        cbor::is_plain(envelope_item(v), 64),
{
    lemma_body(v, v);
    match body_item(v) {
        Some(b) => {
            cbor::lemma_choice(message_name(v), b, 12);
            cbor::lemma_plain_more(envelope_item(v), 13, 64);
        },
        None => {},
    }
}

/// A message reads back as it was written: its document is plain, reads as the
/// message, and as no message that would be written otherwise.
pub proof fn law_document_round_trip(v: Envelope, w: Envelope)
    requires
        envelope_is_valid(v),
    ensures
        cbor::is_plain(envelope_item(v), 64),
        is_envelope(envelope_item(v), v),
        is_envelope(envelope_item(v), w) ==> envelope_item(w) == envelope_item(v),
{
    lemma_kind_named(v);
    lemma_body(v, v);
    match body_item(v) {
        Some(b) => {
            cbor::lemma_choice(message_name(v), b, 12);
            cbor::lemma_plain_more(envelope_item(v), 13, 64);
        },
        None => {},
    }
    if is_envelope(envelope_item(v), w) {
        lemma_body(v, w);
        lemma_same_kind_same_name(v, w);
    }
}

// ── Frames ─────────────────────────────────────────────────────────────────
/// A number in four bytes, most significant first.
pub open spec fn be32_of(n: nat) -> Seq<u8> {
    bytes::le_of(n, 4).reverse()
}

/// The number that four bytes write, most significant first.
pub open spec fn be32_value(s: Seq<u8>) -> nat {
    bytes::le_value(s.reverse())
}

/// The frame of a payload: its length, then the payload.
pub open spec fn frame_of(payload: Seq<u8>) -> Seq<u8> {
    be32_of(payload.len()) + payload
}

/// The payload of a message.
pub open spec fn payload_of(e: Envelope) -> Seq<u8> {
    boundary::cbor::encoding_of(envelope_item(e))
}

/// Why a message cannot be written or read.
#[derive(Clone, Debug, PartialEq, Eq)]
pub enum FrameError {
    /// The message is too long to be written; carries the length of its payload.
    TooLong(usize),
    /// The frame declares a payload that is too long; carries the length.
    DeclaredTooLong(usize),
    /// The stream ends before the frame does.
    UnexpectedEnd,
    /// The payload is no message.
    Malformed(String),
}

impl FrameError {
    /// The error in words.
    #[must_use]
    pub fn message(&self) -> (r: String)
        ensures
            r@ == match *self {
                FrameError::TooLong(n) => "envelope "@ + text::decimal_of(n as nat)
                    + " > max 16777216"@,
                FrameError::DeclaredTooLong(n) => "incoming envelope declared "@
                    + text::decimal_of(n as nat) + " bytes > max 16777216"@,
                FrameError::UnexpectedEnd => "failed to fill whole buffer"@,
                FrameError::Malformed(s) => "cbor decode: "@ + s@,
            },
    {
        match self {
            FrameError::TooLong(n) => {
                let mut s = "envelope ".to_owned();
                text::append_decimal(&mut s, *n as u64);
                text::append_str(&mut s, " > max 16777216");
                s
            },
            FrameError::DeclaredTooLong(n) => {
                let mut s = "incoming envelope declared ".to_owned();
                text::append_decimal(&mut s, *n as u64);
                text::append_str(&mut s, " bytes > max 16777216");
                s
            },
            FrameError::UnexpectedEnd => "failed to fill whole buffer".to_owned(),
            FrameError::Malformed(s) => text::joined("cbor decode: ", s.as_str()),
        }
    }
}

/// Append the frame of a payload.
pub fn append_frame(out: &mut Vec<u8>, payload: &[u8])
    requires
        payload@.len() <= MAX_ENVELOPE_BYTES,
    ensures
        final(out)@ == old(out)@ + frame_of(payload@),
{
    let n: usize = payload.len();
    out.push(((n / 16_777_216) % 256) as u8);
    out.push(((n / 65_536) % 256) as u8);
    out.push(((n / 256) % 256) as u8);
    out.push((n % 256) as u8);
    proof {
        let v = n as nat;
        reveal_with_fuel(bytes::le_of, 5);
        assert(v / 256 / 256 == v / 65536);
        assert(v / 256 / 256 / 256 == v / 16777216);
        assert(bytes::le_of(v, 4) =~= seq![
            (v % 256) as u8,
            (v / 256 % 256) as u8,
            (v / 65536 % 256) as u8,
            (v / 16777216 % 256) as u8,
        ]);
        assert(out@ =~= old(out)@ + be32_of(v));
    }
    bytes::append_bytes(out, payload);
    assert(out@ =~= old(out)@ + frame_of(payload@));
}

/// Write a message as `[4 byte BE length][CBOR bytes]`.
///
/// # Errors
///
/// `TooLong` if the encoded message exceeds [`MAX_ENVELOPE_BYTES`]; nothing is
/// written then.
pub fn write_envelope(out: &mut Vec<u8>, env: &Envelope) -> (r: Result<(), FrameError>)
    ensures
        match r {
            Ok(_) => payload_of(*env).len() <= MAX_ENVELOPE_BYTES && final(out)@ == old(out)@
                + frame_of(payload_of(*env)),
            Err(e) => payload_of(*env).len() > MAX_ENVELOPE_BYTES && e == FrameError::TooLong(
                payload_of(*env).len() as usize,
            ) && final(out)@ == old(out)@,
        },
{
    proof {
        lemma_message_is_plain(*env);
        cbor::lemma_plain_is_encodable(envelope_item(*env), 64, 64);
    }
    let buf = boundary::cbor::encode(&to_cbor(env));
    if buf.len() > MAX_ENVELOPE_BYTES {
        return Err(FrameError::TooLong(buf.len()));
    }
    append_frame(out, buf.as_slice());
    Ok(())
}

/// The length that four bytes declare.
///
/// # Errors
///
/// `DeclaredTooLong` if it exceeds [`MAX_ENVELOPE_BYTES`].
pub fn declared_length(prefix: [u8; 4]) -> (r: Result<usize, FrameError>)
    ensures
        match r {
            Ok(n) => n == be32_value(prefix@) && n <= MAX_ENVELOPE_BYTES,
            Err(e) => be32_value(prefix@) > MAX_ENVELOPE_BYTES && e == FrameError::DeclaredTooLong(
                be32_value(prefix@) as usize,
            ),
        },
{
    let n: u32 = ((prefix[0] as u32 * 256 + prefix[1] as u32) * 256 + prefix[2] as u32) * 256
        + prefix[3] as u32;
    proof {
        let s = prefix@.reverse();
        reveal_with_fuel(bytes::le_value, 5);
        assert(s[0] == prefix@[3] && s[1] == prefix@[2] && s[2] == prefix@[1] && s[3]
            == prefix@[0]);
        assert(s.skip(1)[0] == s[1]);
        assert(s.skip(1).skip(1)[0] == s[2]);
        assert(s.skip(1).skip(1).skip(1)[0] == s[3]);
        assert(s.skip(1).skip(1).skip(1).skip(1).len() == 0);
        assert(n == be32_value(prefix@));
    }
    if n > 16_777_216 {
        return Err(FrameError::DeclaredTooLong(n as usize));
    }
    Ok(n as usize)
}

/// What follows the tags that a payload starts with.
pub open spec fn behind_tags(payload: Seq<u8>) -> Seq<u8>
    decreases payload.len(),
{
    let n = tag_length(payload);
    if n == 0 {
        payload
    } else {
        behind_tags(payload.skip(n))
    }
}

/// The length of the tag that a payload starts with; zero where it starts with
/// none.
pub open spec fn tag_length(payload: Seq<u8>) -> int {
    if payload.len() == 0 {
        0
    } else {
        let b = payload[0];
        let n = if 0xc0 <= b <= 0xd7 {
            1int
        } else if b == 0xd8 {
            2int
        } else if b == 0xd9 {
            3int
        } else if b == 0xda {
            5int
        } else if b == 0xdb {
            9int
        } else {
            0int
        };
        if n <= payload.len() {
            n
        } else {
            0
        }
    }
}

/// Whether a payload starts with a text or a map whose length is not given; no
/// message does.
pub open spec fn is_open_ended(payload: Seq<u8>) -> bool {
    let rest = behind_tags(payload);
    rest.len() > 0 && (rest[0] == 0x7f || rest[0] == 0xbf)
}

fn starts_open_ended(payload: &[u8]) -> (r: bool)
    ensures
        r == is_open_ended(payload@),
{
    let mut at: usize = 0;
    assert(payload@.skip(0) =~= payload@);
    while at < payload.len()
        invariant
            at <= payload.len(),
            behind_tags(payload@.skip(at as int)) == behind_tags(payload@),
        decreases payload.len() - at,
    {
        let b: u8 = payload[at];
        let n: usize = if 0xc0 <= b && b <= 0xd7 {
            1
        } else if b == 0xd8 {
            2
        } else if b == 0xd9 {
            3
        } else if b == 0xda {
            5
        } else if b == 0xdb {
            9
        } else {
            0
        };
        let ghost tail = payload@.skip(at as int);
        assert(tail[0] == b);
        if n == 0 || n > payload.len() - at {
            assert(behind_tags(tail) == tail);
            return b == 0x7f || b == 0xbf;
        }
        assert(tail.skip(n as int) =~= payload@.skip(at + n));
        at = at + n;
    }
    assert(payload@.skip(at as int).len() == 0);
    false
}

/// What is said of a document that is no message.
pub open spec fn fault_of(item: Item) -> Seq<char> {
    match cbor::choice_of(item) {
        None => "not a message"@,
        Some((name, _)) => if kind_named(name) == 29 {
            "unknown message "@ + name
        } else {
            "malformed "@ + name
        },
    }
}

fn fault_in(doc: &Cbor) -> (r: String)
    ensures
        r@ == fault_of(doc.item()),
{
    match doc.choice() {
        None => "not a message".to_owned(),
        Some((name, _)) => if number_of(name.as_str()) == 29 {
            text::joined("unknown message ", name.as_str())
        } else {
            text::joined("malformed ", name.as_str())
        },
    }
}

/// Whether a payload, which encodes this document, is this message: tags say
/// nothing.
pub open spec fn is_message(payload: Seq<u8>, doc: Item, e: Envelope) -> bool {
    !is_open_ended(payload) && is_envelope(cbor::untagged(doc), e)
}

/// Whether a payload reads as a message, or not.
pub open spec fn reads(payload: Seq<u8>, r: Result<Envelope, FrameError>) -> bool {
    match boundary::cbor::document_of(payload) {
        Err(cause) => r matches Err(FrameError::Malformed(s)) && s@ == cause,
        Ok(doc) => match r {
            Ok(e) => is_message(payload, doc, e),
            Err(f) => (forall|e: Envelope| !is_message(payload, doc, e)) && (
            f matches FrameError::Malformed(s) && s@ == fault_of(cbor::untagged(doc))),
        },
    }
}

/// Whether the payload of a message reads as a message that is written alike.
pub open spec fn gives_back(payload: Seq<u8>, r: Result<Envelope, FrameError>) -> bool {
    forall|e: Envelope|
        envelope_is_valid(e) && payload == #[trigger] payload_of(e) ==> r is Ok && envelope_item(
            r->Ok_0,
        ) == envelope_item(e)
}

/// Read a message from a payload.
///
/// # Errors
///
/// `Malformed` where the payload is no CBOR document, or the document no message.
/// What a message was encoded to reads back as a message that is written alike.
/// Of what is inside a payload, the document does not show whether a length was
/// given: a name or a choice there may be open-ended.
pub fn decode_payload(payload: &[u8]) -> (r: Result<Envelope, FrameError>)
    ensures
        reads(payload@, r),
        gives_back(payload@, r),
{
    match boundary::cbor::decode(payload) {
        Err(e) => {
            proof {
                assert forall|v: Envelope|
                    envelope_is_valid(v) && payload@ == #[trigger] payload_of(v) implies false by {
                    law_document_round_trip(v, v);
                }
            }
            Err(FrameError::Malformed(e))
        },
        Ok(doc) => {
            let ghost item = doc.item();
            let bare = cbor::without_tags(&doc);
            if starts_open_ended(payload) {
                proof {
                    assert forall|v: Envelope|
                        envelope_is_valid(v) && payload@ == #[trigger] payload_of(
                            v,
                        ) implies false by {
                        law_document_round_trip(v, v);
                        assert(boundary::cbor::starts_as(payload@, envelope_item(v)));
                        assert(tag_length(payload@) == 0);
                    }
                }
                return Err(FrameError::Malformed(fault_in(&bare)));
            }
            match from_cbor(&bare) {
                Some(e) => {
                    proof {
                        assert forall|v: Envelope|
                            envelope_is_valid(v) && payload@ == #[trigger] payload_of(
                                v,
                            ) implies envelope_item(e) == envelope_item(v) by {
                            law_document_round_trip(v, e);
                            assert(item == envelope_item(v));
                            cbor::lemma_plain_has_no_tags(item, 64);
                        }
                    }
                    Ok(e)
                },
                None => {
                    proof {
                        assert forall|v: Envelope|
                            envelope_is_valid(v) && payload@ == #[trigger] payload_of(
                                v,
                            ) implies false by {
                            law_document_round_trip(v, v);
                            assert(item == envelope_item(v));
                            cbor::lemma_plain_has_no_tags(item, 64);
                        }
                    }
                    Err(FrameError::Malformed(fault_in(&bare)))
                },
            }
        },
    }
}

/// The payload of the first frame of a stream, and how far the frame reaches.
///
/// # Errors
///
/// `DeclaredTooLong` and `UnexpectedEnd`, in the order in which the stream shows
/// them.
pub fn first_frame(stream: &[u8]) -> (r: Result<(Vec<u8>, usize), FrameError>)
    ensures
        ({
            let n = be32_value(stream@.take(4)) as int;
            match r {
                Ok(f) => stream@.len() >= 4 && n <= MAX_ENVELOPE_BYTES && 4 + n <= stream@.len()
                    && f.1 == 4 + n && f.0@ == stream@.subrange(4, 4 + n),
                Err(e) => if stream@.len() < 4 {
                    e == FrameError::UnexpectedEnd
                } else if n > MAX_ENVELOPE_BYTES {
                    e == FrameError::DeclaredTooLong(n as usize)
                } else {
                    4 + n > stream@.len() && e == FrameError::UnexpectedEnd
                },
            }
        }),
{
    if stream.len() < 4 {
        return Err(FrameError::UnexpectedEnd);
    }
    let prefix: [u8; 4] = [stream[0], stream[1], stream[2], stream[3]];
    assert(prefix@ =~= stream@.take(4));
    let n: usize = match declared_length(prefix) {
        Ok(n) => n,
        Err(e) => return Err(e),
    };
    if stream.len() - 4 < n {
        return Err(FrameError::UnexpectedEnd);
    }
    let part = vstd::slice::slice_subrange(stream, 4, 4 + n);
    Ok((bytes::copy_bytes(part), 4 + n))
}

/// Whether reading a stream gives this result: the first frame's message and its
/// length, or what is wrong with the frame.
pub open spec fn takes_message(stream: Seq<u8>, r: Result<(Envelope, usize), FrameError>) -> bool {
    let n = be32_value(stream.take(4)) as int;
    if stream.len() < 4 {
        r == Err::<(Envelope, usize), FrameError>(FrameError::UnexpectedEnd)
    } else if n > MAX_ENVELOPE_BYTES {
        r == Err::<(Envelope, usize), FrameError>(FrameError::DeclaredTooLong(n as usize))
    } else if 4 + n > stream.len() {
        r == Err::<(Envelope, usize), FrameError>(FrameError::UnexpectedEnd)
    } else {
        let payload = stream.subrange(4, 4 + n);
        match r {
            Ok(f) => f.1 == 4 + n && reads(payload, Ok(f.0)) && gives_back(payload, Ok(f.0)),
            Err(e) => reads(payload, Err(e)) && gives_back(payload, Err(e)),
        }
    }
}

/// Read a single message from the start of a stream: the message, and how many
/// bytes it took.
///
/// # Errors
///
/// Where the stream ends early, the frame declares more than
/// [`MAX_ENVELOPE_BYTES`], or its payload is no message.
pub fn read_envelope(stream: &[u8]) -> (r: Result<(Envelope, usize), FrameError>)
    ensures
        takes_message(stream@, r),
{
    let (payload, taken) = match first_frame(stream) {
        Ok(f) => f,
        Err(e) => return Err(e),
    };
    match decode_payload(payload.as_slice()) {
        Ok(e) => Ok((e, taken)),
        Err(e) => Err(e),
    }
}

// ── Laws ───────────────────────────────────────────────────────────────────
proof fn lemma_be32(n: nat)
    requires
        n <= MAX_ENVELOPE_BYTES,
    ensures
        be32_of(n).len() == 4,
        be32_value(be32_of(n)) == n,
{
    bytes::law_le_round_trip(n, 4);
    reveal(vstd::arithmetic::power::pow);
    reveal_with_fuel(vstd::arithmetic::power::pow, 5);
    let s = bytes::le_of(n, 4);
    assert(s.reverse().reverse() =~= s);
}

/// A frame at the start of a stream is taken off whole, whatever follows it.
pub proof fn law_frame_round_trip(payload: Seq<u8>, rest: Seq<u8>)
    requires
        payload.len() <= MAX_ENVELOPE_BYTES,
    ensures
        ({
            let stream = frame_of(payload) + rest;
            let n = be32_value(stream.take(4)) as int;
            &&& stream.len() >= 4
            &&& n == payload.len()
            &&& stream.subrange(4, 4 + n) == payload
            &&& stream.skip(4 + n) == rest
        }),
{
    lemma_be32(payload.len());
    let stream = frame_of(payload) + rest;
    assert(stream.take(4) =~= be32_of(payload.len()));
    assert(stream.subrange(4, 4 + payload.len() as int) =~= payload);
    assert(stream.skip(4 + payload.len() as int) =~= rest);
}

/// What was written is read back: from a stream that starts with the frame of a
/// message, the message comes back, written as it was, and the rest is left.
pub proof fn law_message_round_trip(
    e: Envelope,
    rest: Seq<u8>,
    r: Result<(Envelope, usize), FrameError>,
)
    requires
        envelope_is_valid(e),
        payload_of(e).len() <= MAX_ENVELOPE_BYTES,
        takes_message(frame_of(payload_of(e)) + rest, r),
    ensures
        r is Ok,
        envelope_item(r->Ok_0.0) == envelope_item(e),
        (frame_of(payload_of(e)) + rest).skip(r->Ok_0.1 as int) == rest,
{
    lemma_be32(payload_of(e).len());
    law_frame_round_trip(payload_of(e), rest);
}

/// A stream that ends inside a frame never reads as that frame.
pub proof fn law_truncated_frame_is_short(payload: Seq<u8>, n: int)
    requires
        payload.len() <= MAX_ENVELOPE_BYTES,
        0 <= n < 4 + payload.len(),
    ensures
        ({
            let stream = frame_of(payload).take(n);
            stream.len() < 4 || 4 + be32_value(stream.take(4)) > stream.len()
        }),
{
    lemma_be32(payload.len());
    let stream = frame_of(payload).take(n);
    if n >= 4 {
        assert(stream.take(4) =~= be32_of(payload.len()));
    }
}

/// Frames do not run into each other: of two messages one after the other, the
/// first reads as the first and leaves the second.
pub proof fn law_frames_do_not_overlap(a: Seq<u8>, b: Seq<u8>)
    requires
        a.len() <= MAX_ENVELOPE_BYTES,
        b.len() <= MAX_ENVELOPE_BYTES,
    ensures
        ({
            let stream = frame_of(a) + frame_of(b);
            let n = be32_value(stream.take(4)) as int;
            stream.subrange(4, 4 + n) == a && stream.skip(4 + n) == frame_of(b)
        }),
{
    law_frame_round_trip(a, frame_of(b));
}

/// Messages with one document are of one kind.
pub proof fn law_document_tells_the_kind(v: Envelope, w: Envelope)
    requires
        envelope_item(v) == envelope_item(w),
    ensures
        kind_of(v) == kind_of(w),
        body_item(v) == body_item(w),
{
    lemma_kind_named(v);
    lemma_kind_named(w);
    if let Some(x) = body_item(v) {
        let p = cbor::field(message_name(v), x);
        assert(envelope_item(v) == Item::Entries(seq![p]));
        if let Some(y) = body_item(w) {
            let q = cbor::field(message_name(w), y);
            assert(envelope_item(w) == Item::Entries(seq![q]));
            assert(seq![p][0] == seq![q][0]);
        }
    }
}

/// A registration's document carries every part of it.
pub proof fn law_registration_document_carries_every_part(v: Envelope, w: Envelope)
    requires
        v is Register,
        envelope_item(v) == envelope_item(w),
    ensures
        w is Register,
        v->Register_runner_id == w->Register_runner_id,
        v->signing_pubkey@ == w->signing_pubkey@,
        v->vrf_pubkey@ == w->vrf_pubkey@,
        v->Register_vrf_output@ == w->Register_vrf_output@,
        v->Register_vrf_proof@ == w->Register_vrf_proof@,
        v->stake == w->stake,
        wire::capabilities_item(v->capabilities) == wire::capabilities_item(w->capabilities),
{
    law_document_tells_the_kind(v, w);
    let (m, n) = (body_item(v)->0->Entries_0, body_item(w)->0->Entries_0);
    assert(m[0].1 == n[0].1 && m[1].1 == n[1].1 && m[2].1 == n[2].1 && m[3].1 == n[3].1);
    assert(m[4].1 == n[4].1 && m[5].1 == n[5].1 && m[6].1 == n[6].1);
    cbor::lemma_bytes_differ(v->signing_pubkey@, w->signing_pubkey@);
    cbor::lemma_bytes_differ(v->vrf_pubkey@, w->vrf_pubkey@);
    cbor::lemma_bytes_differ(v->Register_vrf_output@, w->Register_vrf_output@);
    cbor::lemma_bytes_differ(v->Register_vrf_proof@, w->Register_vrf_proof@);
}

/// The documents of a job's messages carry every part of them.
pub proof fn law_job_documents_carry_every_part(v: Envelope, w: Envelope)
    requires
        envelope_item(v) == envelope_item(w),
    ensures
        v is VrfClaim ==> w is VrfClaim && v->VrfClaim_job_id == w->VrfClaim_job_id
            && v->VrfClaim_vrf_output@ == w->VrfClaim_vrf_output@ && v->VrfClaim_vrf_proof@
            == w->VrfClaim_vrf_proof@,
        v is JobSeed ==> w is JobSeed && v->JobSeed_job_id == w->JobSeed_job_id && v->seed@
            == w->seed@,
        v is Assign ==> w is Assign && v->Assign_job_id == w->Assign_job_id
            && v->deadline_unix_ns == w->deadline_unix_ns && crate::jobs::pipeline_item(
            v->pipeline,
        ) == crate::jobs::pipeline_item(w->pipeline) && wire::requirements_item(v->requirements)
            == wire::requirements_item(w->requirements),
        v is GetJob ==> w is GetJob && v->GetJob_job_id == w->GetJob_job_id,
        v is JobNotFound ==> w is JobNotFound && v->JobNotFound_job_id == w->JobNotFound_job_id,
        v is JobBundleResponse ==> w is JobBundleResponse && wire::job_bundle_item(
            v->JobBundleResponse_0,
        ) == wire::job_bundle_item(w->JobBundleResponse_0),
        v is LogRoot ==> w is LogRoot && v->LogRoot_length == w->LogRoot_length && (
        v->LogRoot_root is Some <==> w->LogRoot_root is Some) && (v->LogRoot_root is Some
            ==> v->LogRoot_root->0@ == w->LogRoot_root->0@),
{
    law_document_tells_the_kind(v, w);
    let (m, n) = (body_item(v)->0->Entries_0, body_item(w)->0->Entries_0);
    assert(m[0].1 == n[0].1 && m[1].1 == n[1].1 && m[2].1 == n[2].1 && m[3].1 == n[3].1);
    if v is VrfClaim {
        cbor::lemma_bytes_differ(v->VrfClaim_vrf_output@, w->VrfClaim_vrf_output@);
        cbor::lemma_bytes_differ(v->VrfClaim_vrf_proof@, w->VrfClaim_vrf_proof@);
    }
    if v is JobSeed {
        cbor::lemma_bytes_differ(v->seed@, w->seed@);
    }
    if v is LogRoot {
        if v->LogRoot_root is Some && w->LogRoot_root is Some {
            cbor::lemma_bytes_differ(v->LogRoot_root->0@, w->LogRoot_root->0@);
        }
    }
}

/// The document of a submitted attestation carries the attestation and every
/// captured output, in order.
pub proof fn law_submission_document_carries_every_part(v: Envelope, w: Envelope, i: int)
    requires
        v is SubmitAttestation,
        envelope_item(v) == envelope_item(w),
    ensures
        w is SubmitAttestation,
        crate::attestation::attestation_item(v->SubmitAttestation_0.attestation)
            == crate::attestation::attestation_item(w->SubmitAttestation_0.attestation),
        v->SubmitAttestation_0.captures@.len() == w->SubmitAttestation_0.captures@.len(),
        0 <= i < v->SubmitAttestation_0.captures@.len() ==> wire::captured_output_item(
            v->SubmitAttestation_0.captures@[i],
        ) == wire::captured_output_item(w->SubmitAttestation_0.captures@[i]),
{
    law_document_tells_the_kind(v, w);
    let (a, b) = (v->SubmitAttestation_0, w->SubmitAttestation_0);
    let (m, n) = (bundle_item(a)->Entries_0, bundle_item(b)->Entries_0);
    assert(m == n && m.len() == n.len());
    assert(m[0].1 == n[0].1);
    if a.captures@.len() > 0 {
        assert(m[1].1 == n[1].1);
        let (x, y) = (
            wire::captured_output_items(a.captures@),
            wire::captured_output_items(b.captures@),
        );
        assert(x == y);
        assert(x.len() == a.captures@.len() && y.len() == b.captures@.len());
        if 0 <= i < x.len() {
            assert(x[i] == y[i]);
        }
    }
}

/// The documents of an administrator's messages carry every part of them.
pub proof fn law_admin_documents_carry_every_part(v: Envelope, w: Envelope)
    requires
        envelope_item(v) == envelope_item(w),
    ensures
        v is AdminHello ==> w is AdminHello && v->admin_pubkey@ == w->admin_pubkey@
            && v->ts_unix_ns == w->ts_unix_ns && v->signature@ == w->signature@,
        v is AdminError ==> w is AdminError && v->reason@ == w->reason@,
        v is AdminLogRoot ==> w is AdminLogRoot && v->AdminLogRoot_length
            == w->AdminLogRoot_length && (v->AdminLogRoot_root is Some
            <==> w->AdminLogRoot_root is Some) && (v->AdminLogRoot_root is Some
            ==> v->AdminLogRoot_root->0@ == w->AdminLogRoot_root->0@),
        v is AdminEnrollAgent ==> w is AdminEnrollAgent && v->AdminEnrollAgent_runner_id
            == w->AdminEnrollAgent_runner_id && v->AdminEnrollAgent_signing_fp@
            == w->AdminEnrollAgent_signing_fp@ && v->vrf_fp@ == w->vrf_fp@
            && v->enrolled_at_unix_ns == w->enrolled_at_unix_ns
            && v->initial_reputation_thousandths == w->initial_reputation_thousandths,
        v is AdminRevokeAgent ==> w is AdminRevokeAgent && v->AdminRevokeAgent_runner_id
            == w->AdminRevokeAgent_runner_id,
        v is AdminAddTenant ==> w is AdminAddTenant && v->AdminAddTenant_tenant_id
            == w->AdminAddTenant_tenant_id && v->AdminAddTenant_signing_fp@
            == w->AdminAddTenant_signing_fp@ && v->rate_capacity == w->rate_capacity
            && v->rate_refill_per_sec == w->rate_refill_per_sec && v->registered_at_unix_ns
            == w->registered_at_unix_ns,
        v is AdminRevokeTenant ==> w is AdminRevokeTenant && v->AdminRevokeTenant_tenant_id
            == w->AdminRevokeTenant_tenant_id,
{
    law_document_tells_the_kind(v, w);
    let (m, n) = (body_item(v)->0->Entries_0, body_item(w)->0->Entries_0);
    assert(m[0].1 == n[0].1 && m[1].1 == n[1].1 && m[2].1 == n[2].1 && m[3].1 == n[3].1);
    assert(m[4].1 == n[4].1);
    if v is AdminHello {
        cbor::lemma_bytes_differ(v->admin_pubkey@, w->admin_pubkey@);
        cbor::lemma_bytes_differ(v->signature@, w->signature@);
    }
    if v is AdminLogRoot {
        if v->AdminLogRoot_root is Some && w->AdminLogRoot_root is Some {
            cbor::lemma_bytes_differ(v->AdminLogRoot_root->0@, w->AdminLogRoot_root->0@);
        }
    }
    if v is AdminEnrollAgent {
        cbor::lemma_bytes_differ(v->AdminEnrollAgent_signing_fp@, w->AdminEnrollAgent_signing_fp@);
        cbor::lemma_bytes_differ(v->vrf_fp@, w->vrf_fp@);
    }
    if v is AdminAddTenant {
        cbor::lemma_bytes_differ(v->AdminAddTenant_signing_fp@, w->AdminAddTenant_signing_fp@);
    }
}

/// The documents of the lists carry every row, in order, in every part.
pub proof fn law_list_documents_carry_every_row(v: Envelope, w: Envelope, i: int)
    requires
        envelope_item(v) == envelope_item(w),
    ensures
        v is AdminAgentList ==> {
            &&& w is AdminAgentList
            &&& v->AdminAgentList_entries@.len() == w->AdminAgentList_entries@.len()
            &&& 0 <= i < v->AdminAgentList_entries@.len() ==> {
                let (a, b) = (v->AdminAgentList_entries@[i], w->AdminAgentList_entries@[i]);
                a.runner_id == b.runner_id && a.signing_fp@ == b.signing_fp@ && a.vrf_fp@
                    == b.vrf_fp@ && a.enrolled_at_unix_ns == b.enrolled_at_unix_ns
                    && a.initial_reputation_thousandths == b.initial_reputation_thousandths
            }
        },
        v is AdminTenantList ==> {
            &&& w is AdminTenantList
            &&& v->AdminTenantList_entries@.len() == w->AdminTenantList_entries@.len()
            &&& 0 <= i < v->AdminTenantList_entries@.len() ==> {
                let (a, b) = (v->AdminTenantList_entries@[i], w->AdminTenantList_entries@[i]);
                a.tenant_id == b.tenant_id && a.signing_fp@ == b.signing_fp@ && a.rate_capacity
                    == b.rate_capacity && a.rate_refill_per_sec == b.rate_refill_per_sec
                    && a.registered_at_unix_ns == b.registered_at_unix_ns
            }
        },
{
    law_document_tells_the_kind(v, w);
    let (m, n) = (body_item(v)->0->Entries_0, body_item(w)->0->Entries_0);
    assert(m[0].1 == n[0].1);
    if v is AdminAgentList {
        let (s, t) = (v->AdminAgentList_entries@, w->AdminAgentList_entries@);
        let (x, y) = (agent_record_items(s), agent_record_items(t));
        assert(x == y);
        assert(x.len() == s.len() && y.len() == t.len());
        if 0 <= i < s.len() {
            assert(x[i] == y[i]);
            let (p, q) = (x[i]->Entries_0, y[i]->Entries_0);
            assert(p[0].1 == q[0].1 && p[1].1 == q[1].1 && p[2].1 == q[2].1);
            assert(p[3].1 == q[3].1 && p[4].1 == q[4].1);
            cbor::lemma_bytes_differ(s[i].signing_fp@, t[i].signing_fp@);
            cbor::lemma_bytes_differ(s[i].vrf_fp@, t[i].vrf_fp@);
        }
    }
    if v is AdminTenantList {
        let (s, t) = (v->AdminTenantList_entries@, w->AdminTenantList_entries@);
        let (x, y) = (tenant_record_items(s), tenant_record_items(t));
        assert(x == y);
        assert(x.len() == s.len() && y.len() == t.len());
        if 0 <= i < s.len() {
            assert(x[i] == y[i]);
            let (p, q) = (x[i]->Entries_0, y[i]->Entries_0);
            assert(p[0].1 == q[0].1 && p[1].1 == q[1].1 && p[2].1 == q[2].1);
            assert(p[3].1 == q[3].1 && p[4].1 == q[4].1);
            cbor::lemma_bytes_differ(s[i].signing_fp@, t[i].signing_fp@);
        }
    }
}

/// The length of a frame is written with the highest byte first.
pub proof fn law_length_is_big_endian(a: u8, b: u8, c: u8, d: u8)
    ensures
        be32_value(seq![a, b, c, d]) == 0x100_0000 * a + 0x1_0000 * b + 0x100 * c + d,
        be32_of(be32_value(seq![a, b, c, d])) == seq![a, b, c, d],
{
    let s = seq![a, b, c, d].reverse();
    assert(s =~= seq![d, c, b, a]);
    assert(s.skip(1) =~= seq![c, b, a]);
    assert(s.skip(1).skip(1) =~= seq![b, a]);
    assert(s.skip(1).skip(1).skip(1) =~= seq![a]);
    reveal_with_fuel(bytes::le_value, 5);
    let n = bytes::le_value(s);
    assert(n == d + 256 * (c + 256 * (b + 256 * (a as nat))));
    let t = bytes::le_of(n, 4);
    lemma_be32_bound(n);
    bytes::law_le_round_trip(n, 4);
    bytes::lemma_le_value_tells_apart(t, s);
    assert(t.reverse() =~= seq![a, b, c, d]);
}

proof fn lemma_be32_bound(n: nat)
    requires
        n < 0x1_0000_0000,
    ensures
        n < vstd::arithmetic::power::pow(256, 4),
{
    reveal(vstd::arithmetic::power::pow);
    reveal_with_fuel(vstd::arithmetic::power::pow, 5);
}

/// Tags at the start of a payload are passed over, with what they carry, and
/// nothing else is.
pub proof fn law_tags_are_passed_over(head: Seq<u8>, rest: Seq<u8>)
    requires
        head.len() > 0,
    ensures
        0xc0 <= head[0] <= 0xd7 && head.len() == 1 || head[0] == 0xd8 && head.len() == 2 || head[0]
            == 0xd9 && head.len() == 3 || head[0] == 0xda && head.len() == 5 || head[0] == 0xdb
            && head.len() == 9 ==> behind_tags(head + rest) == behind_tags(rest),
        !(0xc0 <= head[0] <= 0xdb) ==> behind_tags(head + rest) == head + rest,
        behind_tags(Seq::empty()).len() == 0,
        is_open_ended(rest) <==> behind_tags(rest).len() > 0 && (behind_tags(rest)[0] == 0x7f
            || behind_tags(rest)[0] == 0xbf),
{
    let all = head + rest;
    assert(all[0] == head[0]);
    assert(all.skip(head.len() as int) =~= rest);
}

/// The parts of a runner's messages stand under their names.
pub proof fn law_runner_messages_name_their_parts(v: Envelope)
    requires
        envelope_is_valid(v),
    ensures
        v is Register ==> {
            let x = body_item(v)->0;
            &&& envelope_item(v) == cbor::choice("Register"@, x)
            &&& cbor::field_of(x, "runner_id"@) == Some(Item::Uint(v->Register_runner_id as nat))
            &&& cbor::field_of(x, "signing_pubkey"@) == Some(cbor::byte_items(v->signing_pubkey@))
            &&& cbor::field_of(x, "vrf_pubkey"@) == Some(cbor::byte_items(v->vrf_pubkey@))
            &&& cbor::field_of(x, "vrf_output"@) == Some(
                cbor::byte_items(v->Register_vrf_output@),
            )
            &&& cbor::field_of(x, "vrf_proof"@) == Some(cbor::byte_items(v->Register_vrf_proof@))
            &&& cbor::field_of(x, "stake"@) == Some(Item::Uint(v->stake as nat))
        },
        v is VrfClaim ==> {
            let x = body_item(v)->0;
            &&& envelope_item(v) == cbor::choice("VrfClaim"@, x)
            &&& cbor::field_of(x, "job_id"@) == Some(Item::Uint(v->VrfClaim_job_id as nat))
            &&& cbor::field_of(x, "vrf_output"@) == Some(
                cbor::byte_items(v->VrfClaim_vrf_output@),
            )
            &&& cbor::field_of(x, "vrf_proof"@) == Some(cbor::byte_items(v->VrfClaim_vrf_proof@))
        },
{
    law_document_round_trip(v, v);
    if v is Register || v is VrfClaim {
        let x = body_item(v)->0;
        cbor::law_choice_is_read(message_name(v), x, Seq::empty());
        assert(is_body(Some(x), v));
        lemma_no_raw_bytes(x);
    }
}

/// The parts of a coordinator's messages stand under their names.
pub proof fn law_coordinator_messages_name_their_parts(v: Envelope)
    requires
        envelope_is_valid(v),
    ensures
        v is JobSeed ==> {
            let x = body_item(v)->0;
            &&& envelope_item(v) == cbor::choice("JobSeed"@, x)
            &&& cbor::field_of(x, "job_id"@) == Some(Item::Uint(v->JobSeed_job_id as nat))
            &&& cbor::field_of(x, "seed"@) == Some(cbor::byte_items(v->seed@))
        },
        v is Assign ==> {
            let x = body_item(v)->0;
            &&& envelope_item(v) == cbor::choice("Assign"@, x)
            &&& cbor::field_of(x, "job_id"@) == Some(Item::Uint(v->Assign_job_id as nat))
            &&& cbor::field_of(x, "deadline_unix_ns"@) == Some(
                cbor::int_item(v->deadline_unix_ns as int),
            )
        },
        v is GetJob ==> {
            let x = body_item(v)->0;
            &&& envelope_item(v) == cbor::choice("GetJob"@, x)
            &&& cbor::field_of(x, "job_id"@) == Some(Item::Uint(v->GetJob_job_id as nat))
        },
        v is RegisterAck ==> envelope_item(v) == Item::Text("RegisterAck"@),
        v is Shutdown ==> envelope_item(v) == Item::Text("Shutdown"@),
        v is GetLogRoot ==> envelope_item(v) == Item::Text("GetLogRoot"@),
{
    law_document_round_trip(v, v);
    if v is JobSeed || v is Assign || v is GetJob {
        let x = body_item(v)->0;
        cbor::law_choice_is_read(message_name(v), x, Seq::empty());
        assert(is_body(Some(x), v));
        lemma_no_raw_bytes(x);
    }
}

/// A field of a map is one of its values.
proof fn lemma_no_raw_bytes(x: Item)
    requires
        x is Entries,
        forall|i: int| 0 <= i < x->Entries_0.len() ==> !((#[trigger] x->Entries_0[i]).1 is Bytes),
    ensures
        forall|name: Seq<char>|
            (#[trigger] cbor::field_of(x, name)) is Some ==> !(cbor::field_of(x, name)->0 is Bytes),
{
    assert forall|name: Seq<char>| (#[trigger] cbor::field_of(x, name)) is Some implies !(
    cbor::field_of(x, name)->0 is Bytes) by {
        let m = x->Entries_0;
        let n = cbor::field_at(m, name) as int;
        if cbor::field_of(x, name) == Some(m[n].1) && 0 <= n < m.len() {
            assert(!(m[n].1 is Bytes));
        }
    }
}

} // verus!
