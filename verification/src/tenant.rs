//! Tenant registry: tenant identity + per-tenant rate quota persisted
//! alongside the agent enrollment file.
//!
//! A *tenant* is an external identity authorized to submit jobs to the
//! coordinator. The file holds one record per line, whitespace-separated,
//! with `#`-prefixed comments:
//!
//! ```text
//! # tenant_id  signing_fp_hex  capacity refill_per_sec  registered_at_unix_ns
//! 1            abcd…           100      10              1700000000000000000
//! ```
//!
//! It stores the *fingerprint* of the signing pubkey (SHA-256), not the raw
//! pubkey. The submission carries the raw pubkey alongside the signature.

use crate::boundary::sha::sha256;
use crate::maps::sorted_keys_of;
use crate::text;
use std::collections::HashMap;
use vstd::prelude::*;

verus! {

broadcast use vstd::std_specs::hash::group_hash_axioms;

/// Tenant identity used as the rate-limit key.
pub type TenantId = u64;

/// SHA-256 of a tenant's ed25519 signing pubkey. 32 bytes.
pub type SigningFingerprint = [u8; 32];

/// One tenant record.
#[derive(Clone, Copy, Debug, PartialEq, Eq)]
pub struct TenantRecord {
    /// Operator-chosen tenant id.
    pub tenant_id: TenantId,
    /// SHA-256 of the tenant's ed25519 signing pubkey.
    pub signing_fp: SigningFingerprint,
    /// Token-bucket capacity (peak burst, in tokens, typically jobs).
    pub rate_capacity: u64,
    /// Refill rate in tokens per second.
    pub rate_refill_per_sec: u64,
    /// Wall-clock time the tenant was registered, nanoseconds since
    /// the Unix epoch. Informational.
    pub registered_at_unix_ns: u64,
}

/// What a tenant record says.
pub struct TenantEntry {
    /// Tenant id.
    pub tenant_id: u64,
    /// Fingerprint of the signing key.
    pub signing_fp: Seq<u8>,
    /// Bucket capacity.
    pub rate_capacity: u64,
    /// Refill rate.
    pub rate_refill_per_sec: u64,
    /// Registration time.
    pub registered_at_unix_ns: u64,
}

impl View for TenantRecord {
    type V = TenantEntry;

    open spec fn view(&self) -> TenantEntry {
        TenantEntry {
            tenant_id: self.tenant_id,
            signing_fp: self.signing_fp@,
            rate_capacity: self.rate_capacity,
            rate_refill_per_sec: self.rate_refill_per_sec,
            registered_at_unix_ns: self.registered_at_unix_ns,
        }
    }
}

/// The fields of a record, in file order.
#[derive(Clone, Copy, Debug, PartialEq, Eq, Structural)]
pub enum TenantField {
    /// Tenant id.
    TenantId,
    /// Fingerprint of the signing key.
    SigningFp,
    /// Bucket capacity.
    RateCapacity,
    /// Refill rate.
    RateRefill,
    /// Registration time.
    RegisteredAt,
}

/// What is wrong with a line.
#[derive(Clone, Copy, Debug, PartialEq, Eq, Structural)]
pub enum TenantFault {
    /// The line ends before this field.
    Missing(TenantField),
    /// Something follows the last field.
    Trailing,
    /// This field does not read as what it should be.
    Malformed(TenantField),
}

/// Why a tenant file or record is refused.
#[derive(Clone, Copy, Debug, PartialEq, Eq, Structural)]
pub enum TenantError {
    /// A line, counted from one, is malformed.
    InvalidLine {
        /// Number of the line.
        line: usize,
        /// What is wrong with it.
        fault: TenantFault,
    },
    /// The tenant is registered already.
    AlreadyRegistered {
        /// Which tenant.
        tenant_id: TenantId,
    },
}

impl TenantField {
    /// The name of the field in messages.
    pub open spec fn name_spec(self) -> Seq<char> {
        match self {
            TenantField::TenantId => "tenant_id"@,
            TenantField::SigningFp => "signing_fp_hex"@,
            TenantField::RateCapacity => "rate_capacity"@,
            TenantField::RateRefill => "rate_refill_per_sec"@,
            TenantField::RegisteredAt => "registered_at_unix_ns"@,
        }
    }

    /// The name of the field in messages.
    #[must_use]
    pub fn name(self) -> (r: &'static str)
        ensures
            r@ == self.name_spec(),
    {
        match self {
            TenantField::TenantId => "tenant_id",
            TenantField::SigningFp => "signing_fp_hex",
            TenantField::RateCapacity => "rate_capacity",
            TenantField::RateRefill => "rate_refill_per_sec",
            TenantField::RegisteredAt => "registered_at_unix_ns",
        }
    }
}

impl TenantFault {
    /// The description of the fault in messages.
    pub open spec fn description(self) -> Seq<char> {
        match self {
            TenantFault::Missing(f) => "missing field: "@ + f.name_spec(),
            TenantFault::Trailing => "trailing fields after registered_at_unix_ns"@,
            TenantFault::Malformed(TenantField::SigningFp) =>
                "signing_fp_hex not 64 lowercase-hex chars"@,
            TenantFault::Malformed(f) => f.name_spec() + " not a u64"@,
        }
    }
}

impl TenantError {
    /// The message for the operator.
    pub open spec fn message_spec(self) -> Seq<char> {
        match self {
            TenantError::InvalidLine { line, fault } => "tenants.txt line "@ + text::decimal_of(
                line as nat,
            ) + ": "@ + fault.description(),
            TenantError::AlreadyRegistered { tenant_id } => "tenant_id "@ + text::decimal_of(
                tenant_id as nat,
            ) + " already registered"@,
        }
    }

    /// The message for the operator.
    #[must_use]
    pub fn message(&self) -> (r: String)
        ensures
            r@ == self.message_spec(),
    {
        let mut out = String::new();
        match *self {
            TenantError::InvalidLine { line, fault } => {
                text::append_str(&mut out, "tenants.txt line ");
                text::append_decimal(&mut out, line as u64);
                text::append_str(&mut out, ": ");
                match fault {
                    TenantFault::Missing(f) => {
                        text::append_str(&mut out, "missing field: ");
                        text::append_str(&mut out, f.name());
                    },
                    TenantFault::Trailing => {
                        text::append_str(&mut out, "trailing fields after registered_at_unix_ns");
                    },
                    TenantFault::Malformed(TenantField::SigningFp) => {
                        text::append_str(&mut out, "signing_fp_hex not 64 lowercase-hex chars");
                    },
                    TenantFault::Malformed(f) => {
                        text::append_str(&mut out, f.name());
                        text::append_str(&mut out, " not a u64");
                    },
                }
            },
            TenantError::AlreadyRegistered { tenant_id } => {
                text::append_str(&mut out, "tenant_id ");
                text::append_decimal(&mut out, tenant_id);
                text::append_str(&mut out, " already registered");
            },
        }
        assert(out@ =~= self.message_spec());
        out
    }
}

/// In-memory tenant registry, keyed by `tenant_id`.
#[derive(Clone, Debug)]
pub struct TenantRegistry {
    by_id: HashMap<TenantId, TenantRecord>,
}

impl View for TenantRegistry {
    type V = Map<u64, TenantEntry>;

    closed spec fn view(&self) -> Map<u64, TenantEntry> {
        self.by_id@.map_values(|r: TenantRecord| r@)
    }
}

impl Default for TenantRegistry {
    fn default() -> (r: Self)
        ensures
            r.wf(),
            r@ == Map::<u64, TenantEntry>::empty(),
    {
        TenantRegistry::new()
    }
}

/// The number that a word writes, as a field of a record.
pub open spec fn u64_field(word: Seq<char>, field: TenantField) -> Result<u64, TenantFault> {
    match text::unsigned_of(word, u64::MAX as nat) {
        Some(n) => Ok(n as u64),
        None => Err(TenantFault::Malformed(field)),
    }
}

/// The record that the words of a line write, or what is wrong: first the
/// number of fields counts, then each field in turn.
pub open spec fn record_of(words: Seq<Seq<char>>) -> Result<TenantEntry, TenantFault> {
    if words.len() < 5 {
        Err(TenantFault::Missing(field_at(words.len() as int)))
    } else if words.len() > 5 {
        Err(TenantFault::Trailing)
    } else {
        match u64_field(words[0], TenantField::TenantId) {
            Err(e) => Err(e),
            Ok(tenant_id) => match text::hex32_of(vstd::utf8::encode_utf8(words[1]), false) {
                Err(_) => Err(TenantFault::Malformed(TenantField::SigningFp)),
                Ok(signing_fp) => match u64_field(words[2], TenantField::RateCapacity) {
                    Err(e) => Err(e),
                    Ok(rate_capacity) => match u64_field(words[3], TenantField::RateRefill) {
                        Err(e) => Err(e),
                        Ok(rate_refill_per_sec) => match u64_field(
                            words[4],
                            TenantField::RegisteredAt,
                        ) {
                            Err(e) => Err(e),
                            Ok(registered_at_unix_ns) => Ok(
                                TenantEntry {
                                    tenant_id,
                                    signing_fp,
                                    rate_capacity,
                                    rate_refill_per_sec,
                                    registered_at_unix_ns,
                                },
                            ),
                        },
                    },
                },
            },
        }
    }
}

/// The field at a position.
pub open spec fn field_at(i: int) -> TenantField {
    if i == 0 {
        TenantField::TenantId
    } else if i == 1 {
        TenantField::SigningFp
    } else if i == 2 {
        TenantField::RateCapacity
    } else if i == 3 {
        TenantField::RateRefill
    } else {
        TenantField::RegisteredAt
    }
}

/// The registry after one more record, or why it is refused.
pub open spec fn with_record(reg: Map<u64, TenantEntry>, entry: TenantEntry) -> Result<
    Map<u64, TenantEntry>,
    TenantError,
> {
    if reg.contains_key(entry.tenant_id) {
        Err(TenantError::AlreadyRegistered { tenant_id: entry.tenant_id })
    } else {
        Ok(reg.insert(entry.tenant_id, entry))
    }
}

/// The registry that numbered record lines write; the first line that is
/// malformed or repeats a tenant refuses them all.
pub open spec fn registry_of(records: Seq<(int, Seq<char>)>) -> Result<
    Map<u64, TenantEntry>,
    TenantError,
>
    decreases records.len(),
{
    if records.len() == 0 {
        Ok(Map::empty())
    } else {
        match registry_of(records.drop_last()) {
            Err(e) => Err(e),
            Ok(reg) => match record_of(text::words_of(records.last().1, true)) {
                Err(fault) => Err(
                    TenantError::InvalidLine { line: records.last().0 as usize, fault },
                ),
                Ok(entry) => with_record(reg, entry),
            },
        }
    }
}

impl TenantRegistry {
    /// Whether every record is held under its own id.
    pub closed spec fn wf(&self) -> bool {
        forall|k: u64| #[trigger]
            self.by_id@.contains_key(k) ==> self.by_id@[k].tenant_id == k
    }

    /// Empty registry: no tenant authorized.
    #[must_use]
    pub fn new() -> (r: Self)
        ensures
            r.wf(),
            r@ == Map::<u64, TenantEntry>::empty(),
    {
        let r = TenantRegistry { by_id: HashMap::new() };
        assert(r@ =~= Map::<u64, TenantEntry>::empty());
        r
    }

    /// Number of registered tenants.
    #[must_use]
    pub fn len(&self) -> (r: usize)
        ensures
            r == self@.dom().len(),
    {
        assert(self@.dom() =~= self.by_id@.dom());
        self.by_id.len()
    }

    /// True if no tenants are registered.
    #[must_use]
    pub fn is_empty(&self) -> (r: bool)
        ensures
            r == (self@.dom().len() == 0),
    {
        self.len() == 0
    }

    /// Insert a record.
    ///
    /// # Errors
    ///
    /// Returns `AlreadyRegistered` if the `tenant_id` is already present
    /// (operator must revoke first); the registry is then as it was.
    pub fn insert(&mut self, record: TenantRecord) -> (r: Result<(), TenantError>)
        requires
            old(self).wf(),
        ensures
            final(self).wf(),
            match with_record(old(self)@, record@) {
                Ok(reg) => r is Ok && final(self)@ == reg,
                Err(e) => r == Err::<(), TenantError>(e) && final(self)@ == old(self)@,
            },
    {
        if self.by_id.contains_key(&record.tenant_id) {
            return Err(TenantError::AlreadyRegistered { tenant_id: record.tenant_id });
        }
        self.by_id.insert(record.tenant_id, record);
        assert(self@ =~= old(self)@.insert(record.tenant_id, record@));
        Ok(())
    }

    /// Look up a record by `tenant_id`.
    #[must_use]
    pub fn get(&self, tenant_id: TenantId) -> (r: Option<&TenantRecord>)
        ensures
            r is Some <==> self@.contains_key(tenant_id),
            r matches Some(rec) ==> rec@ == self@[tenant_id],
    {
        self.by_id.get(&tenant_id)
    }

    /// The records in `tenant_id` order.
    #[must_use]
    pub fn iter(&self) -> (r: Vec<TenantRecord>)
        requires
            self.wf(),
        ensures
            crate::maps::ascending(ids_of(r@)),
            ids_of(r@).to_set() == self@.dom(),
            forall|i: int|
                0 <= i < r@.len() ==> (#[trigger] r@[i])@ == self@[r@[i].tenant_id],
    {
        let keys = sorted_keys_of(&self.by_id);
        let mut out: Vec<TenantRecord> = Vec::new();
        let mut i: usize = 0;
        while i < keys.len()
            invariant
                i <= keys.len(),
                self.wf(),
                keys@.to_set() == self.by_id@.dom(),
                ids_of(out@) == keys@.take(i as int),
                forall|k: int|
                    0 <= k < out@.len() ==> (#[trigger] out@[k])@ == self@[out@[k].tenant_id],
            decreases keys.len() - i,
        {
            assert(keys@.to_set().contains(keys@[i as int]));
            let ghost before = ids_of(out@);
            if let Some(rec) = self.by_id.get(&keys[i]) {
                out.push(*rec);
            }
            assert(ids_of(out@) =~= before.push(keys@[i as int]));
            i = i + 1;
            assert(ids_of(out@) =~= keys@.take(i as int));
        }
        assert(keys@.take(i as int) =~= keys@);
        assert(self@.dom() =~= self.by_id@.dom());
        out
    }

    /// Read a registry from the text of a tenant file. Comments
    /// (`#`-prefixed lines) and blank lines are skipped.
    ///
    /// # Errors
    ///
    /// The first malformed line, or the first that repeats a tenant, aborts:
    /// the operator's intent on the rest of the file is ambiguous.
    pub fn parse(file: &str) -> (r: Result<Self, TenantError>)
        ensures
            match r {
                Ok(reg) => reg.wf() && registry_of(text::records_of(text::lines_of(file@))) == Ok::<
                    Map<u64, TenantEntry>,
                    TenantError,
                >(reg@),
                Err(e) => registry_of(text::records_of(text::lines_of(file@))) == Err::<
                    Map<u64, TenantEntry>,
                    TenantError,
                >(e),
            },
    {
        let records = text::record_lines(file);
        let ghost all = text::numbered(records@);
        let mut reg = TenantRegistry::new();
        let mut i: usize = 0;
        assert(all.take(0) =~= Seq::<(int, Seq<char>)>::empty());
        while i < records.len()
            invariant
                i <= records.len(),
                all == text::numbered(records@),
                all == text::records_of(text::lines_of(file@)),
                reg.wf(),
                registry_of(all.take(i as int)) == Ok::<Map<u64, TenantEntry>, TenantError>(reg@),
            decreases records.len() - i,
        {
            assert(all.take(i + 1).drop_last() =~= all.take(i as int));
            assert(all.take(i + 1).last() == all[i as int]);
            match parse_line(records[i].1.as_slice()) {
                Ok(record) => match reg.insert(record) {
                    Ok(()) => {},
                    Err(e) => {
                        proof {
                            lemma_error_stays(all, i + 1);
                        }
                        return Err(e);
                    },
                },
                Err(fault) => {
                    proof {
                        lemma_error_stays(all, i + 1);
                    }
                    return Err(TenantError::InvalidLine { line: records[i].0, fault });
                },
            }
            i = i + 1;
        }
        assert(all.take(i as int) =~= all);
        Ok(reg)
    }
}

/// The ids of a list of records.
pub open spec fn ids_of(records: Seq<TenantRecord>) -> Seq<u64> {
    Seq::new(records.len(), |i: int| records[i].tenant_id)
}

/// What refused the first lines refuses them all.
proof fn lemma_error_stays(records: Seq<(int, Seq<char>)>, n: int)
    requires
        0 <= n <= records.len(),
        registry_of(records.take(n)) is Err,
    ensures
        registry_of(records) == registry_of(records.take(n)),
    decreases records.len(),
{
    if n == records.len() {
        assert(records.take(n) =~= records);
    } else {
        assert(records.drop_last().take(n) =~= records.take(n));
        lemma_error_stays(records.drop_last(), n);
    }
}

fn parse_line(line: &[char]) -> (r: Result<TenantRecord, TenantFault>)
    ensures
        match r {
            Ok(rec) => record_of(text::words_of(line@, true)) == Ok::<TenantEntry, TenantFault>(
                rec@,
            ),
            Err(e) => record_of(text::words_of(line@, true)) == Err::<TenantEntry, TenantFault>(
                e,
            ),
        },
{
    let words = text::words(line, true);
    let ghost w = text::texts(words@);
    assert(w.len() == words@.len());
    if words.len() < 5 {
        let field = if words.len() == 0 {
            TenantField::TenantId
        } else if words.len() == 1 {
            TenantField::SigningFp
        } else if words.len() == 2 {
            TenantField::RateCapacity
        } else if words.len() == 3 {
            TenantField::RateRefill
        } else {
            TenantField::RegisteredAt
        };
        return Err(TenantFault::Missing(field));
    }
    if words.len() > 5 {
        return Err(TenantFault::Trailing);
    }
    assert(w[0] == words@[0]@ && w[1] == words@[1]@ && w[2] == words@[2]@ && w[3] == words@[3]@
        && w[4] == words@[4]@);
    let tenant_id: u64 = match text::parse_unsigned(words[0].as_slice(), u64::MAX) {
        Some(n) => n,
        None => return Err(TenantFault::Malformed(TenantField::TenantId)),
    };
    let signing_fp = match text::word_hex32(words[1].as_slice(), false) {
        Ok(b) => b,
        Err(_) => return Err(TenantFault::Malformed(TenantField::SigningFp)),
    };
    let rate_capacity: u64 = match text::parse_unsigned(words[2].as_slice(), u64::MAX) {
        Some(n) => n,
        None => return Err(TenantFault::Malformed(TenantField::RateCapacity)),
    };
    let rate_refill_per_sec: u64 = match text::parse_unsigned(words[3].as_slice(), u64::MAX) {
        Some(n) => n,
        None => return Err(TenantFault::Malformed(TenantField::RateRefill)),
    };
    let registered_at_unix_ns: u64 = match text::parse_unsigned(words[4].as_slice(), u64::MAX) {
        Some(n) => n,
        None => return Err(TenantFault::Malformed(TenantField::RegisteredAt)),
    };
    Ok(
        TenantRecord {
            tenant_id,
            signing_fp,
            rate_capacity,
            rate_refill_per_sec,
            registered_at_unix_ns,
        },
    )
}

/// SHA-256 fingerprint of an ed25519 signing pubkey.
#[must_use]
pub fn fingerprint(pubkey: &[u8; 32]) -> (r: SigningFingerprint)
    ensures
        r@ == crate::boundary::sha::sha256_of(pubkey@),
{
    sha256(pubkey)
}

/// Lowercase-hex encoding of a fingerprint. Used for the on-disk
/// file format and for log lines.
#[must_use]
pub fn fingerprint_hex(fp: &SigningFingerprint) -> (r: String)
    ensures
        r@ == text::hex_of(fp@),
{
    text::hex(fp)
}

/// Parse 64 lowercase-hex chars into a `[u8; 32]`. Returns `None`
/// for any non-hex character or wrong length.
#[must_use]
pub fn parse_hex32(s: &str) -> (r: Option<[u8; 32]>)
    ensures
        r is Some <==> text::hex32_of(vstd::utf8::encode_utf8(s@), false) is Ok,
        r matches Some(b) ==> text::hex32_of(vstd::utf8::encode_utf8(s@), false) == Ok::<
            Seq<u8>,
            text::HexError,
        >(b@),
{
    match text::read_hex32(s.as_bytes(), false) {
        Ok(b) => Some(b),
        Err(_) => None,
    }
}

/// One line of a tenant file.
pub open spec fn line_of(e: TenantEntry) -> Seq<char> {
    text::spaced(
        seq![
            text::decimal_of(e.tenant_id as nat),
            text::hex_of(e.signing_fp),
            text::decimal_of(e.rate_capacity as nat),
            text::decimal_of(e.rate_refill_per_sec as nat),
            text::decimal_of(e.registered_at_unix_ns as nat),
        ],
    )
}

/// A line that was written reads as the record it was written for.
pub proof fn law_line_round_trip(e: TenantEntry)
    requires
        e.signing_fp.len() == 32,
    ensures
        record_of(text::words_of(line_of(e), true)) == Ok::<TenantEntry, TenantFault>(e),
{
    text::law_decimal_round_trip(e.tenant_id as nat, u64::MAX as nat);
    text::law_decimal_round_trip(e.rate_capacity as nat, u64::MAX as nat);
    text::law_decimal_round_trip(e.rate_refill_per_sec as nat, u64::MAX as nat);
    text::law_decimal_round_trip(e.registered_at_unix_ns as nat, u64::MAX as nat);
    text::law_hex_round_trip(e.signing_fp, false);
    let words = seq![
        text::decimal_of(e.tenant_id as nat),
        text::hex_of(e.signing_fp),
        text::decimal_of(e.rate_capacity as nat),
        text::decimal_of(e.rate_refill_per_sec as nat),
        text::decimal_of(e.registered_at_unix_ns as nat),
    ];
    text::lemma_decimal_is_word(e.tenant_id as nat, true);
    text::lemma_decimal_is_word(e.rate_capacity as nat, true);
    text::lemma_decimal_is_word(e.rate_refill_per_sec as nat, true);
    text::lemma_decimal_is_word(e.registered_at_unix_ns as nat, true);
    text::lemma_hex_is_word(e.signing_fp, true);
    text::law_words_round_trip(words, true);
}

/// Every record of a tenant file is in the registry under its number, no number
/// comes twice, and nothing else is in it.
pub proof fn law_every_record_is_a_tenant(
    records: Seq<(int, Seq<char>)>,
    i: int,
    j: int,
    id: u64,
)
    requires
        registry_of(records) is Ok,
        0 <= i < j < records.len(),
    ensures
        record_of(text::words_of(records[i].1, true)) matches Ok(e) && registry_of(
            records,
        )->Ok_0.contains_key(e.tenant_id) && registry_of(records)->Ok_0[e.tenant_id] == e,
        record_of(text::words_of(records[j].1, true)) matches Ok(e) && registry_of(
            records,
        )->Ok_0.contains_key(e.tenant_id) && registry_of(records)->Ok_0[e.tenant_id] == e,
        record_of(text::words_of(records[i].1, true))->Ok_0.tenant_id != record_of(
            text::words_of(records[j].1, true),
        )->Ok_0.tenant_id,
        registry_of(records)->Ok_0.contains_key(id) ==> exists|k: int|
            0 <= k < records.len() && (record_of(
                text::words_of((#[trigger] records[k]).1, true),
            ) matches Ok(e) && e.tenant_id == id),
{
    law_record_is_kept(records, i);
    law_record_is_kept(records, j);
    lemma_records_are_distinct(records, i, j);
    if registry_of(records)->Ok_0.contains_key(id) {
        lemma_tenant_was_recorded(records, id);
    }
}

/// A file with one record makes a registry of that tenant, an empty file an empty
/// one.
pub proof fn law_small_registries(record: (int, Seq<char>))
    ensures
        registry_of(Seq::empty()) == Ok::<Map<u64, TenantEntry>, TenantError>(Map::empty()),
        record_of(text::words_of(record.1, true)) matches Ok(e) ==> registry_of(seq![record]) == Ok::<
            Map<u64, TenantEntry>,
            TenantError,
        >(map![e.tenant_id => e]),
{
    reveal_with_fuel(registry_of, 2);
    assert(seq![record].drop_last() =~= Seq::empty());
    if let Ok(e) = record_of(text::words_of(record.1, true)) {
        assert(Map::<u64, TenantEntry>::empty().insert(e.tenant_id, e) =~= map![e.tenant_id => e]);
    }
}

/// A record is in the registry under its number, as it was read.
pub proof fn law_record_is_kept(records: Seq<(int, Seq<char>)>, i: int)
    requires
        registry_of(records) is Ok,
        0 <= i < records.len(),
    ensures
        record_of(text::words_of(records[i].1, true)) matches Ok(e) && registry_of(
            records,
        )->Ok_0.contains_key(e.tenant_id) && registry_of(records)->Ok_0[e.tenant_id] == e,
    decreases records.len(),
{
    let n = records.len() - 1;
    let less = records.drop_last();
    if i < n {
        assert(less[i] == records[i]);
        law_record_is_kept(less, i);
    }
}

proof fn lemma_records_are_distinct(records: Seq<(int, Seq<char>)>, i: int, j: int)
    requires
        registry_of(records) is Ok,
        0 <= i < j < records.len(),
    ensures
        record_of(text::words_of(records[i].1, true))->Ok_0.tenant_id != record_of(
            text::words_of(records[j].1, true),
        )->Ok_0.tenant_id,
    decreases records.len(),
{
    let n = records.len() - 1;
    let less = records.drop_last();
    assert(less[i] == records[i]);
    if j < n {
        assert(less[j] == records[j]);
        lemma_records_are_distinct(less, i, j);
    } else {
        law_record_is_kept(less, i);
    }
}

proof fn lemma_tenant_was_recorded(records: Seq<(int, Seq<char>)>, id: u64)
    requires
        registry_of(records) is Ok,
        registry_of(records)->Ok_0.contains_key(id),
    ensures
        exists|k: int|
            0 <= k < records.len() && (record_of(
                text::words_of((#[trigger] records[k]).1, true),
            ) matches Ok(e) && e.tenant_id == id),
    decreases records.len(),
{
    if records.len() > 0 {
        let n = records.len() - 1;
        let less = records.drop_last();
        let last = record_of(text::words_of(records[n].1, true))->Ok_0;
        assert(records[n] == records.last());
        if last.tenant_id != id {
            lemma_tenant_was_recorded(less, id);
            let k = choose|k: int|
                0 <= k < less.len() && (record_of(
                    text::words_of((#[trigger] less[k]).1, true),
                ) matches Ok(e) && e.tenant_id == id);
            assert(records[k] == less[k]);
        }
    }
}

/// A file is refused for its first record that is none, or that names a tenant
/// again.
pub proof fn law_first_bad_record_is_named(records: Seq<(int, Seq<char>)>) -> (i: int)
    requires
        registry_of(records) is Err,
    ensures
        0 <= i < records.len(),
        registry_of(records.take(i)) is Ok,
        match record_of(text::words_of(records[i].1, true)) {
            Err(fault) => registry_of(records) == Err::<Map<u64, TenantEntry>, TenantError>(
                TenantError::InvalidLine { line: records[i].0 as usize, fault },
            ),
            Ok(e) => registry_of(records.take(i))->Ok_0.contains_key(e.tenant_id) && registry_of(
                records,
            ) == Err::<Map<u64, TenantEntry>, TenantError>(
                TenantError::AlreadyRegistered { tenant_id: e.tenant_id },
            ),
        },
    decreases records.len(),
{
    let n = records.len() - 1;
    let less = records.drop_last();
    if registry_of(less) is Err {
        let i = law_first_bad_record_is_named(less);
        assert(records[i] == less[i]);
        assert(records.take(i) =~= less.take(i));
        i
    } else {
        assert(records.take(n) =~= less);
        assert(records[n] == records.last());
        n
    }
}

/// A tenant that is not registered is added and nobody else is touched; one that
/// is registered is refused.
pub proof fn law_registered_tenant_is_refused(
    reg: Map<u64, TenantEntry>,
    entry: TenantEntry,
    other: u64,
)
    ensures
        with_record(reg, entry) is Err <==> reg.contains_key(entry.tenant_id),
        with_record(reg, entry) matches Ok(after) ==> {
            &&& after.contains_key(entry.tenant_id) && after[entry.tenant_id] == entry
            &&& other != entry.tenant_id ==> after.contains_key(other) == reg.contains_key(other)
            &&& other != entry.tenant_id && reg.contains_key(other) ==> after[other] == reg[other]
        },
{
}

/// A record has five words; the first that is missing is named, and so is the
/// first that does not read.
pub proof fn law_record_is_refused_for_its_first_fault(words: Seq<Seq<char>>)
    ensures
        words.len() == 0 ==> record_of(words) == Err::<TenantEntry, TenantFault>(
            TenantFault::Missing(TenantField::TenantId),
        ),
        words.len() == 1 ==> record_of(words) == Err::<TenantEntry, TenantFault>(
            TenantFault::Missing(TenantField::SigningFp),
        ),
        words.len() == 2 ==> record_of(words) == Err::<TenantEntry, TenantFault>(
            TenantFault::Missing(TenantField::RateCapacity),
        ),
        words.len() == 3 ==> record_of(words) == Err::<TenantEntry, TenantFault>(
            TenantFault::Missing(TenantField::RateRefill),
        ),
        words.len() == 4 ==> record_of(words) == Err::<TenantEntry, TenantFault>(
            TenantFault::Missing(TenantField::RegisteredAt),
        ),
        words.len() > 5 ==> record_of(words) == Err::<TenantEntry, TenantFault>(
            TenantFault::Trailing,
        ),
        words.len() == 5 ==> {
            let number = |k: int| text::unsigned_of(words[k], u64::MAX as nat) is Some;
            let key = text::hex32_of(vstd::utf8::encode_utf8(words[1]), false) is Ok;
            let r = record_of(words);
            &&& r is Ok <==> number(0) && key && number(2) && number(3) && number(4)
            &&& !number(0) ==> r == Err::<TenantEntry, TenantFault>(
                TenantFault::Malformed(TenantField::TenantId),
            )
            &&& number(0) && !key ==> r == Err::<TenantEntry, TenantFault>(
                TenantFault::Malformed(TenantField::SigningFp),
            )
            &&& number(0) && key && !number(2) ==> r == Err::<TenantEntry, TenantFault>(
                TenantFault::Malformed(TenantField::RateCapacity),
            )
            &&& number(0) && key && number(2) && !number(3) ==> r == Err::<
                TenantEntry,
                TenantFault,
            >(TenantFault::Malformed(TenantField::RateRefill))
            &&& number(0) && key && number(2) && number(3) && !number(4) ==> r == Err::<
                TenantEntry,
                TenantFault,
            >(TenantFault::Malformed(TenantField::RegisteredAt))
        },
{
}

} // verus!
