//! Agent enrollment registry.
//!
//! The coordinator gates `Register` on a pre-provisioned set of
//! `(runner_id, signing_fp, vrf_fp)` triples; agents whose fingerprints
//! aren't in the set are rejected before they enter the committee pool.
//!
//! # File format
//!
//! One enrollment per non-empty, non-comment line. Fields are
//! whitespace-separated:
//!
//! ```text
//! <runner_id> <signing_fp_hex> <vrf_fp_hex> <enrolled_at_unix_ns> <initial_reputation>
//! ```
//!
//! The two fingerprints are 64 lowercase hex digits each. The parser is strict
//! about field count and the format of each field; a malformed line fails the whole load. The reputation is a
//! decimal fraction; reading it as a number is left to the caller, who hands in
//! one [`ReputationField`] per record line.

use crate::boundary::sha::sha256;
use crate::bytes::bytes_eq;
use crate::maps::keys_of;
use crate::text;
use std::collections::HashMap;
use vstd::prelude::*;

verus! {

broadcast use vstd::std_specs::hash::group_hash_axioms;

/// One enrollment record.
#[derive(Clone, Copy, Debug, PartialEq, Eq)]
pub struct EnrolledRecord {
    /// Runner identifier this enrollment is for.
    pub runner_id: u64,
    /// SHA-256 of the runner's ed25519 verifying-key bytes.
    pub signing_fp: [u8; 32],
    /// SHA-256 of the runner's VRF public-key bytes.
    pub vrf_fp: [u8; 32],
    /// When the admin issued this enrollment (unix nanoseconds).
    pub enrolled_at_unix_ns: i64,
    /// Reputation seed at enrollment time, in thousandths.
    pub initial_reputation_milli: u16,
}

/// What an enrollment record says.
pub struct Enrollment {
    /// Runner identifier.
    pub runner_id: u64,
    /// Fingerprint of the signing key.
    pub signing_fp: Seq<u8>,
    /// Fingerprint of the VRF key.
    pub vrf_fp: Seq<u8>,
    /// Enrollment time.
    pub enrolled_at_unix_ns: i64,
    /// Reputation seed, in thousandths.
    pub initial_reputation_milli: u16,
}

impl View for EnrolledRecord {
    type V = Enrollment;

    open spec fn view(&self) -> Enrollment {
        Enrollment {
            runner_id: self.runner_id,
            signing_fp: self.signing_fp@,
            vrf_fp: self.vrf_fp@,
            enrolled_at_unix_ns: self.enrolled_at_unix_ns,
            initial_reputation_milli: self.initial_reputation_milli,
        }
    }
}

/// What the reputation field of a record line reads as.
#[derive(Clone, Debug, PartialEq, Eq)]
pub enum ReputationField {
    /// A number from 0 to 1, rounded to thousandths.
    Milli(u16),
    /// No number.
    NotANumber,
    /// A number, but not from 0 to 1; carries it as it is shown.
    OutOfRange(String),
}

/// The fields of a record, in file order.
#[derive(Clone, Copy, Debug, PartialEq, Eq, Structural)]
pub enum EnrollmentField {
    /// Runner identifier.
    RunnerId,
    /// Fingerprint of the signing key.
    SigningFp,
    /// Fingerprint of the VRF key.
    VrfFp,
    /// Enrollment time.
    EnrolledAt,
    /// Reputation seed.
    InitialReputation,
}

/// What is wrong with a line.
#[derive(Clone, Debug, PartialEq, Eq)]
pub enum EnrollmentFault {
    /// The line ends before this field.
    Missing(EnrollmentField),
    /// This field is no whole number, or does not fit.
    NotANumber(EnrollmentField, text::NumberError),
    /// The reputation is no number.
    ReputationNotANumber,
    /// Something follows the last field.
    Trailing,
    /// The reputation is not from 0 to 1; carries it as it is shown.
    ReputationOutOfRange(String),
    /// This fingerprint is not 64 lowercase hex digits.
    BadHex(EnrollmentField, text::HexError),
}

/// Why an enrollment file is refused: a line, counted from one, is malformed.
#[derive(Clone, Debug, PartialEq, Eq)]
pub struct EnrollmentError {
    /// Number of the line.
    pub line: usize,
    /// What is wrong with it.
    pub fault: EnrollmentFault,
}

impl EnrollmentField {
    /// The name of the field in messages.
    pub open spec fn name_spec(self) -> Seq<char> {
        match self {
            EnrollmentField::RunnerId => "runner_id"@,
            EnrollmentField::SigningFp => "signing_fp"@,
            EnrollmentField::VrfFp => "vrf_fp"@,
            EnrollmentField::EnrolledAt => "enrolled_at_unix_ns"@,
            EnrollmentField::InitialReputation => "initial_reputation"@,
        }
    }

    /// The name of the field in messages.
    #[must_use]
    pub fn name(self) -> (r: &'static str)
        ensures
            r@ == self.name_spec(),
    {
        match self {
            EnrollmentField::RunnerId => "runner_id",
            EnrollmentField::SigningFp => "signing_fp",
            EnrollmentField::VrfFp => "vrf_fp",
            EnrollmentField::EnrolledAt => "enrolled_at_unix_ns",
            EnrollmentField::InitialReputation => "initial_reputation",
        }
    }
}

impl EnrollmentFault {
    /// The description of the fault in messages.
    pub open spec fn description(self) -> Seq<char> {
        match self {
            EnrollmentFault::Missing(f) => "missing field "@ + f.name_spec(),
            EnrollmentFault::NotANumber(f, e) => f.name_spec() + ": "@ + e.words(),
            EnrollmentFault::ReputationNotANumber => "initial_reputation: invalid float literal"@,
            EnrollmentFault::Trailing => "trailing fields after initial_reputation"@,
            EnrollmentFault::ReputationOutOfRange(shown) => "initial_reputation "@ + shown@
                + " not in [0.0, 1.0]"@,
            EnrollmentFault::BadHex(f, text::HexError::Length(n)) => f.name_spec()
                + ": expected 64 hex chars, got "@ + text::decimal_of(n as nat),
            EnrollmentFault::BadHex(f, text::HexError::NonHex(b)) => f.name_spec()
                + ": non-hex byte 0x"@ + text::hex_of(seq![b]),
        }
    }
}

impl EnrollmentError {
    /// The message for the operator.
    pub open spec fn message_spec(self) -> Seq<char> {
        "enrollment line "@ + text::decimal_of(self.line as nat) + ": "@
            + self.fault.description()
    }

    /// The message for the operator.
    #[must_use]
    pub fn message(&self) -> (r: String)
        ensures
            r@ == self.message_spec(),
    {
        let mut out = String::new();
        text::append_str(&mut out, "enrollment line ");
        text::append_decimal(&mut out, self.line as u64);
        text::append_str(&mut out, ": ");
        match &self.fault {
            EnrollmentFault::Missing(f) => {
                text::append_str(&mut out, "missing field ");
                text::append_str(&mut out, f.name());
            },
            EnrollmentFault::NotANumber(f, e) => {
                text::append_str(&mut out, f.name());
                text::append_str(&mut out, ": ");
                text::append_str(&mut out, e.message());
            },
            EnrollmentFault::ReputationNotANumber => {
                text::append_str(&mut out, "initial_reputation: invalid float literal");
            },
            EnrollmentFault::Trailing => {
                text::append_str(&mut out, "trailing fields after initial_reputation");
            },
            EnrollmentFault::ReputationOutOfRange(shown) => {
                text::append_str(&mut out, "initial_reputation ");
                text::append_str(&mut out, shown.as_str());
                text::append_str(&mut out, " not in [0.0, 1.0]");
            },
            EnrollmentFault::BadHex(f, text::HexError::Length(n)) => {
                text::append_str(&mut out, f.name());
                text::append_str(&mut out, ": expected 64 hex chars, got ");
                text::append_decimal(&mut out, *n as u64);
            },
            EnrollmentFault::BadHex(f, text::HexError::NonHex(b)) => {
                text::append_str(&mut out, f.name());
                text::append_str(&mut out, ": non-hex byte 0x");
                let one: [u8; 1] = [*b];
                assert(one@ =~= seq![*b]);
                text::append_hex(&mut out, &one);
            },
        }
        assert(out@ =~= self.message_spec());
        out
    }
}

/// In-memory enrollment registry. Keyed by `runner_id`; lookups
/// verify both fingerprints match what the file said.
#[derive(Clone, Debug)]
pub struct EnrollmentSet {
    records: HashMap<u64, EnrolledRecord>,
}

impl View for EnrollmentSet {
    type V = Map<u64, Enrollment>;

    closed spec fn view(&self) -> Map<u64, Enrollment> {
        self.records@.map_values(|r: EnrolledRecord| r@)
    }
}

impl Default for EnrollmentSet {
    fn default() -> (r: Self)
        ensures
            r.wf(),
            r@ == Map::<u64, Enrollment>::empty(),
    {
        EnrollmentSet::new()
    }
}

/// The record that the words of a line write, its reputation read as given, or
/// what is wrong with it first.
pub open spec fn record_of(words: Seq<Seq<char>>, reputation: ReputationField) -> Result<
    Enrollment,
    EnrollmentFault,
> {
    if words.len() < 1 {
        Err(EnrollmentFault::Missing(EnrollmentField::RunnerId))
    } else {
        match text::unsigned_in(words[0], u64::MAX as nat) {
            Err(e) => Err(EnrollmentFault::NotANumber(EnrollmentField::RunnerId, e)),
            Ok(runner_id) => if words.len() < 2 {
                Err(EnrollmentFault::Missing(EnrollmentField::SigningFp))
            } else if words.len() < 3 {
                Err(EnrollmentFault::Missing(EnrollmentField::VrfFp))
            } else if words.len() < 4 {
                Err(EnrollmentFault::Missing(EnrollmentField::EnrolledAt))
            } else {
                match text::signed_in(words[3], i64::MIN as int, i64::MAX as int) {
                    Err(e) => Err(EnrollmentFault::NotANumber(EnrollmentField::EnrolledAt, e)),
                    Ok(at) => if words.len() < 5 {
                        Err(EnrollmentFault::Missing(EnrollmentField::InitialReputation))
                    } else if reputation == ReputationField::NotANumber {
                        Err(EnrollmentFault::ReputationNotANumber)
                    } else if words.len() > 5 {
                        Err(EnrollmentFault::Trailing)
                    } else {
                        match reputation {
                            ReputationField::Milli(milli) => match text::hex32_of(
                                vstd::utf8::encode_utf8(words[1]),
                                false,
                            ) {
                                Err(e) => Err(
                                    EnrollmentFault::BadHex(EnrollmentField::SigningFp, e),
                                ),
                                Ok(signing_fp) => match text::hex32_of(
                                    vstd::utf8::encode_utf8(words[2]),
                                    false,
                                ) {
                                    Err(e) => Err(
                                        EnrollmentFault::BadHex(EnrollmentField::VrfFp, e),
                                    ),
                                    Ok(vrf_fp) => Ok(
                                        Enrollment {
                                            runner_id: runner_id as u64,
                                            signing_fp,
                                            vrf_fp,
                                            enrolled_at_unix_ns: at as i64,
                                            initial_reputation_milli: milli,
                                        },
                                    ),
                                },
                            },
                            ReputationField::OutOfRange(shown) => Err(
                                EnrollmentFault::ReputationOutOfRange(shown),
                            ),
                            ReputationField::NotANumber => Err(
                                EnrollmentFault::ReputationNotANumber,
                            ),
                        }
                    },
                }
            },
        }
    }
}

/// The registry that numbered record lines write; a later line for a runner
/// overrides an earlier one, and the first malformed line refuses them all.
pub open spec fn set_of(
    records: Seq<(int, Seq<char>)>,
    reputations: Seq<ReputationField>,
) -> Result<Map<u64, Enrollment>, EnrollmentError>
    decreases records.len(),
{
    if records.len() == 0 {
        Ok(Map::empty())
    } else {
        match set_of(records.drop_last(), reputations) {
            Err(e) => Err(e),
            Ok(set) => match record_of(
                text::words_of(records.last().1, false),
                reputations[records.len() - 1],
            ) {
                Err(fault) => Err(EnrollmentError { line: records.last().0 as usize, fault }),
                Ok(e) => Ok(set.insert(e.runner_id, e)),
            },
        }
    }
}

/// The reputation words of numbered record lines: the fifth word of each, or
/// nothing where there is none.
pub open spec fn reputation_words(records: Seq<(int, Seq<char>)>) -> Seq<Seq<char>> {
    Seq::new(
        records.len(),
        |i: int|
            {
                let words = text::words_of(records[i].1, false);
                if words.len() < 5 {
                    Seq::empty()
                } else {
                    words[4]
                }
            },
    )
}

/// The reputation words of an enrollment file, one per record line, for the
/// caller to read as numbers.
#[must_use]
pub fn reputation_fields(file: &str) -> (r: Vec<String>)
    ensures
        r@.len() == text::records_of(text::lines_of(file@)).len(),
        forall|i: int|
            0 <= i < r@.len() ==> (#[trigger] r@[i])@ == reputation_words(
                text::records_of(text::lines_of(file@)),
            )[i],
{
    let records = text::record_lines(file);
    let ghost all = text::numbered(records@);
    let mut out: Vec<String> = Vec::new();
    let mut i: usize = 0;
    while i < records.len()
        invariant
            i <= records.len(),
            all == text::numbered(records@),
            out.len() == i,
            forall|k: int| 0 <= k < i ==> (#[trigger] out@[k])@ == reputation_words(all)[k],
        decreases records.len() - i,
    {
        let words = text::words(records[i].1.as_slice(), false);
        assert(all[i as int].1 == records@[i as int].1@);
        if words.len() < 5 {
            out.push(String::new());
        } else {
            assert(text::texts(words@)[4] == words@[4]@);
            out.push(text::string_of(words[4].as_slice()));
        }
        i = i + 1;
    }
    out
}

impl EnrollmentSet {
    /// Whether every record is held under its own id.
    pub closed spec fn wf(&self) -> bool {
        forall|k: u64| #[trigger]
            self.records@.contains_key(k) ==> self.records@[k].runner_id == k
    }

    /// Empty registry. With this set, every `is_enrolled` query
    /// returns `false`.
    #[must_use]
    pub fn new() -> (r: Self)
        ensures
            r.wf(),
            r@ == Map::<u64, Enrollment>::empty(),
    {
        let r = EnrollmentSet { records: HashMap::new() };
        assert(r@ =~= Map::<u64, Enrollment>::empty());
        r
    }

    /// Insert a record, returning the previous value for the same
    /// `runner_id` if any.
    pub fn insert(&mut self, record: EnrolledRecord) -> (r: Option<EnrolledRecord>)
        requires
            old(self).wf(),
        ensures
            final(self).wf(),
            final(self)@ == old(self)@.insert(record.runner_id, record@),
            r is Some <==> old(self)@.contains_key(record.runner_id),
            r matches Some(was) ==> was@ == old(self)@[record.runner_id],
    {
        let r = self.records.insert(record.runner_id, record);
        assert(self@ =~= old(self)@.insert(record.runner_id, record@));
        r
    }

    /// Number of enrollments.
    #[must_use]
    pub fn len(&self) -> (r: usize)
        ensures
            r == self@.dom().len(),
    {
        assert(self@.dom() =~= self.records@.dom());
        self.records.len()
    }

    /// Whether the registry holds zero enrollments.
    #[must_use]
    pub fn is_empty(&self) -> (r: bool)
        ensures
            r == (self@.dom().len() == 0),
    {
        self.len() == 0
    }

    /// Look up a record by `runner_id`. Returns `None` if absent.
    #[must_use]
    pub fn get(&self, runner_id: u64) -> (r: Option<&EnrolledRecord>)
        ensures
            r is Some <==> self@.contains_key(runner_id),
            r matches Some(rec) ==> rec@ == self@[runner_id],
    {
        self.records.get(&runner_id)
    }

    /// Every enrolled record, each once. The order is unspecified; callers that
    /// need a deterministic order should sort by `runner_id`.
    #[must_use]
    pub fn iter(&self) -> (r: Vec<EnrolledRecord>)
        requires
            self.wf(),
        ensures
            ids_of(r@).no_duplicates(),
            ids_of(r@).to_set() == self@.dom(),
            forall|i: int| 0 <= i < r@.len() ==> (#[trigger] r@[i])@ == self@[r@[i].runner_id],
    {
        let keys = keys_of(&self.records);
        let mut out: Vec<EnrolledRecord> = Vec::new();
        let mut i: usize = 0;
        while i < keys.len()
            invariant
                i <= keys.len(),
                self.wf(),
                keys@.to_set() == self.records@.dom(),
                ids_of(out@) == keys@.take(i as int),
                forall|k: int|
                    0 <= k < out@.len() ==> (#[trigger] out@[k])@ == self@[out@[k].runner_id],
            decreases keys.len() - i,
        {
            assert(keys@.to_set().contains(keys@[i as int]));
            let ghost before = ids_of(out@);
            if let Some(rec) = self.records.get(&keys[i]) {
                out.push(*rec);
            }
            assert(ids_of(out@) =~= before.push(keys@[i as int]));
            i = i + 1;
            assert(ids_of(out@) =~= keys@.take(i as int));
        }
        assert(keys@.take(i as int) =~= keys@);
        assert(self@.dom() =~= self.records@.dom());
        out
    }

    /// True iff `runner_id` is enrolled AND the supplied fingerprints
    /// match the enrolled values exactly. A matching `runner_id` with
    /// any divergent fingerprint returns `false`: this catches
    /// impersonation attempts with an enrolled id.
    #[must_use]
    pub fn is_enrolled(&self, runner_id: u64, signing_fp: &[u8; 32], vrf_fp: &[u8; 32]) -> (r:
        bool)
        ensures
            r == enrolled(self@, runner_id, signing_fp@, vrf_fp@),
    {
        match self.records.get(&runner_id) {
            Some(r) => bytes_eq(&r.signing_fp, signing_fp) && bytes_eq(&r.vrf_fp, vrf_fp),
            None => false,
        }
    }

    /// Read the registry from the text of an enrollment file, the reputation of
    /// each record line read as given. Empty text yields an empty set.
    ///
    /// # Errors
    ///
    /// The first malformed line.
    pub fn parse(file: &str, reputations: &[ReputationField]) -> (r: Result<
        Self,
        EnrollmentError,
    >)
        requires
            reputations@.len() == text::records_of(text::lines_of(file@)).len(),
        ensures
            match r {
                Ok(set) => set.wf() && set_of(
                    text::records_of(text::lines_of(file@)),
                    reputations@,
                ) == Ok::<Map<u64, Enrollment>, EnrollmentError>(set@),
                Err(e) => set_of(text::records_of(text::lines_of(file@)), reputations@) == Err::<
                    Map<u64, Enrollment>,
                    EnrollmentError,
                >(e),
            },
    {
        let records = text::record_lines(file);
        let ghost all = text::numbered(records@);
        let mut set = EnrollmentSet::new();
        let mut i: usize = 0;
        assert(all.take(0) =~= Seq::<(int, Seq<char>)>::empty());
        while i < records.len()
            invariant
                i <= records.len(),
                all == text::numbered(records@),
                all == text::records_of(text::lines_of(file@)),
                reputations@.len() == all.len(),
                set.wf(),
                set_of(all.take(i as int), reputations@) == Ok::<
                    Map<u64, Enrollment>,
                    EnrollmentError,
                >(set@),
            decreases records.len() - i,
        {
            assert(all.take(i + 1).drop_last() =~= all.take(i as int));
            assert(all.take(i + 1).last() == all[i as int]);
            match parse_line(records[i].1.as_slice(), &reputations[i]) {
                Ok(record) => {
                    set.insert(record);
                },
                Err(fault) => {
                    proof {
                        lemma_error_stays(all, reputations@, i + 1);
                    }
                    return Err(EnrollmentError { line: records[i].0, fault });
                },
            }
            i = i + 1;
        }
        assert(all.take(i as int) =~= all);
        Ok(set)
    }
}

/// The ids of a list of records.
pub open spec fn ids_of(records: Seq<EnrolledRecord>) -> Seq<u64> {
    Seq::new(records.len(), |i: int| records[i].runner_id)
}

/// Whether a runner is enrolled with these fingerprints.
pub open spec fn enrolled(
    set: Map<u64, Enrollment>,
    runner_id: u64,
    signing_fp: Seq<u8>,
    vrf_fp: Seq<u8>,
) -> bool {
    set.contains_key(runner_id) && set[runner_id].signing_fp == signing_fp
        && set[runner_id].vrf_fp == vrf_fp
}

/// What refused the first lines refuses them all.
proof fn lemma_error_stays(
    records: Seq<(int, Seq<char>)>,
    reputations: Seq<ReputationField>,
    n: int,
)
    requires
        0 <= n <= records.len(),
        set_of(records.take(n), reputations) is Err,
    ensures
        set_of(records, reputations) == set_of(records.take(n), reputations),
    decreases records.len(),
{
    if n == records.len() {
        assert(records.take(n) =~= records);
    } else {
        assert(records.drop_last().take(n) =~= records.take(n));
        lemma_error_stays(records.drop_last(), reputations, n);
    }
}

fn parse_line(line: &[char], reputation: &ReputationField) -> (r: Result<
    EnrolledRecord,
    EnrollmentFault,
>)
    ensures
        match r {
            Ok(rec) => record_of(text::words_of(line@, false), *reputation) == Ok::<
                Enrollment,
                EnrollmentFault,
            >(rec@),
            Err(e) => record_of(text::words_of(line@, false), *reputation) == Err::<
                Enrollment,
                EnrollmentFault,
            >(e),
        },
{
    let words = text::words(line, false);
    let ghost w = text::texts(words@);
    assert(w.len() == words@.len());
    assert forall|i: int| 0 <= i < w.len() implies w[i] == words@[i]@ by {}
    if words.len() < 1 {
        return Err(EnrollmentFault::Missing(EnrollmentField::RunnerId));
    }
    let runner_id: u64 = match text::read_unsigned(words[0].as_slice(), u64::MAX) {
        Ok(n) => n,
        Err(e) => return Err(EnrollmentFault::NotANumber(EnrollmentField::RunnerId, e)),
    };
    if words.len() < 2 {
        return Err(EnrollmentFault::Missing(EnrollmentField::SigningFp));
    }
    if words.len() < 3 {
        return Err(EnrollmentFault::Missing(EnrollmentField::VrfFp));
    }
    if words.len() < 4 {
        return Err(EnrollmentFault::Missing(EnrollmentField::EnrolledAt));
    }
    let enrolled_at_unix_ns: i64 = match text::read_signed(words[3].as_slice()) {
        Ok(n) => n,
        Err(e) => return Err(EnrollmentFault::NotANumber(EnrollmentField::EnrolledAt, e)),
    };
    if words.len() < 5 {
        return Err(EnrollmentFault::Missing(EnrollmentField::InitialReputation));
    }
    if let ReputationField::NotANumber = reputation {
        return Err(EnrollmentFault::ReputationNotANumber);
    }
    if words.len() > 5 {
        return Err(EnrollmentFault::Trailing);
    }
    let initial_reputation_milli: u16 = match reputation {
        ReputationField::Milli(m) => *m,
        ReputationField::OutOfRange(shown) => return Err(
            EnrollmentFault::ReputationOutOfRange(shown.clone()),
        ),
        ReputationField::NotANumber => return Err(EnrollmentFault::ReputationNotANumber),
    };
    let signing_fp = match text::word_hex32(words[1].as_slice(), false) {
        Ok(b) => b,
        Err(e) => return Err(EnrollmentFault::BadHex(EnrollmentField::SigningFp, e)),
    };
    let vrf_fp = match text::word_hex32(words[2].as_slice(), false) {
        Ok(b) => b,
        Err(e) => return Err(EnrollmentFault::BadHex(EnrollmentField::VrfFp, e)),
    };
    Ok(
        EnrolledRecord {
            runner_id,
            signing_fp,
            vrf_fp,
            enrolled_at_unix_ns,
            initial_reputation_milli,
        },
    )
}

/// Compute the SHA-256 fingerprint of a 32-byte public key.
#[must_use]
pub fn fingerprint(pubkey: &[u8; 32]) -> (r: [u8; 32])
    ensures
        r@ == crate::boundary::sha::sha256_of(pubkey@),
{
    sha256(pubkey)
}

/// Render a 32-byte fingerprint as 64 lowercase hex chars.
#[must_use]
pub fn fingerprint_hex(fp: &[u8; 32]) -> (r: String)
    ensures
        r@ == text::hex_of(fp@),
{
    text::hex(fp)
}

/// An empty registry lets nobody in.
pub proof fn law_empty_set_enrolls_nobody(runner_id: u64, signing_fp: Seq<u8>, vrf_fp: Seq<u8>)
    ensures
        !enrolled(Map::empty(), runner_id, signing_fp, vrf_fp),
{
}

/// An enrolled id with another key is refused.
pub proof fn law_impersonation_is_refused(
    set: Map<u64, Enrollment>,
    runner_id: u64,
    signing_fp: Seq<u8>,
    vrf_fp: Seq<u8>,
)
    requires
        set.contains_key(runner_id),
        set[runner_id].signing_fp != signing_fp || set[runner_id].vrf_fp != vrf_fp,
    ensures
        !enrolled(set, runner_id, signing_fp, vrf_fp),
{
}

/// A record that was written, its reputation word read as its thousandths,
/// reads as that record.
pub proof fn law_line_round_trip(e: Enrollment, reputation: Seq<char>)
    requires
        e.signing_fp.len() == 32,
        e.vrf_fp.len() == 32,
        text::is_word(reputation, false),
    ensures
        record_of(
            text::words_of(line_of(e, reputation), false),
            ReputationField::Milli(e.initial_reputation_milli),
        ) == Ok::<Enrollment, EnrollmentFault>(e),
{
    text::law_decimal_round_trip(e.runner_id as nat, u64::MAX as nat);
    text::law_signed_round_trip(e.enrolled_at_unix_ns as int, i64::MIN as int, i64::MAX as int);
    text::law_hex_round_trip(e.signing_fp, false);
    text::law_hex_round_trip(e.vrf_fp, false);
    text::lemma_decimal_is_word(e.runner_id as nat, false);
    text::lemma_hex_is_word(e.signing_fp, false);
    text::lemma_hex_is_word(e.vrf_fp, false);
    text::lemma_signed_is_word(e.enrolled_at_unix_ns as int, false);
    text::law_words_round_trip(words_for(e, reputation), false);
}

/// The words of one line of an enrollment file.
pub open spec fn words_for(e: Enrollment, reputation: Seq<char>) -> Seq<Seq<char>> {
    seq![
        text::decimal_of(e.runner_id as nat),
        text::hex_of(e.signing_fp),
        text::hex_of(e.vrf_fp),
        text::signed_decimal_of(e.enrolled_at_unix_ns as int),
        reputation,
    ]
}

/// One line of an enrollment file.
pub open spec fn line_of(e: Enrollment, reputation: Seq<char>) -> Seq<char> {
    text::spaced(words_for(e, reputation))
}

/// Every record of an enrollment file counts, the last one for a runner that is
/// named more than once, and nobody else is enrolled; a file with a record that is
/// none is refused.
pub proof fn law_every_record_enrolls(
    records: Seq<(int, Seq<char>)>,
    reputations: Seq<ReputationField>,
    i: int,
    id: u64,
)
    ensures
        set_of(records, reputations) matches Ok(set) ==> {
            &&& 0 <= i < records.len() ==> record_of(
                text::words_of(records[i].1, false),
                reputations[i],
            ) is Ok
            &&& 0 <= i < records.len() && (forall|j: int|
                i < j < records.len() ==> record_of(
                    text::words_of((#[trigger] records[j]).1, false),
                    reputations[j],
                )->Ok_0.runner_id != record_of(
                    text::words_of(records[i].1, false),
                    reputations[i],
                )->Ok_0.runner_id) ==> {
                let e = record_of(text::words_of(records[i].1, false), reputations[i])->Ok_0;
                set.contains_key(e.runner_id) && set[e.runner_id] == e
            }
            &&& set.contains_key(id) ==> exists|k: int|
                0 <= k < records.len() && (record_of(
                    text::words_of((#[trigger] records[k]).1, false),
                    reputations[k],
                ) matches Ok(e) && e.runner_id == id)
        },
        set_of(records, reputations) is Err ==> exists|k: int|
            0 <= k < records.len() && (record_of(
                text::words_of((#[trigger] records[k]).1, false),
                reputations[k],
            ) matches Err(fault) && set_of(records, reputations) == Err::<
                Map<u64, Enrollment>,
                EnrollmentError,
            >(EnrollmentError { line: records[k].0 as usize, fault })),
    decreases records.len(),
{
    if records.len() > 0 {
        let n = records.len() - 1;
        let less = records.drop_last();
        law_every_record_enrolls(less, reputations, i, id);
        assert(records[n] == records.last());
        match set_of(less, reputations) {
            Err(e) => {
                let k = choose|k: int|
                    0 <= k < less.len() && (record_of(
                        text::words_of((#[trigger] less[k]).1, false),
                        reputations[k],
                    ) matches Err(fault) && set_of(less, reputations) == Err::<
                        Map<u64, Enrollment>,
                        EnrollmentError,
                    >(EnrollmentError { line: less[k].0 as usize, fault }));
                assert(records[k] == less[k]);
            },
            Ok(front) => {
                if let Ok(set) = set_of(records, reputations) {
                    let last = record_of(text::words_of(records[n].1, false), reputations[n])->Ok_0;
                    if 0 <= i < n {
                        assert(less[i] == records[i]);
                        if forall|j: int|
                            i < j < records.len() ==> record_of(
                                text::words_of((#[trigger] records[j]).1, false),
                                reputations[j],
                            )->Ok_0.runner_id != record_of(
                                text::words_of(records[i].1, false),
                                reputations[i],
                            )->Ok_0.runner_id {
                            assert forall|j: int| i < j < less.len() implies record_of(
                                text::words_of((#[trigger] less[j]).1, false),
                                reputations[j],
                            )->Ok_0.runner_id != record_of(
                                text::words_of(less[i].1, false),
                                reputations[i],
                            )->Ok_0.runner_id by {
                                assert(less[j] == records[j]);
                            }
                            assert(last.runner_id != record_of(
                                text::words_of(records[i].1, false),
                                reputations[i],
                            )->Ok_0.runner_id);
                        }
                    }
                    if set.contains_key(id) && last.runner_id != id {
                        let k = choose|k: int|
                            0 <= k < less.len() && (record_of(
                                text::words_of((#[trigger] less[k]).1, false),
                                reputations[k],
                            ) matches Ok(e) && e.runner_id == id);
                        assert(records[k] == less[k]);
                    }
                }
            },
        }
    }
}

/// A runner is enrolled with both its keys or not at all.
pub proof fn law_both_keys_enroll(
    set: Map<u64, Enrollment>,
    runner_id: u64,
    signing_fp: Seq<u8>,
    vrf_fp: Seq<u8>,
)
    ensures
        enrolled(set, runner_id, signing_fp, vrf_fp) <==> set.contains_key(runner_id)
            && signing_fp == set[runner_id].signing_fp && vrf_fp == set[runner_id].vrf_fp,
{
}

/// The reputation is the fifth word of a record: what a record's line was written
/// with.
pub proof fn law_reputation_is_read_back(
    a: Seq<(int, Seq<char>)>,
    number: int,
    e: Enrollment,
    shown: Seq<char>,
    b: Seq<(int, Seq<char>)>,
)
    requires
        e.signing_fp.len() == 32,
        e.vrf_fp.len() == 32,
        text::is_word(shown, false),
    ensures
        ({
            let all = reputation_words(a + seq![(number, line_of(e, shown))] + b);
            &&& all.len() == a.len() + 1 + b.len()
            &&& all[a.len() as int] == shown
        }),
{
    let words = words_for(e, shown);
    text::lemma_decimal_is_word(e.runner_id as nat, false);
    text::lemma_signed_is_word(e.enrolled_at_unix_ns as int, false);
    text::lemma_hex_is_word(e.signing_fp, false);
    text::lemma_hex_is_word(e.vrf_fp, false);
    assert forall|i: int| 0 <= i < words.len() implies text::is_word(#[trigger] words[i], false) by {}
    text::law_words_round_trip(words, false);
    let all = a + seq![(number, line_of(e, shown))] + b;
    assert(all[a.len() as int] == (number, line_of(e, shown)));
}

/// A record is taken exactly if it has five words that all read, its reputation
/// among them, and with the values that they write.
pub proof fn law_record_needs_every_field(words: Seq<Seq<char>>, reputation: ReputationField)
    ensures
        record_of(words, reputation) is Ok <==> {
            &&& words.len() == 5
            &&& text::unsigned_of(words[0], u64::MAX as nat) is Some
            &&& text::hex32_of(vstd::utf8::encode_utf8(words[1]), false) is Ok
            &&& text::hex32_of(vstd::utf8::encode_utf8(words[2]), false) is Ok
            &&& text::signed_of(words[3], i64::MIN as int, i64::MAX as int) is Some
            &&& reputation is Milli
        },
        record_of(words, reputation) matches Ok(e) ==> {
            &&& text::unsigned_of(words[0], u64::MAX as nat) == Some(e.runner_id as nat)
            &&& text::hex32_of(vstd::utf8::encode_utf8(words[1]), false) == Ok::<
                Seq<u8>,
                text::HexError,
            >(e.signing_fp)
            &&& text::hex32_of(vstd::utf8::encode_utf8(words[2]), false) == Ok::<
                Seq<u8>,
                text::HexError,
            >(e.vrf_fp)
            &&& text::signed_of(words[3], i64::MIN as int, i64::MAX as int) == Some(
                e.enrolled_at_unix_ns as int,
            )
            &&& reputation == ReputationField::Milli(e.initial_reputation_milli)
        },
{
}

} // verus!
