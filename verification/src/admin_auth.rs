//! Admin-session auth gate.
//!
//! The admin wire protocol is the remote-management surface for operators who
//! don't have shell access on the coordinator host. It sits *behind* mTLS, and
//! *also* requires an ed25519 signature from a pubkey on the operator-managed
//! allowlist. The mTLS cert is transport identity; the ed25519 key is action
//! identity.
//!
//! The allowlist file mirrors the shape of the tenant file:
//!
//! ```text
//! # admin_id    signing_fp_hex    enrolled_at_unix_ns
//! 1             abcd…             1700000000000000000
//! ```

use crate::boundary::sha::sha256;
use crate::bytes::{append_bytes, append_le, bytes_eq};
use crate::clock::Clock;
use crate::signing::{verify, Signature, VerifyingKey};
use crate::text;
use vstd::prelude::*;

verus! {

/// SHA-256 of an admin's ed25519 signing pubkey. 32 bytes.
pub type AdminSigningFingerprint = [u8; 32];

/// One record in the admin allowlist.
#[derive(Clone, Copy, Debug, PartialEq, Eq)]
pub struct AdminRecord {
    /// Operator-chosen admin id; recorded with each accepted
    /// hello in the coordinator's audit log.
    pub admin_id: u64,
    /// SHA-256 fingerprint of the admin's ed25519 signing pubkey.
    pub signing_fp: AdminSigningFingerprint,
    /// Unix-ns timestamp at enrollment.
    pub enrolled_at_unix_ns: u64,
}

/// What an admin record says.
pub struct AdminEntry {
    /// Admin id.
    pub admin_id: u64,
    /// Fingerprint of the signing key.
    pub signing_fp: Seq<u8>,
    /// Enrollment time.
    pub enrolled_at_unix_ns: u64,
}

impl View for AdminRecord {
    type V = AdminEntry;

    open spec fn view(&self) -> AdminEntry {
        AdminEntry {
            admin_id: self.admin_id,
            signing_fp: self.signing_fp@,
            enrolled_at_unix_ns: self.enrolled_at_unix_ns,
        }
    }
}

/// The fields of a record, in file order.
#[derive(Clone, Copy, Debug, PartialEq, Eq, Structural)]
pub enum AdminField {
    /// Admin id.
    AdminId,
    /// Fingerprint of the signing key.
    SigningFp,
    /// Enrollment time.
    EnrolledAt,
}

/// What is wrong with a line.
#[derive(Clone, Copy, Debug, PartialEq, Eq, Structural)]
pub enum AdminFault {
    /// The line ends before this field.
    Missing(AdminField),
    /// Something follows the last field.
    Trailing,
    /// This field does not read as what it should be.
    Malformed(AdminField),
}

/// Why an allowlist or a record is refused.
#[derive(Clone, Copy, Debug, PartialEq, Eq)]
pub enum AdminError {
    /// A line, counted from one, is malformed.
    InvalidLine {
        /// Number of the line.
        line: usize,
        /// What is wrong with it.
        fault: AdminFault,
    },
    /// The fingerprint is enrolled already.
    AlreadyEnrolled {
        /// Which fingerprint.
        signing_fp: AdminSigningFingerprint,
    },
}

/// What an error says.
pub enum AdminRefusal {
    /// A line is malformed.
    InvalidLine {
        /// Number of the line.
        line: int,
        /// What is wrong with it.
        fault: AdminFault,
    },
    /// The fingerprint is enrolled already.
    AlreadyEnrolled {
        /// Which fingerprint.
        signing_fp: Seq<u8>,
    },
}

impl View for AdminError {
    type V = AdminRefusal;

    open spec fn view(&self) -> AdminRefusal {
        match *self {
            AdminError::InvalidLine { line, fault } => AdminRefusal::InvalidLine {
                line: line as int,
                fault,
            },
            AdminError::AlreadyEnrolled { signing_fp } => AdminRefusal::AlreadyEnrolled {
                signing_fp: signing_fp@,
            },
        }
    }
}

impl AdminField {
    /// The name of the field in messages.
    pub open spec fn name_spec(self) -> Seq<char> {
        match self {
            AdminField::AdminId => "admin_id"@,
            AdminField::SigningFp => "signing_fp_hex"@,
            AdminField::EnrolledAt => "enrolled_at_unix_ns"@,
        }
    }

    /// The name of the field in messages.
    #[must_use]
    pub fn name(self) -> (r: &'static str)
        ensures
            r@ == self.name_spec(),
    {
        match self {
            AdminField::AdminId => "admin_id",
            AdminField::SigningFp => "signing_fp_hex",
            AdminField::EnrolledAt => "enrolled_at_unix_ns",
        }
    }
}

impl AdminFault {
    /// The description of the fault in messages.
    pub open spec fn description(self) -> Seq<char> {
        match self {
            AdminFault::Missing(f) => "missing field: "@ + f.name_spec(),
            AdminFault::Trailing => "trailing fields after enrolled_at_unix_ns"@,
            AdminFault::Malformed(AdminField::SigningFp) =>
                "signing_fp_hex not 64 lowercase-hex chars"@,
            AdminFault::Malformed(f) => f.name_spec() + " not a u64"@,
        }
    }
}

/// Bytes in hex with a comma between each two.
pub open spec fn separated(b: Seq<u8>) -> Seq<char>
    decreases b.len(),
{
    if b.len() == 0 {
        Seq::empty()
    } else if b.len() == 1 {
        text::hex_of(b)
    } else {
        separated(b.drop_last()) + ", "@ + text::hex_of(seq![b.last()])
    }
}

/// Bytes as a bracketed list, each in hex.
pub open spec fn byte_list(b: Seq<u8>) -> Seq<char> {
    "["@ + separated(b) + "]"@
}

fn append_byte_list(out: &mut String, b: &[u8])
    ensures
        final(out)@ == old(out)@ + byte_list(b@),
{
    text::append_str(out, "[");
    let ghost start = out@;
    let mut i: usize = 0;
    assert(b@.take(0) =~= Seq::<u8>::empty());
    while i < b.len()
        invariant
            i <= b.len(),
            out@ == start + separated(b@.take(i as int)),
        decreases b.len() - i,
    {
        let ghost shown = b@.take(i as int);
        if i > 0 {
            text::append_str(out, ", ");
        }
        let one: [u8; 1] = [b[i]];
        assert(one@ =~= seq![b@[i as int]]);
        text::append_hex(out, &one);
        assert(b@.take(i + 1).drop_last() =~= shown);
        assert(i == 0 ==> b@.take(i + 1) =~= one@);
        i = i + 1;
        assert(out@ =~= start + separated(b@.take(i as int)));
    }
    assert(b@.take(i as int) =~= b@);
    text::append_str(out, "]");
    assert(out@ =~= old(out)@ + byte_list(b@));
}

impl AdminError {
    /// The message for the operator.
    pub open spec fn message_spec(self) -> Seq<char> {
        match self@ {
            AdminRefusal::InvalidLine { line, fault } => "admin_keys.txt line "@
                + text::decimal_of(line as nat) + ": "@ + fault.description(),
            AdminRefusal::AlreadyEnrolled { signing_fp } => "admin signing_fp "@ + byte_list(
                signing_fp.take(4),
            ) + "… already enrolled"@,
        }
    }

    /// The message for the operator.
    #[must_use]
    pub fn message(&self) -> (r: String)
        ensures
            r@ == self.message_spec(),
    {
        let mut out = String::new();
        match *self {
            AdminError::InvalidLine { line, fault } => {
                text::append_str(&mut out, "admin_keys.txt line ");
                text::append_decimal(&mut out, line as u64);
                text::append_str(&mut out, ": ");
                match fault {
                    AdminFault::Missing(f) => {
                        text::append_str(&mut out, "missing field: ");
                        text::append_str(&mut out, f.name());
                    },
                    AdminFault::Trailing => {
                        text::append_str(&mut out, "trailing fields after enrolled_at_unix_ns");
                    },
                    AdminFault::Malformed(AdminField::SigningFp) => {
                        text::append_str(&mut out, "signing_fp_hex not 64 lowercase-hex chars");
                    },
                    AdminFault::Malformed(f) => {
                        text::append_str(&mut out, f.name());
                        text::append_str(&mut out, " not a u64");
                    },
                }
            },
            AdminError::AlreadyEnrolled { signing_fp } => {
                text::append_str(&mut out, "admin signing_fp ");
                let head = vstd::slice::slice_subrange(signing_fp.as_slice(), 0, 4);
                assert(head@ =~= signing_fp@.take(4));
                append_byte_list(&mut out, head);
                text::append_str(&mut out, "… already enrolled");
            },
        }
        assert(out@ =~= self.message_spec());
        out
    }
}

/// In-memory admin allowlist. No fingerprint occurs twice.
#[derive(Clone, Debug)]
pub struct AdminKeySet {
    records: Vec<AdminRecord>,
}

/// What each record of a list says.
pub open spec fn entries_of(records: Seq<AdminRecord>) -> Seq<AdminEntry> {
    Seq::new(records.len(), |i: int| records[i]@)
}

/// Whether a fingerprint is on the list.
pub open spec fn lists(set: Seq<AdminEntry>, fp: Seq<u8>) -> bool {
    exists|i: int| 0 <= i < set.len() && (#[trigger] set[i]).signing_fp == fp
}

/// The entry of a fingerprint that is on the list.
pub open spec fn entry_for(set: Seq<AdminEntry>, fp: Seq<u8>) -> AdminEntry {
    set[choose|i: int| 0 <= i < set.len() && (#[trigger] set[i]).signing_fp == fp]
}

/// Whether no fingerprint is on the list twice.
pub open spec fn one_per_fp(set: Seq<AdminEntry>) -> bool {
    forall|i: int, j: int|
        0 <= i < j < set.len() ==> (#[trigger] set[i]).signing_fp != (#[trigger] set[j]).signing_fp
}

impl View for AdminKeySet {
    type V = Seq<AdminEntry>;

    closed spec fn view(&self) -> Seq<AdminEntry> {
        entries_of(self.records@)
    }
}

impl Default for AdminKeySet {
    fn default() -> (r: Self)
        ensures
            r.wf(),
            r@ == Seq::<AdminEntry>::empty(),
    {
        AdminKeySet::new()
    }
}

/// The number that a word writes, as a field of a record.
pub open spec fn u64_field(word: Seq<char>, field: AdminField) -> Result<u64, AdminFault> {
    match text::unsigned_of(word, u64::MAX as nat) {
        Some(n) => Ok(n as u64),
        None => Err(AdminFault::Malformed(field)),
    }
}

/// The record that the words of a line write, or what is wrong.
pub open spec fn record_of(words: Seq<Seq<char>>) -> Result<AdminEntry, AdminFault> {
    if words.len() == 0 {
        Err(AdminFault::Missing(AdminField::AdminId))
    } else if words.len() == 1 {
        Err(AdminFault::Missing(AdminField::SigningFp))
    } else if words.len() == 2 {
        Err(AdminFault::Missing(AdminField::EnrolledAt))
    } else if words.len() > 3 {
        Err(AdminFault::Trailing)
    } else {
        match u64_field(words[0], AdminField::AdminId) {
            Err(e) => Err(e),
            Ok(admin_id) => match text::hex32_of(vstd::utf8::encode_utf8(words[1]), false) {
                Err(_) => Err(AdminFault::Malformed(AdminField::SigningFp)),
                Ok(signing_fp) => match u64_field(words[2], AdminField::EnrolledAt) {
                    Err(e) => Err(e),
                    Ok(enrolled_at_unix_ns) => Ok(
                        AdminEntry { admin_id, signing_fp, enrolled_at_unix_ns },
                    ),
                },
            },
        }
    }
}

/// The list after one more record, or why it is refused.
pub open spec fn with_record(set: Seq<AdminEntry>, entry: AdminEntry) -> Result<
    Seq<AdminEntry>,
    AdminRefusal,
> {
    if lists(set, entry.signing_fp) {
        Err(AdminRefusal::AlreadyEnrolled { signing_fp: entry.signing_fp })
    } else {
        Ok(set.push(entry))
    }
}

/// The list that numbered record lines write; the first line that is malformed
/// or repeats a fingerprint refuses them all.
pub open spec fn set_of(records: Seq<(int, Seq<char>)>) -> Result<Seq<AdminEntry>, AdminRefusal>
    decreases records.len(),
{
    if records.len() == 0 {
        Ok(Seq::empty())
    } else {
        match set_of(records.drop_last()) {
            Err(e) => Err(e),
            Ok(set) => match record_of(text::words_of(records.last().1, true)) {
                Err(fault) => Err(AdminRefusal::InvalidLine { line: records.last().0, fault }),
                Ok(entry) => with_record(set, entry),
            },
        }
    }
}

/// Whether one entry is listed no later than another: by id, then by
/// fingerprint, then by time.
pub open spec fn listed_first(a: AdminEntry, b: AdminEntry) -> bool {
    if a.admin_id != b.admin_id {
        a.admin_id < b.admin_id
    } else if a.signing_fp != b.signing_fp {
        crate::bytes::lex_less(a.signing_fp, b.signing_fp)
    } else {
        a.enrolled_at_unix_ns <= b.enrolled_at_unix_ns
    }
}

/// Whether entries are in the order of a listing.
pub open spec fn in_listing_order(set: Seq<AdminEntry>) -> bool {
    forall|i: int, j: int|
        0 <= i < j < set.len() ==> #[trigger] listed_first(set[i], set[j])
}

fn record_first(a: &AdminRecord, b: &AdminRecord) -> (r: bool)
    ensures
        r == listed_first(a@, b@),
{
    if a.admin_id != b.admin_id {
        a.admin_id < b.admin_id
    } else if !bytes_eq(&a.signing_fp, &b.signing_fp) {
        crate::bytes::bytes_less(&a.signing_fp, &b.signing_fp)
    } else {
        a.enrolled_at_unix_ns <= b.enrolled_at_unix_ns
    }
}

proof fn lemma_listed_first_total(a: AdminEntry, b: AdminEntry)
    ensures
        listed_first(a, a),
        listed_first(a, b) || listed_first(b, a),
        listed_first(a, b) && listed_first(b, a) ==> a == b,
{
    crate::bytes::lemma_lex_total(a.signing_fp, b.signing_fp);
    if crate::bytes::lex_less(a.signing_fp, b.signing_fp) && crate::bytes::lex_less(
        b.signing_fp,
        a.signing_fp,
    ) {
        crate::bytes::lemma_lex_transitive(a.signing_fp, b.signing_fp, a.signing_fp);
    }
    crate::bytes::lemma_lex_irreflexive(a.signing_fp);
}

proof fn lemma_listed_first_transitive(a: AdminEntry, b: AdminEntry, c: AdminEntry)
    requires
        listed_first(a, b),
        listed_first(b, c),
    ensures
        listed_first(a, c),
{
    if a.admin_id == b.admin_id && b.admin_id == c.admin_id && a.signing_fp != b.signing_fp
        && b.signing_fp != c.signing_fp {
        crate::bytes::lemma_lex_transitive(a.signing_fp, b.signing_fp, c.signing_fp);
        crate::bytes::lemma_lex_irreflexive(a.signing_fp);
    }
}

impl AdminKeySet {
    /// Whether no fingerprint occurs twice.
    pub open spec fn wf(&self) -> bool {
        one_per_fp(self@)
    }

    /// Empty set: no admin authorized.
    #[must_use]
    pub fn new() -> (r: Self)
        ensures
            r.wf(),
            r@ == Seq::<AdminEntry>::empty(),
    {
        let r = AdminKeySet { records: Vec::new() };
        assert(r@ =~= Seq::<AdminEntry>::empty());
        r
    }

    /// Number of records.
    #[must_use]
    pub fn len(&self) -> (r: usize)
        ensures
            r == self@.len(),
    {
        self.records.len()
    }

    /// True if the set is empty.
    #[must_use]
    pub fn is_empty(&self) -> (r: bool)
        ensures
            r == (self@.len() == 0),
    {
        self.records.len() == 0
    }

    /// Look up an admin by the SHA-256 fingerprint of their
    /// signing pubkey.
    #[must_use]
    pub fn get(&self, fp: &AdminSigningFingerprint) -> (r: Option<&AdminRecord>)
        requires
            self.wf(),
        ensures
            r is Some <==> lists(self@, fp@),
            r matches Some(rec) ==> rec@ == entry_for(self@, fp@) && rec@.signing_fp == fp@,
    {
        let mut i: usize = 0;
        while i < self.records.len()
            invariant
                i <= self.records.len(),
                self.wf(),
                forall|k: int| 0 <= k < i ==> (#[trigger] self@[k]).signing_fp != fp@,
            decreases self.records.len() - i,
        {
            assert(self@[i as int] == self.records@[i as int]@);
            if bytes_eq(&self.records[i].signing_fp, fp) {
                proof {
                    let j = choose|j: int|
                        0 <= j < self@.len() && (#[trigger] self@[j]).signing_fp == fp@;
                    assert(self@[i as int].signing_fp == fp@);
                    assert(i == j) by {
                        if i < j {
                            assert(self@[i as int].signing_fp != self@[j].signing_fp);
                        } else if j < i {
                            assert(self@[j].signing_fp != self@[i as int].signing_fp);
                        }
                    }
                }
                return Some(&self.records[i]);
            }
            i = i + 1;
        }
        None
    }

    /// Insert a record.
    ///
    /// # Errors
    ///
    /// `AlreadyEnrolled` if a record with the same `signing_fp` is present; the
    /// set is then as it was.
    pub fn insert(&mut self, record: AdminRecord) -> (r: Result<(), AdminError>)
        requires
            old(self).wf(),
        ensures
            final(self).wf(),
            match with_record(old(self)@, record@) {
                Ok(set) => r is Ok && final(self)@ == set,
                Err(e) => (r matches Err(x) && x@ == e) && final(self)@ == old(self)@,
            },
    {
        if self.get(&record.signing_fp).is_some() {
            return Err(AdminError::AlreadyEnrolled { signing_fp: record.signing_fp });
        }
        let ghost before = self@;
        self.records.push(record);
        proof {
            assert(self@ =~= before.push(record@));
            assert forall|i: int, j: int| 0 <= i < j < self@.len() implies (
            #[trigger] self@[i]).signing_fp != (#[trigger] self@[j]).signing_fp by {
                assert(before[i] == self@[i]);
                if j < before.len() {
                    assert(before[j] == self@[j]);
                }
            }
        }
        Ok(())
    }

    /// The records, each once, sorted by `admin_id`, and by fingerprint where
    /// two have one id.
    #[must_use]
    pub fn iter(&self) -> (r: Vec<AdminRecord>)
        ensures
            in_listing_order(entries_of(r@)),
            entries_of(r@).to_multiset() == self@.to_multiset(),
            r@.len() == self@.len(),
    {
        let mut out: Vec<AdminRecord> = Vec::new();
        let mut n: usize = 0;
        assert(self@.take(0) =~= entries_of(out@));
        while n < self.records.len()
            invariant
                n <= self.records.len(),
                in_listing_order(entries_of(out@)),
                out@.len() == n,
                entries_of(out@).to_multiset() == self@.take(n as int).to_multiset(),
            decreases self.records.len() - n,
        {
            let record = self.records[n];
            let mut at: usize = 0;
            while at < out.len() && record_first(&out[at], &record)
                invariant
                    at <= out.len(),
                    forall|i: int|
                        0 <= i < at ==> listed_first(#[trigger] entries_of(out@)[i], record@),
                decreases out.len() - at,
            {
                at = at + 1;
            }
            let ghost before = entries_of(out@);
            out.insert(at, record);
            let ghost after = entries_of(out@);
            proof {
                assert(after =~= before.insert(at as int, record@));
                vstd::seq_lib::to_multiset_insert(before, at as int, record@);
                self@.take(n as int).to_multiset_ensures();
                assert(self@.take(n + 1) =~= self@.take(n as int).push(record@));
                assert(after.to_multiset() =~= self@.take(n + 1).to_multiset());
                if at < before.len() {
                    lemma_listed_first_total(record@, before[at as int]);
                }
                assert forall|i: int, j: int| 0 <= i < j < after.len() implies #[trigger]
                    listed_first(after[i], after[j]) by {
                    if i < at && j > at {
                        assert(listed_first(before[i], before[j - 1]));
                    } else if i < at && j < at {
                        assert(listed_first(before[i], before[j]));
                    } else if i < at {
                        assert(listed_first(before[i], record@));
                    } else if i > at {
                        assert(listed_first(before[i - 1], before[j - 1]));
                    } else if j - 1 > at {
                        assert(listed_first(before[at as int], before[j - 1]));
                        lemma_listed_first_transitive(
                            record@,
                            before[at as int],
                            before[j - 1],
                        );
                    }
                }
            }
            n = n + 1;
        }
        assert(self@.take(n as int) =~= self@);
        out
    }

    /// Read an allowlist from the text of its file. Comments
    /// (`#`-prefixed lines) and blank lines are skipped.
    ///
    /// # Errors
    ///
    /// The first malformed line, or the first that repeats a fingerprint,
    /// aborts.
    pub fn parse(file: &str) -> (r: Result<Self, AdminError>)
        ensures
            match r {
                Ok(set) => set.wf() && set_of(text::records_of(text::lines_of(file@))) == Ok::<
                    Seq<AdminEntry>,
                    AdminRefusal,
                >(set@),
                Err(e) => set_of(text::records_of(text::lines_of(file@))) == Err::<
                    Seq<AdminEntry>,
                    AdminRefusal,
                >(e@),
            },
    {
        let records = text::record_lines(file);
        let ghost all = text::numbered(records@);
        let mut set = AdminKeySet::new();
        let mut i: usize = 0;
        assert(all.take(0) =~= Seq::<(int, Seq<char>)>::empty());
        while i < records.len()
            invariant
                i <= records.len(),
                all == text::numbered(records@),
                all == text::records_of(text::lines_of(file@)),
                set.wf(),
                set_of(all.take(i as int)) == Ok::<Seq<AdminEntry>, AdminRefusal>(set@),
            decreases records.len() - i,
        {
            assert(all.take(i + 1).drop_last() =~= all.take(i as int));
            assert(all.take(i + 1).last() == all[i as int]);
            match parse_line(records[i].1.as_slice()) {
                Ok(record) => match set.insert(record) {
                    Ok(()) => {},
                    Err(e) => {
                        proof {
                            lemma_error_stays(all, i + 1);
                        }
                        return Err(e);
                    },
                },
                Err(fault) => {
                    proof {
                        lemma_error_stays(all, i + 1);
                    }
                    return Err(AdminError::InvalidLine { line: records[i].0, fault });
                },
            }
            i = i + 1;
        }
        assert(all.take(i as int) =~= all);
        Ok(set)
    }
}

/// What refused the first lines refuses them all.
proof fn lemma_error_stays(records: Seq<(int, Seq<char>)>, n: int)
    requires
        0 <= n <= records.len(),
        set_of(records.take(n)) is Err,
    ensures
        set_of(records) == set_of(records.take(n)),
    decreases records.len(),
{
    if n == records.len() {
        assert(records.take(n) =~= records);
    } else {
        assert(records.drop_last().take(n) =~= records.take(n));
        lemma_error_stays(records.drop_last(), n);
    }
}

fn parse_line(line: &[char]) -> (r: Result<AdminRecord, AdminFault>)
    ensures
        match r {
            Ok(rec) => record_of(text::words_of(line@, true)) == Ok::<AdminEntry, AdminFault>(rec@),
            Err(e) => record_of(text::words_of(line@, true)) == Err::<AdminEntry, AdminFault>(e),
        },
{
    let words = text::words(line, true);
    let ghost w = text::texts(words@);
    assert(w.len() == words@.len());
    if words.len() == 0 {
        return Err(AdminFault::Missing(AdminField::AdminId));
    }
    if words.len() == 1 {
        return Err(AdminFault::Missing(AdminField::SigningFp));
    }
    if words.len() == 2 {
        return Err(AdminFault::Missing(AdminField::EnrolledAt));
    }
    if words.len() > 3 {
        return Err(AdminFault::Trailing);
    }
    assert(w[0] == words@[0]@ && w[1] == words@[1]@ && w[2] == words@[2]@);
    let admin_id: u64 = match text::parse_unsigned(words[0].as_slice(), u64::MAX) {
        Some(n) => n,
        None => return Err(AdminFault::Malformed(AdminField::AdminId)),
    };
    let signing_fp = match text::word_hex32(words[1].as_slice(), false) {
        Ok(b) => b,
        Err(_) => return Err(AdminFault::Malformed(AdminField::SigningFp)),
    };
    let enrolled_at_unix_ns: u64 = match text::parse_unsigned(words[2].as_slice(), u64::MAX) {
        Some(n) => n,
        None => return Err(AdminFault::Malformed(AdminField::EnrolledAt)),
    };
    Ok(AdminRecord { admin_id, signing_fp, enrolled_at_unix_ns })
}

/// Outcome of [`verify_admin_hello`].
#[derive(Clone, Copy, Debug, PartialEq, Eq, Structural)]
pub enum AdminAuthCheck {
    /// Admin authorized: the coordinator may proceed to honor admin requests
    /// on this connection.
    Authorized {
        /// `admin_id` from the matched allowlist record.
        admin_id: u64,
    },
    /// Admin pubkey not in the allowlist, OR signature verify
    /// failed, OR the timestamp is outside the freshness window.
    /// Verdicts are merged on purpose: the admin protocol
    /// shouldn't leak which keys are configured.
    Unauthorized,
}

/// The message that a hello signs: the challenge, then the timestamp.
pub open spec fn hello_message(challenge: Seq<u8>, ts_unix_ns: u64) -> Seq<u8> {
    challenge + crate::bytes::le_of(ts_unix_ns as nat, 8)
}

/// Whether a hello is authentic at `now`: fresh, from a key on the list, and
/// signed with that key.
pub open spec fn hello_is_authentic(
    set: Seq<AdminEntry>,
    pubkey: Seq<u8>,
    ts_unix_ns: u64,
    signature: Seq<u8>,
    challenge: Seq<u8>,
    freshness_ns: u64,
    now: u64,
) -> bool {
    &&& crate::replay::distance(now, ts_unix_ns) <= freshness_ns
    &&& lists(set, crate::boundary::sha::sha256_of(pubkey))
    &&& crate::boundary::ed25519::is_public_key(pubkey)
    &&& crate::boundary::ed25519::signature_accepted(
        pubkey,
        hello_message(challenge, ts_unix_ns),
        signature,
    )
}

/// The verdict on a hello at `now`.
pub open spec fn hello_verdict(
    set: Seq<AdminEntry>,
    pubkey: Seq<u8>,
    ts_unix_ns: u64,
    signature: Seq<u8>,
    challenge: Seq<u8>,
    freshness_ns: u64,
    now: u64,
) -> AdminAuthCheck {
    if hello_is_authentic(set, pubkey, ts_unix_ns, signature, challenge, freshness_ns, now) {
        AdminAuthCheck::Authorized {
            admin_id: entry_for(set, crate::boundary::sha::sha256_of(pubkey)).admin_id,
        }
    } else {
        AdminAuthCheck::Unauthorized
    }
}

/// Verify an admin hello message under a clock + allowlist.
///
/// `freshness_ns` bounds how far `ts_unix_ns` may be from
/// `clock.now_ns()` in either direction.
pub fn verify_admin_hello<C: Clock>(
    set: &AdminKeySet,
    pubkey: &[u8; 32],
    ts_unix_ns: u64,
    signature: &[u8; 64],
    challenge: &[u8],
    freshness_ns: u64,
    clock: &C,
) -> (r: AdminAuthCheck)
    requires
        set.wf(),
    ensures
        exists|now: u64|
            r == #[trigger] hello_verdict(
                set@,
                pubkey@,
                ts_unix_ns,
                signature@,
                challenge@,
                freshness_ns,
                now,
            ),
{
    let now: u64 = clock.now_ns();
    verify_admin_hello_at(set, pubkey, ts_unix_ns, signature, challenge, freshness_ns, now)
}

/// The same at a given clock reading.
pub fn verify_admin_hello_at(
    set: &AdminKeySet,
    pubkey: &[u8; 32],
    ts_unix_ns: u64,
    signature: &[u8; 64],
    challenge: &[u8],
    freshness_ns: u64,
    now: u64,
) -> (r: AdminAuthCheck)
    requires
        set.wf(),
    ensures
        r == hello_verdict(
            set@,
            pubkey@,
            ts_unix_ns,
            signature@,
            challenge@,
            freshness_ns,
            now,
        ),
{
    let diff: u64 = if now >= ts_unix_ns {
        now - ts_unix_ns
    } else {
        ts_unix_ns - now
    };
    if diff > freshness_ns {
        return AdminAuthCheck::Unauthorized;
    }
    let fp = fingerprint(pubkey);
    let record = match set.get(&fp) {
        Some(r) => r,
        None => return AdminAuthCheck::Unauthorized,
    };
    let verifying_key = match VerifyingKey::from_bytes(pubkey) {
        Ok(k) => k,
        Err(_) => return AdminAuthCheck::Unauthorized,
    };
    let mut signed_bytes: Vec<u8> = Vec::new();
    append_bytes(&mut signed_bytes, challenge);
    append_le(&mut signed_bytes, ts_unix_ns as u128, 8);
    assert(signed_bytes@ =~= hello_message(challenge@, ts_unix_ns));
    let sig = Signature::from_bytes(signature);
    if verify(&verifying_key, signed_bytes.as_slice(), &sig).is_err() {
        return AdminAuthCheck::Unauthorized;
    }
    AdminAuthCheck::Authorized { admin_id: record.admin_id }
}

/// SHA-256 fingerprint helper.
#[must_use]
pub fn fingerprint(pubkey: &[u8; 32]) -> (r: AdminSigningFingerprint)
    ensures
        r@ == crate::boundary::sha::sha256_of(pubkey@),
{
    sha256(pubkey)
}

/// Lowercase-hex render of a fingerprint.
#[must_use]
pub fn fingerprint_hex(fp: &AdminSigningFingerprint) -> (r: String)
    ensures
        r@ == text::hex_of(fp@),
{
    text::hex(fp)
}

/// A stale hello is refused whatever it carries.
pub proof fn law_stale_hello_is_refused(
    set: Seq<AdminEntry>,
    pubkey: Seq<u8>,
    ts_unix_ns: u64,
    signature: Seq<u8>,
    challenge: Seq<u8>,
    freshness_ns: u64,
    now: u64,
)
    requires
        crate::replay::distance(now, ts_unix_ns) > freshness_ns,
    ensures
        hello_verdict(set, pubkey, ts_unix_ns, signature, challenge, freshness_ns, now)
            == AdminAuthCheck::Unauthorized,
{
}

/// With an empty allowlist nobody is let in.
pub proof fn law_empty_set_admits_nobody(
    pubkey: Seq<u8>,
    ts_unix_ns: u64,
    signature: Seq<u8>,
    challenge: Seq<u8>,
    freshness_ns: u64,
    now: u64,
)
    ensures
        hello_verdict(
            Seq::empty(),
            pubkey,
            ts_unix_ns,
            signature,
            challenge,
            freshness_ns,
            now,
        ) == AdminAuthCheck::Unauthorized,
{
}

/// Two sets that hold the same records list them in the same order, whatever
/// the order in which they were enrolled.
pub proof fn law_listing_is_determined(a: Seq<AdminEntry>, b: Seq<AdminEntry>)
    requires
        in_listing_order(a),
        in_listing_order(b),
        a.to_multiset() == b.to_multiset(),
    ensures
        a == b,
{
    let leq = |x: AdminEntry, y: AdminEntry| listed_first(x, y);
    assert(vstd::relations::total_ordering(leq)) by {
        assert forall|x: AdminEntry| #[trigger] leq(x, x) by {
            lemma_listed_first_total(x, x);
        }
        assert forall|x: AdminEntry, y: AdminEntry| #[trigger] leq(x, y) && #[trigger] leq(
            y,
            x,
        ) implies x == y by {
            lemma_listed_first_total(x, y);
        }
        assert forall|x: AdminEntry, y: AdminEntry, z: AdminEntry| #[trigger] leq(x, y)
            && #[trigger] leq(y, z) implies leq(x, z) by {
            lemma_listed_first_transitive(x, y, z);
        }
        assert forall|x: AdminEntry, y: AdminEntry| #[trigger] leq(x, y) || #[trigger] leq(
            y,
            x,
        ) by {
            lemma_listed_first_total(x, y);
        }
    }
    assert forall|i: int, j: int| 0 <= i < j < a.len() implies #[trigger] leq(a[i], a[j]) by {
        assert(listed_first(a[i], a[j]));
    }
    assert forall|i: int, j: int| 0 <= i < j < b.len() implies #[trigger] leq(b[i], b[j]) by {
        assert(listed_first(b[i], b[j]));
    }
    vstd::seq_lib::lemma_sorted_unique(a, b, leq);
}

/// A listing yields every record once: as many as the set holds, no fingerprint
/// twice, and for each fingerprint on the list the entry that a look-up finds.
pub proof fn law_listing_is_complete(set: Seq<AdminEntry>, listing: Seq<AdminEntry>)
    requires
        one_per_fp(set),
        listing.to_multiset() == set.to_multiset(),
    ensures
        listing.len() == set.len(),
        one_per_fp(listing),
        forall|e: AdminEntry| listing.contains(e) <==> set.contains(e),
        forall|i: int|
            0 <= i < listing.len() ==> lists(set, (#[trigger] listing[i]).signing_fp) && entry_for(
                set,
                listing[i].signing_fp,
            ) == listing[i],
{
    broadcast use vstd::seq_lib::group_to_multiset_ensures;

    set.to_multiset_ensures();
    listing.to_multiset_ensures();
    assert forall|e: AdminEntry| listing.contains(e) <==> set.contains(e) by {
        assert(listing.contains(e) <==> listing.to_multiset().count(e) > 0);
        assert(set.contains(e) <==> set.to_multiset().count(e) > 0);
    }
    assert forall|i: int| 0 <= i < listing.len() implies lists(
        set,
        (#[trigger] listing[i]).signing_fp,
    ) && entry_for(set, listing[i].signing_fp) == listing[i] by {
        assert(listing.contains(listing[i]));
        let j = choose|j: int| 0 <= j < set.len() && set[j] == listing[i];
        assert(set[j].signing_fp == listing[i].signing_fp);
        let k = choose|k: int|
            0 <= k < set.len() && (#[trigger] set[k]).signing_fp == listing[i].signing_fp;
        if k < j {
            assert(set[k].signing_fp != set[j].signing_fp);
        } else if j < k {
            assert(set[j].signing_fp != set[k].signing_fp);
        }
    }
    lemma_no_duplicates(set);
    set.lemma_multiset_has_no_duplicates();
    listing.lemma_multiset_has_no_duplicates_conv();
    assert forall|i: int, j: int| 0 <= i < j < listing.len() implies (
    #[trigger] listing[i]).signing_fp != (#[trigger] listing[j]).signing_fp by {
        if listing[i].signing_fp == listing[j].signing_fp {
            assert(entry_for(set, listing[i].signing_fp) == listing[i]);
            assert(entry_for(set, listing[j].signing_fp) == listing[j]);
            assert(listing[i] == listing[j]);
        }
    }
}

proof fn lemma_no_duplicates(set: Seq<AdminEntry>)
    requires
        one_per_fp(set),
    ensures
        set.no_duplicates(),
{
    assert forall|i: int, j: int| 0 <= i < set.len() && 0 <= j < set.len() && i != j implies set[i]
        != set[j] by {
        if i < j {
            assert(set[i].signing_fp != set[j].signing_fp);
        } else {
            assert(set[j].signing_fp != set[i].signing_fp);
        }
    }
}

/// Every record of a key file is an entry of the set, in order, and no key is
/// listed twice; the first record that is none, or lists a key again, is what the
/// file is refused for.
pub proof fn law_every_record_is_an_admin(records: Seq<(int, Seq<char>)>)
    ensures
        match set_of(records) {
            Ok(set) => {
                &&& set.len() == records.len()
                &&& one_per_fp(set)
                &&& forall|i: int|
                    0 <= i < records.len() ==> record_of(
                        text::words_of((#[trigger] records[i]).1, true),
                    ) == Ok::<AdminEntry, AdminFault>(set[i])
            },
            Err(e) => exists|i: int|
                {
                    &&& 0 <= i < records.len()
                    &&& set_of(records.take(i)) is Ok
                    &&& match record_of(text::words_of((#[trigger] records[i]).1, true)) {
                        Err(fault) => e == (AdminRefusal::InvalidLine {
                            line: records[i].0,
                            fault,
                        }),
                        Ok(entry) => lists(set_of(records.take(i))->Ok_0, entry.signing_fp) && e
                            == (AdminRefusal::AlreadyEnrolled { signing_fp: entry.signing_fp }),
                    }
                },
        },
    decreases records.len(),
{
    if records.len() > 0 {
        let n = records.len() - 1;
        let less = records.drop_last();
        law_every_record_is_an_admin(less);
        assert(records.take(n) =~= less);
        match set_of(less) {
            Err(e) => {
                let i = choose|i: int|
                    {
                        &&& 0 <= i < less.len()
                        &&& set_of(less.take(i)) is Ok
                        &&& match record_of(text::words_of((#[trigger] less[i]).1, true)) {
                            Err(fault) => e == (AdminRefusal::InvalidLine {
                                line: less[i].0,
                                fault,
                            }),
                            Ok(entry) => lists(set_of(less.take(i))->Ok_0, entry.signing_fp) && e
                                == (AdminRefusal::AlreadyEnrolled {
                                signing_fp: entry.signing_fp,
                            }),
                        }
                    };
                assert(records[i] == less[i]);
                assert(records.take(i) =~= less.take(i));
            },
            Ok(front) => {
                match set_of(records) {
                    Ok(set) => {
                        assert forall|i: int| 0 <= i < records.len() implies record_of(
                            text::words_of((#[trigger] records[i]).1, true),
                        ) == Ok::<AdminEntry, AdminFault>(set[i]) by {
                            if i < n {
                                assert(less[i] == records[i]);
                                assert(set[i] == front[i]);
                            }
                        }
                        assert forall|i: int, j: int| 0 <= i < j < set.len() implies (
                        #[trigger] set[i]).signing_fp != (#[trigger] set[j]).signing_fp by {
                            assert(set[i] == front[i]);
                            if j < n {
                                assert(set[j] == front[j]);
                            } else {
                                assert(!lists(front, set[j].signing_fp));
                            }
                        }
                    },
                    Err(_) => {
                        assert(records[n] == records.last());
                    },
                }
            },
        }
    }
}

/// A record is read as it is written: the number, the key's hash in hex, and the
/// time.
pub proof fn law_record_is_read_back(e: AdminEntry)
    requires
        e.signing_fp.len() == 32,
    ensures
        record_of(
            text::words_of(
                text::spaced(
                    seq![
                        text::decimal_of(e.admin_id as nat),
                        text::hex_of(e.signing_fp),
                        text::decimal_of(e.enrolled_at_unix_ns as nat),
                    ],
                ),
                true,
            ),
        ) == Ok::<AdminEntry, AdminFault>(e),
{
    let words = seq![
        text::decimal_of(e.admin_id as nat),
        text::hex_of(e.signing_fp),
        text::decimal_of(e.enrolled_at_unix_ns as nat),
    ];
    text::lemma_decimal_is_word(e.admin_id as nat, true);
    text::lemma_decimal_is_word(e.enrolled_at_unix_ns as nat, true);
    text::lemma_hex_is_word(e.signing_fp, true);
    assert forall|i: int| 0 <= i < words.len() implies text::is_word(#[trigger] words[i], true) by {}
    text::law_words_round_trip(words, true);
    text::law_decimal_round_trip(e.admin_id as nat, u64::MAX as nat);
    text::law_decimal_round_trip(e.enrolled_at_unix_ns as nat, u64::MAX as nat);
    text::law_hex_round_trip(e.signing_fp, false);
}

/// An administrator is let in exactly if the hello is fresh, the key is listed,
/// and it signed this challenge at this time; and under the number that the key is
/// listed with.
pub proof fn law_hello_needs_everything(
    set: Seq<AdminEntry>,
    pubkey: Seq<u8>,
    ts_unix_ns: u64,
    signature: Seq<u8>,
    challenge: Seq<u8>,
    freshness_ns: u64,
    now: u64,
    i: int,
)
    requires
        one_per_fp(set),
    ensures
        ({
            let v = hello_verdict(
                set,
                pubkey,
                ts_unix_ns,
                signature,
                challenge,
                freshness_ns,
                now,
            );
            &&& v is Authorized <==> {
                &&& now - ts_unix_ns <= freshness_ns && ts_unix_ns - now <= freshness_ns
                &&& exists|k: int|
                    0 <= k < set.len() && (#[trigger] set[k]).signing_fp
                        == crate::boundary::sha::sha256_of(pubkey)
                &&& crate::boundary::ed25519::is_public_key(pubkey)
                &&& crate::boundary::ed25519::signature_accepted(
                    pubkey,
                    challenge + crate::bytes::le_of(ts_unix_ns as nat, 8),
                    signature,
                )
            }
            &&& 0 <= i < set.len() && set[i].signing_fp == crate::boundary::sha::sha256_of(pubkey)
                ==> (v matches AdminAuthCheck::Authorized { admin_id } ==> admin_id
                == set[i].admin_id)
        }),
{
    let fp = crate::boundary::sha::sha256_of(pubkey);
    if 0 <= i < set.len() && set[i].signing_fp == fp {
        let k = choose|k: int| 0 <= k < set.len() && (#[trigger] set[k]).signing_fp == fp;
        assert(k == i);
    }
}

/// A key that is not listed is added behind the others; one that is listed is
/// refused.
pub proof fn law_listed_key_is_refused(set: Seq<AdminEntry>, entry: AdminEntry)
    ensures
        with_record(set, entry) is Err <==> exists|i: int|
            0 <= i < set.len() && (#[trigger] set[i]).signing_fp == entry.signing_fp,
        with_record(set, entry) matches Ok(after) ==> after.len() == set.len() + 1 && after.last()
            == entry && after.drop_last() == set,
{
    if with_record(set, entry) is Ok {
        assert(set.push(entry).drop_last() =~= set);
    }
}

/// Administrators are listed by number, then by key: the order is total, and two
/// entries that stand in it both ways are the same.
pub proof fn law_admins_are_listed_by_number(a: AdminEntry, b: AdminEntry)
    ensures
        a.admin_id < b.admin_id ==> listed_first(a, b) && !listed_first(b, a),
        a.admin_id == b.admin_id && crate::bytes::lex_less(a.signing_fp, b.signing_fp)
            ==> listed_first(a, b) && !listed_first(b, a),
        listed_first(a, b) || listed_first(b, a),
        listed_first(a, b) && listed_first(b, a) ==> a == b,
{
    crate::bytes::lemma_lex_total(a.signing_fp, b.signing_fp);
    if a.signing_fp != b.signing_fp && crate::bytes::lex_less(a.signing_fp, b.signing_fp)
        && crate::bytes::lex_less(b.signing_fp, a.signing_fp) {
        crate::bytes::lemma_lex_transitive(a.signing_fp, b.signing_fp, a.signing_fp);
        crate::bytes::lemma_lex_irreflexive(a.signing_fp);
    }
    if crate::bytes::lex_less(a.signing_fp, b.signing_fp) && a.signing_fp == b.signing_fp {
        crate::bytes::lemma_lex_irreflexive(a.signing_fp);
    }
}

/// A record has three words; the first that is missing is named, and so is the
/// first that does not read.
pub proof fn law_record_is_refused_for_its_first_fault(words: Seq<Seq<char>>)
    ensures
        words.len() == 0 ==> record_of(words) == Err::<AdminEntry, AdminFault>(
            AdminFault::Missing(AdminField::AdminId),
        ),
        words.len() == 1 ==> record_of(words) == Err::<AdminEntry, AdminFault>(
            AdminFault::Missing(AdminField::SigningFp),
        ),
        words.len() == 2 ==> record_of(words) == Err::<AdminEntry, AdminFault>(
            AdminFault::Missing(AdminField::EnrolledAt),
        ),
        words.len() > 3 ==> record_of(words) == Err::<AdminEntry, AdminFault>(
            AdminFault::Trailing,
        ),
        words.len() == 3 ==> {
            let id = text::unsigned_of(words[0], u64::MAX as nat) is Some;
            let key = text::hex32_of(vstd::utf8::encode_utf8(words[1]), false) is Ok;
            let time = text::unsigned_of(words[2], u64::MAX as nat) is Some;
            let r = record_of(words);
            &&& r is Ok <==> id && key && time
            &&& !id ==> r == Err::<AdminEntry, AdminFault>(
                AdminFault::Malformed(AdminField::AdminId),
            )
            &&& id && !key ==> r == Err::<AdminEntry, AdminFault>(
                AdminFault::Malformed(AdminField::SigningFp),
            )
            &&& id && key && !time ==> r == Err::<AdminEntry, AdminFault>(
                AdminFault::Malformed(AdminField::EnrolledAt),
            )
        },
{
}

} // verus!
