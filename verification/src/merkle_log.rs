//! Append-only Merkle log for attestation anchoring.
//!
//! The log is append-only; the Merkle root at any prefix length is a pure
//! function of that prefix; inclusion proofs against a frozen prefix root
//! remain valid regardless of later appends.
//!
//! The module also exposes the **peak decomposition** of a log length:
//! the perfect binary subtrees spanning the leaves, one per 1-bit of the
//! length. Once a peak is formed its hash never changes.

use crate::boundary::merkle::{leaf_hash, tree_proof, tree_root, tree_verify};
use vstd::prelude::*;

verus! {

/// Leaf / entry hash.
pub type Hash = [u8; 32];

/// Hash arbitrary bytes into a log entry.
#[must_use]
pub fn hash_bytes(data: &[u8]) -> (r: Hash)
    ensures
        r@ == crate::boundary::merkle::leaf_hash_of(data@),
{
    leaf_hash(data)
}

/// Inclusion proof bundle.
#[derive(Clone, Debug, PartialEq, Eq)]
pub struct InclusionProof {
    /// Position of the entry in the log.
    pub position: u64,
    /// The entry itself.
    pub entry: Hash,
    /// Hashes that lead from the entry to the root.
    pub proof_hashes: Vec<Hash>,
    /// Length of the log that the proof was made for.
    pub length_at_proof: u64,
}

/// Whether `proof` leads to `root`.
pub open spec fn proof_accepted(proof: InclusionProof, root: Seq<u8>) -> bool {
    crate::boundary::merkle::tree_accepts(
        proof.proof_hashes@,
        root,
        proof.position as usize as int,
        proof.entry@,
        proof.length_at_proof as usize as int,
    )
}

/// The root over the first `n` of `entries`.
pub open spec fn prefix_root(entries: Seq<Hash>, n: int) -> Seq<u8> {
    crate::boundary::merkle::tree_root_of(entries.take(n))
}

/// Whether a proof of so many hashes grows with the logarithm of the log at most:
/// each hash more takes a log of twice the length.
pub open spec fn is_short(hashes: nat, length: nat) -> bool {
    hashes > 0 ==> vstd::arithmetic::power2::pow2((hashes - 1) as nat) < length
}

/// The entries that a file of a log holds, 32 bytes each.
pub open spec fn entries_in(bytes: Seq<u8>) -> Seq<Seq<u8>> {
    Seq::new(bytes.len() / 32, |i: int| bytes.subrange(32 * i, 32 * i + 32))
}

/// Whether bit `h` of `length` is set.
pub open spec fn has_peak(length: u64, h: int) -> bool {
    (length as nat / vstd::arithmetic::power2::pow2(h as nat)) % 2 == 1
}

/// The peak heights of `length` among those below `below`, highest first.
pub open spec fn heights_below(length: u64, below: nat) -> Seq<u8>
    decreases below,
{
    if below == 0 {
        Seq::empty()
    } else if has_peak(length, below - 1) {
        seq![(below - 1) as u8] + heights_below(length, (below - 1) as nat)
    } else {
        heights_below(length, (below - 1) as nat)
    }
}

/// The number of leaves that the peaks of these heights cover together.
pub open spec fn leaves_under(heights: Seq<u8>) -> nat
    decreases heights.len(),
{
    if heights.len() == 0 {
        0
    } else {
        leaves_under(heights.drop_last()) + vstd::arithmetic::power2::pow2(heights.last() as nat)
    }
}

/// The hash of peak number `k`: the root over the leaves that it covers, which
/// start where the peaks before it end.
pub open spec fn peak_hash(entries: Seq<Hash>, heights: Seq<u8>, k: int) -> Seq<u8> {
    crate::boundary::merkle::tree_root_of(
        entries.subrange(
            leaves_under(heights.take(k)) as int,
            leaves_under(heights.take(k + 1)) as int,
        ),
    )
}

/// Append-only Merkle log. Only `append` mutates state; there is no
/// deletion, overwrite, or reordering API. Past roots and past proofs
/// are recomputed from the authoritative entry list on demand.
#[derive(Clone, Debug)]
pub struct MerkleLog {
    entries: Vec<Hash>,
}

impl View for MerkleLog {
    type V = Seq<Hash>;

    closed spec fn view(&self) -> Seq<Hash> {
        self.entries@
    }
}

impl Default for MerkleLog {
    fn default() -> (r: Self)
        ensures
            r@.len() == 0,
    {
        MerkleLog { entries: Vec::new() }
    }
}

impl MerkleLog {
    /// An empty log.
    #[must_use]
    pub fn new() -> (r: Self)
        ensures
            r@ == Seq::<Hash>::empty(),
    {
        MerkleLog { entries: Vec::new() }
    }

    /// The log of a file that holds its entries, 32 bytes each. `None` where the
    /// last entry is cut short.
    #[must_use]
    pub fn from_bytes(bytes: &[u8]) -> (r: Option<Self>)
        ensures
            r is Some <==> bytes@.len() % 32 == 0,
            r matches Some(log) ==> log@.len() == entries_in(bytes@).len() && forall|i: int|
                0 <= i < log@.len() ==> (#[trigger] log@[i])@ == entries_in(bytes@)[i],
    {
        let size: usize = bytes.len();
        if size % 32 != 0 {
            return None;
        }
        let count: usize = size / 32;
        let mut entries: Vec<Hash> = Vec::new();
        let mut i: usize = 0;
        while i < count
            invariant
                i <= count,
                size == bytes@.len(),
                count == size / 32,
                entries@.len() == i,
                forall|k: int| 0 <= k < i ==> (#[trigger] entries@[k])@ == entries_in(bytes@)[k],
            decreases count - i,
        {
            let mut entry: Hash = [0u8; 32];
            let mut j: usize = 0;
            while j < 32
                invariant
                    j <= 32,
                    i < count,
                    size == bytes@.len(),
                    count == size / 32,
                    forall|k: int| 0 <= k < j ==> entry@[k] == bytes@[32 * i + k],
                decreases 32 - j,
            {
                let b: u8 = bytes[32 * i + j];
                entry[j] = b;
                j = j + 1;
            }
            assert(entry@ =~= entries_in(bytes@)[i as int]);
            entries.push(entry);
            i = i + 1;
        }
        Some(MerkleLog { entries })
    }

    /// Append an entry. Returns its position (0-indexed).
    pub fn append(&mut self, entry: Hash) -> (pos: u64)
        ensures
            pos == old(self)@.len(),
            final(self)@ == old(self)@.push(entry),
    {
        let pos: u64 = self.entries.len() as u64;
        self.entries.push(entry);
        pos
    }

    /// Number of entries.
    #[must_use]
    pub fn len(&self) -> (r: u64)
        ensures
            r == self@.len(),
    {
        self.entries.len() as u64
    }

    /// Whether the log holds no entry.
    #[must_use]
    pub fn is_empty(&self) -> (r: bool)
        ensures
            r == (self@.len() == 0),
    {
        self.entries.len() == 0
    }

    /// Entry at `position`, or `None` if out of range.
    #[must_use]
    pub fn entry_at(&self, position: u64) -> (r: Option<Hash>)
        ensures
            r == (if position < self@.len() {
                Some(self@[position as int])
            } else {
                None
            }),
    {
        if position < self.entries.len() as u64 {
            Some(self.entries[position as usize])
        } else {
            None
        }
    }

    /// Root over the entire current log. `None` if the log is empty.
    #[must_use]
    pub fn root(&self) -> (r: Option<Hash>)
        ensures
            r is Some <==> self@.len() > 0,
            r is Some ==> r->0@ == prefix_root(self@, self@.len() as int),
    {
        assert(self@.take(self@.len() as int) =~= self@);
        tree_root(self.entries.as_slice())
    }

    /// Root over the first `n` entries. `None` for `n == 0` or `n > len`.
    /// This is the anchored root: a pure function of the first `n` entries.
    #[must_use]
    pub fn root_at(&self, n: u64) -> (r: Option<Hash>)
        ensures
            r is Some <==> 0 < n <= self@.len(),
            r is Some ==> r->0@ == prefix_root(self@, n as int),
    {
        if n == 0 || n > self.entries.len() as u64 {
            return None;
        }
        let prefix = vstd::slice::slice_subrange(self.entries.as_slice(), 0, n as usize);
        assert(prefix@ =~= self@.take(n as int));
        tree_root(prefix)
    }

    /// Inclusion proof for the entry at `position`, against the root over
    /// the first `length` entries. `None` unless `position < length <= len()`.
    #[must_use]
    pub fn inclusion_proof_at(&self, position: u64, length: u64) -> (r: Option<InclusionProof>)
        ensures
            r is Some <==> position < length <= self@.len(),
            r matches Some(p) ==> {
                &&& p.position == position
                &&& p.entry == self@[position as int]
                &&& p.length_at_proof == length
                &&& p.proof_hashes@ == crate::boundary::merkle::tree_proof_of(
                    self@.take(length as int),
                    position as int,
                )
                &&& proof_accepted(p, prefix_root(self@, length as int))
                &&& is_short(p.proof_hashes@.len(), length as nat)
            },
    {
        if length == 0 || length > self.entries.len() as u64 || position >= length {
            return None;
        }
        let prefix = vstd::slice::slice_subrange(self.entries.as_slice(), 0, length as usize);
        assert(prefix@ =~= self@.take(length as int));
        let proof_hashes = tree_proof(prefix, position as usize);
        Some(
            InclusionProof {
                position,
                entry: prefix[position as usize],
                proof_hashes,
                length_at_proof: length,
            },
        )
    }

    /// Inclusion proof against the current root.
    #[must_use]
    pub fn inclusion_proof(&self, position: u64) -> (r: Option<InclusionProof>)
        ensures
            r is Some <==> position < self@.len(),
            r matches Some(p) ==> {
                &&& p.position == position
                &&& p.entry == self@[position as int]
                &&& p.length_at_proof == self@.len()
                &&& p.proof_hashes@ == crate::boundary::merkle::tree_proof_of(
                    self@,
                    position as int,
                )
                &&& proof_accepted(p, prefix_root(self@, self@.len() as int))
                &&& is_short(p.proof_hashes@.len(), self@.len())
            },
    {
        assert(self@.take(self@.len() as int) =~= self@);
        self.inclusion_proof_at(position, self.len())
    }

    /// Peak decomposition of the first `length` leaves: one hash per peak,
    /// highest peak first, each over the leaves that follow those of the peak
    /// before it. Empty for `length == 0` or `length > len()`.
    #[must_use]
    pub fn peak_hashes(&self, length: u64) -> (r: Vec<Hash>)
        ensures
            length > self@.len() ==> r@.len() == 0,
            length <= self@.len() ==> {
                let heights = heights_below(length, 64);
                &&& r@.len() == heights.len()
                &&& forall|k: int|
                    0 <= k < r@.len() ==> (#[trigger] r@[k])@ == peak_hash(self@, heights, k)
            },
    {
        let mut peaks: Vec<Hash> = Vec::new();
        if length == 0 || length > self.entries.len() as u64 {
            proof {
                if length == 0 {
                    law_peaks_cover_the_log(0);
                    lemma_leaves_positive(heights_below(0, 64));
                }
            }
            return peaks;
        }
        let heights = peak_heights(length);
        proof {
            lemma_heights(length, 64);
            lemma_mod_below_64(length);
        }
        let mut start: usize = 0;
        let mut k: usize = 0;
        while k < heights.len()
            invariant
                k <= heights.len(),
                heights@ == heights_below(length, 64),
                leaves_under(heights@) == length,
                length <= self@.len() <= usize::MAX,
                start == leaves_under(heights@.take(k as int)),
                peaks.len() == k,
                forall|j: int| 0 <= j < heights@.len() ==> heights@[j] < 64,
                forall|j: int|
                    0 <= j < k ==> (#[trigger] peaks@[j])@ == peak_hash(self@, heights@, j),
            decreases heights.len() - k,
        {
            let h: u8 = heights[k];
            proof {
                assert(heights@.take(k + 1).drop_last() =~= heights@.take(k as int));
                lemma_leaves_monotone(heights@, k + 1);
                lemma_shift_is_pow2(h);
            }
            let count: usize = (1u64 << h) as usize;
            let leaves = vstd::slice::slice_subrange(
                self.entries.as_slice(),
                start,
                start + count,
            );
            assert(count > 0) by {
                vstd::arithmetic::power2::lemma_pow2_pos(h as nat);
            }
            if let Some(root) = tree_root(leaves) {
                peaks.push(root);
            }
            start = start + count;
            k = k + 1;
        }
        peaks
    }
}

/// Peak heights for `length` leaves, in descending order (the 1-bits of
/// `length`, most significant first). For `length == 11` (binary `1011`),
/// `[3, 1, 0]`: peaks covering 8, 2, and 1 leaves.
#[must_use]
pub fn peak_heights(length: u64) -> (r: Vec<u8>)
    ensures
        r@ == heights_below(length, 64),
{
    let mut out: Vec<u8> = Vec::new();
    let mut h: u8 = 64;
    while h > 0
        invariant
            h <= 64,
            heights_below(length, 64) == out@ + heights_below(length, h as nat),
        decreases h,
    {
        h = h - 1;
        proof {
            lemma_bit_is_peak(length, h);
        }
        if (length >> h) & 1 == 1 {
            out.push(h);
        }
        assert(heights_below(length, 64) =~= out@ + heights_below(length, h as nat));
    }
    assert(out@ + heights_below(length, 0) =~= out@);
    out
}

/// Verify an inclusion proof against a root. The `root` must correspond
/// to the same `length_at_proof` that generated the proof.
#[must_use]
pub fn verify_inclusion(proof: &InclusionProof, root: Hash) -> (r: bool)
    ensures
        r == proof_accepted(*proof, root@),
{
    tree_verify(
        &proof.proof_hashes,
        root,
        proof.position as usize,
        proof.entry,
        proof.length_at_proof as usize,
    )
}

proof fn lemma_shift_is_pow2(h: u8)
    requires
        h < 64,
    ensures
        1u64 << h == vstd::arithmetic::power2::pow2(h as nat),
{
    vstd::arithmetic::power2::lemma_pow2_strictly_increases(h as nat, 64);
    vstd::arithmetic::power2::lemma2_to64();
    vstd::bits::lemma_u64_shl_is_mul(1, h as u64);
    assert(1u64 << h == 1u64 << (h as u64)) by (bit_vector)
        requires
            h < 64,
    ;
}

proof fn lemma_bit_is_peak(length: u64, h: u8)
    requires
        h < 64,
    ensures
        ((length >> h) & 1 == 1) == has_peak(length, h as int),
{
    vstd::bits::lemma_u64_shr_is_div(length, h as u64);
    assert(length >> h == length >> (h as u64)) by (bit_vector)
        requires
            h < 64,
    ;
    let x = length >> h;
    assert((x & 1 == 1) == (x % 2 == 1)) by (bit_vector);
}

/// The peaks below a bound cover what the length leaves over there.
proof fn lemma_heights(length: u64, below: nat)
    requires
        below <= 64,
    ensures
        leaves_under(heights_below(length, below)) == length as nat % vstd::arithmetic::power2::pow2(below),
        forall|k: int|
            0 <= k < heights_below(length, below).len() ==> heights_below(length, below)[k]
                < below,
        forall|i: int, j: int|
            0 <= i < j < heights_below(length, below).len() ==> heights_below(length, below)[i]
                > heights_below(length, below)[j],
    decreases below,
{
    use_pow2(below);
    let n = length as nat;
    if below == 0 {
        vstd::arithmetic::power2::lemma2_to64();
    } else {
        let b = (below - 1) as nat;
        lemma_heights(length, b);
        let rest = heights_below(length, b);
        let p = vstd::arithmetic::power2::pow2(b);
        assert(n % (p * 2) == (n / p % 2) * p + n % p) by {
            vstd::arithmetic::div_mod::lemma_mod_breakdown(n as int, p as int, 2);
            assert((n / p % 2) * p == p * (n / p % 2)) by (nonlinear_arith);
        }
        if has_peak(length, b as int) {
            assert((n / p % 2) * p == p);
            lemma_leaves_front(b as u8, rest);
        } else {
            assert((n / p % 2) * p == 0);
        }
    }
}

proof fn use_pow2(below: nat)
    ensures
        below > 0 ==> vstd::arithmetic::power2::pow2(below) == vstd::arithmetic::power2::pow2((below - 1) as nat) * 2,
        vstd::arithmetic::power2::pow2(below) > 0,
{
    vstd::arithmetic::power2::lemma_pow2_pos(below);
    if below > 0 {
        vstd::arithmetic::power2::lemma_pow2_unfold(below);
    }
}

proof fn lemma_mod_below_64(length: u64)
    ensures
        length as nat % vstd::arithmetic::power2::pow2(64) == length,
{
    vstd::arithmetic::power2::lemma2_to64();
    vstd::arithmetic::div_mod::lemma_small_mod(length as nat, vstd::arithmetic::power2::pow2(64));
}

proof fn lemma_leaves_front(h: u8, rest: Seq<u8>)
    ensures
        leaves_under(seq![h] + rest) == vstd::arithmetic::power2::pow2(h as nat) + leaves_under(rest),
    decreases rest.len(),
{
    let all = seq![h] + rest;
    if rest.len() == 0 {
        assert(all.drop_last() =~= Seq::<u8>::empty());
        assert(leaves_under(all.drop_last()) == 0);
        assert(leaves_under(rest) == 0);
    } else {
        assert(all.drop_last() =~= seq![h] + rest.drop_last());
        lemma_leaves_front(h, rest.drop_last());
    }
}

proof fn lemma_leaves_positive(heights: Seq<u8>)
    ensures
        heights.len() > 0 ==> leaves_under(heights) > 0,
{
    if heights.len() > 0 {
        vstd::arithmetic::power2::lemma_pow2_pos(heights.last() as nat);
    }
}

proof fn lemma_leaves_monotone(heights: Seq<u8>, k: int)
    requires
        0 <= k <= heights.len(),
    ensures
        leaves_under(heights.take(k)) <= leaves_under(heights),
    decreases heights.len(),
{
    if k == heights.len() {
        assert(heights.take(k) =~= heights);
    } else {
        lemma_leaves_monotone(heights.drop_last(), k);
        assert(heights.drop_last().take(k) =~= heights.take(k));
    }
}

/// The peaks of a length cover exactly that many leaves.
pub proof fn law_peaks_cover_the_log(length: u64)
    ensures
        leaves_under(heights_below(length, 64)) == length,
{
    lemma_heights(length, 64);
    lemma_mod_below_64(length);
}

/// There is one peak per 1-bit of the length, highest first.
pub proof fn law_one_peak_per_set_bit(length: u64)
    ensures
        forall|i: int, j: int|
            0 <= i < j < heights_below(length, 64).len() ==> heights_below(length, 64)[i]
                > heights_below(length, 64)[j],
        forall|h: u8| #[trigger]
            heights_below(length, 64).contains(h) <==> h < 64 && has_peak(length, h as int),
{
    lemma_heights(length, 64);
    lemma_heights_members(length, 64);
}

proof fn lemma_heights_members(length: u64, below: nat)
    requires
        below <= 64,
    ensures
        forall|h: u8| #[trigger]
            heights_below(length, below).contains(h) <==> h < below && has_peak(length, h as int),
    decreases below,
{
    if below > 0 {
        let b = (below - 1) as nat;
        lemma_heights_members(length, b);
        let rest = heights_below(length, b);
        let all = heights_below(length, below);
        assert forall|h: u8| #[trigger]
            all.contains(h) <==> h < below && has_peak(length, h as int) by {
            if has_peak(length, b as int) {
                assert(all =~= seq![b as u8] + rest);
                if rest.contains(h) {
                    let i = choose|i: int| 0 <= i < rest.len() && rest[i] == h;
                    assert(all[i + 1] == h);
                }
                assert(all[0] == b as u8);
                if all.contains(h) && h != b as u8 {
                    let i = choose|i: int| 0 <= i < all.len() && all[i] == h;
                    assert(rest[i - 1] == h);
                }
            }
        }
    }
}

/// Appending never changes the root of a prefix.
pub proof fn law_prefix_root_is_stable(entries: Seq<Hash>, more: Seq<Hash>, n: int)
    requires
        0 <= n <= entries.len(),
    ensures
        prefix_root(entries + more, n) == prefix_root(entries, n),
{
    assert((entries + more).take(n) =~= entries.take(n));
}

/// Appending never invalidates a proof: what was accepted against the root of
/// a prefix is accepted against the root of that prefix in the longer log.
pub proof fn law_proof_survives_appends(
    entries: Seq<Hash>,
    more: Seq<Hash>,
    proof_of_entry: InclusionProof,
)
    requires
        proof_of_entry.length_at_proof <= entries.len(),
        proof_accepted(
            proof_of_entry,
            prefix_root(entries, proof_of_entry.length_at_proof as int),
        ),
    ensures
        proof_accepted(
            proof_of_entry,
            prefix_root(entries + more, proof_of_entry.length_at_proof as int),
        ),
{
    law_prefix_root_is_stable(entries, more, proof_of_entry.length_at_proof as int);
}

/// Once a peak is formed its hash never changes: the peaks of a length that
/// the log has reached are the same in every longer log.
pub proof fn law_formed_peaks_are_stable(
    entries: Seq<Hash>,
    more: Seq<Hash>,
    length: u64,
    k: int,
)
    requires
        length <= entries.len(),
        0 <= k < heights_below(length, 64).len(),
    ensures
        peak_hash(entries + more, heights_below(length, 64), k) == peak_hash(
            entries,
            heights_below(length, 64),
            k,
        ),
{
    let heights = heights_below(length, 64);
    law_peaks_cover_the_log(length);
    lemma_leaves_monotone(heights, k + 1);
    lemma_leaves_monotone(heights.take(k + 1), k);
    assert(heights.take(k + 1).take(k) =~= heights.take(k));
    let (a, b) = (leaves_under(heights.take(k)) as int, leaves_under(heights.take(k + 1)) as int);
    assert((entries + more).subrange(a, b) =~= entries.subrange(a, b));
}

/// A peak keeps its hash also where the log has grown to another length that
/// begins with the same peaks.
pub proof fn law_shared_peaks_agree(entries: Seq<Hash>, m: u64, n: u64, k: int)
    requires
        0 <= k < heights_below(m, 64).len(),
        k < heights_below(n, 64).len(),
        heights_below(m, 64).take(k + 1) == heights_below(n, 64).take(k + 1),
    ensures
        peak_hash(entries, heights_below(m, 64), k) == peak_hash(
            entries,
            heights_below(n, 64),
            k,
        ),
{
    let (a, b) = (heights_below(m, 64), heights_below(n, 64));
    assert(a.take(k) =~= a.take(k + 1).take(k));
    assert(b.take(k) =~= b.take(k + 1).take(k));
}

/// A log is read entry by entry: every 32 bytes are the next entry, and what is
/// left of one that was not written out is none.
pub proof fn law_entries_are_read_in_blocks(whole: Seq<u8>, block: Seq<u8>, torn: Seq<u8>)
    requires
        whole.len() % 32 == 0,
        block.len() == 32,
        torn.len() < 32,
    ensures
        entries_in(whole + block) == entries_in(whole).push(block),
        entries_in(whole + torn) == entries_in(whole),
{
    let n = (whole.len() / 32) as int;
    assert(whole.len() == 32 * n);
    let (x, y) = (entries_in(whole + block), entries_in(whole).push(block));
    assert(x.len() == n + 1);
    assert forall|i: int| 0 <= i < x.len() implies x[i] == y[i] by {
        if i < n {
            assert((whole + block).subrange(32 * i, 32 * i + 32) =~= whole.subrange(
                32 * i,
                32 * i + 32,
            ));
        } else {
            assert((whole + block).subrange(32 * i, 32 * i + 32) =~= block);
        }
    }
    assert(x =~= y);
    let z = entries_in(whole + torn);
    assert(z.len() == n);
    assert forall|i: int| 0 <= i < n implies z[i] == entries_in(whole)[i] by {
        assert((whole + torn).subrange(32 * i, 32 * i + 32) =~= whole.subrange(
            32 * i,
            32 * i + 32,
        ));
    }
    assert(z =~= entries_in(whole));
}

proof fn lemma_leaves_from_the_front(h: u8, rest: Seq<u8>)
    ensures
        leaves_under(seq![h] + rest) == vstd::arithmetic::power2::pow2(h as nat) + leaves_under(
            rest,
        ),
    decreases rest.len(),
{
    let all = seq![h] + rest;
    if rest.len() == 0 {
        assert(all.drop_last() =~= Seq::<u8>::empty());
        reveal_with_fuel(leaves_under, 2);
        assert(all.last() == h);
    } else {
        lemma_leaves_from_the_front(h, rest.drop_last());
        assert(all.drop_last() =~= seq![h] + rest.drop_last());
        assert(all.last() == rest.last());
    }
}

proof fn lemma_leaves_grow(heights: Seq<u8>, k: int)
    requires
        0 <= k <= heights.len(),
    ensures
        leaves_under(heights.take(k)) <= leaves_under(heights),
    decreases heights.len(),
{
    if k == heights.len() {
        assert(heights.take(k) =~= heights);
    } else {
        lemma_leaves_grow(heights.drop_last(), k);
        assert(heights.drop_last().take(k) =~= heights.take(k));
    }
}

/// Peaks share the log out from its start: the first is the root of as many
/// entries as its height says, and the others are the peaks of what follows.
pub proof fn law_peaks_share_out_the_log(
    front: Seq<Hash>,
    behind: Seq<Hash>,
    h: u8,
    rest: Seq<u8>,
    k: int,
)
    requires
        front.len() == vstd::arithmetic::power2::pow2(h as nat),
        leaves_under(rest) <= behind.len(),
        0 <= k < rest.len(),
    ensures
        peak_hash(front + behind, seq![h] + rest, 0) == crate::boundary::merkle::tree_root_of(
            front,
        ),
        peak_hash(front + behind, seq![h] + rest, k + 1) == peak_hash(behind, rest, k),
{
    let all = seq![h] + rest;
    let log = front + behind;
    assert(all.take(0) =~= Seq::<u8>::empty());
    assert(all.take(1) =~= seq![h] + Seq::<u8>::empty());
    lemma_leaves_from_the_front(h, Seq::empty());
    assert(log.subrange(0, front.len() as int) =~= front);
    assert(all.take(k + 1) =~= seq![h] + rest.take(k));
    assert(all.take(k + 2) =~= seq![h] + rest.take(k + 1));
    lemma_leaves_from_the_front(h, rest.take(k));
    lemma_leaves_from_the_front(h, rest.take(k + 1));
    lemma_leaves_grow(rest, k + 1);
    lemma_leaves_grow(rest.take(k + 1), k);
    assert(rest.take(k + 1).take(k) =~= rest.take(k));
    let (x, y) = (leaves_under(rest.take(k)) as int, leaves_under(rest.take(k + 1)) as int);
    let p = front.len() as int;
    assert(log.subrange(p + x, p + y) =~= behind.subrange(x, y));
}

} // verus!
