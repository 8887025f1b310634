//! Runner capabilities and job requirements.
//!
//! [`matches`] is the test the scheduler applies before including a runner in
//! a job's committee; [`select_capability_aware_committee`] filters by it and
//! ranks by VRF output.

use crate::bytes::bytes_less;
use vstd::prelude::*;

verus! {

/// Target operating-system + CPU architecture of a runner or job.
#[derive(Clone, Copy, Debug, PartialEq, Eq, Hash, PartialOrd, Ord, Structural)]
pub enum Platform {
    /// Linux on x86-64.
    LinuxX86_64,
    /// Linux on ARM64.
    LinuxAarch64,
    /// macOS on x86-64.
    DarwinX86_64,
    /// macOS on ARM64 (Apple silicon).
    DarwinAarch64,
}

/// Sandbox runtimes available on a runner or required by a job.
#[derive(Clone, Copy, Debug, PartialEq, Eq, Hash, PartialOrd, Ord, Structural)]
pub enum Runtime {
    /// In-process WebAssembly via wasmtime.
    Wasm,
    /// Microvm via Firecracker.
    Firecracker,
    /// OCI container via the Docker daemon.
    Docker,
}

/// A set of runtimes. It has one representation per set and lists its members
/// in the order of [`Runtime`], so that encodings of it are canonical.
#[derive(Clone, Copy, Debug, PartialEq, Eq, Hash, Structural)]
pub struct RuntimeSet {
    wasm: bool,
    firecracker: bool,
    docker: bool,
}

impl View for RuntimeSet {
    type V = Set<Runtime>;

    closed spec fn view(&self) -> Set<Runtime> {
        Set::new(
            |r: Runtime|
                match r {
                    Runtime::Wasm => self.wasm,
                    Runtime::Firecracker => self.firecracker,
                    Runtime::Docker => self.docker,
                },
        )
    }
}

/// The members of a set of runtimes, in the order of [`Runtime`].
pub open spec fn listed(s: Set<Runtime>) -> Seq<Runtime> {
    let a = if s.contains(Runtime::Wasm) {
        seq![Runtime::Wasm]
    } else {
        seq![]
    };
    let b = if s.contains(Runtime::Firecracker) {
        a.push(Runtime::Firecracker)
    } else {
        a
    };
    if s.contains(Runtime::Docker) {
        b.push(Runtime::Docker)
    } else {
        b
    }
}

impl RuntimeSet {
    /// The empty set.
    #[must_use]
    pub fn new() -> (r: Self)
        ensures
            r@ == Set::<Runtime>::empty(),
    {
        let r = RuntimeSet { wasm: false, firecracker: false, docker: false };
        assert(r@ =~= Set::<Runtime>::empty());
        r
    }

    /// The set of the given runtimes.
    #[must_use]
    pub fn of(runtimes: &[Runtime]) -> (r: Self)
        ensures
            r@ == runtimes@.to_set(),
    {
        let mut r = RuntimeSet::new();
        let mut i: usize = 0;
        while i < runtimes.len()
            invariant
                i <= runtimes.len(),
                forall|x: Runtime| #[trigger] r@.contains(x) <==> runtimes@.take(i as int).contains(x),
            decreases runtimes.len() - i,
        {
            let ghost before = r@;
            r.insert(runtimes[i]);
            proof {
                assert forall|x: Runtime| #[trigger]
                    r@.contains(x) <==> runtimes@.take(i + 1).contains(x) by {
                    crate::maps::lemma_take_next(runtimes@, i as int, x);
                    assert(before.contains(x) <==> runtimes@.take(i as int).contains(x));
                }
            }
            i = i + 1;
        }
        assert(runtimes@.take(i as int) =~= runtimes@);
        assert(r@ =~= runtimes@.to_set());
        r
    }

    /// Adds a runtime.
    pub fn insert(&mut self, runtime: Runtime)
        ensures
            final(self)@ == old(self)@.insert(runtime),
    {
        match runtime {
            Runtime::Wasm => self.wasm = true,
            Runtime::Firecracker => self.firecracker = true,
            Runtime::Docker => self.docker = true,
        }
        assert(self@ =~= old(self)@.insert(runtime));
    }

    /// Whether the set holds a runtime.
    #[must_use]
    pub fn contains(&self, runtime: Runtime) -> (r: bool)
        ensures
            r == self@.contains(runtime),
    {
        match runtime {
            Runtime::Wasm => self.wasm,
            Runtime::Firecracker => self.firecracker,
            Runtime::Docker => self.docker,
        }
    }

    /// Whether every member is a member of `other`.
    #[must_use]
    pub fn is_subset(&self, other: &RuntimeSet) -> (r: bool)
        ensures
            r == self@.subset_of(other@),
    {
        let r = (!self.wasm || other.wasm) && (!self.firecracker || other.firecracker) && (
        !self.docker || other.docker);
        proof {
            assert(self@.contains(Runtime::Wasm) == self.wasm);
            assert(self@.contains(Runtime::Firecracker) == self.firecracker);
            assert(self@.contains(Runtime::Docker) == self.docker);
            assert(other@.contains(Runtime::Wasm) == other.wasm);
            assert(other@.contains(Runtime::Firecracker) == other.firecracker);
            assert(other@.contains(Runtime::Docker) == other.docker);
        }
        r
    }

    /// The members, in the order of [`Runtime`].
    #[must_use]
    pub fn to_vec(&self) -> (r: Vec<Runtime>)
        ensures
            r@ == listed(self@),
    {
        let mut out: Vec<Runtime> = Vec::new();
        if self.contains(Runtime::Wasm) {
            out.push(Runtime::Wasm);
        }
        if self.contains(Runtime::Firecracker) {
            out.push(Runtime::Firecracker);
        }
        if self.contains(Runtime::Docker) {
            out.push(Runtime::Docker);
        }
        assert(out@ =~= listed(self@));
        out
    }
}

/// What a runner offers.
#[derive(Clone, Copy, Debug, PartialEq, Eq, Structural)]
pub struct Capabilities {
    /// Available CPU cores.
    pub cpu: u32,
    /// Available memory in MiB.
    pub memory_mb: u32,
    /// Host platform (OS + arch).
    pub platform: Platform,
    /// Sandbox runtimes the runner has installed.
    pub runtimes: RuntimeSet,
}

/// What a job requires.
#[derive(Clone, Copy, Debug, PartialEq, Eq, Structural)]
pub struct JobRequirements {
    /// Minimum CPU cores the runner must offer.
    pub cpu: u32,
    /// Minimum memory in MiB.
    pub memory_mb: u32,
    /// Required platform (exact match).
    pub platform: Platform,
    /// Sandbox runtimes the job needs available.
    pub runtimes: RuntimeSet,
}

/// Whether `runner` can run `job`.
pub open spec fn capable(runner: Capabilities, job: JobRequirements) -> bool {
    &&& runner.cpu >= job.cpu
    &&& runner.memory_mb >= job.memory_mb
    &&& runner.platform == job.platform
    &&& job.runtimes@.subset_of(runner.runtimes@)
}

/// True iff `runner` can run `job`:
///
/// - CPU and memory are `>=` comparisons (runner must have at least as much).
/// - Platform is exact equality (different arch or OS: no match).
/// - Runtimes are subset: the runner has all that the job needs.
#[must_use]
pub fn matches(runner: &Capabilities, job: &JobRequirements) -> (r: bool)
    ensures
        r == capable(*runner, *job),
{
    runner.cpu >= job.cpu && runner.memory_mb >= job.memory_mb && runner.platform == job.platform
        && job.runtimes.is_subset(&runner.runtimes)
}

/// One candidate for committee membership: a runner with its
/// declared capabilities and the VRF output it produced for the
/// job seed.
#[derive(Clone, Debug, PartialEq, Eq)]
pub struct Candidate<Id: Copy + Eq> {
    /// Identifier of the candidate runner.
    pub id: Id,
    /// What the runner declared at registration.
    pub capabilities: Capabilities,
    /// The runner's VRF output for the current job seed.
    pub vrf_output: [u8; 32],
}

/// Whether the candidate at `a` ranks before the one at `b`: by VRF output in
/// lexicographic order, by position among equal outputs.
pub open spec fn ranks_before<Id: Copy + Eq>(
    candidates: Seq<Candidate<Id>>,
    a: int,
    b: int,
) -> bool {
    let (x, y) = (candidates[a].vrf_output@, candidates[b].vrf_output@);
    crate::bytes::lex_less(x, y) || (x == y && a < b)
}

/// Whether `order` lists the positions of exactly the candidates that satisfy
/// `requirements`, best rank first.
pub open spec fn is_ranking<Id: Copy + Eq>(
    order: Seq<int>,
    candidates: Seq<Candidate<Id>>,
    requirements: JobRequirements,
) -> bool {
    &&& forall|i: int|
        0 <= i < order.len() ==> 0 <= #[trigger] order[i] < candidates.len() && capable(
            candidates[order[i]].capabilities,
            requirements,
        )
    &&& forall|p: int|
        0 <= p < candidates.len() && capable(
            (#[trigger] candidates[p]).capabilities,
            requirements,
        ) ==> order.contains(p)
    &&& forall|i: int, j: int|
        0 <= i < j < order.len() ==> ranks_before(candidates, #[trigger] order[i], #[trigger] order[j])
}

/// How many candidates satisfy the requirements.
pub open spec fn eligible_count<Id: Copy + Eq>(
    candidates: Seq<Candidate<Id>>,
    requirements: JobRequirements,
) -> nat
    decreases candidates.len(),
{
    if candidates.len() == 0 {
        0
    } else {
        eligible_count(candidates.drop_last(), requirements) + if capable(
            candidates.last().capabilities,
            requirements,
        ) {
            1nat
        } else {
            0nat
        }
    }
}

/// The ids at the given positions.
pub open spec fn ids_at<Id: Copy + Eq>(candidates: Seq<Candidate<Id>>, order: Seq<int>) -> Seq<
    Id,
> {
    Seq::new(order.len(), |i: int| candidates[order[i]].id)
}

/// Select a committee of `committee_size` runners that satisfy
/// `requirements`, ranked by VRF output (lex-min).
///
/// Returns `None` when fewer than `committee_size` candidates match
/// `requirements`: an undersized committee is never formed silently.
#[must_use]
pub fn select_capability_aware_committee<Id: Copy + Eq>(
    candidates: &[Candidate<Id>],
    requirements: &JobRequirements,
    committee_size: usize,
) -> (r: Option<Vec<Id>>)
    ensures
        r is Some <==> eligible_count(candidates@, *requirements) >= committee_size,
        r matches Some(ids) ==> exists|order: Seq<int>| #[trigger]
            is_ranking(order, candidates@, *requirements) && ids@ == ids_at(
                candidates@,
                order.take(committee_size as int),
            ),
{
    let mut eligible: Vec<usize> = Vec::new();
    let mut n: usize = 0;
    let ghost mut order: Seq<int> = seq![];
    assert(candidates@.take(0) =~= Seq::<Candidate<Id>>::empty());
    while n < candidates.len()
        invariant
            n <= candidates.len(),
            is_ranking(order, candidates@.take(n as int), *requirements),
            order.len() == eligible@.len(),
            order.len() == eligible_count(candidates@.take(n as int), *requirements),
            forall|i: int| 0 <= i < order.len() ==> order[i] == eligible@[i],
        decreases candidates.len() - n,
    {
        let ghost seen = candidates@.take(n as int);
        let ghost next = candidates@.take(n + 1);
        assert(next.drop_last() =~= seen);
        proof {
            assert forall|i: int| 0 <= i < eligible@.len() implies (#[trigger] eligible@[i]) < n by {
                assert(order[i] == eligible@[i]);
            }
        }
        if matches(&candidates[n].capabilities, requirements) {
            let mut at: usize = 0;
            while at < eligible.len() && !bytes_less(
                &candidates[n].vrf_output,
                &candidates[eligible[at]].vrf_output,
            )
                invariant
                    n < candidates.len(),
                    at <= eligible.len(),
                    forall|i: int| 0 <= i < eligible@.len() ==> (#[trigger] eligible@[i]) < n,
                    forall|i: int|
                        0 <= i < at ==> !crate::bytes::lex_less(
                            candidates@[n as int].vrf_output@,
                            candidates@[(#[trigger] eligible@[i]) as int].vrf_output@,
                        ),
                decreases eligible.len() - at,
            {
                at = at + 1;
            }
            let ghost before = order;
            eligible.insert(at, n);
            proof {
                order = order.insert(at as int, n as int);
                lemma_insert_ranking(before, candidates@, *requirements, n as int, at as int);
            }
        } else {
            proof {
                lemma_skip_ranking(order, candidates@, *requirements, n as int);
            }
        }
        n = n + 1;
    }
    assert(candidates@.take(n as int) =~= candidates@);
    if eligible.len() < committee_size {
        return None;
    }
    let mut ids: Vec<Id> = Vec::new();
    let mut i: usize = 0;
    while i < committee_size
        invariant
            i <= committee_size <= eligible.len(),
            eligible@.len() == order.len(),
            is_ranking(order, candidates@, *requirements),
            forall|k: int| 0 <= k < order.len() ==> order[k] == eligible@[k],
            ids@ == ids_at(candidates@, order.take(i as int)),
        decreases committee_size - i,
    {
        assert(order[i as int] == eligible@[i as int]);
        ids.push(candidates[eligible[i]].id);
        i = i + 1;
        assert(ids@ =~= ids_at(candidates@, order.take(i as int)));
    }
    Some(ids)
}

proof fn lemma_insert_ranking<Id: Copy + Eq>(
    order: Seq<int>,
    candidates: Seq<Candidate<Id>>,
    requirements: JobRequirements,
    n: int,
    at: int,
)
    requires
        0 <= n < candidates.len(),
        0 <= at <= order.len(),
        is_ranking(order, candidates.take(n), requirements),
        capable(candidates[n].capabilities, requirements),
        forall|i: int|
            0 <= i < at ==> !crate::bytes::lex_less(
                candidates[n].vrf_output@,
                candidates[#[trigger] order[i]].vrf_output@,
            ),
        at < order.len() ==> crate::bytes::lex_less(
            candidates[n].vrf_output@,
            candidates[order[at]].vrf_output@,
        ),
    ensures
        is_ranking(order.insert(at, n), candidates.take(n + 1), requirements),
{
    let (seen, next) = (candidates.take(n), candidates.take(n + 1));
    let wide = order.insert(at, n);
    assert forall|p: int| 0 <= p < next.len() && capable(
        (#[trigger] next[p]).capabilities,
        requirements,
    ) implies wide.contains(p) by {
        if p < n {
            assert(seen[p] == next[p]);
            assert(order.contains(p));
            let i = choose|i: int| 0 <= i < order.len() && order[i] == p;
            assert(wide[if i < at { i } else { i + 1 }] == p);
        } else {
            assert(wide[at] == p);
        }
    }
    assert forall|i: int| 0 <= i < wide.len() implies 0 <= #[trigger] wide[i] < next.len()
        && capable(next[wide[i]].capabilities, requirements) by {
        if i < at {
            assert(wide[i] == order[i]);
        } else if i > at {
            assert(wide[i] == order[i - 1]);
        }
    }
    assert forall|i: int, j: int| 0 <= i < j < wide.len() implies ranks_before(
        next,
        #[trigger] wide[i],
        #[trigger] wide[j],
    ) by {
        let a = if i < at { i } else { i - 1 };
        let b = if j < at { j } else { j - 1 };
        if i != at && j != at {
            assert(order[a] == wide[i] && order[b] == wide[j]);
            assert(ranks_before(seen, order[a], order[b]));
        } else if j == at {
            assert(order[i] == wide[i]);
            crate::bytes::lemma_lex_total(
                candidates[n].vrf_output@,
                candidates[order[i]].vrf_output@,
            );
        } else {
            assert(wide[j] == order[j - 1]);
            if j - 1 > at {
                assert(ranks_before(seen, order[at], order[j - 1]));
                if crate::bytes::lex_less(
                    seen[order[at]].vrf_output@,
                    seen[order[j - 1]].vrf_output@,
                ) {
                    crate::bytes::lemma_lex_transitive(
                        candidates[n].vrf_output@,
                        candidates[order[at]].vrf_output@,
                        candidates[order[j - 1]].vrf_output@,
                    );
                }
            }
        }
    }
}

proof fn lemma_skip_ranking<Id: Copy + Eq>(
    order: Seq<int>,
    candidates: Seq<Candidate<Id>>,
    requirements: JobRequirements,
    n: int,
)
    requires
        0 <= n < candidates.len(),
        is_ranking(order, candidates.take(n), requirements),
        !capable(candidates[n].capabilities, requirements),
    ensures
        is_ranking(order, candidates.take(n + 1), requirements),
{
    let (seen, next) = (candidates.take(n), candidates.take(n + 1));
    assert forall|p: int| 0 <= p < next.len() && capable(
        (#[trigger] next[p]).capabilities,
        requirements,
    ) implies order.contains(p) by {
        assert(seen[p] == next[p]);
    }
    assert forall|i: int, j: int| 0 <= i < j < order.len() implies ranks_before(
        next,
        #[trigger] order[i],
        #[trigger] order[j],
    ) by {
        assert(ranks_before(seen, order[i], order[j]));
    }
}

proof fn lemma_ranks_asymmetric<Id: Copy + Eq>(candidates: Seq<Candidate<Id>>, a: int, b: int)
    requires
        ranks_before(candidates, a, b),
    ensures
        !ranks_before(candidates, b, a),
        a != b,
{
    let (x, y) = (candidates[a].vrf_output@, candidates[b].vrf_output@);
    crate::bytes::lemma_lex_irreflexive(x);
    if crate::bytes::lex_less(x, y) && crate::bytes::lex_less(y, x) {
        crate::bytes::lemma_lex_transitive(x, y, x);
    }
}

/// There is only one ranking: the committee is determined by the candidates
/// and the requirements.
pub proof fn law_ranking_is_unique<Id: Copy + Eq>(
    a: Seq<int>,
    b: Seq<int>,
    candidates: Seq<Candidate<Id>>,
    requirements: JobRequirements,
)
    requires
        is_ranking(a, candidates, requirements),
        is_ranking(b, candidates, requirements),
    ensures
        a == b,
{
    lemma_rankings_agree(a, b, candidates, requirements, a.len() as int);
    lemma_rankings_agree(b, a, candidates, requirements, b.len() as int);
    assert(a =~= b);
}

/// Up to `n`, the second ranking is at least as long as the first and equal to it.
proof fn lemma_rankings_agree<Id: Copy + Eq>(
    a: Seq<int>,
    b: Seq<int>,
    candidates: Seq<Candidate<Id>>,
    requirements: JobRequirements,
    n: int,
)
    requires
        is_ranking(a, candidates, requirements),
        is_ranking(b, candidates, requirements),
        0 <= n <= a.len(),
    ensures
        n <= b.len(),
        forall|i: int| 0 <= i < n ==> a[i] == b[i],
    decreases n,
{
    if n > 0 {
        lemma_rankings_agree(a, b, candidates, requirements, n - 1);
        let k = n - 1;
        let p = a[k];
        assert(capable(candidates[p].capabilities, requirements));
        assert(b.contains(p));
        let i = choose|i: int| 0 <= i < b.len() && b[i] == p;
        if i < k {
            assert(a[i] == b[i]);
            assert(ranks_before(candidates, a[i], a[k]));
            lemma_ranks_asymmetric(candidates, a[i], a[k]);
        }
        if i > k {
            let q = b[k];
            assert(ranks_before(candidates, b[k], b[i]));
            assert(capable(candidates[q].capabilities, requirements));
            assert(a.contains(q));
            let j = choose|j: int| 0 <= j < a.len() && a[j] == q;
            if j < k {
                assert(b[j] == q);
                assert(ranks_before(candidates, b[j], b[k]));
                lemma_ranks_asymmetric(candidates, b[j], b[k]);
            } else if j == k {
                lemma_ranks_asymmetric(candidates, b[k], b[i]);
            } else {
                assert(ranks_before(candidates, a[k], a[j]));
                lemma_ranks_asymmetric(candidates, b[k], b[i]);
            }
        }
    }
}

/// Soundness: every member of a committee satisfies the requirements.
pub proof fn law_committee_is_sound<Id: Copy + Eq>(
    order: Seq<int>,
    candidates: Seq<Candidate<Id>>,
    requirements: JobRequirements,
    size: int,
    i: int,
)
    requires
        is_ranking(order, candidates, requirements),
        0 <= i < size <= order.len(),
    ensures
        0 <= order.take(size)[i] < candidates.len(),
        capable(candidates[order.take(size)[i]].capabilities, requirements),
        ids_at(candidates, order.take(size))[i] == candidates[order.take(size)[i]].id,
{
    assert(order.take(size)[i] == order[i]);
}

/// Filter, then rank: who satisfies the requirements and is left out of the
/// committee ranks behind every member.
pub proof fn law_committee_is_lex_min<Id: Copy + Eq>(
    order: Seq<int>,
    candidates: Seq<Candidate<Id>>,
    requirements: JobRequirements,
    size: int,
    i: int,
    p: int,
)
    requires
        is_ranking(order, candidates, requirements),
        0 <= i < size <= order.len(),
        0 <= p < candidates.len(),
        capable(candidates[p].capabilities, requirements),
        !order.take(size).contains(p),
    ensures
        ranks_before(candidates, order.take(size)[i], p),
{
    assert(candidates[p] == candidates[p]);
    assert(order.contains(p));
    let j = choose|j: int| 0 <= j < order.len() && order[j] == p;
    if j < size {
        assert(order.take(size)[j] == p);
    }
    assert(ranks_before(candidates, order[i], order[j]));
}

/// A stronger runner never loses a match: more of everything still matches.
pub proof fn law_matching_is_monotone(
    weaker: Capabilities,
    stronger: Capabilities,
    job: JobRequirements,
)
    requires
        capable(weaker, job),
        stronger.cpu >= weaker.cpu,
        stronger.memory_mb >= weaker.memory_mb,
        stronger.platform == weaker.platform,
        weaker.runtimes@.subset_of(stronger.runtimes@),
    ensures
        capable(stronger, job),
{
}

/// Whoever lacks something cannot do the job: too few cores, too little memory,
/// another platform, or a runtime that is missing.
pub proof fn law_a_lack_rules_out(runner: Capabilities, job: JobRequirements, runtime: Runtime)
    requires
        ({
            ||| runner.cpu < job.cpu
            ||| runner.memory_mb < job.memory_mb
            ||| runner.platform != job.platform
            ||| job.runtimes@.contains(runtime) && !runner.runtimes@.contains(runtime)
        }),
    ensures
        !capable(runner, job),
{
}

/// Whoever offers exactly what a job asks for can do it.
pub proof fn law_an_exact_offer_matches(runner: Capabilities, job: JobRequirements)
    requires
        runner.cpu == job.cpu,
        runner.memory_mb == job.memory_mb,
        runner.platform == job.platform,
        runner.runtimes@ == job.runtimes@,
    ensures
        capable(runner, job),
{
}

/// The eligible are counted one by one: a candidate adds one if it can do the
/// job, and else nothing.
pub proof fn law_eligible_are_counted<Id: Copy + Eq>(
    candidates: Seq<Candidate<Id>>,
    requirements: JobRequirements,
    i: int,
)
    requires
        0 <= i < candidates.len(),
    ensures
        eligible_count(Seq::<Candidate<Id>>::empty(), requirements) == 0,
        eligible_count(candidates, requirements) == eligible_count(
            candidates.remove(i),
            requirements,
        ) + (if capable(candidates[i].capabilities, requirements) {
            1nat
        } else {
            0
        }),
    decreases candidates.len(),
{
    let n = candidates.len() - 1;
    if i < n {
        law_eligible_are_counted(candidates.drop_last(), requirements, i);
        assert(candidates.remove(i).drop_last() =~= candidates.drop_last().remove(i));
        assert(candidates.remove(i).last() == candidates.last());
    } else {
        assert(candidates.remove(i) =~= candidates.drop_last());
    }
}

/// A committee holds the best: its members can do the job, there are as many as
/// asked for, and no candidate that can do it and was left out has a smaller VRF
/// output than any of them.
pub proof fn law_committee_holds_the_smallest_outputs<Id: Copy + Eq>(
    order: Seq<int>,
    candidates: Seq<Candidate<Id>>,
    requirements: JobRequirements,
    size: int,
    k: int,
    p: int,
) -> (q: int)
    requires
        is_ranking(order, candidates, requirements),
        0 <= k < size <= order.len(),
        0 <= p < candidates.len(),
        capable(candidates[p].capabilities, requirements),
        !ids_at(candidates, order.take(size)).contains(candidates[p].id),
    ensures
        ids_at(candidates, order.take(size)).len() == size,
        0 <= q < candidates.len(),
        ids_at(candidates, order.take(size))[k] == candidates[q].id,
        capable(candidates[q].capabilities, requirements),
        !crate::bytes::lex_less(candidates[p].vrf_output@, candidates[q].vrf_output@),
{
    let chosen = order.take(size);
    if chosen.contains(p) {
        let j = choose|j: int| 0 <= j < chosen.len() && chosen[j] == p;
        assert(ids_at(candidates, chosen)[j] == candidates[p].id);
    }
    law_committee_is_lex_min(order, candidates, requirements, size, k, p);
    law_committee_is_sound(order, candidates, requirements, size, k);
    let q = chosen[k];
    lemma_ranks_asymmetric(candidates, q, p);
    q
}

/// The members of a committee stand by rank: no member has a smaller VRF output
/// than one before it, and no candidate sits twice.
pub proof fn law_committee_is_ranked<Id: Copy + Eq>(
    order: Seq<int>,
    candidates: Seq<Candidate<Id>>,
    requirements: JobRequirements,
    i: int,
    j: int,
)
    requires
        is_ranking(order, candidates, requirements),
        0 <= i < j < order.len(),
    ensures
        order[i] != order[j],
        !crate::bytes::lex_less(
            candidates[order[j]].vrf_output@,
            candidates[order[i]].vrf_output@,
        ),
        candidates[order[i]].vrf_output@ == candidates[order[j]].vrf_output@ ==> order[i]
            < order[j],
{
    assert(ranks_before(candidates, order[i], order[j]));
    lemma_ranks_asymmetric(candidates, order[i], order[j]);
    crate::bytes::lemma_lex_irreflexive(candidates[order[i]].vrf_output@);
}

} // verus!
