//! Time-bounded leases of jobs to runners.
//!
//! A lease is keyed by `(job, runner)`, so that every committee member can
//! hold one on the same job. It is active for `ttl_ns` after it was acquired.

use crate::clock::Clock;
use vstd::prelude::*;

verus! {

/// Job identifier.
pub type JobId = u64;

/// Runner identifier.
pub type RunnerId = u64;

/// Number of a lease, in order of acquisition.
pub type LeaseId = u64;

/// Reasons a lease can be refused.
#[derive(Clone, Copy, Debug, PartialEq, Eq, Structural)]
pub enum LeaseError {
    /// The pair already holds an active lease.
    AlreadyLeased,
}

/// One lease.
#[derive(Clone, Copy, Debug, PartialEq, Eq, Structural)]
pub struct Lease {
    /// Number of the lease.
    pub id: LeaseId,
    /// The job.
    pub job: JobId,
    /// The runner.
    pub runner: RunnerId,
    /// When it was acquired.
    pub acquired_at: u64,
}

/// Grants and expires leases.
pub struct LeaseManager<C: Clock> {
    clock: C,
    ttl_ns: u64,
    next_id: LeaseId,
    leases: Vec<Lease>,
}

/// Whether a lease is active at `now`.
pub open spec fn is_active(lease: Lease, ttl: u64, now: u64) -> bool {
    crate::clock::elapsed(now, lease.acquired_at) < ttl
}

/// The leases that are active at `now`, in order.
pub open spec fn active(leases: Seq<Lease>, ttl: u64, now: u64) -> Seq<Lease>
    decreases leases.len(),
{
    if leases.len() == 0 {
        leases
    } else {
        let rest = active(leases.drop_last(), ttl, now);
        if is_active(leases.last(), ttl, now) {
            rest.push(leases.last())
        } else {
            rest
        }
    }
}

/// Whether one of the leases is held by the pair.
pub open spec fn holds(leases: Seq<Lease>, job: u64, runner: u64) -> bool {
    exists|i: int|
        0 <= i < leases.len() && (#[trigger] leases[i]).job == job && leases[i].runner == runner
}

/// Whether no pair holds two leases.
pub open spec fn one_per_pair(leases: Seq<Lease>) -> bool {
    forall|i: int, j: int|
        0 <= i < j < leases.len() ==> (#[trigger] leases[i]).job != (#[trigger] leases[j]).job
            || leases[i].runner != leases[j].runner
}

/// The leases after an attempt to acquire at `now`: the active ones, and the
/// new one unless the pair holds one already.
pub open spec fn after_acquire(
    leases: Seq<Lease>,
    ttl: u64,
    id: u64,
    job: u64,
    runner: u64,
    now: u64,
) -> Seq<Lease> {
    let left = active(leases, ttl, now);
    if holds(left, job, runner) {
        left
    } else {
        left.push(Lease { id, job, runner, acquired_at: now })
    }
}

/// How many of the leases are on a job.
pub open spec fn count_for_job(leases: Seq<Lease>, job: u64) -> nat
    decreases leases.len(),
{
    if leases.len() == 0 {
        0
    } else {
        count_for_job(leases.drop_last(), job) + if leases.last().job == job {
            1nat
        } else {
            0nat
        }
    }
}

impl<C: Clock> View for LeaseManager<C> {
    type V = Seq<Lease>;

    closed spec fn view(&self) -> Seq<Lease> {
        self.leases@
    }
}

impl<C: Clock> LeaseManager<C> {
    /// How long a lease is active.
    pub closed spec fn ttl(&self) -> u64 {
        self.ttl_ns
    }

    /// The number of the next lease.
    pub closed spec fn next(&self) -> u64 {
        self.next_id
    }

    /// A manager without leases.
    #[must_use]
    pub fn new(clock: C, ttl_ns: u64) -> (r: Self)
        ensures
            r@ == Seq::<Lease>::empty(),
            r.ttl() == ttl_ns,
            r.next() == 0,
    {
        LeaseManager { clock, ttl_ns, next_id: 0, leases: Vec::new() }
    }

    /// Acquire a lease on `job` for `runner`.
    ///
    /// # Errors
    ///
    /// `LeaseError::AlreadyLeased` if the pair holds an active lease.
    pub fn acquire(&mut self, job: JobId, runner: RunnerId) -> (r: Result<LeaseId, LeaseError>)
        ensures
            final(self).ttl() == old(self).ttl(),
            final(self).next() == (if r is Ok {
                old(self).next().wrapping_add(1)
            } else {
                old(self).next()
            }),
            r matches Ok(id) ==> id == old(self).next(),
            exists|now: u64|
                final(self)@ == #[trigger] after_acquire(
                    old(self)@,
                    old(self).ttl(),
                    old(self).next(),
                    job,
                    runner,
                    now,
                ) && (r is Ok <==> !holds(active(old(self)@, old(self).ttl(), now), job, runner)),
    {
        let now: u64 = self.clock.now_ns();
        self.acquire_at(now, job, runner)
    }

    /// The same at a given clock reading.
    ///
    /// # Errors
    ///
    /// As for `acquire`.
    pub fn acquire_at(&mut self, now: u64, job: JobId, runner: RunnerId) -> (r: Result<
        LeaseId,
        LeaseError,
    >)
        ensures
            final(self).ttl() == old(self).ttl(),
            final(self).next() == (if r is Ok {
                old(self).next().wrapping_add(1)
            } else {
                old(self).next()
            }),
            r is Ok <==> !holds(active(old(self)@, old(self).ttl(), now), job, runner),
            r matches Ok(id) ==> id == old(self).next(),
            final(self)@ == after_acquire(
                old(self)@,
                old(self).ttl(),
                old(self).next(),
                job,
                runner,
                now,
            ),
    {
        self.sweep_at(now);
        match self.position(job, runner) {
            Some(_) => Err(LeaseError::AlreadyLeased),
            None => {
                let id: u64 = self.next_id;
                self.leases.push(Lease { id, job, runner, acquired_at: now });
                self.next_id = id.wrapping_add(1);
                Ok(id)
            },
        }
    }

    /// Drop every lease that is not active at `now`.
    pub fn sweep_at(&mut self, now: u64)
        ensures
            final(self).ttl() == old(self).ttl(),
            final(self).next() == old(self).next(),
            final(self)@ == active(old(self)@, old(self).ttl(), now),
    {
        let mut left: Vec<Lease> = Vec::new();
        let mut i: usize = 0;
        while i < self.leases.len()
            invariant
                i <= self.leases.len(),
                *self == *old(self),
                left@ == active(self.leases@.take(i as int), self.ttl_ns, now),
            decreases self.leases.len() - i,
        {
            let lease = self.leases[i];
            assert(self.leases@.take(i + 1).drop_last() =~= self.leases@.take(i as int));
            if now.saturating_sub(lease.acquired_at) < self.ttl_ns {
                left.push(lease);
            }
            i = i + 1;
        }
        assert(self.leases@.take(i as int) =~= self.leases@);
        self.leases = left;
    }

    fn position(&self, job: JobId, runner: RunnerId) -> (r: Option<usize>)
        ensures
            r is Some <==> holds(self@, job, runner),
            r matches Some(i) ==> i < self@.len() && self@[i as int].job == job
                && self@[i as int].runner == runner && forall|k: int|
                0 <= k < i ==> (#[trigger] self@[k]).job != job || self@[k].runner != runner,
    {
        let mut i: usize = 0;
        while i < self.leases.len()
            invariant
                i <= self.leases.len(),
                forall|k: int|
                    0 <= k < i ==> (#[trigger] self@[k]).job != job || self@[k].runner != runner,
            decreases self.leases.len() - i,
        {
            if self.leases[i].job == job && self.leases[i].runner == runner {
                return Some(i);
            }
            i = i + 1;
        }
        None
    }

    /// The active lease of the pair, if any.
    pub fn active_lease_for(&mut self, job: JobId, runner: RunnerId) -> (r: Option<Lease>)
        ensures
            final(self).ttl() == old(self).ttl(),
            final(self).next() == old(self).next(),
            exists|now: u64| final(self)@ == #[trigger] active(old(self)@, old(self).ttl(), now),
            r is Some <==> holds(final(self)@, job, runner),
            r matches Some(l) ==> l.job == job && l.runner == runner && final(self)@.contains(l),
    {
        let now: u64 = self.clock.now_ns();
        self.active_lease_at(now, job, runner)
    }

    /// The same at a given clock reading.
    pub fn active_lease_at(&mut self, now: u64, job: JobId, runner: RunnerId) -> (r: Option<Lease>)
        ensures
            final(self).ttl() == old(self).ttl(),
            final(self).next() == old(self).next(),
            final(self)@ == active(old(self)@, old(self).ttl(), now),
            r is Some <==> holds(final(self)@, job, runner),
            r matches Some(l) ==> l.job == job && l.runner == runner && final(self)@.contains(l),
    {
        self.sweep_at(now);
        match self.position(job, runner) {
            Some(i) => Some(self.leases[i]),
            None => None,
        }
    }

    /// Number of active leases on `job`.
    pub fn count_active_for_job(&mut self, job: JobId) -> (r: usize)
        ensures
            final(self).ttl() == old(self).ttl(),
            final(self).next() == old(self).next(),
            exists|now: u64| final(self)@ == #[trigger] active(old(self)@, old(self).ttl(), now),
            r == count_for_job(final(self)@, job),
            r <= final(self)@.len(),
    {
        let now: u64 = self.clock.now_ns();
        self.count_active_at(now, job)
    }

    /// The same at a given clock reading.
    pub fn count_active_at(&mut self, now: u64, job: JobId) -> (r: usize)
        ensures
            final(self).ttl() == old(self).ttl(),
            final(self).next() == old(self).next(),
            final(self)@ == active(old(self)@, old(self).ttl(), now),
            r == count_for_job(final(self)@, job),
            r <= final(self)@.len(),
    {
        self.sweep_at(now);
        let mut n: usize = 0;
        let mut i: usize = 0;
        while i < self.leases.len()
            invariant
                i <= self.leases.len(),
                n <= i,
                n == count_for_job(self@.take(i as int), job),
            decreases self.leases.len() - i,
        {
            assert(self@.take(i + 1).drop_last() =~= self@.take(i as int));
            if self.leases[i].job == job {
                n = n + 1;
            }
            i = i + 1;
        }
        assert(self@.take(i as int) =~= self@);
        n
    }
}

/// Every active lease was there before, and active.
pub proof fn lemma_active_members(leases: Seq<Lease>, ttl: u64, now: u64)
    ensures
        forall|l: Lease| #[trigger]
            active(leases, ttl, now).contains(l) <==> leases.contains(l) && is_active(l, ttl, now),
        active(leases, ttl, now).len() <= leases.len(),
    decreases leases.len(),
{
    if leases.len() > 0 {
        let less = leases.drop_last();
        lemma_active_members(less, ttl, now);
        let (all, part) = (active(leases, ttl, now), active(less, ttl, now));
        assert forall|l: Lease| #[trigger]
            all.contains(l) <==> leases.contains(l) && is_active(l, ttl, now) by {
            crate::maps::lemma_take_next(leases, leases.len() - 1, l);
            assert(leases.take(leases.len() as int) =~= leases);
            assert(leases.take(leases.len() - 1) =~= less);
            if is_active(leases.last(), ttl, now) {
                crate::maps::lemma_take_next(all, part.len() as int, l);
                assert(all.take(part.len() as int) =~= part);
                assert(all.take(part.len() as int + 1) =~= all);
            }
        }
    }
}

/// What is active later is found among what was active before.
pub proof fn lemma_active_twice(leases: Seq<Lease>, ttl: u64, now: u64, later: u64)
    requires
        now <= later,
    ensures
        active(active(leases, ttl, now), ttl, later) == active(leases, ttl, later),
    decreases leases.len(),
{
    if leases.len() > 0 {
        let less = leases.drop_last();
        lemma_active_twice(less, ttl, now, later);
        if is_active(leases.last(), ttl, now) {
            let left = active(leases, ttl, now);
            assert(left.drop_last() =~= active(less, ttl, now));
        }
    }
}

/// A pair that holds no lease among all holds none among the active.
proof fn lemma_active_holds(leases: Seq<Lease>, ttl: u64, now: u64, job: u64, runner: u64)
    requires
        !holds(leases, job, runner),
    ensures
        !holds(active(leases, ttl, now), job, runner),
{
    lemma_active_members(leases, ttl, now);
    let left = active(leases, ttl, now);
    if holds(left, job, runner) {
        let i = choose|i: int|
            0 <= i < left.len() && (#[trigger] left[i]).job == job && left[i].runner == runner;
        assert(left.contains(left[i]));
        assert(leases.contains(left[i]));
        let j = choose|j: int| 0 <= j < leases.len() && leases[j] == left[i];
        assert(leases[j].job == job);
    }
}

/// No two active leases on one pair: acquiring keeps it so.
pub proof fn law_one_lease_per_pair(
    leases: Seq<Lease>,
    ttl: u64,
    id: u64,
    job: u64,
    runner: u64,
    now: u64,
)
    requires
        one_per_pair(leases),
    ensures
        one_per_pair(after_acquire(leases, ttl, id, job, runner, now)),
{
    lemma_active_unique(leases, ttl, now);
}

proof fn lemma_active_unique(leases: Seq<Lease>, ttl: u64, now: u64)
    requires
        one_per_pair(leases),
    ensures
        one_per_pair(active(leases, ttl, now)),
    decreases leases.len(),
{
    if leases.len() > 0 {
        let less = leases.drop_last();
        let last = leases.last();
        assert forall|i: int, j: int| 0 <= i < j < less.len() implies (#[trigger] less[i]).job != (
        #[trigger] less[j]).job || less[i].runner != less[j].runner by {
            assert(leases[i].job != leases[j].job || leases[i].runner != leases[j].runner);
        }
        lemma_active_unique(less, ttl, now);
        if holds(less, last.job, last.runner) {
            let i = choose|i: int|
                0 <= i < less.len() && (#[trigger] less[i]).job == last.job && less[i].runner
                    == last.runner;
            assert(leases[i].job == leases[leases.len() - 1].job);
        }
        lemma_active_holds(less, ttl, now, last.job, last.runner);
    }
}

/// A lease that was granted keeps the pair from another one for `ttl`.
pub proof fn law_lease_excludes_until_expiry(
    leases: Seq<Lease>,
    ttl: u64,
    id: u64,
    job: u64,
    runner: u64,
    now: u64,
    later: u64,
)
    requires
        !holds(active(leases, ttl, now), job, runner),
        crate::clock::elapsed(later, now) < ttl,
    ensures
        holds(active(after_acquire(leases, ttl, id, job, runner, now), ttl, later), job, runner),
{
    let all = after_acquire(leases, ttl, id, job, runner, now);
    let l = Lease { id, job, runner, acquired_at: now };
    assert(all[all.len() - 1] == l);
    assert(all.contains(l));
    lemma_active_members(all, ttl, later);
    let left = active(all, ttl, later);
    assert(left.contains(l));
    let i = choose|i: int| 0 <= i < left.len() && left[i] == l;
    assert(left[i].job == job);
}

/// A lease is active until its time is up: each stays or goes by its own age, and
/// those that stay keep their order.
pub proof fn law_active_keeps_the_unexpired(
    a: Seq<Lease>,
    b: Seq<Lease>,
    lease: Lease,
    ttl: u64,
    now: u64,
)
    ensures
        active(a + b, ttl, now) == active(a, ttl, now) + active(b, ttl, now),
        active(seq![lease], ttl, now) == (if now < lease.acquired_at || now - lease.acquired_at
            < ttl {
            if ttl > 0 {
                seq![lease]
            } else {
                Seq::<Lease>::empty()
            }
        } else {
            Seq::<Lease>::empty()
        }),
    decreases b.len(),
{
    let one = seq![lease];
    reveal_with_fuel(active, 2);
    assert(one.drop_last() =~= Seq::<Lease>::empty());
    assert(Seq::<Lease>::empty().push(lease) =~= one);
    if b.len() == 0 {
        assert(a + b =~= a);
        assert(active(a, ttl, now) + active(b, ttl, now) =~= active(a, ttl, now));
    } else {
        law_active_keeps_the_unexpired(a, b.drop_last(), lease, ttl, now);
        assert((a + b).drop_last() =~= a + b.drop_last());
        assert((a + b).last() == b.last());
        assert(active(a + b, ttl, now) =~= active(a, ttl, now) + active(b, ttl, now));
    }
}

/// Asking for a lease that nobody active holds adds it, made now, behind those
/// that are active; asking for one that is held adds none.
pub proof fn law_acquire_adds_one_lease(
    leases: Seq<Lease>,
    ttl: u64,
    id: u64,
    job: u64,
    runner: u64,
    now: u64,
)
    ensures
        ({
            let left = active(leases, ttl, now);
            let after = after_acquire(leases, ttl, id, job, runner, now);
            if exists|i: int|
                0 <= i < left.len() && (#[trigger] left[i]).job == job && left[i].runner
                    == runner {
                after == left
            } else {
                &&& after.len() == left.len() + 1
                &&& after.take(left.len() as int) == left
                &&& after.last().id == id
                &&& after.last().job == job
                &&& after.last().runner == runner
                &&& after.last().acquired_at == now
            }
        }),
{
    let left = active(leases, ttl, now);
    let after = after_acquire(leases, ttl, id, job, runner, now);
    if !holds(left, job, runner) {
        assert(after.take(left.len() as int) =~= left);
    }
}

/// The leases of a job are counted one by one.
pub proof fn law_leases_are_counted(leases: Seq<Lease>, job: u64, i: int)
    requires
        0 <= i < leases.len(),
    ensures
        count_for_job(Seq::empty(), job) == 0,
        count_for_job(leases, job) == count_for_job(leases.remove(i), job) + (if leases[i].job
            == job {
            1nat
        } else {
            0
        }),
    decreases leases.len(),
{
    let n = leases.len() - 1;
    if i < n {
        law_leases_are_counted(leases.drop_last(), job, i);
        assert(leases.remove(i).drop_last() =~= leases.drop_last().remove(i));
        assert(leases.remove(i).last() == leases.last());
    } else {
        assert(leases.remove(i) =~= leases.drop_last());
    }
}

} // verus!
