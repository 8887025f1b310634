//! Two-replica cluster with genuine split-brain semantics.
//!
//! - **Connected:** every `acquire` applies to the target side and then
//!   propagates to the other replica.
//! - **Partitioned:** propagation stops. Each side operates on its own
//!   `LeaseManager`; both sides can accept writes for overlapping jobs.
//! - **Heal:** majority wins; the minority replica is reset to an empty
//!   state. Any writes the minority received during partition are discarded.
//!
//! This is a model of the split-brain / reconciliation contract, not a
//! production replication protocol.

use crate::clock::Clock;
use crate::lease::{JobId, LeaseError, LeaseManager, RunnerId};
use vstd::prelude::*;

verus! {

/// One of the two replicas.
#[derive(Clone, Copy, Debug, PartialEq, Eq, Structural)]
pub enum Side {
    /// The first.
    A,
    /// The second.
    B,
}

/// Reasons the cluster refuses a lease.
#[derive(Clone, Copy, Debug, PartialEq, Eq, Structural)]
pub enum ClusterError {
    /// Target replica already has an active lease for this job.
    AlreadyLeased,
}

impl From<LeaseError> for ClusterError {
    fn from(e: LeaseError) -> (r: Self) {
        match e {
            LeaseError::AlreadyLeased => ClusterError::AlreadyLeased,
        }
    }
}

impl vstd::std_specs::convert::FromSpecImpl<LeaseError> for ClusterError {
    open spec fn obeys_from_spec() -> bool {
        true
    }

    open spec fn from_spec(e: LeaseError) -> Self {
        ClusterError::AlreadyLeased
    }
}

/// Two replicas of a lease table.
pub struct TwoReplicaCluster<C: Clock + Clone> {
    replica_a: LeaseManager<C>,
    replica_b: LeaseManager<C>,
    partitioned: bool,
    /// Which side is authoritative when partitioned (reconciliation winner).
    majority: Side,
    clock: C,
    ttl_ns: u64,
}

/// What a cluster holds.
#[verifier::ext_equal]
pub struct ClusterState {
    /// Leases on side A.
    pub a: Seq<crate::lease::Lease>,
    /// Leases on side B.
    pub b: Seq<crate::lease::Lease>,
    /// Number of the next lease on side A.
    pub next_a: u64,
    /// Number of the next lease on side B.
    pub next_b: u64,
    /// Whether the replicas are cut off from each other.
    pub partitioned: bool,
    /// The side that wins on heal.
    pub majority: Side,
}

/// The opposite side.
pub open spec fn opposite(side: Side) -> Side {
    match side {
        Side::A => Side::B,
        Side::B => Side::A,
    }
}

impl ClusterState {
    /// The leases of one side.
    pub open spec fn side(self, side: Side) -> Seq<crate::lease::Lease> {
        match side {
            Side::A => self.a,
            Side::B => self.b,
        }
    }

    /// The number of the next lease of one side.
    pub open spec fn next(self, side: Side) -> u64 {
        match side {
            Side::A => self.next_a,
            Side::B => self.next_b,
        }
    }

    /// The state with other contents on one side.
    pub open spec fn with_side(
        self,
        side: Side,
        leases: Seq<crate::lease::Lease>,
        next: u64,
    ) -> ClusterState {
        match side {
            Side::A => ClusterState { a: leases, next_a: next, ..self },
            Side::B => ClusterState { b: leases, next_b: next, ..self },
        }
    }

    /// Whether `side` would grant the pair a lease at `now`.
    pub open spec fn grants(self, ttl: u64, side: Side, job: u64, runner: u64, now: u64) -> bool {
        !crate::lease::holds(crate::lease::active(self.side(side), ttl, now), job, runner)
    }

    /// The state after one side was asked for a lease at `now`.
    pub open spec fn asked(
        self,
        ttl: u64,
        side: Side,
        job: u64,
        runner: u64,
        now: u64,
    ) -> ClusterState {
        self.with_side(
            side,
            crate::lease::after_acquire(
                self.side(side),
                ttl,
                self.next(side),
                job,
                runner,
                now,
            ),
            if self.grants(ttl, side, job, runner, now) {
                self.next(side).wrapping_add(1)
            } else {
                self.next(side)
            },
        )
    }

    /// The state after an `acquire` on `side` at `now`, replicated, where the
    /// sides are connected and it was granted, at `now_other`.
    pub open spec fn acquired(
        self,
        ttl: u64,
        side: Side,
        job: u64,
        runner: u64,
        now: u64,
        now_other: u64,
    ) -> ClusterState {
        let local = self.asked(ttl, side, job, runner, now);
        if !self.partitioned && self.grants(ttl, side, job, runner, now) {
            local.asked(ttl, opposite(side), job, runner, now_other)
        } else {
            local
        }
    }

    /// The state after `heal`.
    pub open spec fn healed(self) -> ClusterState {
        if self.partitioned {
            ClusterState {
                partitioned: false,
                ..self.with_side(opposite(self.majority), Seq::empty(), 0)
            }
        } else {
            self
        }
    }
}

impl<C: Clock + Clone> View for TwoReplicaCluster<C> {
    type V = ClusterState;

    closed spec fn view(&self) -> ClusterState {
        ClusterState {
            a: self.replica_a@,
            b: self.replica_b@,
            next_a: self.replica_a.next(),
            next_b: self.replica_b.next(),
            partitioned: self.partitioned,
            majority: self.majority,
        }
    }
}

impl<C: Clock + Clone> TwoReplicaCluster<C> {
    /// How long a lease is active.
    pub closed spec fn ttl(&self) -> u64 {
        self.ttl_ns
    }

    /// Whether both replicas expire leases as the cluster does.
    pub closed spec fn wf(&self) -> bool {
        self.replica_a.ttl() == self.ttl_ns && self.replica_b.ttl() == self.ttl_ns
    }

    /// Two empty, connected replicas.
    #[must_use]
    pub fn new(clock: C, ttl_ns: u64) -> (r: Self)
        ensures
            r.wf(),
            r.ttl() == ttl_ns,
            r@ == (ClusterState {
                a: Seq::empty(),
                b: Seq::empty(),
                next_a: 0,
                next_b: 0,
                partitioned: false,
                majority: Side::A,
            }),
    {
        TwoReplicaCluster {
            replica_a: LeaseManager::new(clock.clone(), ttl_ns),
            replica_b: LeaseManager::new(clock.clone(), ttl_ns),
            partitioned: false,
            majority: Side::A,
            clock,
            ttl_ns,
        }
    }

    /// Acquire a lease on the given `side`. In Connected mode, the
    /// operation propagates to the other replica too (best-effort).
    /// In Partitioned mode, the operation stays local to `side`.
    ///
    /// # Errors
    ///
    /// `ClusterError::AlreadyLeased` if the target replica already has
    /// an active lease for the pair.
    pub fn acquire(&mut self, side: Side, job: JobId, runner: RunnerId) -> (r: Result<
        (),
        ClusterError,
    >)
        requires
            old(self).wf(),
        ensures
            final(self).wf(),
            final(self).ttl() == old(self).ttl(),
            exists|now: u64, now_other: u64|
                final(self)@ == #[trigger] old(self)@.acquired(
                    old(self).ttl(),
                    side,
                    job,
                    runner,
                    now,
                    now_other,
                ) && (r is Ok <==> old(self)@.grants(old(self).ttl(), side, job, runner, now)),
    {
        let now: u64 = self.clock.now_ns();
        let granted = self.ask_at(side, now, job, runner);
        if !self.partitioned && granted.is_ok() {
            // Best-effort replication to the other side. Failure here
            // would indicate prior divergence.
            let now_other: u64 = self.clock.now_ns();
            let _ = self.ask_at(Self::other_side(side), now_other, job, runner);
            assert(self@ =~= old(self)@.acquired(
                old(self).ttl(),
                side,
                job,
                runner,
                now,
                now_other,
            ));
        } else {
            assert(self@ =~= old(self)@.acquired(old(self).ttl(), side, job, runner, now, now));
        }
        granted
    }

    /// Acquire at given clock readings: `now` on the target side, `now_other`
    /// on the other one.
    ///
    /// # Errors
    ///
    /// As for `acquire`.
    pub fn acquire_at(
        &mut self,
        side: Side,
        now: u64,
        now_other: u64,
        job: JobId,
        runner: RunnerId,
    ) -> (r: Result<(), ClusterError>)
        requires
            old(self).wf(),
        ensures
            final(self).wf(),
            final(self).ttl() == old(self).ttl(),
            r is Ok <==> old(self)@.grants(old(self).ttl(), side, job, runner, now),
            final(self)@ == old(self)@.acquired(
                old(self).ttl(),
                side,
                job,
                runner,
                now,
                now_other,
            ),
    {
        let granted = self.ask_at(side, now, job, runner);
        if !self.partitioned && granted.is_ok() {
            let _ = self.ask_at(Self::other_side(side), now_other, job, runner);
        }
        assert(self@ =~= old(self)@.acquired(old(self).ttl(), side, job, runner, now, now_other));
        granted
    }

    fn ask_at(&mut self, side: Side, now: u64, job: JobId, runner: RunnerId) -> (r: Result<
        (),
        ClusterError,
    >)
        requires
            old(self).wf(),
        ensures
            final(self).wf(),
            final(self).ttl() == old(self).ttl(),
            r is Ok <==> old(self)@.grants(old(self).ttl(), side, job, runner, now),
            final(self)@ == old(self)@.asked(old(self).ttl(), side, job, runner, now),
    {
        let asked = match side {
            Side::A => self.replica_a.acquire_at(now, job, runner),
            Side::B => self.replica_b.acquire_at(now, job, runner),
        };
        assert(self@ =~= old(self)@.asked(old(self).ttl(), side, job, runner, now));
        match asked {
            Ok(_) => Ok(()),
            Err(e) => Err(ClusterError::from(e)),
        }
    }

    /// Begin a network partition with `majority` as the reconciliation
    /// winner upon heal.
    pub fn partition(&mut self, majority: Side)
        requires
            old(self).wf(),
        ensures
            final(self).wf(),
            final(self).ttl() == old(self).ttl(),
            final(self)@ == (ClusterState { partitioned: true, majority, ..old(self)@ }),
    {
        self.partitioned = true;
        self.majority = majority;
    }

    /// Heal the partition. Minority replica is reset to empty: any
    /// writes it received during partition are discarded. Majority is
    /// authoritative.
    pub fn heal(&mut self)
        requires
            old(self).wf(),
        ensures
            final(self).wf(),
            final(self).ttl() == old(self).ttl(),
            final(self)@ == old(self)@.healed(),
    {
        if self.partitioned {
            let fresh = LeaseManager::new(self.clock.clone(), self.ttl_ns);
            match self.majority {
                Side::A => self.replica_b = fresh,
                Side::B => self.replica_a = fresh,
            }
        }
        self.partitioned = false;
        assert(self@ =~= old(self)@.healed());
    }

    /// Whether the replicas are cut off from each other.
    #[must_use]
    pub fn is_partitioned(&self) -> (r: bool)
        ensures
            r == self@.partitioned,
    {
        self.partitioned
    }

    /// Whether replica `side` currently has an active lease for the
    /// `(job, runner)` pair.
    pub fn side_has_active(&mut self, side: Side, job: JobId, runner: RunnerId) -> (r: bool)
        requires
            old(self).wf(),
        ensures
            final(self).wf(),
            final(self).ttl() == old(self).ttl(),
            exists|now: u64|
                final(self)@ == old(self)@.with_side(
                    side,
                    #[trigger] crate::lease::active(
                        old(self)@.side(side),
                        old(self).ttl(),
                        now,
                    ),
                    old(self)@.next(side),
                ),
            r == crate::lease::holds(final(self)@.side(side), job, runner),
    {
        let now: u64 = self.clock.now_ns();
        self.side_has_active_at(side, now, job, runner)
    }

    /// The same at a given clock reading.
    pub fn side_has_active_at(&mut self, side: Side, now: u64, job: JobId, runner: RunnerId) -> (r:
        bool)
        requires
            old(self).wf(),
        ensures
            final(self).wf(),
            final(self).ttl() == old(self).ttl(),
            final(self)@ == old(self)@.with_side(
                side,
                crate::lease::active(old(self)@.side(side), old(self).ttl(), now),
                old(self)@.next(side),
            ),
            r == crate::lease::holds(final(self)@.side(side), job, runner),
    {
        let found = match side {
            Side::A => self.replica_a.active_lease_at(now, job, runner),
            Side::B => self.replica_b.active_lease_at(now, job, runner),
        };
        assert(self@ =~= old(self)@.with_side(
            side,
            crate::lease::active(old(self)@.side(side), old(self).ttl(), now),
            old(self)@.next(side),
        ));
        found.is_some()
    }

    /// Total active leases across both replicas for the `(job, runner)`
    /// pair. During partition this can be 2 (split brain); in Connected
    /// mode it should be 0 or 2 only because both replicas stay in sync.
    pub fn global_active_count(&mut self, job: JobId, runner: RunnerId) -> (r: usize)
        requires
            old(self).wf(),
        ensures
            final(self).wf(),
            final(self).ttl() == old(self).ttl(),
            exists|now_a: u64, now_b: u64|
                final(self)@ == old(self)@.with_side(
                    Side::A,
                    #[trigger] crate::lease::active(old(self)@.a, old(self).ttl(), now_a),
                    old(self)@.next_a,
                ).with_side(
                    Side::B,
                    #[trigger] crate::lease::active(old(self)@.b, old(self).ttl(), now_b),
                    old(self)@.next_b,
                ),
            r == holders(final(self)@, job, runner),
    {
        let on_a = self.side_has_active(Side::A, job, runner);
        let on_b = self.side_has_active(Side::B, job, runner);
        let a: usize = if on_a {
            1
        } else {
            0
        };
        let b: usize = if on_b {
            1
        } else {
            0
        };
        a + b
    }

    /// Total active `(job, runner)` pairs for `job`, summed
    /// across both replicas. During partition it can exceed the committee
    /// size as split-brain accumulates. Where the two tables together would
    /// outgrow a `usize`, nothing can be counted.
    pub fn global_active_count_for_job(&mut self, job: JobId) -> (r: usize)
        requires
            old(self).wf(),
            old(self)@.a.len() + old(self)@.b.len() <= usize::MAX,
        ensures
            final(self).wf(),
            final(self).ttl() == old(self).ttl(),
            exists|now_a: u64, now_b: u64|
                final(self)@ == old(self)@.with_side(
                    Side::A,
                    #[trigger] crate::lease::active(old(self)@.a, old(self).ttl(), now_a),
                    old(self)@.next_a,
                ).with_side(
                    Side::B,
                    #[trigger] crate::lease::active(old(self)@.b, old(self).ttl(), now_b),
                    old(self)@.next_b,
                ),
            r == crate::lease::count_for_job(final(self)@.a, job) + crate::lease::count_for_job(
                final(self)@.b,
                job,
            ),
    {
        let now_a: u64 = self.clock.now_ns();
        let a: usize = self.replica_a.count_active_at(now_a, job);
        let now_b: u64 = self.clock.now_ns();
        let b: usize = self.replica_b.count_active_at(now_b, job);
        proof {
            crate::lease::lemma_active_members(old(self)@.a, old(self).ttl(), now_a);
            crate::lease::lemma_active_members(old(self)@.b, old(self).ttl(), now_b);
            assert(self@ =~= old(self)@.with_side(
                Side::A,
                crate::lease::active(old(self)@.a, old(self).ttl(), now_a),
                old(self)@.next_a,
            ).with_side(
                Side::B,
                crate::lease::active(old(self)@.b, old(self).ttl(), now_b),
                old(self)@.next_b,
            ));
        }
        a + b
    }

    fn other_side(side: Side) -> (r: Side)
        ensures
            r == opposite(side),
    {
        match side {
            Side::A => Side::B,
            Side::B => Side::A,
        }
    }
}

/// How many sides hold a lease of the pair.
pub open spec fn holders(s: ClusterState, job: u64, runner: u64) -> int {
    (if crate::lease::holds(s.a, job, runner) {
        1int
    } else {
        0int
    }) + (if crate::lease::holds(s.b, job, runner) {
        1int
    } else {
        0int
    })
}

/// No split-brain outlives a heal: whatever the minority was granted during
/// the partition is gone, and what the majority holds stays.
pub proof fn law_heal_discards_minority(s: ClusterState, job: u64, runner: u64)
    requires
        s.partitioned,
    ensures
        !s.healed().partitioned,
        !crate::lease::holds(s.healed().side(opposite(s.majority)), job, runner),
        s.healed().side(s.majority) == s.side(s.majority),
{
}

/// Whether the sides are connected and, from `since` on, have the same active
/// leases and number the next one alike.
pub open spec fn in_step(s: ClusterState, ttl: u64, since: u64) -> bool {
    &&& !s.partitioned
    &&& s.next_a == s.next_b
    &&& forall|t: u64|
        since <= t ==> #[trigger] crate::lease::active(s.a, ttl, t) == crate::lease::active(
            s.b,
            ttl,
            t,
        )
}

/// A call on a connected cluster.
pub enum Call {
    /// `acquire` for a pair on a side.
    Acquire {
        /// The side that is asked.
        side: Side,
        /// The job.
        job: u64,
        /// The runner.
        runner: u64,
    },
    /// `side_has_active` on a side.
    Look(Side),
    /// A count of both sides.
    Count,
    /// `heal`, which finds nothing to heal.
    Heal,
}

/// The state after a side was looked at.
pub open spec fn looked(s: ClusterState, ttl: u64, side: Side, now: u64) -> ClusterState {
    s.with_side(side, crate::lease::active(s.side(side), ttl, now), s.next(side))
}

/// The state after a call, all of it at one clock reading.
pub open spec fn after_call(s: ClusterState, ttl: u64, call: Call, now: u64) -> ClusterState {
    match call {
        Call::Acquire { side, job, runner } => s.acquired(ttl, side, job, runner, now, now),
        Call::Look(side) => looked(s, ttl, side, now),
        Call::Count => looked(looked(s, ttl, Side::A, now), ttl, Side::B, now),
        Call::Heal => s.healed(),
    }
}

/// The state of a new cluster.
pub open spec fn fresh_cluster() -> ClusterState {
    ClusterState {
        a: Seq::empty(),
        b: Seq::empty(),
        next_a: 0,
        next_b: 0,
        partitioned: false,
        majority: Side::A,
    }
}

/// The state of a new cluster after calls, each at its reading.
pub open spec fn after_calls(ttl: u64, calls: Seq<(Call, u64)>) -> ClusterState
    decreases calls.len(),
{
    if calls.len() == 0 {
        fresh_cluster()
    } else {
        after_call(after_calls(ttl, calls.drop_last()), ttl, calls.last().0, calls.last().1)
    }
}

/// Whether time does not run backwards over the calls.
pub open spec fn in_time(calls: Seq<(Call, u64)>) -> bool {
    forall|i: int, j: int| 0 <= i < j < calls.len() ==> (#[trigger] calls[i]).1 <= (
    #[trigger] calls[j]).1
}

proof fn lemma_looked_in_step(s: ClusterState, ttl: u64, since: u64, side: Side, now: u64)
    requires
        in_step(s, ttl, since),
        since <= now,
    ensures
        in_step(looked(s, ttl, side, now), ttl, now),
{
    let after = looked(s, ttl, side, now);
    assert forall|t: u64| now <= t implies #[trigger] crate::lease::active(after.a, ttl, t)
        == crate::lease::active(after.b, ttl, t) by {
        crate::lease::lemma_active_twice(s.side(side), ttl, now, t);
        assert(crate::lease::active(s.a, ttl, t) == crate::lease::active(s.b, ttl, t));
    }
}

/// Connected replicas stay in step: whatever is called, granted or refused, a
/// read or a write, where each call goes by one clock reading and time does not
/// run backwards.
pub proof fn law_connected_replicas_agree(
    s: ClusterState,
    ttl: u64,
    since: u64,
    call: Call,
    now: u64,
)
    requires
        in_step(s, ttl, since),
        since <= now,
    ensures
        in_step(after_call(s, ttl, call, now), ttl, now),
{
    match call {
        Call::Acquire { side, job, runner } => {
            let after = s.acquired(ttl, side, job, runner, now, now);
            assert(crate::lease::active(s.a, ttl, now) == crate::lease::active(s.b, ttl, now));
            if s.grants(ttl, side, job, runner, now) {
                assert(after.a == after.b);
            } else {
                lemma_looked_in_step(s, ttl, since, side, now);
                assert(after =~= looked(s, ttl, side, now));
            }
        },
        Call::Look(side) => lemma_looked_in_step(s, ttl, since, side, now),
        Call::Count => {
            lemma_looked_in_step(s, ttl, since, Side::A, now);
            lemma_looked_in_step(looked(s, ttl, Side::A, now), ttl, now, Side::B, now);
        },
        Call::Heal => {},
    }
}

/// A cluster that was never partitioned has its replicas in step after every
/// run of calls.
pub proof fn law_unbroken_cluster_is_in_step(ttl: u64, calls: Seq<(Call, u64)>, since: u64)
    requires
        in_time(calls),
        calls.len() > 0 ==> calls.last().1 <= since,
    ensures
        in_step(after_calls(ttl, calls), ttl, since),
    decreases calls.len(),
{
    if calls.len() > 0 {
        let less = calls.drop_last();
        let now = calls.last().1;
        assert forall|i: int, j: int| 0 <= i < j < less.len() implies (#[trigger] less[i]).1 <= (
        #[trigger] less[j]).1 by {
            assert(calls[i].1 <= calls[j].1);
        }
        if less.len() > 0 {
            assert(calls[less.len() - 1].1 <= calls[calls.len() - 1].1);
            assert(less.last() == calls[less.len() - 1]);
        }
        law_unbroken_cluster_is_in_step(ttl, less, now);
        law_connected_replicas_agree(after_calls(ttl, less), ttl, now, calls.last().0, now);
    }
}

/// Where the replicas are in step, a pair is counted on both sides or on none.
pub proof fn law_connected_count_is_none_or_both(
    s: ClusterState,
    ttl: u64,
    since: u64,
    job: u64,
    runner: u64,
    now: u64,
)
    requires
        in_step(s, ttl, since),
        since <= now,
    ensures
        ({
            let counted = holders(after_call(s, ttl, Call::Count, now), job, runner);
            counted == 0 || counted == 2
        }),
        crate::lease::holds(looked(s, ttl, Side::A, now).a, job, runner) == crate::lease::holds(
            looked(s, ttl, Side::B, now).b,
            job,
            runner,
        ),
{
    assert(crate::lease::active(s.a, ttl, now) == crate::lease::active(s.b, ttl, now));
}

/// During a partition the other side is out of reach.
pub proof fn law_partition_is_local(
    s: ClusterState,
    ttl: u64,
    side: Side,
    job: u64,
    runner: u64,
    now: u64,
    now_other: u64,
)
    requires
        s.partitioned,
    ensures
        s.acquired(ttl, side, job, runner, now, now_other).side(opposite(side)) == s.side(
            opposite(side),
        ),
{
}

/// A lease that is granted is held where it was asked for and, while the replicas
/// are connected, on the other side too; one that is held there already is not
/// granted.
pub proof fn law_grant_reaches_both_sides(
    s: ClusterState,
    ttl: u64,
    side: Side,
    job: u64,
    runner: u64,
    now: u64,
    now_other: u64,
)
    ensures
        s.grants(ttl, side, job, runner, now) <==> !crate::lease::holds(
            crate::lease::active(s.side(side), ttl, now),
            job,
            runner,
        ),
        crate::lease::holds(
            s.acquired(ttl, side, job, runner, now, now_other).side(side),
            job,
            runner,
        ),
        !s.partitioned && s.grants(ttl, side, job, runner, now) ==> crate::lease::holds(
            s.acquired(ttl, side, job, runner, now, now_other).side(opposite(side)),
            job,
            runner,
        ),
        !s.grants(ttl, side, job, runner, now) ==> s.acquired(
            ttl,
            side,
            job,
            runner,
            now,
            now_other,
        ).side(opposite(side)) == s.side(opposite(side)),
        s.acquired(ttl, side, job, runner, now, now_other).partitioned == s.partitioned,
        s.acquired(ttl, side, job, runner, now, now_other).majority == s.majority,
{
    lemma_acquired_is_held(s.side(side), ttl, s.next(side), job, runner, now);
    let local = s.asked(ttl, side, job, runner, now);
    let other = opposite(side);
    lemma_acquired_is_held(local.side(other), ttl, local.next(other), job, runner, now_other);
}

proof fn lemma_acquired_is_held(
    leases: Seq<crate::lease::Lease>,
    ttl: u64,
    id: u64,
    job: u64,
    runner: u64,
    now: u64,
)
    ensures
        crate::lease::holds(
            crate::lease::after_acquire(leases, ttl, id, job, runner, now),
            job,
            runner,
        ),
{
    let left = crate::lease::active(leases, ttl, now);
    let after = crate::lease::after_acquire(leases, ttl, id, job, runner, now);
    if !crate::lease::holds(left, job, runner) {
        assert(after[left.len() as int].job == job);
    }
}

} // verus!
