//! Per-tenant token-bucket rate limiter.
//!
//! A classic per-tenant token bucket: capacity `C`, refill rate `r`
//! tokens/sec. Time comes from a [`Clock`], so that the whole subsystem can
//! be simulated.

use crate::clock::Clock;
use std::collections::HashMap;
use vstd::prelude::*;

verus! {

broadcast use vstd::std_specs::hash::group_hash_axioms;

/// Identifier of a tenant.
pub type TenantId = u64;

/// Per-tenant bucket.
#[derive(Clone, Copy, Debug, PartialEq, Eq, Structural)]
pub struct TokenBucket {
    /// Most tokens it holds.
    pub capacity: u64,
    /// Tokens gained per second.
    pub refill_per_sec: u64,
    /// Tokens held.
    pub tokens: u64,
    /// Time up to which refills are accounted for.
    pub last_refill_ns: u64,
}

/// The tokens that `elapsed_ns` bring at `rate` per second.
pub open spec fn tokens_gained(elapsed_ns: int, rate: u64) -> int {
    elapsed_ns * rate / 1_000_000_000
}

/// A bucket brought up to date with `now`.
pub open spec fn refilled(b: TokenBucket, now: u64) -> TokenBucket {
    let sum = b.tokens + tokens_gained(
        crate::clock::elapsed(now, b.last_refill_ns),
        b.refill_per_sec,
    );
    TokenBucket {
        tokens: if sum < b.capacity {
            sum as u64
        } else {
            b.capacity
        },
        last_refill_ns: now,
        ..b
    }
}

/// A bucket after an attempt to take `cost` at `now`.
pub open spec fn consumed(b: TokenBucket, cost: u64, now: u64) -> TokenBucket {
    let up = refilled(b, now);
    if up.tokens >= cost {
        TokenBucket { tokens: (up.tokens - cost) as u64, ..up }
    } else {
        up
    }
}

/// A full bucket.
pub open spec fn fresh_bucket(capacity: u64, refill_per_sec: u64, now: u64) -> TokenBucket {
    TokenBucket { capacity, refill_per_sec, tokens: capacity, last_refill_ns: now }
}

impl TokenBucket {
    fn new(capacity: u64, refill_per_sec: u64, now_ns: u64) -> (r: Self)
        ensures
            r == fresh_bucket(capacity, refill_per_sec, now_ns),
    {
        TokenBucket { capacity, refill_per_sec, tokens: capacity, last_refill_ns: now_ns }
    }

    /// Bring the bucket's token count up to date with `now_ns`. Capped at
    /// capacity.
    fn refill(&mut self, now_ns: u64)
        ensures
            *final(self) == refilled(*old(self), now_ns),
    {
        let elapsed_ns: u64 = now_ns.saturating_sub(self.last_refill_ns);
        let rate: u64 = self.refill_per_sec;
        assert(elapsed_ns * rate <= u128::MAX) by (nonlinear_arith)
            requires
                elapsed_ns <= 0xffff_ffff_ffff_ffff,
                rate <= 0xffff_ffff_ffff_ffff,
        ;
        let gained: u128 = (elapsed_ns as u128) * (rate as u128) / 1_000_000_000;
        let new_tokens: u64 = if gained <= u64::MAX as u128 {
            gained as u64
        } else {
            u64::MAX
        };
        let sum: u64 = self.tokens.saturating_add(new_tokens);
        self.tokens = if sum < self.capacity {
            sum
        } else {
            self.capacity
        };
        self.last_refill_ns = now_ns;
    }

    /// Try to consume `cost` tokens. Returns true on success (and deducts),
    /// false if insufficient tokens (no-op on balance).
    fn try_consume(&mut self, cost: u64, now_ns: u64) -> (r: bool)
        ensures
            r == (refilled(*old(self), now_ns).tokens >= cost),
            *final(self) == consumed(*old(self), cost, now_ns),
    {
        self.refill(now_ns);
        if self.tokens >= cost {
            self.tokens = self.tokens - cost;
            true
        } else {
            false
        }
    }
}

/// Per-tenant rate limiter.
pub struct RateLimiter<C: Clock> {
    clock: C,
    buckets: HashMap<TenantId, TokenBucket>,
    default_capacity: u64,
    default_refill_per_sec: u64,
}

impl<C: Clock> View for RateLimiter<C> {
    type V = Map<u64, TokenBucket>;

    closed spec fn view(&self) -> Map<u64, TokenBucket> {
        self.buckets@
    }
}

/// The bucket that a request of `tenant` meets: its own, or a full one.
pub open spec fn bucket_for(
    buckets: Map<u64, TokenBucket>,
    tenant: u64,
    capacity: u64,
    refill_per_sec: u64,
    now: u64,
) -> TokenBucket {
    if buckets.contains_key(tenant) {
        buckets[tenant]
    } else {
        fresh_bucket(capacity, refill_per_sec, now)
    }
}

/// Whether no bucket holds more than its capacity.
pub open spec fn within_capacity(buckets: Map<u64, TokenBucket>) -> bool {
    forall|t: u64| #[trigger]
        buckets.contains_key(t) ==> buckets[t].tokens <= buckets[t].capacity
}

impl<C: Clock> RateLimiter<C> {
    /// Capacity of a bucket that is made without one of its own.
    pub closed spec fn default_capacity(&self) -> u64 {
        self.default_capacity
    }

    /// Refill rate of a bucket that is made without one of its own.
    pub closed spec fn default_refill(&self) -> u64 {
        self.default_refill_per_sec
    }

    /// Whether the two limiters were made with the same defaults.
    pub open spec fn same_defaults(&self, other: &Self) -> bool {
        self.default_capacity() == other.default_capacity() && self.default_refill()
            == other.default_refill()
    }

    /// A limiter whose buckets start full, with the given capacity and refill.
    #[must_use]
    pub fn new(clock: C, capacity: u64, refill_per_sec: u64) -> (r: Self)
        ensures
            r@ == Map::<u64, TokenBucket>::empty(),
            r.default_capacity() == capacity,
            r.default_refill() == refill_per_sec,
    {
        RateLimiter {
            clock,
            buckets: HashMap::new(),
            default_capacity: capacity,
            default_refill_per_sec: refill_per_sec,
        }
    }

    /// Attempt to admit a request of `cost` tokens for `tenant`. Returns
    /// true iff the bucket had sufficient tokens after refill.
    pub fn accept(&mut self, tenant: TenantId, cost: u64) -> (r: bool)
        ensures
            final(self).same_defaults(old(self)),
            exists|now: u64|
                {
                    let b = #[trigger] bucket_for(
                        old(self)@,
                        tenant,
                        old(self).default_capacity(),
                        old(self).default_refill(),
                        now,
                    );
                    &&& r == (refilled(b, now).tokens >= cost)
                    &&& final(self)@ == old(self)@.insert(tenant, consumed(b, cost, now))
                },
    {
        let (capacity, refill) = (self.default_capacity, self.default_refill_per_sec);
        self.accept_with_config(tenant, cost, capacity, refill)
    }

    /// Attempt to admit a request of `cost` tokens for `tenant`, whose bucket
    /// is made with the given capacity and refill where it has none yet.
    pub fn accept_with_config(
        &mut self,
        tenant: TenantId,
        cost: u64,
        capacity: u64,
        refill_per_sec: u64,
    ) -> (r: bool)
        ensures
            final(self).same_defaults(old(self)),
            exists|now: u64|
                {
                    let b = #[trigger] bucket_for(
                        old(self)@,
                        tenant,
                        capacity,
                        refill_per_sec,
                        now,
                    );
                    &&& r == (refilled(b, now).tokens >= cost)
                    &&& final(self)@ == old(self)@.insert(tenant, consumed(b, cost, now))
                },
    {
        let now: u64 = self.clock.now_ns();
        self.accept_at(now, tenant, cost, capacity, refill_per_sec)
    }

    /// The same at a given clock reading.
    pub fn accept_at(
        &mut self,
        now: u64,
        tenant: TenantId,
        cost: u64,
        capacity: u64,
        refill_per_sec: u64,
    ) -> (r: bool)
        ensures
            final(self).same_defaults(old(self)),
            ({
                let b = bucket_for(old(self)@, tenant, capacity, refill_per_sec, now);
                &&& r == (refilled(b, now).tokens >= cost)
                &&& final(self)@ == old(self)@.insert(tenant, consumed(b, cost, now))
            }),
    {
        let mut bucket: TokenBucket = match self.buckets.get(&tenant) {
            Some(b) => *b,
            None => TokenBucket::new(capacity, refill_per_sec, now),
        };
        let r = bucket.try_consume(cost, now);
        self.buckets.insert(tenant, bucket);
        r
    }

    /// Current token balance for `tenant` (after refill). A never-seen
    /// tenant returns the default capacity (its bucket would be fresh).
    pub fn tokens_of(&mut self, tenant: TenantId) -> (r: u64)
        ensures
            final(self).same_defaults(old(self)),
            !old(self)@.contains_key(tenant) ==> r == old(self).default_capacity()
                && final(self)@ == old(self)@,
            old(self)@.contains_key(tenant) ==> exists|now: u64|
                {
                    let b = #[trigger] refilled(old(self)@[tenant], now);
                    r == b.tokens && final(self)@ == old(self)@.insert(tenant, b)
                },
    {
        let now: u64 = self.clock.now_ns();
        self.tokens_of_at(now, tenant)
    }

    /// The same at a given clock reading.
    pub fn tokens_of_at(&mut self, now: u64, tenant: TenantId) -> (r: u64)
        ensures
            final(self).same_defaults(old(self)),
            !old(self)@.contains_key(tenant) ==> r == old(self).default_capacity()
                && final(self)@ == old(self)@,
            old(self)@.contains_key(tenant) ==> r == refilled(old(self)@[tenant], now).tokens
                && final(self)@ == old(self)@.insert(
                tenant,
                refilled(old(self)@[tenant], now),
            ),
    {
        match self.buckets.get(&tenant) {
            Some(b) => {
                let mut bucket: TokenBucket = *b;
                bucket.refill(now);
                self.buckets.insert(tenant, bucket);
                bucket.tokens
            },
            None => self.default_capacity,
        }
    }

    /// The default capacity.
    #[must_use]
    pub fn capacity(&self) -> (r: u64)
        ensures
            r == self.default_capacity(),
    {
        self.default_capacity
    }
}

/// No bucket ever holds more than its capacity: a request keeps it so.
pub proof fn law_never_above_capacity(
    buckets: Map<u64, TokenBucket>,
    tenant: u64,
    cost: u64,
    capacity: u64,
    refill_per_sec: u64,
    now: u64,
)
    requires
        within_capacity(buckets),
    ensures
        within_capacity(
            buckets.insert(
                tenant,
                consumed(bucket_for(buckets, tenant, capacity, refill_per_sec, now), cost, now),
            ),
        ),
{
}

/// Tenants do not share tokens: a request leaves every other bucket alone.
pub proof fn law_tenants_are_isolated(
    buckets: Map<u64, TokenBucket>,
    tenant: u64,
    other: u64,
    bucket: TokenBucket,
)
    requires
        other != tenant,
    ensures
        buckets.insert(tenant, bucket).contains_key(other) == buckets.contains_key(other),
        buckets.contains_key(other) ==> buckets.insert(tenant, bucket)[other] == buckets[other],
{
}

/// One request: what it costs and when it comes.
pub struct Request {
    /// Tokens asked for.
    pub cost: u64,
    /// When.
    pub now: u64,
}

/// A bucket after a run of requests.
pub open spec fn after_requests(b: TokenBucket, run: Seq<Request>) -> TokenBucket
    decreases run.len(),
{
    if run.len() == 0 {
        b
    } else {
        consumed(after_requests(b, run.drop_last()), run.last().cost, run.last().now)
    }
}

/// What the admitted requests of a run cost together.
pub open spec fn admitted(b: TokenBucket, run: Seq<Request>) -> nat
    decreases run.len(),
{
    if run.len() == 0 {
        0
    } else {
        let before = after_requests(b, run.drop_last());
        admitted(b, run.drop_last()) + if refilled(before, run.last().now).tokens
            >= run.last().cost {
            run.last().cost as nat
        } else {
            0nat
        }
    }
}

/// Whether the requests of a run come in order of time, none before `start`.
pub open spec fn in_order(start: u64, run: Seq<Request>) -> bool {
    &&& forall|i: int| 0 <= i < run.len() ==> start <= (#[trigger] run[i]).now
    &&& forall|i: int, j: int| 0 <= i < j < run.len() ==> run[i].now <= run[j].now
}

/// The limit holds over every span of time: whatever is asked, what is
/// admitted costs no more than the tokens at the start and those that the
/// refill rate brings until the last request.
pub proof fn law_admitted_is_bounded(b: TokenBucket, run: Seq<Request>)
    requires
        run.len() > 0,
        in_order(b.last_refill_ns, run),
    ensures
        admitted(b, run) + after_requests(b, run).tokens <= b.tokens + (run.last().now
            - b.last_refill_ns) * b.refill_per_sec / 1_000_000_000,
        after_requests(b, run).last_refill_ns == run.last().now,
        after_requests(b, run).refill_per_sec == b.refill_per_sec,
    decreases run.len(),
{
    let less = run.drop_last();
    let before = after_requests(b, less);
    let now = run.last().now;
    let rate = b.refill_per_sec as int;
    if less.len() == 0 {
        assert(run[0].now >= b.last_refill_ns);
        lemma_gain_nonnegative(now - b.last_refill_ns, b.refill_per_sec);
    } else {
        assert forall|i: int| 0 <= i < less.len() implies b.last_refill_ns <= (
        #[trigger] less[i]).now by {
            assert(less[i] == run[i]);
        }
        assert(in_order(b.last_refill_ns, less)) by {
            assert forall|i: int, j: int| 0 <= i < j < less.len() implies less[i].now
                <= less[j].now by {
                assert(run[i].now <= run[j].now);
            }
        }
        law_admitted_is_bounded(b, less);
        let mid = less.last().now;
        assert(run[run.len() - 2].now <= run[run.len() - 1].now);
        assert(run[0].now >= b.last_refill_ns);
        assert(less[0].now >= b.last_refill_ns);
        assert(less.last().now >= b.last_refill_ns);
        lemma_gain_nonnegative(now - mid, b.refill_per_sec);
        lemma_gains_add(mid - b.last_refill_ns, now - mid, rate);
        assert((mid - b.last_refill_ns) + (now - mid) == now - b.last_refill_ns);
    }
    let up = refilled(before, now);
    let gained = tokens_gained(crate::clock::elapsed(now, before.last_refill_ns), b.refill_per_sec);
    assert(up.tokens <= before.tokens + gained);
    assert(admitted(b, run) + after_requests(b, run).tokens == admitted(b, less) + up.tokens);
}

proof fn lemma_gain_nonnegative(elapsed_ns: int, rate: u64)
    requires
        elapsed_ns >= 0,
    ensures
        0 <= tokens_gained(elapsed_ns, rate),
{
    let p = elapsed_ns * rate;
    assert(p >= 0) by (nonlinear_arith)
        requires
            elapsed_ns >= 0,
            p == elapsed_ns * rate,
    ;
}

proof fn lemma_gains_add(a: int, b: int, rate: int)
    requires
        a >= 0,
        b >= 0,
        rate >= 0,
    ensures
        a * rate / 1_000_000_000 + b * rate / 1_000_000_000 <= (a + b) * rate / 1_000_000_000,
{
    assert((a + b) * rate == a * rate + b * rate) by (nonlinear_arith);
    let (x, y) = (a * rate, b * rate);
    assert(x / 1_000_000_000 + y / 1_000_000_000 <= (x + y) / 1_000_000_000);
}

/// A bucket refills by its rate: it gains a token for each full share of a second
/// that has passed, and no more than it holds. A clock that has not moved on gives
/// nothing.
pub proof fn law_refill_follows_the_rate(b: TokenBucket, now: u64)
    requires
        b.tokens <= b.capacity,
    ensures
        ({
            let up = refilled(b, now);
            let passed = if now > b.last_refill_ns {
                now - b.last_refill_ns
            } else {
                0
            };
            &&& b.tokens <= up.tokens <= b.capacity
            &&& 1_000_000_000 * (up.tokens - b.tokens) <= passed * b.refill_per_sec
            &&& up.tokens < b.capacity ==> passed * b.refill_per_sec < 1_000_000_000 * (up.tokens
                - b.tokens + 1)
            &&& up.last_refill_ns == now
            &&& up.capacity == b.capacity && up.refill_per_sec == b.refill_per_sec
        }),
{
    let passed = crate::clock::elapsed(now, b.last_refill_ns);
    let gain = passed * b.refill_per_sec;
    assert(gain >= 0) by (nonlinear_arith)
        requires
            passed >= 0,
            gain == passed * b.refill_per_sec,
            b.refill_per_sec >= 0,
    ;
}

/// A request takes its cost if the bucket holds that much once it is refilled, and
/// else nothing; a bucket starts full.
pub proof fn law_request_takes_its_cost(b: TokenBucket, cost: u64, now: u64, rate: u64)
    ensures
        consumed(b, cost, now).tokens == (if refilled(b, now).tokens >= cost {
            refilled(b, now).tokens - cost
        } else {
            refilled(b, now).tokens as int
        }),
        consumed(b, cost, now).last_refill_ns == now,
        consumed(b, cost, now).capacity == b.capacity,
        consumed(b, cost, now).refill_per_sec == b.refill_per_sec,
        fresh_bucket(cost, rate, now).tokens == cost,
        fresh_bucket(cost, rate, now).capacity == cost,
        fresh_bucket(cost, rate, now).refill_per_sec == rate,
        fresh_bucket(cost, rate, now).last_refill_ns == now,
{
}

/// What a bucket does not need to refuse it grants: with enough tokens for the
/// whole run, every request of it is admitted.
pub proof fn law_ample_bucket_admits_all(b: TokenBucket, run: Seq<Request>, need: nat)
    requires
        b.tokens <= b.capacity,
        need <= b.tokens,
        forall|i: int| 0 <= i < run.len() ==> (#[trigger] run[i]).cost <= 1,
        run.len() <= need,
    ensures
        after_requests(b, run).tokens <= after_requests(b, run).capacity,
        after_requests(b, run).capacity == b.capacity,
        after_requests(b, run).tokens + run.len() >= need,
        forall|i: int|
            0 <= i < run.len() ==> refilled(
                #[trigger] after_requests(b, run.take(i)),
                run[i].now,
            ).tokens >= run[i].cost,
    decreases run.len(),
{
    if run.len() > 0 {
        let n = run.len() - 1;
        let less = run.drop_last();
        assert forall|i: int| 0 <= i < less.len() implies (#[trigger] less[i]).cost <= 1 by {
            assert(less[i] == run[i]);
        }
        law_ample_bucket_admits_all(b, less, need);
        let before = after_requests(b, less);
        law_refill_follows_the_rate(before, run[n].now);
        assert(run[n].cost <= 1);
        assert forall|i: int| 0 <= i < run.len() implies refilled(
            #[trigger] after_requests(b, run.take(i)),
            run[i].now,
        ).tokens >= run[i].cost by {
            if i < n {
                assert(less.take(i) =~= run.take(i));
                assert(less[i] == run[i]);
            } else {
                assert(run.take(i) =~= less);
            }
        }
    }
}

} // verus!
