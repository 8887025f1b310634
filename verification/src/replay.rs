//! Replay protection via (nonce, timestamp) + clock-bounded window.
//!
//! A message is accepted iff its timestamp is within `ttl_ns` of the
//! current clock **and** its nonce has not been seen within the `ttl_ns`
//! sliding window. Past-TTL nonces are garbage-collected and become reusable.

use crate::clock::Clock;
use crate::maps::keys_of;
use std::collections::HashMap;
use vstd::prelude::*;

verus! {

broadcast use vstd::std_specs::hash::group_hash_axioms;

/// Reasons `accept` can reject a message.
#[derive(Clone, Copy, Debug, PartialEq, Eq, Structural)]
pub enum AcceptError {
    /// The message's timestamp is more than `ttl_ns` from the current clock
    /// (in either direction). Rejected before the nonce is even checked.
    StaleTimestamp,
    /// The nonce has been accepted within the active window. Rejected.
    Replay,
}

/// Guards a stream of `(nonce, timestamp)` submissions against replay.
///
/// Every successful `accept` records the nonce with the current clock
/// reading; subsequent `accept` calls with the same nonce are rejected
/// until `ttl_ns` elapses, after which the nonce is swept and can be
/// reused.
pub struct ReplayGuard<C: Clock> {
    clock: C,
    ttl_ns: u64,
    /// Nonce to the time (ns) of its acceptance.
    accepted: HashMap<u64, u64>,
}

/// The nonces that are left after a sweep at `now`: those accepted less than
/// `ttl` ago.
pub open spec fn swept(accepted: Map<u64, u64>, ttl: u64, now: u64) -> Map<u64, u64> {
    Map::new(
        |n: u64| accepted.contains_key(n) && crate::clock::elapsed(now, accepted[n]) < ttl,
        |n: u64| accepted[n],
    )
}

/// How far apart two times are.
pub open spec fn distance(a: u64, b: u64) -> int {
    if a >= b {
        a - b
    } else {
        b - a
    }
}

/// The verdict on a message at `now`, given the nonces in the window.
pub open spec fn verdict(
    window: Map<u64, u64>,
    ttl: u64,
    now: u64,
    nonce: u64,
    timestamp: u64,
) -> Result<(), AcceptError> {
    if distance(now, timestamp) > ttl {
        Err(AcceptError::StaleTimestamp)
    } else if window.contains_key(nonce) {
        Err(AcceptError::Replay)
    } else {
        Ok(())
    }
}

/// The nonces held after a message was judged at `now`.
pub open spec fn held_after(
    window: Map<u64, u64>,
    ttl: u64,
    now: u64,
    nonce: u64,
    timestamp: u64,
) -> Map<u64, u64> {
    if verdict(window, ttl, now, nonce, timestamp) is Ok {
        window.insert(nonce, now)
    } else {
        window
    }
}

impl<C: Clock> View for ReplayGuard<C> {
    type V = Map<u64, u64>;

    closed spec fn view(&self) -> Map<u64, u64> {
        self.accepted@
    }
}

impl<C: Clock> ReplayGuard<C> {
    /// The length of the replay window in nanoseconds.
    pub closed spec fn ttl(&self) -> u64 {
        self.ttl_ns
    }

    /// Construct a replay guard with the given clock and replay-window
    /// TTL in nanoseconds.
    #[must_use]
    pub fn new(clock: C, ttl_ns: u64) -> (r: Self)
        ensures
            r@ == Map::<u64, u64>::empty(),
            r.ttl() == ttl_ns,
    {
        ReplayGuard { clock, ttl_ns, accepted: HashMap::new() }
    }

    /// Attempt to accept a message. Sweeps stale nonces first; returns
    /// `Ok(())` on success, `Err(StaleTimestamp)` if the message's timestamp
    /// is too far from the current clock, or `Err(Replay)` if the nonce is
    /// currently in the window. The clock is read once for the sweep and once
    /// for the message.
    ///
    /// # Errors
    ///
    /// Returns `AcceptError::StaleTimestamp` or `AcceptError::Replay` as
    /// documented above.
    pub fn accept(&mut self, nonce: u64, timestamp_ns: u64) -> (r: Result<(), AcceptError>)
        ensures
            final(self).ttl() == old(self).ttl(),
            exists|sweep_time: u64, now: u64|
                r == #[trigger] verdict(
                    swept(old(self)@, old(self).ttl(), sweep_time),
                    old(self).ttl(),
                    now,
                    nonce,
                    timestamp_ns,
                ) && final(self)@ == held_after(
                    swept(old(self)@, old(self).ttl(), sweep_time),
                    old(self).ttl(),
                    now,
                    nonce,
                    timestamp_ns,
                ),
    {
        let sweep_time: u64 = self.clock.now_ns();
        let now: u64 = self.clock.now_ns();
        self.accept_at(sweep_time, now, nonce, timestamp_ns)
    }

    /// Accept a message at given clock readings: `sweep_time` for the sweep,
    /// `now` for the message.
    ///
    /// # Errors
    ///
    /// As for `accept`.
    pub fn accept_at(
        &mut self,
        sweep_time: u64,
        now: u64,
        nonce: u64,
        timestamp_ns: u64,
    ) -> (r: Result<(), AcceptError>)
        ensures
            final(self).ttl() == old(self).ttl(),
            r == verdict(
                swept(old(self)@, old(self).ttl(), sweep_time),
                old(self).ttl(),
                now,
                nonce,
                timestamp_ns,
            ),
            final(self)@ == held_after(
                swept(old(self)@, old(self).ttl(), sweep_time),
                old(self).ttl(),
                now,
                nonce,
                timestamp_ns,
            ),
    {
        match self.check_at(sweep_time, now, nonce, timestamp_ns) {
            Ok(at) => {
                self.record(nonce, at);
                Ok(())
            },
            Err(e) => Err(e),
        }
    }

    /// Judge a message without recording its nonce. Sweeps stale nonces first;
    /// returns the clock reading that it was judged at, under which `record`
    /// can record it.
    ///
    /// # Errors
    ///
    /// As for `accept`.
    pub fn check(&mut self, nonce: u64, timestamp_ns: u64) -> (r: Result<u64, AcceptError>)
        ensures
            final(self).ttl() == old(self).ttl(),
            exists|sweep_time: u64, now: u64|
                final(self)@ == swept(old(self)@, old(self).ttl(), sweep_time) && match #[trigger] verdict(
                    swept(old(self)@, old(self).ttl(), sweep_time),
                    old(self).ttl(),
                    now,
                    nonce,
                    timestamp_ns,
                ) {
                    Ok(()) => r == Ok::<u64, AcceptError>(now),
                    Err(e) => r == Err::<u64, AcceptError>(e),
                },
    {
        let sweep_time: u64 = self.clock.now_ns();
        let now: u64 = self.clock.now_ns();
        self.check_at(sweep_time, now, nonce, timestamp_ns)
    }

    /// The same at given clock readings.
    ///
    /// # Errors
    ///
    /// As for `accept`.
    pub fn check_at(
        &mut self,
        sweep_time: u64,
        now: u64,
        nonce: u64,
        timestamp_ns: u64,
    ) -> (r: Result<u64, AcceptError>)
        ensures
            final(self).ttl() == old(self).ttl(),
            final(self)@ == swept(old(self)@, old(self).ttl(), sweep_time),
            match verdict(
                swept(old(self)@, old(self).ttl(), sweep_time),
                old(self).ttl(),
                now,
                nonce,
                timestamp_ns,
            ) {
                Ok(()) => r == Ok::<u64, AcceptError>(now),
                Err(e) => r == Err::<u64, AcceptError>(e),
            },
    {
        self.sweep_at(sweep_time);
        let age: u64 = if now >= timestamp_ns {
            now - timestamp_ns
        } else {
            timestamp_ns - now
        };
        if age > self.ttl_ns {
            return Err(AcceptError::StaleTimestamp);
        }
        if self.accepted.contains_key(&nonce) {
            return Err(AcceptError::Replay);
        }
        Ok(now)
    }

    /// Record a nonce that `check` passed.
    pub fn record(&mut self, nonce: u64, now: u64)
        ensures
            final(self).ttl() == old(self).ttl(),
            final(self)@ == old(self)@.insert(nonce, now),
    {
        self.accepted.insert(nonce, now);
    }

    /// Sweep any nonces whose acceptance time is `ttl_ns` or more in the
    /// past relative to `now`.
    pub fn sweep_at(&mut self, now: u64)
        ensures
            final(self).ttl() == old(self).ttl(),
            final(self)@ == swept(old(self)@, old(self).ttl(), now),
    {
        let keys = keys_of(&self.accepted);
        let mut i: usize = 0;
        while i < keys.len()
            invariant
                i <= keys.len(),
                keys@.to_set() == old(self)@.dom(),
                self.ttl_ns == old(self).ttl_ns,
                forall|n: u64| #[trigger]
                    self@.contains_key(n) <==> old(self)@.contains_key(n) && (keys@.take(
                        i as int,
                    ).contains(n) ==> crate::clock::elapsed(now, old(self)@[n]) < self.ttl_ns),
                forall|n: u64| #[trigger] self@.contains_key(n) ==> self@[n] == old(self)@[n],
            decreases keys.len() - i,
        {
            let n: u64 = keys[i];
            let ghost before = self@;
            proof {
                assert forall|x: u64| #[trigger]
                    keys@.take(i + 1).contains(x) <==> keys@.take(i as int).contains(x) || x
                        == n by {
                    crate::maps::lemma_take_next(keys@, i as int, x);
                }
            }
            let stale = match self.accepted.get(&n) {
                Some(at) => now.saturating_sub(*at) >= self.ttl_ns,
                None => false,
            };
            if stale {
                self.accepted.remove(&n);
            }
            assert forall|x: u64| #[trigger]
                self@.contains_key(x) <==> old(self)@.contains_key(x) && (keys@.take(
                    i + 1,
                ).contains(x) ==> crate::clock::elapsed(now, old(self)@[x]) < self.ttl_ns) by {
                assert(before.contains_key(x) <==> old(self)@.contains_key(x) && (keys@.take(
                    i as int,
                ).contains(x) ==> crate::clock::elapsed(now, old(self)@[x]) < self.ttl_ns));
            }
            i = i + 1;
        }
        proof {
            assert(keys@.take(i as int) =~= keys@);
            assert forall|n: u64| old(self)@.contains_key(n) implies keys@.contains(n) by {
                assert(keys@.to_set().contains(n));
            }
            assert(self@ =~= swept(old(self)@, old(self).ttl(), now));
        }
    }

    /// Whether the nonce is currently in the active window.
    pub fn is_known(&mut self, nonce: u64) -> (r: bool)
        ensures
            final(self).ttl() == old(self).ttl(),
            exists|now: u64|
                final(self)@ == #[trigger] swept(old(self)@, old(self).ttl(), now),
            r == final(self)@.contains_key(nonce),
    {
        let now: u64 = self.clock.now_ns();
        self.sweep_at(now);
        self.accepted.contains_key(&nonce)
    }

    /// Number of nonces currently in the active window.
    pub fn count(&mut self) -> (r: usize)
        ensures
            final(self).ttl() == old(self).ttl(),
            exists|now: u64|
                final(self)@ == #[trigger] swept(old(self)@, old(self).ttl(), now),
            r == final(self)@.dom().len(),
    {
        let now: u64 = self.clock.now_ns();
        self.sweep_at(now);
        self.accepted.len()
    }
}

/// One submission, with the clock readings it met.
pub struct Submission {
    /// Clock reading for the sweep.
    pub sweep_time: u64,
    /// Clock reading for the message.
    pub now: u64,
    /// The nonce submitted.
    pub nonce: u64,
    /// The timestamp submitted.
    pub timestamp: u64,
}

/// The nonces held after a run of submissions.
pub open spec fn held_after_all(held: Map<u64, u64>, ttl: u64, run: Seq<Submission>) -> Map<
    u64,
    u64,
>
    decreases run.len(),
{
    if run.len() == 0 {
        held
    } else {
        let s = run.last();
        held_after(
            swept(held_after_all(held, ttl, run.drop_last()), ttl, s.sweep_time),
            ttl,
            s.now,
            s.nonce,
            s.timestamp,
        )
    }
}

/// A nonce stays known as long as no sweep finds it expired.
proof fn lemma_nonce_stays(held: Map<u64, u64>, ttl: u64, run: Seq<Submission>, nonce: u64)
    requires
        held.contains_key(nonce),
        forall|i: int|
            0 <= i < run.len() ==> crate::clock::elapsed(
                (#[trigger] run[i]).sweep_time,
                held[nonce],
            ) < ttl,
    ensures
        held_after_all(held, ttl, run).contains_key(nonce),
        held_after_all(held, ttl, run)[nonce] == held[nonce],
    decreases run.len(),
{
    if run.len() > 0 {
        let less = run.drop_last();
        assert forall|i: int| 0 <= i < less.len() implies crate::clock::elapsed(
            (#[trigger] less[i]).sweep_time,
            held[nonce],
        ) < ttl by {
            assert(less[i] == run[i]);
        }
        lemma_nonce_stays(held, ttl, less, nonce);
        assert(crate::clock::elapsed(run[run.len() - 1].sweep_time, held[nonce]) < ttl);
    }
}

/// Uniqueness within the window: once a nonce was accepted, whatever is
/// submitted in between, it is not accepted again before `ttl` has elapsed.
pub proof fn law_no_replay_within_window(
    held: Map<u64, u64>,
    ttl: u64,
    first: Submission,
    between: Seq<Submission>,
    second: Submission,
)
    requires
        verdict(
            swept(held, ttl, first.sweep_time),
            ttl,
            first.now,
            first.nonce,
            first.timestamp,
        ) is Ok,
        second.nonce == first.nonce,
        forall|i: int|
            0 <= i < between.len() ==> crate::clock::elapsed(
                (#[trigger] between[i]).sweep_time,
                first.now,
            ) < ttl,
        crate::clock::elapsed(second.sweep_time, first.now) < ttl,
    ensures
        verdict(
            swept(
                held_after_all(
                    held_after(
                        swept(held, ttl, first.sweep_time),
                        ttl,
                        first.now,
                        first.nonce,
                        first.timestamp,
                    ),
                    ttl,
                    between,
                ),
                ttl,
                second.sweep_time,
            ),
            ttl,
            second.now,
            second.nonce,
            second.timestamp,
        ) is Err,
{
    let after = held_after(
        swept(held, ttl, first.sweep_time),
        ttl,
        first.now,
        first.nonce,
        first.timestamp,
    );
    lemma_nonce_stays(after, ttl, between, first.nonce);
}

/// A nonce becomes reusable: `ttl` after its acceptance, a fresh message that
/// carries it is accepted.
pub proof fn law_expired_nonce_is_reusable(
    held: Map<u64, u64>,
    ttl: u64,
    sweep_time: u64,
    now: u64,
    nonce: u64,
    timestamp: u64,
)
    requires
        held.contains_key(nonce),
        crate::clock::elapsed(sweep_time, held[nonce]) >= ttl,
        distance(now, timestamp) <= ttl,
    ensures
        verdict(swept(held, ttl, sweep_time), ttl, now, nonce, timestamp) is Ok,
{
}

/// A sweep forgets exactly the nonces whose time is up, and leaves the others as
/// they were.
pub proof fn law_sweep_forgets_the_expired(held: Map<u64, u64>, ttl: u64, now: u64, nonce: u64)
    ensures
        swept(held, ttl, now).contains_key(nonce) <==> held.contains_key(nonce) && ttl > 0 && (now
            < held[nonce] || now - held[nonce] < ttl),
        swept(held, ttl, now).contains_key(nonce) ==> swept(held, ttl, now)[nonce] == held[nonce],
{
}

/// A nonce that is not held is accepted with a timestamp near enough, on either
/// side of now; it is then held from now on, and the others stay.
pub proof fn law_fresh_nonce_is_accepted(
    window: Map<u64, u64>,
    ttl: u64,
    now: u64,
    nonce: u64,
    timestamp: u64,
    other: u64,
)
    ensures
        verdict(window, ttl, now, nonce, timestamp) is Ok <==> !window.contains_key(nonce)
            && timestamp - now <= ttl && now - timestamp <= ttl,
        verdict(window, ttl, now, nonce, timestamp) is Ok ==> {
            let after = held_after(window, ttl, now, nonce, timestamp);
            &&& after.contains_key(nonce) && after[nonce] == now
            &&& other != nonce ==> after.contains_key(other) == window.contains_key(other)
            &&& other != nonce && window.contains_key(other) ==> after[other] == window[other]
        },
        verdict(window, ttl, now, nonce, timestamp) is Err ==> held_after(
            window,
            ttl,
            now,
            nonce,
            timestamp,
        ) == window,
{
}

/// A submission from outside the window is stale, whatever its nonce; within it, a
/// nonce that is held is a replay.
pub proof fn law_refusal_tells_stale_from_replayed(
    window: Map<u64, u64>,
    ttl: u64,
    now: u64,
    nonce: u64,
    timestamp: u64,
)
    ensures
        verdict(window, ttl, now, nonce, timestamp) == Err::<(), AcceptError>(
            AcceptError::StaleTimestamp,
        ) <==> now - timestamp > ttl || timestamp - now > ttl,
        verdict(window, ttl, now, nonce, timestamp) == Err::<(), AcceptError>(AcceptError::Replay)
            <==> now - timestamp <= ttl && timestamp - now <= ttl && window.contains_key(nonce),
{
}

} // verus!
