//! Time injection.

use vstd::prelude::*;

verus! {

/// Source of the current time. Callers implement it: over the system clock in
/// production, over a counter in simulations.
pub trait Clock {
    /// Nanoseconds since an epoch of the implementation's choice.
    fn now_ns(&self) -> u64;
}

/// How long ago `then` was at `now`; zero for a `then` in the future.
pub open spec fn elapsed(now: u64, then: u64) -> int {
    if now > then {
        now - then
    } else {
        0
    }
}

} // verus!
