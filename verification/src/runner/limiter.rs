//! The limiter that holds a worker to its rate: a token bucket of the
//! `governor` crate, refilled at the rate and never holding more than one
//! token.

use governor::clock::{Clock, QuantaClock, Reference};
use governor::{DefaultDirectRateLimiter, Quota, RateLimiter};
use std::num::NonZeroU32;
use vstd::prelude::*;

verus! {

/// What the limiter says to one more query.
#[derive(Clone, Copy, Debug, PartialEq, Eq, Structural)]
pub enum RateDecision {
    /// The query may go.
    Ready,
    /// The query has to wait for this many nanoseconds.
    Wait(u64),
    /// There is no limit.
    Disabled,
}

/// A direct rate limiter of `governor` on its default clock. What is inside
/// is the crate's own and is not read here.
#[verifier::external_body]
pub struct Limiter {
    inner: DefaultDirectRateLimiter,
}

/// The number of queries per second that a limiter was made for.
pub uninterp spec fn limiter_rate(limiter: Limiter) -> u32;

/// A limiter of `governor` for `qps` queries per second with bursts of at
/// most one, by `RateLimiter::direct` on `Quota::per_second` with
/// `allow_burst` of one. The limiter is made for the rate that is handed
/// in; nothing more is claimed of it.
#[verifier::external_body]
pub(crate) fn new_limiter(qps: u32) -> (r: Limiter)
    requires
        qps > 0,
    ensures
        limiter_rate(r) == qps,
{
    Limiter {
        inner: RateLimiter::direct(
            Quota::per_second(NonZeroU32::new(qps).unwrap()).allow_burst(NonZeroU32::MIN),
        ),
    }
}

/// `RateLimiter::check` of `governor`: whether one more query may go now,
/// and if not, how long from now until the limiter could let one go. The
/// answer depends on the clock: it is never `Disabled`, and nothing more is
/// claimed of it.
#[verifier::external_body]
pub(crate) fn check_limiter(limiter: &Limiter) -> (r: RateDecision)
    ensures
        r != RateDecision::Disabled,
{
    match limiter.inner.check() {
        Ok(_) => RateDecision::Ready,
        Err(until) => RateDecision::Wait(
            until.earliest_possible().duration_since(QuantaClock::default().now()).into(),
        ),
    }
}

} // verus!
