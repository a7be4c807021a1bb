//! Token-bucket rate limiting of events.
//!
//! A bucket holds up to `rate_per_second` tokens and is refilled once a
//! second; each event takes one token, and events that find the bucket
//! empty are dropped. A rate of 0 disables limiting.

use std::sync::Arc;
use std::sync::atomic::{AtomicU64, Ordering};
use vstd::prelude::*;

verus! {

/// Milliseconds since the Unix epoch; `None` where the clock reads before
/// the epoch.
///
/// Calls `std::time::SystemTime::now`, then `duration_since(UNIX_EPOCH)`,
/// whose error is the clock reading before the epoch, and `as_millis` on its
/// result. Nothing is stated of the value: it is the clock's reading.
#[verifier::external_body]
fn now_millis() -> (r: Option<u64>) {
    match std::time::SystemTime::now().duration_since(std::time::UNIX_EPOCH) {
        Ok(d) => Some(d.as_millis() as u64),
        Err(_) => None,
    }
}

/// The reading of the clock in milliseconds since the epoch: a clock set
/// before the epoch reads as the epoch itself (0).
pub open spec fn clock_reading(raw: Option<u64>) -> u64 {
    match raw {
        Some(ms) => ms,
        None => 0,
    }
}

/// `clock_reading` of a raw reading.
pub fn clock_value(raw: Option<u64>) -> (r: u64)
    ensures
        r == clock_reading(raw),
{
    match raw {
        Some(ms) => ms,
        None => 0,
    }
}

/// Milliseconds since the Unix epoch, 0 where the clock reads before it.
pub fn current_millis() -> (r: u64) {
    clock_value(now_millis())
}

/// Another handle on the same shared counter (`Arc::clone`). Nothing is
/// stated of the counter's value, which other handles may change.
#[verifier::external_body]
fn share(a: &Arc<AtomicU64>) -> (r: Arc<AtomicU64>) {
    Arc::clone(a)
}

/// A refill is due when at least a second has passed since the last one
/// (no time has passed where the clock went back).
pub open spec fn refill_due_spec(now_ms: u64, last_ms: u64) -> bool {
    (if now_ms >= last_ms { now_ms - last_ms } else { 0 }) >= 1000
}

/// Whether a refill is due at `now_ms` after one at `last_ms`.
pub fn refill_due(now_ms: u64, last_ms: u64) -> (r: bool)
    ensures
        r == refill_due_spec(now_ms, last_ms),
{
    now_ms.saturating_sub(last_ms) >= 1000
}

/// The bucket's value after an event takes a token from a bucket holding
/// `tokens`: one less, where there is one to take.
pub fn decrement(tokens: u64) -> (r: Option<u64>)
    ensures
        r == (if tokens > 0 { Some((tokens - 1) as u64) } else { None::<u64> }),
{
    if tokens > 0 {
        Some(tokens - 1)
    } else {
        None
    }
}

/// Atomically replaces the bucket's value `v` by `decrement(v)` where that
/// is `Some` (`AtomicU64::fetch_update`, retried until no other thread
/// changed the value in between).
///
/// As std documents, the result is `Ok` of the value the update started
/// from where the function returned `Some` for it, else `Err` of that value;
/// with `decrement` that is `Ok(v)` with `v > 0` where a token was taken and
/// `Err(0)` where the bucket was empty. Nothing is stated of the value after
/// the call, which other threads may change.
#[verifier::external_body]
fn fetch_decrement(bucket: &AtomicU64) -> (r: Result<u64, u64>)
    ensures
        r matches Ok(v) ==> v > 0,
        r matches Err(v) ==> v == 0,
{
    bucket.fetch_update(Ordering::SeqCst, Ordering::SeqCst, |v| decrement(v))
}

/// Whether the outcome of taking a token lets the event through: only where
/// a token was there to take.
pub fn token_taken(outcome: Result<u64, u64>) -> (r: bool)
    ensures
        r == (outcome matches Ok(v) && v > 0),
{
    match outcome {
        Ok(v) => v > 0,
        Err(_) => false,
    }
}

/// Takes one token from `bucket` where it holds one, in one atomic step, so
/// that the bucket never goes below 0; `true` where a token was taken.
pub fn take_token(bucket: &AtomicU64) -> (r: bool) {
    token_taken(fetch_decrement(bucket))
}

/// Refills `bucket` to `rate` where a second has passed since `last_refill`
/// (the reading `now` is recorded as the new refill time by the one caller
/// that wins the exchange).
pub fn refill_if_due(bucket: &AtomicU64, last_refill: &AtomicU64, rate: u64, now: u64) {
    let last = last_refill.load(Ordering::SeqCst);
    if refill_due(now, last) {
        if last_refill.compare_exchange(last, now, Ordering::SeqCst, Ordering::SeqCst).is_ok() {
            bucket.store(rate, Ordering::SeqCst);
        }
    }
}

/// Whether one event on the shared `bucket` is let through: always where
/// `rate` is 0; otherwise the bucket is refilled to `rate` where a second
/// has passed since `last_refill`, and the event takes a token if one is
/// left.
pub fn admit_event(rate: u64, bucket: &AtomicU64, last_refill: &AtomicU64) -> (r: bool)
    ensures
        rate == 0 ==> r,
{
    if rate == 0 {
        return true;
    }
    refill_if_due(bucket, last_refill, rate, current_millis());
    take_token(bucket)
}

/// Standalone token-bucket rate limiter; clones share one bucket.
pub struct RateLimiter {
    rate_per_second: u64,
    bucket: Arc<AtomicU64>,
    last_refill: Arc<AtomicU64>,
}

impl RateLimiter {
    /// Events allowed per second; 0 means no limit.
    pub closed spec fn rate(&self) -> u64 {
        self.rate_per_second
    }

    /// A limiter allowing `rate_per_second` events per second, with a full
    /// bucket; 0 disables limiting.
    pub fn new(rate_per_second: u64) -> (r: Self)
        ensures
            r.rate() == rate_per_second,
    {
        RateLimiter {
            rate_per_second,
            bucket: Arc::new(AtomicU64::new(rate_per_second)),
            last_refill: Arc::new(AtomicU64::new(current_millis())),
        }
    }

    /// Whether the current event is allowed: always where the rate is 0;
    /// otherwise the bucket is refilled if a second has passed, and the
    /// event takes a token if one is left.
    pub fn is_allowed(&self) -> (r: bool)
        ensures
            self.rate() == 0 ==> r,
    {
        admit_event(self.rate_per_second, &self.bucket, &self.last_refill)
    }
}

impl Clone for RateLimiter {
    fn clone(&self) -> (r: Self)
        ensures
            r.rate() == self.rate(),
    {
        RateLimiter {
            rate_per_second: self.rate_per_second,
            bucket: share(&self.bucket),
            last_refill: share(&self.last_refill),
        }
    }
}

} // verus!
