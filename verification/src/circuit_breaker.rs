//! Upstream circuit breaker.
//!
//! After `threshold` consecutive upstream failures the breaker opens for
//! `cooldown`; while open, requests fast-fail instead of stacking timeouts.
//! The first request after the cooldown is the half-open probe.
use std::time::Duration;
use vstd::prelude::*;

verus! {

/// Milliseconds since the Unix epoch, 0 when the clock is before it.
/// Calls `SystemTime::now`; the value depends on the machine's clock, so
/// nothing is stated of it.
#[verifier::external_body]
pub(crate) fn unix_now_ms() -> u64 {
    std::time::SystemTime::now()
        .duration_since(std::time::UNIX_EPOCH)
        .map(|d| d.as_millis() as u64)
        .unwrap_or(0)
}

/// What `Duration::as_millis` gives: the whole milliseconds in `d`.
pub uninterp spec fn duration_as_millis(d: Duration) -> u128;

/// `Duration::as_millis`, truncated to `u64` as the breaker stores it; the
/// milliseconds are named `duration_as_millis`.
#[verifier::external_body]
fn duration_millis(d: Duration) -> (r: u64)
    ensures
        r == duration_as_millis(d) as u64,
{
    d.as_millis() as u64
}

/// When a breaker opened at `now_ms` lets requests through again, saturated
/// at `u64::MAX`.
pub open spec fn reopen_instant(now_ms: u64, cooldown_ms: u64) -> u64 {
    if now_ms + cooldown_ms <= u64::MAX {
        (now_ms + cooldown_ms) as u64
    } else {
        u64::MAX
    }
}

pub struct CircuitBreaker {
    threshold: u32,
    cooldown_ms: u64,
    consecutive_failures: u32,
    open_until_ms: u64,
}

impl CircuitBreaker {
    /// Below the threshold the breaker is closed.
    #[verifier::type_invariant]
    spec fn closed_below_threshold(&self) -> bool {
        self.consecutive_failures < self.threshold ==> self.open_until_ms == 0
    }

    pub closed spec fn spec_threshold(&self) -> u32 {
        self.threshold
    }

    pub closed spec fn spec_cooldown_ms(&self) -> u64 {
        self.cooldown_ms
    }

    pub closed spec fn spec_failures(&self) -> u32 {
        self.consecutive_failures
    }

    pub closed spec fn spec_open_until_ms(&self) -> u64 {
        self.open_until_ms
    }

    /// The breaker after a failure recorded at `now_ms`.
    pub closed spec fn spec_after_failure(&self, now_ms: u64) -> CircuitBreaker {
        let failures = (self.spec_failures() + 1) as u32;
        CircuitBreaker {
            threshold: self.spec_threshold(),
            cooldown_ms: self.spec_cooldown_ms(),
            consecutive_failures: failures,
            open_until_ms: if failures >= self.spec_threshold() {
                (now_ms + self.spec_cooldown_ms()) as u64
            } else {
                self.spec_open_until_ms()
            },
        }
    }

    /// The breaker after a success.
    pub closed spec fn spec_after_success(&self) -> CircuitBreaker {
        CircuitBreaker {
            threshold: self.spec_threshold(),
            cooldown_ms: self.spec_cooldown_ms(),
            consecutive_failures: 0,
            open_until_ms: 0,
        }
    }

    /// Whether a request may proceed at `now_ms`.
    pub open spec fn spec_allows(&self, now_ms: u64) -> bool {
        now_ms >= self.spec_open_until_ms()
    }

    /// Milliseconds since the Unix epoch, by the machine's clock.
    pub fn now_ms() -> u64 {
        unix_now_ms()
    }

    /// A closed breaker with the given threshold and cooldown in milliseconds.
    pub fn with_cooldown_ms(threshold: u32, cooldown_ms: u64) -> (r: Self)
        ensures
            r.spec_threshold() == threshold,
            r.spec_cooldown_ms() == cooldown_ms,
            r.spec_failures() == 0,
            r.spec_open_until_ms() == 0,
    {
        CircuitBreaker { threshold, cooldown_ms, consecutive_failures: 0, open_until_ms: 0 }
    }

    /// A closed breaker with the given threshold and cooldown.
    pub fn new(threshold: u32, cooldown: Duration) -> (r: Self)
        ensures
            r.spec_threshold() == threshold,
            r.spec_cooldown_ms() == duration_as_millis(cooldown) as u64,
            r.spec_failures() == 0,
            r.spec_open_until_ms() == 0,
    {
        Self::with_cooldown_ms(threshold, duration_millis(cooldown))
    }

    pub fn threshold(&self) -> (r: u32)
        ensures
            r == self.spec_threshold(),
    {
        self.threshold
    }

    pub fn cooldown_ms(&self) -> (r: u64)
        ensures
            r == self.spec_cooldown_ms(),
    {
        self.cooldown_ms
    }

    /// Consecutive failures recorded since the last success.
    pub fn consecutive_failures(&self) -> (r: u32)
        ensures
            r == self.spec_failures(),
    {
        self.consecutive_failures
    }

    /// The instant (Unix ms) until which the breaker stays open.
    pub fn open_until_ms(&self) -> (r: u64)
        ensures
            r == self.spec_open_until_ms(),
    {
        self.open_until_ms
    }

    /// May a request proceed at `now_ms`?
    pub fn allow_at(&self, now_ms: u64) -> (r: bool)
        ensures
            r == self.spec_allows(now_ms),
    {
        now_ms >= self.open_until_ms
    }

    /// May a request proceed right now? Always, below the threshold.
    pub fn allow(&self) -> (r: bool)
        ensures
            exists|now: u64| r == self.spec_allows(now),
            self.spec_failures() < self.spec_threshold() ==> r,
    {
        proof {
            use_type_invariant(self);
        }
        let now = unix_now_ms();
        self.allow_at(now)
    }

    /// An upstream success closes the breaker and clears the failure count.
    pub fn record_success(&mut self)
        ensures
            *final(self) == old(self).spec_after_success(),
    {
        self.open_until_ms = 0;
        self.consecutive_failures = 0;
    }

    /// Record an upstream failure observed at `now_ms`: once the count
    /// reaches the threshold the breaker opens for the cooldown.
    pub fn record_failure_at(&mut self, now_ms: u64)
        requires
            old(self).spec_failures() < u32::MAX,
            now_ms + old(self).spec_cooldown_ms() <= u64::MAX,
        ensures
            *final(self) == old(self).spec_after_failure(now_ms),
    {
        proof {
            use_type_invariant(&*self);
        }
        let failures = self.consecutive_failures + 1;
        self.consecutive_failures = failures;
        if failures >= self.threshold {
            self.open_until_ms = now_ms + self.cooldown_ms;
        }
    }

    /// Record an upstream failure now. Where the reopening instant would
    /// not fit in a `u64`, the breaker stays open until `u64::MAX`.
    pub fn record_failure(&mut self)
        requires
            old(self).spec_failures() < u32::MAX,
        ensures
            final(self).spec_failures() == old(self).spec_failures() + 1,
            final(self).spec_threshold() == old(self).spec_threshold(),
            final(self).spec_cooldown_ms() == old(self).spec_cooldown_ms(),
            final(self).spec_failures() < old(self).spec_threshold()
                ==> final(self).spec_open_until_ms() == old(self).spec_open_until_ms(),
            final(self).spec_failures() >= old(self).spec_threshold() ==> exists|now: u64|
                final(self).spec_open_until_ms() == #[trigger] reopen_instant(
                    now,
                    old(self).spec_cooldown_ms(),
                ),
    {
        proof {
            use_type_invariant(&*self);
        }
        let now = unix_now_ms();
        if now <= u64::MAX - self.cooldown_ms {
            self.record_failure_at(now);
            assert(self.spec_open_until_ms() == reopen_instant(now, self.spec_cooldown_ms())
                || self.spec_failures() < self.spec_threshold());
        } else {
            assert(reopen_instant(now, self.cooldown_ms) == u64::MAX);
            self.consecutive_failures = self.consecutive_failures + 1;
            if self.consecutive_failures >= self.threshold {
                self.open_until_ms = u64::MAX;
            }
        }
    }
}

impl Default for CircuitBreaker {
    /// Five consecutive failures open the breaker for two seconds.
    fn default() -> (r: Self)
        ensures
            r.spec_threshold() == 5,
            r.spec_cooldown_ms() == 2000,
            r.spec_failures() == 0,
            r.spec_open_until_ms() == 0,
    {
        Self::with_cooldown_ms(5, 2000)
    }
}

/// A breaker that has just reached its threshold at `now_ms` refuses
/// requests for the whole cooldown and lets the half-open probe through once
/// the cooldown has elapsed.
pub proof fn law_open_for_cooldown(b: CircuitBreaker, now_ms: u64, t: u64)
    requires
        b.spec_failures() < u32::MAX,
        now_ms + b.spec_cooldown_ms() <= u64::MAX,
        b.spec_failures() + 1 >= b.spec_threshold(),
    ensures
        now_ms <= t < now_ms + b.spec_cooldown_ms() ==> !b.spec_after_failure(now_ms).spec_allows(t),
        t >= now_ms + b.spec_cooldown_ms() ==> b.spec_after_failure(now_ms).spec_allows(t),
{
}

/// A failure adds one to the count and keeps threshold and cooldown; the
/// breaker opens until `now_ms` plus the cooldown once the count reaches
/// the threshold, and otherwise stays open exactly as long as before.
pub proof fn law_failure_counts(b: CircuitBreaker, now_ms: u64)
    requires
        b.spec_failures() < u32::MAX,
        now_ms + b.spec_cooldown_ms() <= u64::MAX,
    ensures
        b.spec_after_failure(now_ms).spec_failures() == b.spec_failures() + 1,
        b.spec_after_failure(now_ms).spec_threshold() == b.spec_threshold(),
        b.spec_after_failure(now_ms).spec_cooldown_ms() == b.spec_cooldown_ms(),
        b.spec_failures() + 1 >= b.spec_threshold() ==> b.spec_after_failure(now_ms).spec_open_until_ms()
            == now_ms + b.spec_cooldown_ms(),
        b.spec_failures() + 1 < b.spec_threshold() ==> b.spec_after_failure(now_ms).spec_open_until_ms()
            == b.spec_open_until_ms(),
{
}

/// Failures below the threshold leave the breaker as permissive as it was.
pub proof fn law_below_threshold_unchanged(b: CircuitBreaker, now_ms: u64, t: u64)
    requires
        b.spec_failures() + 1 < b.spec_threshold(),
    ensures
        b.spec_after_failure(now_ms).spec_allows(t) == b.spec_allows(t),
{
}

/// After a success every instant is allowed, whatever came before.
pub proof fn law_success_closes(b: CircuitBreaker, t: u64)
    ensures
        b.spec_after_success().spec_allows(t),
        b.spec_after_success().spec_failures() == 0,
{
}


/// The breaker after failures recorded at each of `times`, in order.
pub open spec fn after_failures(b: CircuitBreaker, times: Seq<u64>) -> CircuitBreaker
    decreases times.len(),
{
    if times.len() == 0 {
        b
    } else {
        after_failures(b, times.drop_last()).spec_after_failure(times.last())
    }
}

/// After a success, fewer failures than the threshold, whenever they
/// come, keep the breaker closed: every request is let through.
pub proof fn law_closed_until_threshold(b: CircuitBreaker, times: Seq<u64>, t: u64)
    requires
        times.len() < b.spec_threshold(),
    ensures
        after_failures(b.spec_after_success(), times).spec_failures() == times.len(),
        after_failures(b.spec_after_success(), times).spec_threshold() == b.spec_threshold(),
        after_failures(b.spec_after_success(), times).spec_allows(t),
    decreases times.len(),
{
    if times.len() > 0 {
        law_closed_until_threshold(b, times.drop_last(), t);
    }
}

} // verus!
