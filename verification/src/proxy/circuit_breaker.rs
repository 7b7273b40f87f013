//! A breaker that keeps requests from a backend that fails.
//!
//! - **Closed**: requests pass; failures are counted.
//! - **Open**: requests are refused until a while has passed.
//! - **HalfOpen**: a single probe has passed, and other requests are refused until it
//!   is known what came of it. If it succeeds the breaker closes; if it fails the
//!   breaker opens again.

use vstd::prelude::*;
use crate::time::Duration;

verus! {

/// The state of a breaker.
#[derive(Clone, Copy, Debug, PartialEq, Eq, Structural)]
pub enum BreakerState {
    Closed,
    Open,
    /// A probe is out.
    HalfOpen,
}

/// The plain values of a [`CircuitBreaker`].
#[verifier::ext_equal]
pub struct BreakerView {
    pub state: BreakerState,
    pub failures: u32,
    pub opened_at: u64,
    pub threshold: u32,
    pub cooldown: nat,
}

/// The breaker of one backend. Times are milliseconds of the clock on the wall.
#[derive(Debug, PartialEq, Eq)]
pub struct CircuitBreaker {
    state: BreakerState,
    /// Failures since the last success.
    failure_count: u32,
    /// When the breaker was opened.
    opened_at: u64,
    /// Failures that open the breaker.
    threshold: u32,
    /// How long the breaker stays open before a probe may pass.
    cooldown: Duration,
}

impl DeepView for CircuitBreaker {
    type V = BreakerView;

    closed spec fn deep_view(&self) -> BreakerView {
        BreakerView {
            state: self.state,
            failures: self.failure_count,
            opened_at: self.opened_at,
            threshold: self.threshold,
            cooldown: self.cooldown.deep_view(),
        }
    }
}

/// Tells whether a breaker that is open has been so for long enough.
pub open spec fn cooled(b: BreakerView, now: u64) -> bool {
    let waited = if now >= b.opened_at {
        now - b.opened_at
    } else {
        0
    };
    waited >= (b.cooldown / 1_000_000) as u128 as u64
}

/// Tells whether a request may pass. While a probe is out none may.
pub open spec fn allows(b: BreakerView, now: u64) -> bool {
    match b.state {
        BreakerState::Closed => true,
        BreakerState::Open => cooled(b, now),
        BreakerState::HalfOpen => false,
    }
}

/// The breaker after a request asked to pass.
pub open spec fn asked(b: BreakerView, now: u64) -> BreakerView {
    if b.state == BreakerState::Open && cooled(b, now) {
        BreakerView { state: BreakerState::HalfOpen, ..b }
    } else {
        b
    }
}

/// The breaker after a request succeeded.
pub open spec fn succeeded(b: BreakerView) -> BreakerView {
    BreakerView { state: BreakerState::Closed, failures: 0, ..b }
}

/// The breaker after a request failed.
pub open spec fn failed(b: BreakerView, now: u64) -> BreakerView {
    let failures = b.failures.wrapping_add(1);
    if b.state == BreakerState::HalfOpen || failures >= b.threshold {
        BreakerView { state: BreakerState::Open, failures, opened_at: now, ..b }
    } else {
        BreakerView { failures, ..b }
    }
}

impl CircuitBreaker {
    /// A breaker that is closed. So many failures in a row open it, and for so long
    /// it stays open.
    pub fn new(threshold: u32, cooldown: Duration) -> (b: CircuitBreaker)
        ensures
            b.deep_view() == (BreakerView {
                state: BreakerState::Closed,
                failures: 0,
                opened_at: 0,
                threshold,
                cooldown: cooldown.deep_view(),
            }),
    {
        CircuitBreaker {
            state: BreakerState::Closed,
            failure_count: 0,
            opened_at: 0,
            threshold,
            cooldown,
        }
    }

    /// The state of the breaker.
    pub fn state(&self) -> (s: BreakerState)
        ensures
            s == self.deep_view().state,
    {
        self.state
    }

    /// Tells whether a request may pass at a time. A breaker that has been open for
    /// long enough lets a single probe pass.
    pub fn allow_request(&mut self, now_millis: u64) -> (r: bool)
        ensures
            r == allows(old(self).deep_view(), now_millis),
            final(self).deep_view() == asked(old(self).deep_view(), now_millis),
    {
        match self.state {
            BreakerState::Closed => true,
            BreakerState::HalfOpen => false,
            BreakerState::Open => {
                let waited: u64 = if now_millis >= self.opened_at {
                    now_millis - self.opened_at
                } else {
                    0
                };
                if waited >= self.cooldown.as_millis() as u64 {
                    self.state = BreakerState::HalfOpen;
                    true
                } else {
                    false
                }
            },
        }
    }

    /// Notes that a request succeeded: the breaker closes.
    pub fn record_success(&mut self)
        ensures
            final(self).deep_view() == succeeded(old(self).deep_view()),
    {
        self.failure_count = 0;
        self.state = BreakerState::Closed;
    }

    /// Notes that a request failed at a time: the breaker may open.
    pub fn record_failure(&mut self, now_millis: u64)
        ensures
            final(self).deep_view() == failed(old(self).deep_view(), now_millis),
    {
        let count: u32 = self.failure_count.wrapping_add(1);
        self.failure_count = count;
        let half_open = match self.state {
            BreakerState::HalfOpen => true,
            _ => false,
        };
        if half_open || count >= self.threshold {
            self.state = BreakerState::Open;
            self.opened_at = now_millis;
        }
    }
}

// ---------------------------------------------------------------------------
// What holds of every breaker
// ---------------------------------------------------------------------------

/// The breaker after so many failures at one time.
pub open spec fn failed_times(b: BreakerView, n: nat, now: u64) -> BreakerView
    decreases n,
{
    if n == 0 {
        b
    } else {
        failed(failed_times(b, (n - 1) as nat, now), now)
    }
}

/// A closed breaker that counts from nothing stays closed for as long as there are
/// fewer failures than its threshold, and is open after as many.
pub proof fn lemma_opens_at_threshold(b: BreakerView, n: nat, now: u64)
    requires
        b.state == BreakerState::Closed,
        b.failures == 0,
        n <= b.threshold,
        b.threshold > 0,
    ensures
        failed_times(b, n, now).failures == n,
        failed_times(b, n, now).threshold == b.threshold,
        failed_times(b, n, now).cooldown == b.cooldown,
        failed_times(b, n, now).state == (if n < b.threshold {
            BreakerState::Closed
        } else {
            BreakerState::Open
        }),
    decreases n,
{
    if n > 0 {
        lemma_opens_at_threshold(b, (n - 1) as nat, now);
    }
}

/// After a success the breaker is closed, lets requests pass and counts from
/// nothing, whatever it was before.
pub proof fn lemma_success_resets(b: BreakerView, now: u64)
    ensures
        succeeded(b).state == BreakerState::Closed,
        succeeded(b).failures == 0,
        allows(succeeded(b), now),
        asked(succeeded(b), now) == succeeded(b),
{
}

/// An open breaker refuses every request until it has been open for long enough;
/// then it lets one pass and is half open.
pub proof fn lemma_open_until_cooled(b: BreakerView, now: u64)
    requires
        b.state == BreakerState::Open,
    ensures
        allows(b, now) == cooled(b, now),
        !cooled(b, now) ==> asked(b, now) == b,
        cooled(b, now) ==> asked(b, now).state == BreakerState::HalfOpen,
{
}

/// Once a probe has passed no other request does, however often one asks and
/// whenever, until it is noted what came of the probe.
pub proof fn lemma_single_probe(b: BreakerView, now: u64, later: u64)
    requires
        b.state == BreakerState::Open,
        allows(b, now),
    ensures
        asked(b, now).state == BreakerState::HalfOpen,
        !allows(asked(b, now), later),
        asked(asked(b, now), later) == asked(b, now),
{
}

/// A failed probe opens a half open breaker again and starts its wait anew; a
/// probe that succeeds closes it.
pub proof fn lemma_probe_decides(b: BreakerView, now: u64)
    requires
        b.state == BreakerState::HalfOpen,
    ensures
        failed(b, now).state == BreakerState::Open,
        failed(b, now).opened_at == now,
        succeeded(b).state == BreakerState::Closed,
{
}

/// An open breaker lets a request pass exactly from the end of its cooldown on, in
/// milliseconds from when it was opened; it was opened by the failure that reached the
/// threshold.
pub proof fn lemma_cooldown(b: BreakerView, ms: u64, now: u64)
    requires
        b.state == BreakerState::Open,
        b.cooldown == ms * 1_000_000,
        now >= b.opened_at,
    ensures
        allows(b, now) <==> now - b.opened_at >= ms,
        ms > 0 ==> !allows(b, b.opened_at),
{
    assert(ms * 1_000_000 / 1_000_000 == ms) by {
        vstd::arithmetic::div_mod::lemma_div_multiples_vanish(ms as int, 1_000_000);
    }
}

/// The failure that reaches the threshold opens a breaker at its time; what the breaker was
/// made with stays.
pub proof fn lemma_opened_when_failed(b: BreakerView, now: u64)
    requires
        b.state == BreakerState::Closed,
        b.failures + 1 == b.threshold,
    ensures
        failed(b, now).state == BreakerState::Open,
        failed(b, now).opened_at == now,
        failed(b, now).threshold == b.threshold,
        failed(b, now).cooldown == b.cooldown,
{
}

} // verus!
