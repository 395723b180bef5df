//! Per-upstream request budget: a token bucket.
//!
//! * **Lazy refill.** Tokens accrue on each [`RateBudget::acquire`] from the
//!   time that has elapsed, so there is no background timer and no idle cost.
//! * **Cancel-safe.** A token is spent in the very step that reports
//!   [`Lease::Granted`]. A step that asks the caller to wait spends nothing, so
//!   a caller that gives up while it waits has spent nothing.
//! * **Global pause on throttle.** One throttle response of the upstream
//!   freezes all grants until its window has elapsed, see
//!   [`RateBudget::note_throttled`].
//!
//! The bucket decides; it does not read the clock and does not sleep. Instants
//! are nanoseconds since a fixed origin of the caller's choice. Tokens are held
//! in fixed point, so that accrual is exact: a rate of one nano-token per second
//! is `1` unit per nanosecond, and [`TOKEN`] units make a token.

use vstd::prelude::*;

pub mod laws;

verus! {

/// Units that make one whole token.
pub const TOKEN: u128 = 1_000_000_000_000_000_000;

/// Units that make one nano-token.
pub const NANO_TOKEN: u128 = 1_000_000_000;

/// Outcome of an acquisition.
#[derive(Debug, Clone, Copy, PartialEq, Eq, Structural)]
pub enum Lease {
    /// A token was granted; the caller may make one upstream call.
    Granted,
    /// The wait deadline elapsed before a token became available. The caller
    /// degrades best-effort: it does not call the upstream anyway.
    DeadlineExceeded,
}

/// What one step of an acquisition asks of its caller.
#[derive(Debug, Clone, Copy, PartialEq, Eq, Structural)]
pub enum Step {
    /// The acquisition is over.
    Done(Lease),
    /// Wait this many nanoseconds, or until woken, then ask
    /// [`give_up`] and, if it returns `None`, take another step.
    Wait(u128),
}

/// The mathematical state of a bucket: times in nanoseconds, tokens in units.
#[verifier::ext_equal]
pub struct Bucket {
    pub tokens: int,
    pub capacity: int,
    pub rate: int,
    pub last_refill: int,
    pub paused_until: Option<int>,
}

/// The smaller of two integers.
pub open spec fn min(a: int, b: int) -> int {
    if a <= b {
        a
    } else {
        b
    }
}

/// The larger of two integers.
pub open spec fn max(a: int, b: int) -> int {
    if a >= b {
        a
    } else {
        b
    }
}

impl Bucket {
    /// The bucket never holds a debt and never more than its capacity.
    pub open spec fn valid(self) -> bool {
        &&& 0 <= self.tokens <= self.capacity
        &&& 0 <= self.rate
    }

    /// Tokens at `now`: those of the last refill and what has accrued since,
    /// up to the capacity.
    pub open spec fn available(self, now: int) -> int {
        if now > self.last_refill {
            min(self.capacity, self.tokens + (now - self.last_refill) * self.rate)
        } else {
            self.tokens
        }
    }

    /// The bucket with what has accrued until `now` added.
    pub open spec fn refilled(self, now: int) -> Bucket {
        Bucket {
            tokens: self.available(now),
            last_refill: max(self.last_refill, now),
            ..self
        }
    }

    /// Whether grants are frozen at `now`.
    pub open spec fn is_paused(self, now: int) -> bool {
        self.paused_until matches Some(until) && now < until
    }

    /// Whether a step at `now` grants a token.
    pub open spec fn grants(self, now: int) -> bool {
        !self.is_paused(now) && self.available(now) >= TOKEN
    }

    /// The bucket after a step of an acquisition at `now`. A pause that is over
    /// is forgotten, tokens accrue unless paused, and a grant spends one.
    pub open spec fn acquired(self, now: int) -> Bucket {
        if self.is_paused(now) {
            self
        } else {
            let b = Bucket { paused_until: None, ..self.refilled(now) };
            if self.grants(now) {
                Bucket { tokens: b.tokens - TOKEN, ..b }
            } else {
                b
            }
        }
    }

    /// How long a step at `now` that grants nothing asks to wait when there is
    /// no deadline: until the pause lifts, else until the next whole token has
    /// accrued. `None` where no time is long enough, as nothing accrues.
    pub open spec fn until_grant(self, now: int) -> Option<int> {
        if self.is_paused(now) {
            Some(self.paused_until->0 - now)
        } else if self.rate > 0 {
            Some(div_up(TOKEN - self.available(now), self.rate))
        } else {
            None
        }
    }

    /// The bucket after the upstream asked at `now` to hold off for
    /// `retry_after`: a pause is extended, never shortened.
    pub open spec fn throttled(self, now: int, retry_after: int) -> Bucket {
        Bucket {
            paused_until: Some(
                match self.paused_until {
                    Some(existing) => max(existing, now + retry_after),
                    None => now + retry_after,
                },
            ),
            ..self
        }
    }

    /// What a step at `now` of an acquisition that gives up at `give_up_at`
    /// asks of its caller.
    pub open spec fn step(self, now: int, give_up_at: int) -> Decision {
        if self.grants(now) {
            Decision::Done(Lease::Granted)
        } else if now >= give_up_at {
            Decision::Done(Lease::DeadlineExceeded)
        } else {
            Decision::Wait(
                match self.until_grant(now) {
                    Some(wait) => min(wait, give_up_at - now),
                    None => give_up_at - now,
                },
            )
        }
    }
}

/// The mathematical form of [`Step`].
pub enum Decision {
    Done(Lease),
    Wait(int),
}

impl View for Step {
    type V = Decision;

    open spec fn view(&self) -> Decision {
        match *self {
            Step::Done(lease) => Decision::Done(lease),
            Step::Wait(wait) => Decision::Wait(wait as int),
        }
    }
}

/// The least integer that, times `d`, reaches `n`.
pub open spec fn div_up(n: int, d: int) -> int
    recommends
        0 < d,
{
    (n + d - 1) / d
}

/// Token bucket gating one upstream's API calls.
pub struct RateBudget {
    tokens: u128,
    capacity: u128,
    rate: u64,
    last_refill: u128,
    paused_until: Option<u128>,
}

impl View for RateBudget {
    type V = Bucket;

    closed spec fn view(&self) -> Bucket {
        Bucket {
            tokens: self.tokens as int,
            capacity: self.capacity as int,
            rate: self.rate as int,
            last_refill: self.last_refill as int,
            paused_until: match self.paused_until {
                Some(until) => Some(until as int),
                None => None,
            },
        }
    }
}

impl RateBudget {
    #[verifier::type_invariant]
    spec fn well_formed(self) -> bool {
        self.tokens <= self.capacity
    }

    /// A budget sustaining `refill_per_sec` nano-tokens per second with a burst
    /// ceiling of `capacity` nano-tokens. The bucket starts full at `now`, so
    /// the first burst is served immediately.
    pub fn new(refill_per_sec: u64, capacity: u64, now: u128) -> (budget: Self)
        ensures
            budget@ == (Bucket {
                tokens: capacity * NANO_TOKEN,
                capacity: capacity * NANO_TOKEN,
                rate: refill_per_sec as int,
                last_refill: now as int,
                paused_until: None,
            }),
            budget@.valid(),
    {
        let units: u128 = (capacity as u128) * NANO_TOKEN;
        RateBudget {
            tokens: units,
            capacity: units,
            rate: refill_per_sec,
            last_refill: now,
            paused_until: None,
        }
    }

    /// Accrues tokens for the time that has elapsed since the last refill.
    pub fn refill(&mut self, now: u128)
        ensures
            final(self)@ == old(self)@.refilled(now as int),
            final(self)@.valid(),
            ({
                let (b, a) = (old(self)@, final(self)@);
                let accrued = b.tokens + (now - b.last_refill) * b.rate;
                &&& a.capacity == b.capacity && a.rate == b.rate
                &&& a.paused_until == b.paused_until
                &&& now <= b.last_refill ==> a.tokens == b.tokens && a.last_refill == b.last_refill
                &&& now > b.last_refill ==> a.last_refill == now
                &&& now > b.last_refill && accrued <= b.capacity ==> a.tokens == accrued
                &&& now > b.last_refill && accrued > b.capacity ==> a.tokens == b.capacity
            }),
    {
        proof {
            use_type_invariant(&*self);
        }
        if now > self.last_refill {
            let elapsed: u128 = now - self.last_refill;
            let missing: u128 = self.capacity - self.tokens;
            let rate: u128 = self.rate as u128;
            if rate > 0 && elapsed > missing / rate {
                proof {
                    lemma_beyond_quotient(missing as int, rate as int, elapsed as int);
                }
                self.tokens = self.capacity;
            } else {
                proof {
                    lemma_within_quotient(missing as int, rate as int, elapsed as int);
                }
                self.tokens = self.tokens + elapsed * rate;
            }
            self.last_refill = now;
        }
    }

    /// One step, at `now`, of an acquisition that gives up at `give_up_at`: a
    /// token if one is there and no pause is on, else the deadline's verdict,
    /// else how long to wait before the next step.
    pub fn acquire(&mut self, now: u128, give_up_at: u128) -> (step: Step)
        ensures
            step@ == old(self)@.step(now as int, give_up_at as int),
            match step {
                Step::Done(lease) => old(self)@.step(now as int, give_up_at as int)
                    == Decision::Done(lease),
                Step::Wait(wait) => old(self)@.step(now as int, give_up_at as int)
                    == Decision::Wait(wait as int),
            },
            final(self)@ == old(self)@.acquired(now as int),
            final(self)@.valid(),
    {
        proof {
            use_type_invariant(&*self);
        }
        if let Some(until) = self.paused_until {
            if now >= until {
                self.paused_until = None;
            }
        }
        let paused: Option<u128> = self.paused_until;
        if paused.is_none() {
            self.refill(now);
            if self.tokens >= TOKEN {
                self.tokens = self.tokens - TOKEN;
                return Step::Done(Lease::Granted);
            }
        }
        if now >= give_up_at {
            return Step::Done(Lease::DeadlineExceeded);
        }
        let until_deadline: u128 = give_up_at - now;
        let wait: u128 = match paused {
            // Frozen: wake when the pause is scheduled to lift.
            Some(until) => until - now,
            // Throttled: wake when the next whole token has accrued.
            None => if self.rate > 0 {
                let needed: u128 = TOKEN - self.tokens;
                (needed + (self.rate as u128) - 1) / (self.rate as u128)
            } else {
                until_deadline
            },
        };
        if wait < until_deadline {
            Step::Wait(wait)
        } else {
            Step::Wait(until_deadline)
        }
    }

    /// Feeds back, at `now`, a throttle response of the upstream: all grants are
    /// paused until `now + retry_after`. Extends an existing pause but never
    /// shortens it.
    pub fn note_throttled(&mut self, now: u128, retry_after: u128)
        requires
            now + retry_after <= u128::MAX,
        ensures
            final(self)@ == old(self)@.throttled(now as int, retry_after as int),
            final(self)@.valid(),
    {
        proof {
            use_type_invariant(&*self);
        }
        let until: u128 = now + retry_after;
        self.paused_until =
        Some(
            match self.paused_until {
                Some(existing) => if existing > until {
                    existing
                } else {
                    until
                },
                None => until,
            },
        );
    }
}

/// Whether an acquisition that has waited ends at `now`: a token that accrues
/// at the deadline comes too late.
pub fn give_up(now: u128, give_up_at: u128) -> (lease: Option<Lease>)
    ensures
        lease == (if now >= give_up_at {
            Some(Lease::DeadlineExceeded)
        } else {
            None
        }),
{
    if now >= give_up_at {
        Some(Lease::DeadlineExceeded)
    } else {
        None
    }
}

/// Beyond the quotient, the product exceeds the dividend.
proof fn lemma_beyond_quotient(n: int, d: int, x: int)
    requires
        0 <= n,
        0 < d,
        x > n / d,
    ensures
        x * d > n,
{
    vstd::arithmetic::div_mod::lemma_fundamental_div_mod(n, d);
    assert(x * d >= (n / d + 1) * d) by (nonlinear_arith)
        requires
            x >= n / d + 1,
            0 < d,
    ;
    assert((n / d + 1) * d == d * (n / d) + d) by (nonlinear_arith);
}

/// Up to the quotient, the product does not exceed the dividend.
proof fn lemma_within_quotient(n: int, d: int, x: int)
    requires
        0 <= n,
        0 <= d,
        0 <= x,
        d > 0 ==> x <= n / d,
    ensures
        0 <= x * d <= n,
{
    if d > 0 {
        vstd::arithmetic::div_mod::lemma_fundamental_div_mod(n, d);
        assert(0 <= x * d <= (n / d) * d) by (nonlinear_arith)
            requires
                0 <= x <= n / d,
                0 < d,
        ;
        assert((n / d) * d == d * (n / d)) by (nonlinear_arith);
    } else {
        assert(x * 0 == 0);
    }
}

} // verus!
