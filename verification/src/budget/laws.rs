//! What a request budget promises over time.

use super::{div_up, max, Bucket, Decision, Lease, TOKEN};
use vstd::prelude::*;

verus! {

/// Something that happens to a bucket.
pub enum Event {
    /// A step of an acquisition.
    Acquire { now: int },
    /// A throttle response of the upstream.
    Throttled { now: int, retry_after: int },
}

impl Event {
    /// When it happens.
    pub open spec fn now(self) -> int {
        match self {
            Event::Acquire { now } => now,
            Event::Throttled { now, .. } => now,
        }
    }

    /// The bucket afterwards.
    pub open spec fn apply(self, bucket: Bucket) -> Bucket {
        match self {
            Event::Acquire { now } => bucket.acquired(now),
            Event::Throttled { now, retry_after } => bucket.throttled(now, retry_after),
        }
    }

    /// Whether it hands out a token.
    pub open spec fn is_grant(self, bucket: Bucket) -> bool {
        match self {
            Event::Acquire { now } => bucket.grants(now),
            Event::Throttled { .. } => false,
        }
    }
}

/// The bucket after all of `events`, in order.
pub open spec fn run(bucket: Bucket, events: Seq<Event>) -> Bucket
    decreases events.len(),
{
    if events.len() == 0 {
        bucket
    } else {
        events.last().apply(run(bucket, events.drop_last()))
    }
}

/// How many of `events` hand out a token.
pub open spec fn granted(bucket: Bucket, events: Seq<Event>) -> int
    decreases events.len(),
{
    if events.len() == 0 {
        0
    } else {
        let before = run(bucket, events.drop_last());
        granted(bucket, events.drop_last()) + if events.last().is_grant(before) {
            1int
        } else {
            0
        }
    }
}

/// The events happen one after the other, from `start` to `end`.
pub open spec fn in_window(events: Seq<Event>, start: int, end: int) -> bool {
    &&& start <= end
    &&& forall|i: int| 0 <= i < events.len() ==> start <= (#[trigger] events[i]).now() <= end
    &&& forall|i: int, j: int|
        0 <= i <= j < events.len() ==> (#[trigger] events[i]).now() <= (
        #[trigger] events[j]).now()
}

/// Every event leaves the bucket valid, with the capacity and the rate it had.
pub proof fn law_events_keep_the_bucket_valid(bucket: Bucket, events: Seq<Event>)
    requires
        bucket.valid(),
    ensures
        run(bucket, events).valid(),
        run(bucket, events).capacity == bucket.capacity,
        run(bucket, events).rate == bucket.rate,
    decreases events.len(),
{
    if events.len() > 0 {
        let before = run(bucket, events.drop_last());
        law_events_keep_the_bucket_valid(bucket, events.drop_last());
        lemma_available_bounds(before, events.last().now());
    }
}

/// What is available is never a debt and never above the capacity.
proof fn lemma_available_bounds(bucket: Bucket, now: int)
    requires
        bucket.valid(),
    ensures
        bucket.tokens <= bucket.available(now) <= bucket.capacity,
{
    if now > bucket.last_refill {
        assert((now - bucket.last_refill) * bucket.rate >= 0) by (nonlinear_arith)
            requires
                now > bucket.last_refill,
                bucket.rate >= 0,
        ;
    }
}

/// Refill is lazy: it does not matter how often the bucket is looked at. No refill
/// takes tokens away or overfills the bucket.
pub proof fn law_refill_is_lazy(bucket: Bucket, early: int, late: int)
    requires
        bucket.valid(),
        early <= late,
    ensures
        bucket.refilled(early).refilled(late) == bucket.refilled(late),
        bucket.refilled(late).refilled(late) == bucket.refilled(late),
        bucket.tokens <= bucket.refilled(early).tokens <= bucket.refilled(late).tokens
            <= bucket.capacity,
{
    let b = bucket;
    lemma_available_bounds(b, early);
    lemma_available_bounds(b, late);
    if early > b.last_refill {
        assert((early - b.last_refill) * b.rate + (late - early) * b.rate == (late - b.last_refill)
            * b.rate) by (nonlinear_arith);
        assert((late - early) * b.rate >= 0) by (nonlinear_arith)
            requires
                early <= late,
                b.rate >= 0,
        ;
    }
}

/// Accrual is exact: since the last refill as much has accrued as the rate gives,
/// unless the bucket is full, and it is full where that would not fit. Before the
/// last refill nothing has.
pub proof fn law_accrual_is_exact(bucket: Bucket, now: int)
    requires
        bucket.valid(),
    ensures
        now >= bucket.last_refill ==> bucket.available(now) <= bucket.capacity,
        now >= bucket.last_refill ==> bucket.available(now) <= bucket.tokens + (now
            - bucket.last_refill) * bucket.rate,
        now >= bucket.last_refill ==> bucket.available(now) == bucket.capacity
            || bucket.available(now) == bucket.tokens + (now - bucket.last_refill) * bucket.rate,
        now <= bucket.last_refill ==> bucket.available(now) == bucket.tokens,
{
    if now == bucket.last_refill {
        assert((now - bucket.last_refill) * bucket.rate == 0) by (nonlinear_arith)
            requires
                now == bucket.last_refill,
        ;
    }
}

/// A refill adds what has accrued and notes the time. Nothing else changes.
pub proof fn law_a_refill_only_adds_tokens(bucket: Bucket, now: int)
    ensures
        bucket.refilled(now).tokens == bucket.available(now),
        bucket.refilled(now).capacity == bucket.capacity,
        bucket.refilled(now).rate == bucket.rate,
        bucket.refilled(now).paused_until == bucket.paused_until,
        now >= bucket.last_refill ==> bucket.refilled(now).last_refill == now,
        now <= bucket.last_refill ==> bucket.refilled(now).last_refill == bucket.last_refill,
{
}

/// A bucket that is left alone fills up: once what is missing has accrued it holds
/// its whole capacity.
pub proof fn law_a_rested_bucket_is_full(bucket: Bucket, now: int)
    requires
        bucket.valid(),
        now >= bucket.last_refill,
        (now - bucket.last_refill) * bucket.rate >= bucket.capacity - bucket.tokens,
    ensures
        bucket.available(now) == bucket.capacity,
{
    law_accrual_is_exact(bucket, now);
}

/// A bucket that was left alone until it is full serves its whole burst at once: as
/// many acquisitions as whole tokens fit in it.
pub proof fn law_a_rested_bucket_serves_its_whole_burst(
    bucket: Bucket,
    now: int,
    burst: Seq<Event>,
)
    requires
        bucket.valid(),
        now >= bucket.last_refill,
        (now - bucket.last_refill) * bucket.rate >= bucket.capacity - bucket.tokens,
        bucket.paused_until matches Some(until) ==> until <= now,
        forall|i: int|
            0 <= i < burst.len() ==> #[trigger] burst[i] == (Event::Acquire { now }),
        burst.len() * TOKEN <= bucket.capacity,
    ensures
        granted(bucket, burst) == burst.len(),
{
    law_a_rested_bucket_is_full(bucket, now);
    law_burst_is_served_at_once(bucket, now, burst);
}

/// A step grants exactly if no pause is on and a whole token is there: left over
/// from the last refill, or with what has accrued since, as far as it fits. With a
/// clock behind the last refill, what is left over counts alone.
pub proof fn law_a_grant_needs_a_token_and_no_pause(bucket: Bucket, now: int)
    requires
        bucket.valid(),
    ensures
        now >= bucket.last_refill ==> (bucket.grants(now) <==> (bucket.paused_until is None
            || bucket.paused_until->0 <= now) && bucket.capacity >= TOKEN && bucket.tokens + (now
            - bucket.last_refill) * bucket.rate >= TOKEN),
        now <= bucket.last_refill ==> (bucket.grants(now) <==> (bucket.paused_until is None
            || bucket.paused_until->0 <= now) && bucket.tokens >= TOKEN),
{
    law_accrual_is_exact(bucket, now);
}

/// What a step leaves behind. While a pause is on, everything as it was. Otherwise
/// the bucket is refilled, the pause forgotten, and one token spent if one was
/// granted.
pub proof fn law_what_a_step_leaves(bucket: Bucket, now: int)
    ensures
        bucket.paused_until is Some && now < bucket.paused_until->0 ==> bucket.acquired(now)
            == bucket,
        bucket.paused_until is None || bucket.paused_until->0 <= now ==> {
            let after = bucket.acquired(now);
            &&& after.paused_until is None
            &&& after.capacity == bucket.capacity && after.rate == bucket.rate
            &&& after.last_refill == bucket.refilled(now).last_refill
            &&& bucket.available(now) >= TOKEN ==> after.tokens == bucket.available(now) - TOKEN
            &&& bucket.available(now) < TOKEN ==> after.tokens == bucket.available(now)
        },
{
}

/// What a step asks of its caller. It grants where it can, else gives up where the
/// deadline has passed, else asks for a wait: until the pause is over; else for the
/// least time in which what is missing to a whole token accrues; but no longer than
/// until the deadline, and until then where nothing accrues.
pub proof fn law_what_a_step_asks(bucket: Bucket, now: int, give_up_at: int)
    requires
        bucket.valid(),
    ensures
        bucket.grants(now) <==> bucket.step(now, give_up_at) == Decision::Done(Lease::Granted),
        !bucket.grants(now) && now >= give_up_at <==> bucket.step(now, give_up_at)
            == Decision::Done(Lease::DeadlineExceeded),
        !bucket.grants(now) && now < give_up_at ==> {
            let left = give_up_at - now;
            let missing = TOKEN - bucket.available(now);
            let end = bucket.paused_until->0;
            let paused = bucket.paused_until is Some && now < end;
            &&& bucket.step(now, give_up_at) is Wait
            &&& 0 < bucket.step(now, give_up_at)->Wait_0 <= left
            &&& paused && end - now <= left ==> bucket.step(now, give_up_at)->Wait_0 == end - now
            &&& paused && end - now > left ==> bucket.step(now, give_up_at)->Wait_0 == left
            &&& !paused && bucket.rate == 0 ==> bucket.step(now, give_up_at)->Wait_0 == left
            &&& !paused && bucket.rate > 0 ==> {
                let wait = bucket.step(now, give_up_at)->Wait_0;
                &&& wait < left ==> wait * bucket.rate >= missing
                &&& (wait - 1) * bucket.rate < missing
            }
        },
{
    law_waits_end_by_the_deadline(bucket, now, give_up_at);
    if !bucket.grants(now) && now < give_up_at && !bucket.is_paused(now) && bucket.rate > 0 {
        let missing = TOKEN - bucket.available(now);
        lemma_div_up(missing, bucket.rate);
        let wait = bucket.step(now, give_up_at)->Wait_0;
        lemma_below_div_up(missing, bucket.rate, wait - 1);
    }
}

/// Grants are frozen exactly before the end of the pause.
pub proof fn law_a_pause_lasts_until_its_end(bucket: Bucket, at: int)
    ensures
        bucket.is_paused(at) <==> bucket.paused_until is Some && at < bucket.paused_until->0,
{
}

/// A throttle response touches nothing but the pause, which then ends when the
/// upstream asked or when it did before, whichever is later.
pub proof fn law_a_throttle_only_pauses(bucket: Bucket, now: int, retry_after: int)
    ensures
        ({
            let after = bucket.throttled(now, retry_after);
            &&& after.tokens == bucket.tokens && after.capacity == bucket.capacity
            &&& after.rate == bucket.rate && after.last_refill == bucket.last_refill
            &&& after.paused_until is Some && after.paused_until->0 >= now + retry_after
            &&& bucket.paused_until is Some ==> after.paused_until->0 >= bucket.paused_until->0
            &&& after.paused_until->0 == now + retry_after || after.paused_until
                == bucket.paused_until
        }),
{
}

/// Cancel-safety: a step that grants nothing spends nothing. Whatever time comes
/// later, as much is available as if the step had not been taken; a grant spends
/// exactly one token.
pub proof fn law_only_a_grant_spends(bucket: Bucket, now: int, later: int)
    requires
        bucket.valid(),
        now <= later,
    ensures
        !bucket.grants(now) ==> bucket.acquired(now).available(later) == bucket.available(later),
        bucket.grants(now) ==> bucket.acquired(now).available(now) == bucket.available(now) - TOKEN,
{
    law_refill_is_lazy(bucket, now, later);
    if !bucket.grants(now) && !bucket.is_paused(now) {
        assert(bucket.refilled(now).available(later) == bucket.refilled(now).refilled(
            later,
        ).tokens);
    }
}

/// The rate limit: in no window of time are more tokens handed out than fit in
/// the bucket and accrue within the window.
pub proof fn law_rate_limit(bucket: Bucket, events: Seq<Event>, start: int, end: int)
    requires
        bucket.valid(),
        in_window(events, start, end),
    ensures
        granted(bucket, events) * TOKEN <= bucket.capacity + (end - start) * bucket.rate,
{
    lemma_rate_limit(bucket, events, start, end);
    law_events_keep_the_bucket_valid(bucket, events);
    lemma_available_bounds(run(bucket, events), end);
}

/// The rate limit, with what is still available at the end counted in.
proof fn lemma_rate_limit(bucket: Bucket, events: Seq<Event>, start: int, end: int)
    requires
        bucket.valid(),
        in_window(events, start, end),
    ensures
        granted(bucket, events) * TOKEN + run(bucket, events).available(end) <= bucket.capacity + (
        end - start) * bucket.rate,
    decreases events.len(),
{
    if events.len() == 0 {
        lemma_available_bounds(bucket, end);
        assert((end - start) * bucket.rate >= 0) by (nonlinear_arith)
            requires
                start <= end,
                bucket.rate >= 0,
        ;
    } else {
        let now = events.last().now();
        let rest = events.drop_last();
        let before = run(bucket, rest);
        let after = run(bucket, events);
        assert(in_window(rest, start, now)) by {
            assert(events[events.len() - 1].now() == now);
            assert forall|i: int| 0 <= i < rest.len() implies start <= (#[trigger] rest[i]).now()
                <= now by {
                assert(rest[i] == events[i]);
            }
            assert forall|i: int, j: int| 0 <= i <= j < rest.len() implies (
            #[trigger] rest[i]).now() <= (#[trigger] rest[j]).now() by {
                assert(rest[i] == events[i] && rest[j] == events[j]);
            }
        }
        lemma_rate_limit(bucket, rest, start, now);
        law_events_keep_the_bucket_valid(bucket, rest);
        law_events_keep_the_bucket_valid(bucket, events);
        law_only_a_grant_spends(before, now, now);
        lemma_accrual(after, now, end);
        assert((now - start) * bucket.rate + (end - now) * bucket.rate == (end - start)
            * bucket.rate) by (nonlinear_arith);
        let g = granted(bucket, rest);
        assert((g + 1) * TOKEN == g * TOKEN + TOKEN);
    }
}

/// No more accrues than the rate gives.
proof fn lemma_accrual(bucket: Bucket, early: int, late: int)
    requires
        bucket.valid(),
        early <= late,
    ensures
        bucket.available(late) <= bucket.available(early) + (late - early) * bucket.rate,
{
    let b = bucket;
    lemma_available_bounds(b, early);
    assert((late - early) * b.rate >= 0) by (nonlinear_arith)
        requires
            early <= late,
            b.rate >= 0,
    ;
    if early > b.last_refill {
        assert((early - b.last_refill) * b.rate + (late - early) * b.rate == (late - b.last_refill)
            * b.rate) by (nonlinear_arith);
    } else if late > b.last_refill {
        assert((late - b.last_refill) * b.rate <= (late - early) * b.rate) by (nonlinear_arith)
            requires
                early <= b.last_refill < late,
                b.rate >= 0,
        ;
    }
}

/// The burst: as many steps in a row as there are whole tokens are all granted
/// on the spot.
pub proof fn law_burst_is_served_at_once(bucket: Bucket, now: int, burst: Seq<Event>)
    requires
        bucket.valid(),
        !bucket.is_paused(now),
        forall|i: int|
            0 <= i < burst.len() ==> #[trigger] burst[i] == (Event::Acquire { now }),
        burst.len() * TOKEN <= bucket.available(now),
    ensures
        granted(bucket, burst) == burst.len(),
{
    lemma_burst(bucket, now, burst);
}

proof fn lemma_burst(bucket: Bucket, now: int, burst: Seq<Event>)
    requires
        bucket.valid(),
        !bucket.is_paused(now),
        forall|i: int|
            0 <= i < burst.len() ==> #[trigger] burst[i] == (Event::Acquire { now }),
        burst.len() * TOKEN <= bucket.available(now),
    ensures
        granted(bucket, burst) == burst.len(),
        !run(bucket, burst).is_paused(now),
        run(bucket, burst).available(now) == bucket.available(now) - burst.len() * TOKEN,
    decreases burst.len(),
{
    if burst.len() > 0 {
        let rest = burst.drop_last();
        let n = rest.len();
        assert(burst[burst.len() - 1] == (Event::Acquire { now }));
        assert forall|i: int| 0 <= i < rest.len() implies #[trigger] rest[i] == (Event::Acquire {
            now,
        }) by {
            assert(rest[i] == burst[i]);
        }
        assert((n + 1) * TOKEN == n * TOKEN + TOKEN);
        lemma_burst(bucket, now, rest);
        law_events_keep_the_bucket_valid(bucket, rest);
        law_only_a_grant_spends(run(bucket, rest), now, now);
    }
}

/// A wait is never empty and never reaches past the deadline.
pub proof fn law_waits_end_by_the_deadline(bucket: Bucket, now: int, give_up_at: int)
    requires
        bucket.valid(),
    ensures
        bucket.step(now, give_up_at) matches Decision::Wait(wait) ==> 0 < wait <= give_up_at - now,
{
    if !bucket.is_paused(now) && bucket.rate > 0 && bucket.available(now) < TOKEN {
        lemma_div_up(TOKEN - bucket.available(now), bucket.rate);
    }
}

/// [`div_up`] reaches its dividend, and is positive where that is.
proof fn lemma_div_up(n: int, d: int)
    requires
        0 < d,
    ensures
        div_up(n, d) * d >= n,
        n > 0 ==> div_up(n, d) > 0,
{
    let m = n + d - 1;
    vstd::arithmetic::div_mod::lemma_fundamental_div_mod(m, d);
    vstd::arithmetic::div_mod::lemma_mod_bound(m, d);
    assert(d * (m / d) == (m / d) * d) by (nonlinear_arith);
    if n > 0 && m / d <= 0 {
        assert((m / d) * d <= 0) by (nonlinear_arith)
            requires
                m / d <= 0,
                0 < d,
        ;
    }
}

/// A wait that is not cut short pays: where a step that finds no pause on asks
/// for less than the time left, a token is there once that time is over, unless
/// the upstream throttles meanwhile or the bucket is too small for one token.
/// The clock must not lag behind the last refill.
pub proof fn law_a_full_wait_is_granted(bucket: Bucket, now: int, give_up_at: int, later: int)
    requires
        bucket.valid(),
        bucket.capacity >= TOKEN,
        bucket.last_refill <= now,
        !bucket.is_paused(now),
    ensures
        bucket.step(now, give_up_at) matches Decision::Wait(wait) ==> wait < give_up_at - now
            && later >= now + wait ==> bucket.acquired(now).grants(later),
{
    if let Decision::Wait(wait) = bucket.step(now, give_up_at) {
        if wait < give_up_at - now && later >= now + wait {
            let missing = TOKEN - bucket.available(now);
            lemma_div_up(missing, bucket.rate);
            let after = bucket.acquired(now);
            assert((later - now) * bucket.rate >= wait * bucket.rate) by (nonlinear_arith)
                requires
                    later - now >= wait,
                    bucket.rate >= 0,
            ;
            lemma_available_bounds(bucket, now);
            assert(after.tokens + (later - now) * bucket.rate >= TOKEN);
        }
    }
}

/// A whole acquisition that starts at `now`, with each wait slept in full and
/// nothing else happening: its lease and when it ends.
pub open spec fn acquisition(bucket: Bucket, now: int, give_up_at: int) -> (Lease, int)
    decreases give_up_at - now,
    when bucket.valid()
{
    proof {
        law_waits_end_by_the_deadline(bucket, now, give_up_at);
    }
    match bucket.step(now, give_up_at) {
        Decision::Done(lease) => (lease, now),
        Decision::Wait(wait) => if now + wait >= give_up_at {
            (Lease::DeadlineExceeded, now + wait)
        } else {
            acquisition(bucket.acquired(now), now + wait, give_up_at)
        },
    }
}

/// Nothing can be granted from `from` until `to`.
pub open spec fn dry(bucket: Bucket, from: int, to: int) -> bool {
    forall|t: int| from <= t < to ==> !#[trigger] bucket.grants(t)
}

/// An acquisition waits for the first moment at which a token can be granted,
/// and no longer. It gives up exactly if no such moment comes before the
/// deadline; the moment of the call itself always counts. The clock must not lag
/// behind the last refill.
pub proof fn law_an_acquisition_takes_the_first_grant(bucket: Bucket, now: int, give_up_at: int)
    requires
        bucket.valid(),
        bucket.last_refill <= now,
    ensures
        ({
            let (lease, end) = acquisition(bucket, now, give_up_at);
            match lease {
                Lease::Granted => now <= end && bucket.grants(end) && dry(bucket, now, end) && (end
                    == now || end < give_up_at),
                Lease::DeadlineExceeded => end == max(now, give_up_at) && !bucket.grants(now)
                    && dry(bucket, now, give_up_at),
            }
        }),
    decreases give_up_at - now,
{
    law_waits_end_by_the_deadline(bucket, now, give_up_at);
    if let Decision::Wait(wait) = bucket.step(now, give_up_at) {
        let next = now + wait;
        let after = bucket.acquired(now);
        assert(dry(bucket, now, next)) by {
            assert forall|t: int| now <= t < next implies !#[trigger] bucket.grants(t) by {
                lemma_dry_while_waiting(bucket, now, t);
            }
        }
        if next < give_up_at {
            law_events_keep_the_bucket_valid(bucket, seq![Event::Acquire { now }]);
            assert(run(bucket, seq![Event::Acquire { now }]) == after) by {
                assert(seq![Event::Acquire { now }].drop_last() =~= Seq::empty());
                reveal_with_fuel(run, 2);
            }
            law_an_acquisition_takes_the_first_grant(after, next, give_up_at);
            assert forall|t: int| next <= t implies after.grants(t) == #[trigger] bucket.grants(
                t,
            ) by {
                law_only_a_grant_spends(bucket, now, t);
            }
            let (lease, end) = acquisition(after, next, give_up_at);
            assert forall|t: int| now <= t < end implies !#[trigger] bucket.grants(t) by {
                if t >= next {
                    assert(after.grants(t) == bucket.grants(t));
                    assert(!after.grants(t));
                }
            }
            assert(after.grants(end) == bucket.grants(end));
        }
    }
}

/// Until a wait is over there is nothing to grant.
proof fn lemma_dry_while_waiting(bucket: Bucket, now: int, t: int)
    requires
        bucket.valid(),
        bucket.last_refill <= now <= t,
        !bucket.grants(now),
        bucket.until_grant(now) matches Some(wait) ==> t < now + wait,
    ensures
        !bucket.grants(t),
{
    if !bucket.is_paused(now) {
        lemma_accrual(bucket, now, t);
        let missing = TOKEN - bucket.available(now);
        if bucket.rate > 0 {
            lemma_below_div_up(missing, bucket.rate, t - now);
        } else {
            assert((t - now) * 0 == 0);
        }
    }
}

/// Below [`div_up`] the product does not reach the dividend.
proof fn lemma_below_div_up(n: int, d: int, x: int)
    requires
        0 < d,
        x < div_up(n, d),
    ensures
        x * d < n,
{
    let m = n + d - 1;
    vstd::arithmetic::div_mod::lemma_fundamental_div_mod(m, d);
    vstd::arithmetic::div_mod::lemma_mod_bound(m, d);
    assert(d * (m / d) == (m / d) * d) by (nonlinear_arith);
    assert(x * d <= (m / d - 1) * d) by (nonlinear_arith)
        requires
            x <= m / d - 1,
            0 < d,
    ;
    assert((m / d - 1) * d == (m / d) * d - d) by (nonlinear_arith);
}

/// After a pause grants resume as if there had been none.
pub proof fn law_grants_resume_after_a_pause(bucket: Bucket, now: int, retry_after: int, at: int)
    requires
        !bucket.throttled(now, retry_after).is_paused(at),
    ensures
        bucket.throttled(now, retry_after).grants(at) == bucket.grants(at),
        bucket.throttled(now, retry_after).available(at) == bucket.available(at),
{
}

/// A pause is extended, never shortened: afterwards it lasts at least as long as
/// it did and at least as long as the upstream asked.
pub proof fn law_a_pause_is_never_shortened(bucket: Bucket, now: int, retry_after: int, at: int)
    ensures
        bucket.is_paused(at) ==> bucket.throttled(now, retry_after).is_paused(at),
        at < now + retry_after ==> bucket.throttled(now, retry_after).is_paused(at),
        bucket.throttled(now, retry_after).is_paused(at) ==> bucket.is_paused(at) || at < now
            + retry_after,
{
}

/// The global pause: before it is over nothing is granted, however many tokens
/// there are and whatever happens meanwhile.
pub proof fn law_a_pause_freezes_all_grants(bucket: Bucket, events: Seq<Event>, until: int)
    requires
        bucket.paused_until matches Some(end) && until <= end,
        forall|i: int| 0 <= i < events.len() ==> (#[trigger] events[i]).now() < until,
    ensures
        granted(bucket, events) == 0,
        run(bucket, events).paused_until matches Some(end) && until <= end,
    decreases events.len(),
{
    if events.len() > 0 {
        let rest = events.drop_last();
        assert(events[events.len() - 1].now() < until);
        assert forall|i: int| 0 <= i < rest.len() implies (#[trigger] rest[i]).now() < until by {
            assert(rest[i] == events[i]);
        }
        law_a_pause_freezes_all_grants(bucket, rest, until);
    }
}

} // verus!
