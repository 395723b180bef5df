use meta_feeder_sdk::budget::{give_up, Lease, RateBudget, Step};

const NANO: f64 = 1_000_000_000.0;
const SECOND: u128 = 1_000_000_000;
const MILLISECOND: u128 = 1_000_000;

/// A bucket and a clock that advances by exactly the waits it asks for.
struct Sim {
    budget: RateBudget,
    now: u128,
}

impl Sim {
    fn new(refill_per_sec: f64, capacity: f64) -> Sim {
        Sim {
            budget: RateBudget::new((refill_per_sec * NANO) as u64, (capacity * NANO) as u64, 0),
            now: 0,
        }
    }

    fn acquire(&mut self, deadline: u128) -> Lease {
        let give_up_at = self.now + deadline;
        loop {
            match self.budget.acquire(self.now, give_up_at) {
                Step::Done(lease) => return lease,
                Step::Wait(wait) => self.now += wait,
            }
            if let Some(lease) = give_up(self.now, give_up_at) {
                return lease;
            }
        }
    }

    fn note_throttled(&mut self, retry_after: u128) {
        self.budget.note_throttled(self.now, retry_after);
    }
}

#[test]
fn grants_up_to_capacity_immediately() {
    let mut b = Sim::new(3.0, 3.0);
    for _ in 0..3 {
        assert_eq!(b.acquire(10 * SECOND), Lease::Granted);
    }
    assert_eq!(b.now, 0);
}

#[test]
fn next_token_waits_for_refill() {
    let mut b = Sim::new(2.0, 2.0); // 2/s sustained
    for _ in 0..2 {
        assert_eq!(b.acquire(10 * SECOND), Lease::Granted);
    }
    // Bucket empty; next grant must wait ~0.5 s for one token at 2/s.
    let start = b.now;
    assert_eq!(b.acquire(10 * SECOND), Lease::Granted);
    assert!(b.now - start >= 450 * MILLISECOND, "expected to wait ~0.5s for refill, waited {:?}", b.now - start);
    assert_eq!(b.now - start, 500 * MILLISECOND);
}

#[test]
fn musicbrainz_shape_holds_one_per_second() {
    let mut b = Sim::new(1.0, 1.0);
    let start = b.now;
    for _ in 0..4 {
        assert_eq!(b.acquire(30 * SECOND), Lease::Granted);
    }
    assert!(b.now - start >= 1_900 * MILLISECOND, "4 calls at 1/s (burst 2) must take ~2s, took {:?}", b.now - start);
    assert_eq!(b.now - start, 3 * SECOND);
}

#[test]
fn deadline_exceeded_when_drained() {
    let mut b = Sim::new(0.001, 1.0); // effectively no refill within the test
    assert_eq!(b.acquire(SECOND), Lease::Granted);
    assert_eq!(b.acquire(200 * MILLISECOND), Lease::DeadlineExceeded);
    assert_eq!(b.now, 200 * MILLISECOND);
}

#[test]
fn note_throttled_pauses_grants_even_with_tokens_available() {
    let mut b = Sim::new(100.0, 100.0);
    b.note_throttled(2 * SECOND);
    assert_eq!(b.acquire(500 * MILLISECOND), Lease::DeadlineExceeded);
    // After the pause window, grants resume.
    assert_eq!(b.acquire(5 * SECOND), Lease::Granted);
    assert_eq!(b.now, 2 * SECOND);
}

#[test]
fn a_shorter_retry_after_does_not_shorten_an_existing_pause() {
    let mut b = Sim::new(100.0, 100.0);
    b.note_throttled(10 * SECOND);
    b.note_throttled(1 * SECOND);
    assert_eq!(b.acquire(3 * SECOND), Lease::DeadlineExceeded);
}

#[test]
fn a_longer_retry_after_extends_an_existing_pause() {
    let mut b = Sim::new(100.0, 100.0);
    b.note_throttled(1 * SECOND);
    b.note_throttled(10 * SECOND);
    assert_eq!(b.acquire(30 * SECOND), Lease::Granted);
    assert_eq!(b.now, 10 * SECOND);
}

#[test]
fn a_wait_ends_with_the_next_whole_token() {
    let mut b = RateBudget::new(3_000_000_000, 1_000_000_000, 0);
    assert_eq!(b.acquire(0, SECOND), Step::Done(Lease::Granted));
    // A third of a second, rounded up to whole nanoseconds.
    assert_eq!(b.acquire(0, SECOND), Step::Wait(333_333_334));
    assert_eq!(b.acquire(333_333_333, SECOND), Step::Wait(1));
    assert_eq!(b.acquire(333_333_334, SECOND), Step::Done(Lease::Granted));
}

#[test]
fn a_wait_is_cut_at_the_deadline_and_a_token_at_the_deadline_is_too_late() {
    let mut b = Sim::new(1.0, 1.0);
    assert_eq!(b.acquire(SECOND), Lease::Granted);
    assert_eq!(b.acquire(SECOND), Lease::DeadlineExceeded);
    assert_eq!(b.now, SECOND);
    // The token that was not fetched is there for the next caller.
    assert_eq!(b.acquire(0), Lease::Granted);
}

#[test]
fn waiting_spends_nothing() {
    let mut b = RateBudget::new(1_000_000_000, 2_000_000_000, 0);
    assert_eq!(b.acquire(0, SECOND), Step::Done(Lease::Granted));
    assert_eq!(b.acquire(0, SECOND), Step::Done(Lease::Granted));
    for now in 0..5u128 {
        assert_eq!(b.acquire(now * 100 * MILLISECOND, 10 * SECOND), Step::Wait(SECOND - now * 100 * MILLISECOND));
    }
    assert_eq!(b.acquire(SECOND, 10 * SECOND), Step::Done(Lease::Granted));
    assert_eq!(b.acquire(SECOND, 10 * SECOND), Step::Wait(SECOND));
}

#[test]
fn tokens_accrue_up_to_the_capacity_and_no_further() {
    let mut b = Sim::new(5.0, 2.0);
    b.now = 1_000_000 * SECOND;
    assert_eq!(b.acquire(0), Lease::Granted);
    assert_eq!(b.acquire(0), Lease::Granted);
    assert_eq!(b.acquire(0), Lease::DeadlineExceeded);
}

#[test]
fn a_bucket_that_never_refills_waits_out_its_deadline() {
    let mut b = RateBudget::new(0, 1_000_000_000, 0);
    assert_eq!(b.acquire(0, SECOND), Step::Done(Lease::Granted));
    assert_eq!(b.acquire(10, SECOND), Step::Wait(SECOND - 10));
    assert_eq!(b.acquire(u128::MAX, 0), Step::Done(Lease::DeadlineExceeded));
}

#[test]
fn tokens_accrue_through_a_pause() {
    let mut b = Sim::new(1.0, 10.0);
    for _ in 0..10 {
        assert_eq!(b.acquire(0), Lease::Granted);
    }
    b.note_throttled(3 * SECOND);
    assert_eq!(b.acquire(10 * SECOND), Lease::Granted);
    assert_eq!(b.now, 3 * SECOND);
    assert_eq!(b.acquire(0), Lease::Granted);
    assert_eq!(b.acquire(0), Lease::Granted);
    assert_eq!(b.acquire(0), Lease::DeadlineExceeded);
}

#[test]
fn no_window_hands_out_more_than_capacity_and_rate_allow() {
    let mut b = RateBudget::new(2_000_000_000, 3_000_000_000, 0);
    let mut grants = 0u128;
    for tick in 0..1_000u128 {
        if b.acquire(tick * 10 * MILLISECOND, 0) == Step::Done(Lease::Granted) {
            grants += 1;
        }
    }
    // 9.99 s at 2/s, and a burst of 3.
    assert_eq!(grants, 22);
}

#[test]
fn give_up_is_decided_by_the_clock() {
    assert_eq!(give_up(4, 5), None);
    assert_eq!(give_up(5, 5), Some(Lease::DeadlineExceeded));
    assert_eq!(give_up(6, 5), Some(Lease::DeadlineExceeded));
}

#[test]
fn an_acquisition_ends_at_the_first_moment_with_a_token() {
    // At three tokens in ten seconds a token takes no whole number of nanoseconds.
    let mut b = Sim::new(0.3, 1.0);
    assert_eq!(b.acquire(SECOND), Lease::Granted);
    assert_eq!(b.acquire(10 * SECOND), Lease::Granted);
    assert_eq!(b.now, 3_333_333_334);

    // A token at the very moment of the deadline comes too late, and is still there.
    let mut b = Sim::new(1.0, 1.0);
    assert_eq!(b.acquire(0), Lease::Granted);
    assert_eq!(b.acquire(SECOND), Lease::DeadlineExceeded);
    assert_eq!(b.now, SECOND);
    assert_eq!(b.acquire(0), Lease::Granted);
}

#[test]
fn after_a_pause_the_tokens_decide_again() {
    let mut b = Sim::new(1.0, 2.0);
    assert_eq!(b.acquire(0), Lease::Granted);
    assert_eq!(b.acquire(0), Lease::Granted);
    b.note_throttled(300 * MILLISECOND);
    // Nothing comes before the pause is over, nor before the next whole token.
    assert_eq!(b.acquire(10 * SECOND), Lease::Granted);
    assert_eq!(b.now, SECOND);
}

#[test]
fn looking_at_the_bucket_in_between_changes_nothing() {
    let mut looked = RateBudget::new(1_000_000_000, 1_000_000_000, 0);
    let mut alone = RateBudget::new(1_000_000_000, 1_000_000_000, 0);
    assert_eq!(looked.acquire(0, 0), Step::Done(Lease::Granted));
    assert_eq!(alone.acquire(0, 0), Step::Done(Lease::Granted));
    for now in [1, 7, 7, 400_000_000, 3] {
        looked.refill(now);
    }
    assert_eq!(looked.acquire(600_000_000, SECOND * 5), Step::Wait(400_000_000));
    assert_eq!(alone.acquire(600_000_000, SECOND * 5), Step::Wait(400_000_000));
}
