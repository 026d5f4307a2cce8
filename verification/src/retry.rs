//! When to try again: a bounded number of attempts, each retry after twice
//! the wait of the one before.
//!
//! The schedule decides; whoever makes the attempts waits as long as it
//! says and reports failures by asking again.

use vstd::prelude::*;

verus! {

/// The wait before the first retry, in nanoseconds.
pub const FIRST_RETRY_DELAY: u128 = 100_000_000;

/// What to do about the next attempt.
#[derive(Clone, Copy, Debug, PartialEq, Eq)]
pub enum RetryStep {
    /// Wait for `delay` nanoseconds, then try.
    Try { delay: u128 },
    /// Every attempt has been made: give up.
    GiveUp,
}

/// `base` doubled `times` times.
pub open spec fn doubled(base: nat, times: nat) -> nat
    decreases times,
{
    if times == 0 {
        base
    } else {
        2 * doubled(base, (times - 1) as nat)
    }
}

/// The wait before attempt `attempt` (the first is attempt 0): none before
/// the first, [`FIRST_RETRY_DELAY`] before the second, and twice the last
/// wait before each one after that, as far as 128 bits go.
pub open spec fn delay_before(attempt: nat) -> nat {
    if attempt == 0 {
        0
    } else {
        let wait = doubled(FIRST_RETRY_DELAY as nat, (attempt - 1) as nat);
        if wait <= u128::MAX {
            wait
        } else {
            u128::MAX as nat
        }
    }
}

/// The state of a [`Backoff`].
pub struct BackoffView {
    pub max_retries: u32,
    /// Attempts granted so far.
    pub attempts: nat,
}

/// The schedule of one series of attempts.
pub struct Backoff {
    max_retries: u32,
    attempts: u64,
    next_delay: u128,
}

impl View for Backoff {
    type V = BackoffView;

    closed spec fn view(&self) -> BackoffView {
        BackoffView { max_retries: self.max_retries, attempts: self.attempts as nat }
    }
}

impl Backoff {
    #[verifier::type_invariant]
    spec fn consistent(self) -> bool {
        &&& self.attempts <= self.max_retries + 1
        &&& self.next_delay == delay_before(
            if self.attempts == 0 {
                1
            } else {
                self.attempts as nat
            },
        )
    }

    /// A schedule of one attempt and up to `max_retries` retries.
    pub fn new(max_retries: u32) -> (backoff: Backoff)
        ensures
            backoff@ == (BackoffView { max_retries, attempts: 0 }),
    {
        Backoff { max_retries, attempts: 0, next_delay: FIRST_RETRY_DELAY }
    }

    /// Attempts granted so far.
    pub fn attempts(&self) -> (attempts: u64)
        ensures
            attempts == self@.attempts,
    {
        self.attempts
    }

    /// Grants the next attempt, or gives up.
    ///
    /// To be asked before the first attempt and again after every failure.
    /// One attempt and `max_retries` retries are granted, each after the
    /// wait that [`delay_before`] gives; after that the answer is to give
    /// up, and stays so.
    pub fn next(&mut self) -> (step: RetryStep)
        ensures
            old(self)@.attempts <= old(self)@.max_retries ==> {
                &&& step == (RetryStep::Try { delay: delay_before(old(self)@.attempts) as u128 })
                &&& final(self)@ == (BackoffView {
                    attempts: old(self)@.attempts + 1,
                    ..old(self)@
                })
            },
            old(self)@.attempts > old(self)@.max_retries ==> {
                &&& step == RetryStep::GiveUp
                &&& final(self)@ == old(self)@
            },
    {
        proof {
            use_type_invariant(&*self);
        }
        if self.attempts > self.max_retries as u64 {
            return RetryStep::GiveUp;
        }
        if self.attempts == 0 {
            *self = Backoff {
                max_retries: self.max_retries,
                attempts: 1,
                next_delay: self.next_delay,
            };
            return RetryStep::Try { delay: 0 };
        }
        let delay: u128 = self.next_delay;
        let twice: u128 = if delay > u128::MAX / 2 {
            u128::MAX
        } else {
            delay * 2
        };
        proof {
            let k = (self.attempts - 1) as nat;
            assert(doubled(FIRST_RETRY_DELAY as nat, k + 1) == 2 * doubled(
                FIRST_RETRY_DELAY as nat,
                k,
            ));
            assert(twice == delay_before(self.attempts as nat + 1));
        }
        *self = Backoff {
            max_retries: self.max_retries,
            attempts: self.attempts + 1,
            next_delay: twice,
        };
        RetryStep::Try { delay }
    }
}

/// Until saturation each retry waits twice as long as the one before it.
pub proof fn lemma_delay_doubles(attempt: nat)
    requires
        attempt >= 1,
        2 * delay_before(attempt) <= u128::MAX,
    ensures
        delay_before(attempt + 1) == 2 * delay_before(attempt),
{
    let k = (attempt - 1) as nat;
    assert(doubled(FIRST_RETRY_DELAY as nat, k + 1) == 2 * doubled(FIRST_RETRY_DELAY as nat, k));
}

} // verus!
