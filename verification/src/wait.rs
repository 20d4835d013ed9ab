//! Pacing of the calls that go out to the listing site.
//!
//! A [`Waiter`] keeps a smallest interval between one call and the next. It
//! does not sleep and reads no clock: it is told the time, says how long to
//! pause, and is told when the call goes out. Times are nanoseconds on a
//! clock of the caller's choice that never runs backwards.

use vstd::prelude::*;

verus! {

/// The interval of a waiter made by [`Waiter::new`], in milliseconds.
pub const DEFAULT_WAIT_TIME: u64 = 500;

/// The number of nanoseconds in a millisecond.
pub const NANOS_PER_MILLI: u128 = 1_000_000;

/// What a waiter knows: the interval to keep, and when the last call went
/// out, if one did.
#[derive(Debug)]
pub struct Waiter {
    duration: u128,
    epoch: Option<u128>,
}

impl Clone for Waiter {
    fn clone(&self) -> (copy: Waiter)
        ensures
            copy == *self,
    {
        Waiter { duration: self.duration, epoch: self.epoch }
    }
}

impl Default for Waiter {
    fn default() -> (waiter: Waiter)
        ensures
            waiter.interval() == DEFAULT_WAIT_TIME * NANOS_PER_MILLI,
            waiter.last_call() is None,
    {
        Waiter::new()
    }
}

impl Waiter {
    /// The interval to keep between two calls, in nanoseconds.
    pub closed spec fn interval(self) -> nat {
        self.duration as nat
    }

    /// The time at which the last call went out.
    pub closed spec fn last_call(self) -> Option<nat> {
        match self.epoch {
            Some(at) => Some(at as nat),
            None => None,
        }
    }

    /// How long a caller has to pause at the time `now` before its call may
    /// go out: what is left of the interval since the last call, and nothing
    /// before the first call.
    pub open spec fn pause_at(self, now: nat) -> nat {
        match self.last_call() {
            None => 0,
            Some(at) => {
                let elapsed = if now >= at {
                    (now - at) as nat
                } else {
                    0
                };
                if elapsed < self.interval() {
                    (self.interval() - elapsed) as nat
                } else {
                    0
                }
            },
        }
    }

    /// A waiter that keeps the default interval.
    pub fn new() -> (waiter: Waiter)
        ensures
            waiter.interval() == DEFAULT_WAIT_TIME * NANOS_PER_MILLI,
            waiter.last_call() is None,
    {
        Waiter::with_wait(DEFAULT_WAIT_TIME)
    }

    /// A waiter that keeps an interval of the given length.
    pub fn with_wait(time_in_milliseconds: u64) -> (waiter: Waiter)
        ensures
            waiter.interval() == time_in_milliseconds * NANOS_PER_MILLI,
            waiter.last_call() is None,
    {
        assert(time_in_milliseconds * NANOS_PER_MILLI <= u128::MAX) by (nonlinear_arith)
            requires
                time_in_milliseconds <= u64::MAX,
                NANOS_PER_MILLI == 1_000_000,
        ;
        Waiter { duration: time_in_milliseconds as u128 * NANOS_PER_MILLI, epoch: None }
    }

    /// How many nanoseconds to pause at the time `now`.
    pub fn pause(&self, now: u128) -> (nanos: u128)
        ensures
            nanos == self.pause_at(now as nat),
    {
        match self.epoch {
            None => 0,
            Some(at) => {
                let elapsed: u128 = if now >= at {
                    now - at
                } else {
                    0
                };
                if elapsed < self.duration {
                    self.duration - elapsed
                } else {
                    0
                }
            },
        }
    }

    /// Notes that a call goes out at the time `now`.
    pub fn mark(&mut self, now: u128)
        ensures
            final(self).interval() == old(self).interval(),
            final(self).last_call() == Some(now as nat),
    {
        self.epoch = Some(now);
    }
}

/// A pause is never longer than the interval, and the first call does not
/// pause at all.
pub proof fn lemma_pause_is_bounded(waiter: Waiter, now: nat)
    ensures
        waiter.pause_at(now) <= waiter.interval(),
        waiter.last_call() is None ==> waiter.pause_at(now) == 0,
{
}

} // verus!
