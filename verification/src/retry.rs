//! Bounded retry-with-fixed-delay, as a decision state machine.
//!
//! The operations it guards (process, mapping and device discovery) block or
//! sleep, so the loop that performs them lives outside the library.  The
//! library decides: after each failure the caller reports, `on_failure` says
//! whether to try again after the fixed delay or to give up with the attempt
//! count.  The delay is constant per schedule — the guarded operations are
//! infrequent and human-timescale, so no jitter or growth is warranted.

use vstd::prelude::*;

verus! {

/// What the caller should do after a failed attempt.
#[derive(Debug, Clone, Copy, PartialEq, Eq, Structural)]
pub enum RetryDecision {
    /// Sleep this many seconds, then try once more.
    RetryAfter(u64),
    /// Attempts are exhausted: surface the last error, annotated with the
    /// attempt count carried here.
    GiveUp(u32),
}

/// A bounded retry schedule: at most `max_attempts` tries, a fixed
/// `delay_secs` between them, and the number of failures seen so far.
#[derive(Debug, Clone, Copy, PartialEq, Eq, Structural)]
pub struct RetrySchedule {
    pub max_attempts: u32,
    pub delay_secs: u64,
    pub attempts: u32,
}

impl RetrySchedule {
    /// A fresh schedule with no attempt made yet.
    pub fn new(max_attempts: u32, delay_secs: u64) -> (r: RetrySchedule)
        ensures
            r == (RetrySchedule { max_attempts, delay_secs, attempts: 0 }),
    {
        RetrySchedule { max_attempts, delay_secs, attempts: 0 }
    }

    /// Record one failed attempt and decide what follows: retry after the
    /// fixed delay while fewer than `max_attempts` tries have failed, give up
    /// once the bound is reached.  The count saturates instead of wrapping,
    /// so a caller that keeps reporting failures keeps being told to give up.
    pub fn on_failure(&mut self) -> (d: RetryDecision)
        ensures
            final(self).max_attempts == old(self).max_attempts,
            final(self).delay_secs == old(self).delay_secs,
            final(self).attempts == if old(self).attempts < u32::MAX {
                (old(self).attempts + 1) as u32
            } else {
                u32::MAX
            },
            d == if final(self).attempts >= final(self).max_attempts {
                RetryDecision::GiveUp(final(self).max_attempts)
            } else {
                RetryDecision::RetryAfter(final(self).delay_secs)
            },
    {
        if self.attempts < u32::MAX {
            self.attempts = self.attempts + 1;
        }
        if self.attempts >= self.max_attempts {
            RetryDecision::GiveUp(self.max_attempts)
        } else {
            RetryDecision::RetryAfter(self.delay_secs)
        }
    }
}

} // verus!
