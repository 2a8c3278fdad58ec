//! Per-stream smoothing of the inter-token latency.
//!
//! Binary64 arithmetic happens outside: [`StreamTracker::smoothing`] says what
//! a token arrival computes with, and [`StreamTracker::record_token`] takes the
//! resulting estimate.
use crate::binary64::Binary64;
use vstd::prelude::*;

verus! {

/// What the next smoothed latency is computed from.
#[derive(Debug, Clone, Copy, PartialEq, Eq, Structural)]
pub enum Smoothing {
    /// The first interval: its own length, in milliseconds.
    Seed { elapsed_nanos: u128 },
    /// A later interval of `elapsed_nanos`, `ms` in milliseconds:
    /// `alpha * ms + (1 - alpha) * previous`.
    Blend { alpha: Binary64, elapsed_nanos: u128, previous: Binary64 },
}

/// Per-stream moving average of the inter-token latency, exponentially weighted.
#[derive(Debug, Clone, Copy, PartialEq, Eq, Structural)]
pub struct StreamTracker {
    /// Current smoothed inter-token latency in milliseconds.
    pub smoothed_itl_ms: Binary64,
    /// Number of intervals observed (excludes the first-token event).
    pub intervals: u64,
    /// When the last token arrived, in nanoseconds of the stream's clock.
    pub last_token_time: u128,
    /// Smoothing factor.
    pub alpha: Binary64,
}

impl StreamTracker {
    /// A tracker that has seen no token.
    pub open spec fn fresh(alpha: Binary64, now: u128) -> Self {
        StreamTracker {
            smoothed_itl_ms: Binary64::zero_value(),
            intervals: 0,
            last_token_time: now,
            alpha,
        }
    }

    /// The first token arrived at `now`.
    pub open spec fn first_token_at(self, now: u128) -> Self {
        StreamTracker { last_token_time: now, ..self }
    }

    /// The time from the last token to `now`, zero if `now` lies before it.
    pub open spec fn elapsed_at(self, now: u128) -> u128 {
        if now >= self.last_token_time {
            (now - self.last_token_time) as u128
        } else {
            0
        }
    }

    /// What the estimate after a token at `now` is computed from.
    pub open spec fn smoothing_at(self, now: u128) -> Smoothing {
        if self.intervals == 0 {
            Smoothing::Seed { elapsed_nanos: self.elapsed_at(now) }
        } else {
            Smoothing::Blend {
                alpha: self.alpha,
                elapsed_nanos: self.elapsed_at(now),
                previous: self.smoothed_itl_ms,
            }
        }
    }

    /// A token arrived at `now`, and `smoothed` is the estimate that follows.
    pub open spec fn token_at(self, now: u128, smoothed: Binary64) -> Self {
        StreamTracker {
            smoothed_itl_ms: smoothed,
            intervals: (self.intervals + 1) as u64,
            last_token_time: now,
            ..self
        }
    }

    /// The estimate is replaced by `ms`.
    pub open spec fn corrected(self, ms: Binary64) -> Self {
        StreamTracker { smoothed_itl_ms: ms, ..self }
    }

    /// Create a new tracker with the given smoothing factor, at `now`.
    pub fn new(alpha: Binary64, now: u128) -> (r: Self)
        ensures
            r == Self::fresh(alpha, now),
    {
        StreamTracker {
            smoothed_itl_ms: Binary64::zero(),
            intervals: 0,
            last_token_time: now,
            alpha,
        }
    }

    /// Record the first token arrival. Seeds `last_token_time` without
    /// computing an interval (the time to the first token is no decode interval).
    pub fn record_first_token(&mut self, now: u128)
        ensures
            *final(self) == old(self).first_token_at(now),
    {
        self.last_token_time = now;
    }

    /// What the estimate after a token at `now` is computed from.
    pub fn smoothing(&self, now: u128) -> (r: Smoothing)
        ensures
            r == self.smoothing_at(now),
    {
        let elapsed_nanos: u128 = if now >= self.last_token_time {
            now - self.last_token_time
        } else {
            0
        };
        if self.intervals == 0 {
            Smoothing::Seed { elapsed_nanos }
        } else {
            Smoothing::Blend {
                alpha: self.alpha,
                elapsed_nanos,
                previous: self.smoothed_itl_ms,
            }
        }
    }

    /// Record a subsequent token arrival, with the value of
    /// `self.smoothing(now)`. Returns the new smoothed latency in milliseconds.
    pub fn record_token(&mut self, now: u128, smoothed: Binary64) -> (r: Binary64)
        requires
            old(self).intervals < u64::MAX,
        ensures
            *final(self) == old(self).token_at(now, smoothed),
            final(self).intervals == old(self).intervals + 1,
            r == smoothed,
    {
        self.last_token_time = now;
        self.smoothed_itl_ms = smoothed;
        self.intervals = self.intervals + 1;
        self.smoothed_itl_ms
    }

    /// Override the estimate with the ground-truth timing from the terminal event.
    pub fn apply_terminal_correction(&mut self, ms: Binary64)
        ensures
            *final(self) == old(self).corrected(ms),
    {
        self.smoothed_itl_ms = ms;
    }

    /// Current smoothed inter-token latency in milliseconds.
    pub fn smoothed_itl_ms(&self) -> (r: Binary64)
        ensures
            r == self.smoothed_itl_ms,
    {
        self.smoothed_itl_ms
    }

    /// Number of inter-token intervals observed.
    pub fn intervals(&self) -> (r: u64)
        ensures
            r == self.intervals,
    {
        self.intervals
    }
}

/// The first interval seeds the estimate from its length alone, whatever the
/// tracker held, and every later one blends with the estimate before it.
pub proof fn law_first_interval_seeds(t: StreamTracker, first: u128, now: u128, s: Binary64)
    requires
        t.intervals < u64::MAX,
        first <= now,
    ensures
        t.intervals == 0 ==> t.first_token_at(first).smoothing_at(now) == (Smoothing::Seed {
            elapsed_nanos: (now - first) as u128,
        }),
        t.token_at(now, s).smoothing_at(now) == (Smoothing::Blend {
            alpha: t.alpha,
            elapsed_nanos: 0,
            previous: s,
        }),
{
}

/// A correction replaces the estimate and nothing else, and the next interval
/// blends with it.
pub proof fn law_correction_overrides_the_estimate(t: StreamTracker, ms: Binary64, now: u128)
    ensures
        t.corrected(ms).smoothed_itl_ms == ms,
        t.corrected(ms).intervals == t.intervals,
        t.corrected(ms).last_token_time == t.last_token_time,
        t.corrected(ms).elapsed_at(now) == t.elapsed_at(now),
        t.intervals > 0 ==> t.corrected(ms).smoothing_at(now) == (Smoothing::Blend {
            alpha: t.alpha,
            elapsed_nanos: t.elapsed_at(now),
            previous: ms,
        }),
{
}

/// What each event does to a tracker. A new one has no estimate and counts from
/// its start. The first token moves only the time that the next is measured
/// from. A later token moves that time, counts one interval and takes the new
/// estimate. A correction takes an estimate and nothing else.
pub proof fn law_what_events_change(t: StreamTracker, alpha: Binary64, now: u128, s: Binary64)
    requires
        t.intervals < u64::MAX,
    ensures
        StreamTracker::fresh(alpha, now) == (StreamTracker {
            smoothed_itl_ms: (Binary64 { bits: 0 }),
            intervals: 0,
            last_token_time: now,
            alpha,
        }),
        t.first_token_at(now) == (StreamTracker { last_token_time: now, ..t }),
        t.token_at(now, s).smoothed_itl_ms == s,
        t.token_at(now, s).intervals == t.intervals + 1,
        t.token_at(now, s).last_token_time == now,
        t.token_at(now, s).alpha == t.alpha,
        t.corrected(s) == (StreamTracker { smoothed_itl_ms: s, ..t }),
{
}

/// A token is measured from the one before it: the first interval stands for
/// itself, and every later one is blended with the estimate so far by the
/// tracker's own factor. The time in between is never negative.
pub proof fn law_a_token_is_measured_from_the_last(t: StreamTracker, now: u128)
    ensures
        now >= t.last_token_time && t.intervals == 0 ==> t.smoothing_at(now) == (Smoothing::Seed {
            elapsed_nanos: (now - t.last_token_time) as u128,
        }),
        now >= t.last_token_time && t.intervals > 0 ==> t.smoothing_at(now) == (Smoothing::Blend {
            alpha: t.alpha,
            elapsed_nanos: (now - t.last_token_time) as u128,
            previous: t.smoothed_itl_ms,
        }),
        now < t.last_token_time && t.intervals == 0 ==> t.smoothing_at(now) == (Smoothing::Seed {
            elapsed_nanos: 0,
        }),
        now < t.last_token_time && t.intervals > 0 ==> t.smoothing_at(now) == (Smoothing::Blend {
            alpha: t.alpha,
            elapsed_nanos: 0,
            previous: t.smoothed_itl_ms,
        }),
{
}

} // verus!
