//! The fault circuit breaker.
use crate::clock::Clock;
use vstd::prelude::*;

verus! {

/// Circuit breaker states.
#[derive(Debug, Clone, Copy, PartialEq, Eq, Structural)]
pub enum BreakerState {
    /// Normal operation: requests pass through.
    Closed,
    /// Fault threshold exceeded: all requests rejected.
    Open,
    /// Recovery window elapsed: one probe request allowed.
    HalfOpen,
}

/// Nanoseconds in a second.
pub const NANOS_PER_SEC: u128 = 1_000_000_000;

/// The breaker as a mathematical value. Times are nanoseconds of one clock.
pub struct BreakerModel {
    pub state: BreakerState,
    /// Failures since the last success.
    pub failures: nat,
    /// When the breaker last opened, if it has since the last success.
    pub opened_at: Option<u128>,
    /// Whether the probe request of a half-open breaker is on its way.
    pub probe_out: bool,
    pub threshold: nat,
    pub window: nat,
}

impl BreakerModel {
    /// A breaker that has seen nothing.
    pub open spec fn fresh(threshold: nat, window_secs: nat) -> Self {
        BreakerModel {
            state: BreakerState::Closed,
            failures: 0,
            opened_at: None,
            probe_out: false,
            threshold,
            window: window_secs * NANOS_PER_SEC as nat,
        }
    }

    /// Whether at `now` the recovery window of an open breaker has elapsed. A
    /// reading before the opening counts as no time elapsed.
    pub open spec fn recovery_due(self, now: u128) -> bool {
        match self.opened_at {
            Some(opened_at) => now >= opened_at + self.window || self.window == 0,
            None => false,
        }
    }

    /// A check at `now`.
    pub open spec fn checked(self, now: u128) -> Self {
        if self.state == BreakerState::Open && self.recovery_due(now) {
            BreakerModel { state: BreakerState::HalfOpen, probe_out: false, ..self }
        } else {
            self
        }
    }

    /// Whether the state lets a request through: a closed breaker does, an open
    /// one does not, and a half-open one does while its probe is not out.
    pub open spec fn passes(self) -> bool {
        match self.state {
            BreakerState::Closed => true,
            BreakerState::Open => false,
            BreakerState::HalfOpen => !self.probe_out,
        }
    }

    /// A request that was let through is on its way: it is the probe of a
    /// half-open breaker.
    pub open spec fn sent(self) -> Self {
        BreakerModel { probe_out: self.state == BreakerState::HalfOpen, ..self }
    }

    /// A recorded success.
    pub open spec fn succeeded(self) -> Self {
        BreakerModel {
            state: BreakerState::Closed,
            failures: 0,
            opened_at: None,
            probe_out: false,
            ..self
        }
    }

    /// A failure recorded at `now`.
    pub open spec fn failed(self, now: u128) -> Self {
        if self.failures + 1 >= self.threshold {
            BreakerModel {
                state: BreakerState::Open,
                failures: self.failures + 1,
                opened_at: Some(now),
                probe_out: false,
                ..self
            }
        } else {
            BreakerModel { failures: self.failures + 1, probe_out: false, ..self }
        }
    }

    /// A sequence of failures recorded at `times`.
    pub open spec fn failed_all(self, times: Seq<u128>) -> Self
        decreases times.len(),
    {
        if times.len() == 0 {
            self
        } else {
            self.failed_all(times.drop_last()).failed(times.last())
        }
    }

    /// Whatever is not closed has failed often enough and knows when it opened,
    /// and only a half-open breaker has a probe out.
    pub open spec fn wf(self) -> bool {
        &&& self.state != BreakerState::Closed ==> self.failures >= self.threshold
            && self.opened_at is Some
        &&& self.probe_out ==> self.state == BreakerState::HalfOpen
    }
}

/// The mutable state of the breaker.
#[derive(Debug)]
struct BreakerInner {
    state: BreakerState,
    consecutive_failures: u32,
    opened_at: Option<u128>,
    probe_out: bool,
}

/// Fault circuit breaker for genuine backend failures.
///
/// Standard Closed, Open, HalfOpen state machine. Separate from the AIMD
/// controller: that one handles the latency floor, the breaker handles failure.
#[derive(Debug)]
pub struct FaultCircuitBreaker {
    inner: BreakerInner,
    failure_threshold: u32,
    recovery_window: u128,
    clock: Clock,
}

impl View for FaultCircuitBreaker {
    type V = BreakerModel;

    closed spec fn view(&self) -> BreakerModel {
        BreakerModel {
            state: self.inner.state,
            failures: self.inner.consecutive_failures as nat,
            opened_at: self.inner.opened_at,
            probe_out: self.inner.probe_out,
            threshold: self.failure_threshold as nat,
            window: self.recovery_window as nat,
        }
    }
}

impl FaultCircuitBreaker {
    /// The clock that the breaker reads.
    pub closed spec fn clock(&self) -> Clock {
        self.clock
    }

    /// Create a new circuit breaker.
    pub fn new(failure_threshold: u32, recovery_window_secs: u64) -> (r: Self)
        ensures
            r@ == BreakerModel::fresh(failure_threshold as nat, recovery_window_secs as nat),
            r.clock().started(),
    {
        FaultCircuitBreaker {
            inner: BreakerInner {
                state: BreakerState::Closed,
                consecutive_failures: 0,
                opened_at: None,
                probe_out: false,
            },
            failure_threshold,
            recovery_window: recovery_window_secs as u128 * NANOS_PER_SEC,
            clock: Clock::start(),
        }
    }

    /// A reading of the breaker's clock. It depends on the machine, so nothing else
    /// is promised of it: `check_at` and `record_failure_at` hold for every reading.
    pub(crate) fn now(&self) -> (r: u128)
        ensures
            self.clock().reads(r),
    {
        self.clock.now()
    }

    /// Failures recorded since the last success.
    pub fn consecutive_failures(&self) -> (r: u32)
        ensures
            r == self@.failures,
    {
        self.inner.consecutive_failures
    }

    /// Check the current state, transitioning Open to HalfOpen if the recovery
    /// window has elapsed.
    pub fn check(&mut self) -> (r: BreakerState)
        ensures
            final(self).clock() == old(self).clock(),
            exists|now: u128|
                old(self).clock().reads(now) && final(self)@ == #[trigger] old(self)@.checked(now),
            r == final(self)@.state,
    {
        let now: u128 = self.now();
        self.check_at(now)
    }

    /// Check the state at `now`, transitioning Open to HalfOpen if the recovery
    /// window has elapsed by then.
    pub fn check_at(&mut self, now: u128) -> (r: BreakerState)
        ensures
            final(self).clock() == old(self).clock(),
            final(self)@ == old(self)@.checked(now),
            r == final(self)@.state,
    {
        if self.inner.state == BreakerState::Open {
            if let Some(opened_at) = self.inner.opened_at {
                let elapsed: u128 = if now >= opened_at {
                    now - opened_at
                } else {
                    0
                };
                if elapsed >= self.recovery_window {
                    self.inner.state = BreakerState::HalfOpen;
                    self.inner.probe_out = false;
                }
            }
        }
        self.inner.state
    }

    /// Whether the state lets a request through. A half-open breaker lets one
    /// through: its probe.
    pub fn allows_request(&self) -> (r: bool)
        ensures
            r == self@.passes(),
    {
        match self.inner.state {
            BreakerState::Closed => true,
            BreakerState::Open => false,
            BreakerState::HalfOpen => !self.inner.probe_out,
        }
    }

    /// Record that a request was sent on. From a half-open breaker it is the
    /// probe, and no other follows before an outcome is recorded.
    pub fn record_sent(&mut self)
        ensures
            final(self).clock() == old(self).clock(),
            final(self)@ == old(self)@.sent(),
    {
        self.inner.probe_out = self.inner.state == BreakerState::HalfOpen;
    }

    /// Record a successful response. Resets to Closed.
    pub fn record_success(&mut self)
        ensures
            final(self).clock() == old(self).clock(),
            final(self)@ == old(self)@.succeeded(),
    {
        self.inner.state = BreakerState::Closed;
        self.inner.consecutive_failures = 0;
        self.inner.opened_at = None;
        self.inner.probe_out = false;
    }

    /// Record a failed response. Increments the failure count and may
    /// transition to Open.
    pub fn record_failure(&mut self)
        requires
            old(self)@.failures < u32::MAX,
        ensures
            final(self).clock() == old(self).clock(),
            exists|now: u128|
                old(self).clock().reads(now) && final(self)@ == #[trigger] old(self)@.failed(now),
    {
        let now: u128 = self.now();
        self.record_failure_at(now)
    }

    /// Record a response that failed at `now`.
    pub fn record_failure_at(&mut self, now: u128)
        requires
            old(self)@.failures < u32::MAX,
        ensures
            final(self).clock() == old(self).clock(),
            final(self)@ == old(self)@.failed(now),
    {
        self.inner.consecutive_failures = self.inner.consecutive_failures + 1;
        self.inner.probe_out = false;
        if self.inner.consecutive_failures >= self.failure_threshold {
            self.inner.state = BreakerState::Open;
            self.inner.opened_at = Some(now);
        }
    }
}

/// What holds of a fresh breaker and is kept by everything that happens to one:
/// an open or half-open breaker has reached its threshold and knows when it
/// opened, and only a half-open one has a probe out.
pub proof fn law_open_means_threshold_reached(m: BreakerModel, now: u128)
    requires
        m.wf(),
    ensures
        BreakerModel::fresh(m.threshold, m.window).wf(),
        m.checked(now).wf(),
        m.sent().wf(),
        m.succeeded().wf(),
        m.failed(now).wf(),
{
}

/// From a recorded success on, the breaker stays closed for as long as fewer
/// failures than the threshold follow one another, and is open at the moment
/// that the threshold is reached and at every failure after it.
pub proof fn law_opens_exactly_at_the_threshold(m: BreakerModel, times: Seq<u128>)
    requires
        times.len() > 0,
    ensures
        ({
            let after = m.succeeded().failed_all(times);
            &&& after.failures == times.len()
            &&& times.len() < m.threshold ==> after.state == BreakerState::Closed
            &&& times.len() >= m.threshold ==> after.state == BreakerState::Open
                && after.opened_at == Some(times.last())
            &&& after.threshold == m.threshold
        }),
    decreases times.len(),
{
    if times.len() > 1 {
        law_opens_exactly_at_the_threshold(m, times.drop_last());
    } else {
        assert(m.succeeded().failed_all(times.drop_last()) == m.succeeded());
    }
}

/// A success closes the breaker from any state and forgets every failure.
pub proof fn law_success_closes_and_forgets(m: BreakerModel)
    ensures
        m.succeeded().state == BreakerState::Closed,
        m.succeeded().failures == 0,
        m.succeeded().opened_at is None,
        m.succeeded().passes(),
{
}

/// An open breaker stays open at every check before the recovery window has
/// elapsed and turns half-open at every check from then on. A closed or
/// half-open breaker is left alone.
pub proof fn law_probes_exactly_after_the_window(m: BreakerModel, opened_at: u128, now: u128)
    requires
        m.opened_at == Some(opened_at),
    ensures
        m.state == BreakerState::Open && opened_at <= now < opened_at + m.window ==> m.checked(now)
            == m,
        m.state == BreakerState::Open && now >= opened_at + m.window ==> m.checked(now).state
            == BreakerState::HalfOpen && m.checked(now).passes(),
        m.state != BreakerState::Open ==> m.checked(now) == m,
{
}

/// A half-open breaker lets one request through: once that is out, none passes
/// at any later check, until an outcome is recorded. A closed breaker lets
/// every request through.
pub proof fn law_half_open_lets_one_through(m: BreakerModel, now: u128)
    ensures
        m.state == BreakerState::HalfOpen ==> !m.sent().passes() && !m.sent().checked(now).passes(),
        m.state == BreakerState::Closed ==> m.passes() && m.sent().passes(),
        !m.succeeded().probe_out,
        !m.failed(now).probe_out,
{
}

/// A failed probe opens the breaker again, with a new recovery window from the
/// moment of the failure.
pub proof fn law_failed_probe_reopens(m: BreakerModel, now: u128)
    requires
        m.wf(),
        m.state == BreakerState::HalfOpen,
    ensures
        m.failed(now).state == BreakerState::Open,
        m.failed(now).opened_at == Some(now),
{
}

/// A new breaker is closed, has counted nothing, and waits its window in
/// nanoseconds.
pub proof fn law_a_new_breaker_is_closed(threshold: nat, window_secs: nat)
    ensures
        BreakerModel::fresh(threshold, window_secs) == (BreakerModel {
            state: BreakerState::Closed,
            failures: 0,
            opened_at: None,
            probe_out: false,
            threshold,
            window: 1_000_000_000 * window_secs,
        }),
{
}

/// Each failure counts, whatever the state. The one that reaches the threshold,
/// and each after it, opens the breaker at its moment. One short of the
/// threshold leaves the state alone. Any outcome takes the probe back in.
pub proof fn law_every_failure_counts(m: BreakerModel, now: u128)
    ensures
        m.failed(now).failures == m.failures + 1,
        m.failures + 1 >= m.threshold ==> m.failed(now).state == BreakerState::Open && m.failed(
            now,
        ).opened_at == Some(now),
        m.failures + 1 < m.threshold ==> m.failed(now).state == m.state && m.failed(now).opened_at
            == m.opened_at,
        !m.failed(now).probe_out,
        m.failed(now).threshold == m.threshold,
        m.failed(now).window == m.window,
        m.succeeded().threshold == m.threshold,
        m.succeeded().window == m.window,
        !m.succeeded().probe_out,
{
}

/// A check changes the state only of an open breaker, and only if its window
/// has passed since it opened: then requests may pass again, one at a time.
pub proof fn law_a_check_only_ends_the_window(m: BreakerModel, now: u128)
    ensures
        m.state != BreakerState::Open || m.opened_at is None ==> m.checked(now) == m,
        m.state == BreakerState::Open && m.opened_at is Some && m.window > 0 ==> {
            &&& now < m.opened_at->0 + m.window ==> m.checked(now) == m
            &&& now >= m.opened_at->0 + m.window ==> m.checked(now) == (BreakerModel {
                state: BreakerState::HalfOpen,
                probe_out: false,
                ..m
            })
        },
        m.state == BreakerState::Open && m.opened_at is Some && m.window == 0 ==> m.checked(now)
            == (BreakerModel { state: BreakerState::HalfOpen, probe_out: false, ..m }),
{
}

/// A closed breaker lets every request pass, an open one none, and a half-open
/// one as long as no request has been sent since. Sending one changes nothing
/// else.
pub proof fn law_who_may_pass(m: BreakerModel)
    ensures
        m.state == BreakerState::Closed ==> m.passes(),
        m.state == BreakerState::Open ==> !m.passes(),
        m.state == BreakerState::HalfOpen ==> (m.passes() <==> !m.probe_out),
        m.sent() == (BreakerModel { probe_out: m.state == BreakerState::HalfOpen, ..m }),
{
}

} // verus!
