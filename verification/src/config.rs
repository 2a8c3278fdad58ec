//! Configuration of the controller and its validation.
use crate::binary64::Binary64;
use vstd::prelude::*;

verus! {

/// Configuration for the latency-floor concurrency controller.
#[derive(Debug, Clone, Copy)]
pub struct SmoothieConfig {
    /// Per-stream decode-rate floor in tokens per second.
    /// When `None`, the controller uses derivative-based crossover detection
    /// instead of a fixed floor.
    pub floor_tps: Option<Binary64>,
    /// Fractional latency increase that triggers multiplicative decrease in
    /// derivative mode. Must be in the open interval (0, 1).
    pub sensitivity: Binary64,
    /// Slack below the floor (in ms) before additive increase.
    pub headroom_ms: u64,
    /// Multiplicative decrease factor.
    pub beta: Binary64,
    /// Smoothing factor for inter-token latency.
    pub ewma_alpha: Binary64,
    /// Consecutive over/under-threshold steps before acting.
    pub hysteresis_steps: u32,
    /// Minimum admission ceiling.
    pub ceiling_min: u32,
    /// Maximum admission ceiling.
    pub ceiling_max: u32,
    /// Initial ceiling. If unset, `ceiling_max` with a fixed floor and
    /// `ceiling_min` without one.
    pub ceiling_init: Option<u32>,
    /// Consecutive failures before the circuit opens.
    pub cb_consecutive_failures: u32,
    /// Seconds before a probe after the circuit opens.
    pub cb_recovery_window_secs: u64,
}

/// Whether `x` lies in the open interval from zero to one.
pub open spec fn in_open_unit(x: Binary64) -> bool {
    x.positive() && x.less(Binary64::one_value())
}

/// Whether `x` lies above zero and at most at one.
pub open spec fn in_half_open_unit(x: Binary64) -> bool {
    x.positive() && Binary64::one_value().at_least(x)
}

impl SmoothieConfig {
    /// Whether the rate floor, if set, is a finite number greater than zero.
    pub open spec fn floor_ok(self) -> bool {
        self.floor_tps is Some ==> self.floor_tps->0.finite() && self.floor_tps->0.positive()
    }

    /// Whether the initial ceiling, if set, lies within the bounds.
    pub open spec fn init_ok(self) -> bool {
        self.ceiling_init is Some ==> self.ceiling_min <= self.ceiling_init->0 <= self.ceiling_max
    }

    /// The message of the first rule that the configuration breaks.
    pub open spec fn first_violation(self) -> Option<Seq<char>> {
        if !self.floor_ok() {
            Some("floor_tps must be a finite number greater than 0"@)
        } else if !in_open_unit(self.sensitivity) {
            Some("sensitivity must be in the open interval (0, 1)"@)
        } else if !in_open_unit(self.beta) {
            Some("beta must be in the open interval (0, 1)"@)
        } else if !in_half_open_unit(self.ewma_alpha) {
            Some("ewma_alpha must be in the half-open interval (0, 1]"@)
        } else if self.ceiling_min < 1 {
            Some("ceiling_min must be at least 1"@)
        } else if self.ceiling_max < self.ceiling_min {
            Some("ceiling_max must be >= ceiling_min"@)
        } else if !self.init_ok() {
            Some("ceiling_init must be between ceiling_min and ceiling_max"@)
        } else if self.cb_consecutive_failures == 0 {
            Some("cb_consecutive_failures must be at least 1"@)
        } else if self.cb_recovery_window_secs == 0 {
            Some("cb_recovery_window_secs must be at least 1"@)
        } else {
            None
        }
    }

    /// Whether the configuration breaks no rule.
    pub open spec fn valid(self) -> bool {
        &&& self.floor_ok()
        &&& in_open_unit(self.sensitivity)
        &&& in_open_unit(self.beta)
        &&& in_half_open_unit(self.ewma_alpha)
        &&& 1 <= self.ceiling_min <= self.ceiling_max
        &&& self.init_ok()
        &&& self.cb_consecutive_failures >= 1
        &&& self.cb_recovery_window_secs >= 1
    }

    /// The ceiling to start from.
    pub open spec fn starting_ceiling(self) -> u32 {
        match self.ceiling_init {
            Some(init) => init,
            None => if self.floor_tps is None {
                self.ceiling_min
            } else {
                self.ceiling_max
            },
        }
    }

    /// The configuration with every field at its default.
    pub open spec fn default_value() -> Self {
        SmoothieConfig {
            floor_tps: None,
            sensitivity: Binary64 { bits: DEFAULT_SENSITIVITY_BITS },
            headroom_ms: 15,
            beta: Binary64 { bits: DEFAULT_BETA_BITS },
            ewma_alpha: Binary64 { bits: DEFAULT_EWMA_ALPHA_BITS },
            hysteresis_steps: 3,
            ceiling_min: 1,
            ceiling_max: 64,
            ceiling_init: None,
            cb_consecutive_failures: 5,
            cb_recovery_window_secs: 30,
        }
    }

    /// Derived inter-token latency floor in milliseconds, where `ms_per_token`
    /// is `1000 / floor_tps`. Returns `None` when derivative mode is active (no
    /// fixed floor); `ms_per_token` is not read then.
    pub fn floor_ms(&self, ms_per_token: Binary64) -> (r: Option<Binary64>)
        ensures
            self.floor_tps is None ==> r is None,
            self.floor_tps is Some ==> r == Some(ms_per_token),
    {
        if self.floor_tps.is_some() {
            Some(ms_per_token)
        } else {
            None
        }
    }

    /// The ceiling to start from. Derivative mode starts at `ceiling_min` and
    /// probes upward; fixed-floor mode starts at `ceiling_max` and decreases
    /// toward equilibrium.
    pub fn initial_ceiling(&self) -> (r: u32)
        ensures
            r == self.starting_ceiling(),
    {
        match self.ceiling_init {
            Some(init) => init,
            None => if self.floor_tps.is_none() {
                self.ceiling_min
            } else {
                self.ceiling_max
            },
        }
    }

    /// Validate all config invariants. Returns an error message on failure.
    pub fn validate(&self) -> (r: Result<(), String>)
        ensures
            r is Ok <==> self.valid(),
            r is Err <==> self.first_violation() is Some,
            r is Err ==> r->Err_0@ == self.first_violation()->0,
    {
        if let Some(tps) = self.floor_tps {
            if !tps.is_finite() || !tps.is_positive() {
                return Err("floor_tps must be a finite number greater than 0".to_owned());
            }
        }
        if !self.sensitivity.is_positive() || !self.sensitivity.is_less(Binary64::one()) {
            return Err("sensitivity must be in the open interval (0, 1)".to_owned());
        }
        if !self.beta.is_positive() || !self.beta.is_less(Binary64::one()) {
            return Err("beta must be in the open interval (0, 1)".to_owned());
        }
        if !self.ewma_alpha.is_positive() || !Binary64::one().is_at_least(self.ewma_alpha) {
            return Err("ewma_alpha must be in the half-open interval (0, 1]".to_owned());
        }
        if self.ceiling_min < 1 {
            return Err("ceiling_min must be at least 1".to_owned());
        }
        if self.ceiling_max < self.ceiling_min {
            return Err("ceiling_max must be >= ceiling_min".to_owned());
        }
        if let Some(init) = self.ceiling_init {
            if init < self.ceiling_min || init > self.ceiling_max {
                return Err("ceiling_init must be between ceiling_min and ceiling_max".to_owned());
            }
        }
        if self.cb_consecutive_failures == 0 {
            return Err("cb_consecutive_failures must be at least 1".to_owned());
        }
        if self.cb_recovery_window_secs == 0 {
            return Err("cb_recovery_window_secs must be at least 1".to_owned());
        }
        Ok(())
    }
}

impl Default for SmoothieConfig {
    fn default() -> (r: Self)
        ensures
            r == Self::default_value(),
            r.valid(),
    {
        SmoothieConfig {
            floor_tps: None,
            sensitivity: default_sensitivity(),
            headroom_ms: default_headroom_ms(),
            beta: default_beta(),
            ewma_alpha: default_ewma_alpha(),
            hysteresis_steps: default_hysteresis_steps(),
            ceiling_min: default_ceiling_min(),
            ceiling_max: default_ceiling_max(),
            ceiling_init: None,
            cb_consecutive_failures: default_cb_consecutive_failures(),
            cb_recovery_window_secs: default_cb_recovery_window_secs(),
        }
    }
}

/// The pattern of 0.10.
pub const DEFAULT_SENSITIVITY_BITS: u64 = 0x3fb9_9999_9999_999a;

/// The pattern of 0.8.
pub const DEFAULT_BETA_BITS: u64 = 0x3fe9_9999_9999_999a;

/// The pattern of 0.3.
pub const DEFAULT_EWMA_ALPHA_BITS: u64 = 0x3fd3_3333_3333_3333;

/// Default of `sensitivity`: 0.10.
pub fn default_sensitivity() -> (r: Binary64)
    ensures
        r == SmoothieConfig::default_value().sensitivity,
{
    Binary64::from_bits(DEFAULT_SENSITIVITY_BITS)
}

/// Default of `headroom_ms`.
pub fn default_headroom_ms() -> (r: u64)
    ensures
        r == SmoothieConfig::default_value().headroom_ms,
{
    15
}

/// Default of `beta`: 0.8.
pub fn default_beta() -> (r: Binary64)
    ensures
        r == SmoothieConfig::default_value().beta,
{
    Binary64::from_bits(DEFAULT_BETA_BITS)
}

/// Default of `ewma_alpha`: 0.3.
pub fn default_ewma_alpha() -> (r: Binary64)
    ensures
        r == SmoothieConfig::default_value().ewma_alpha,
{
    Binary64::from_bits(DEFAULT_EWMA_ALPHA_BITS)
}

/// Default of `hysteresis_steps`.
pub fn default_hysteresis_steps() -> (r: u32)
    ensures
        r == SmoothieConfig::default_value().hysteresis_steps,
{
    3
}

/// Default of `ceiling_min`.
pub fn default_ceiling_min() -> (r: u32)
    ensures
        r == SmoothieConfig::default_value().ceiling_min,
{
    1
}

/// Default of `ceiling_max`.
pub fn default_ceiling_max() -> (r: u32)
    ensures
        r == SmoothieConfig::default_value().ceiling_max,
{
    64
}

/// Default of `cb_consecutive_failures`.
pub fn default_cb_consecutive_failures() -> (r: u32)
    ensures
        r == SmoothieConfig::default_value().cb_consecutive_failures,
{
    5
}

/// Default of `cb_recovery_window_secs`.
pub fn default_cb_recovery_window_secs() -> (r: u64)
    ensures
        r == SmoothieConfig::default_value().cb_recovery_window_secs,
{
    30
}

/// A configuration is accepted exactly where no rule names a violation.
pub proof fn law_valid_means_no_violation(c: SmoothieConfig)
    ensures
        c.valid() <==> c.first_violation() is None,
{
}

/// A valid configuration starts within its bounds, with room for at least one stream.
pub proof fn law_start_lies_within_bounds(c: SmoothieConfig)
    requires
        c.valid(),
    ensures
        1 <= c.ceiling_min <= c.starting_ceiling() <= c.ceiling_max,
{
}

/// What a valid configuration is, in terms of its fields. A floor, if set, is
/// positive and finite. Sensitivity and factor lie between zero and one, and the
/// smoothing factor there or at one. The bounds hold at least one stream, are in
/// order, and hold the initial ceiling, if set. The breaker waits for at least
/// one failure and one second.
pub proof fn law_what_is_valid(c: SmoothieConfig)
    ensures
        c.valid() <==> {
            &&& c.floor_tps is None || 0 < c.floor_tps->0.bits < 0x7ff0_0000_0000_0000
            &&& 0 < c.sensitivity.bits < 0x3ff0_0000_0000_0000
            &&& 0 < c.beta.bits < 0x3ff0_0000_0000_0000
            &&& 0 < c.ewma_alpha.bits <= 0x3ff0_0000_0000_0000
            &&& 1 <= c.ceiling_min <= c.ceiling_max
            &&& c.ceiling_init is None || c.ceiling_min <= c.ceiling_init->0 <= c.ceiling_max
            &&& c.cb_consecutive_failures >= 1
            &&& c.cb_recovery_window_secs >= 1
        },
{
}

/// Mending the rule that is named leads on: a configuration is refused with the
/// message of a rule exactly if it breaks that rule and none before it.
pub proof fn law_the_first_broken_rule_is_named(c: SmoothieConfig)
    ensures
        ({
            let floor = c.floor_tps is None || 0 < c.floor_tps->0.bits < 0x7ff0_0000_0000_0000;
            let sensitivity = floor && 0 < c.sensitivity.bits < 0x3ff0_0000_0000_0000;
            let beta = sensitivity && 0 < c.beta.bits < 0x3ff0_0000_0000_0000;
            let alpha = beta && 0 < c.ewma_alpha.bits <= 0x3ff0_0000_0000_0000;
            let min = alpha && c.ceiling_min >= 1;
            let max = min && c.ceiling_max >= c.ceiling_min;
            let init = max && (c.ceiling_init is None || c.ceiling_min <= c.ceiling_init->0
                <= c.ceiling_max);
            let failures = init && c.cb_consecutive_failures >= 1;
            let window = failures && c.cb_recovery_window_secs >= 1;
            let named = c.first_violation();
            &&& !floor ==> named == Some("floor_tps must be a finite number greater than 0"@)
            &&& floor && !sensitivity ==> named == Some(
                "sensitivity must be in the open interval (0, 1)"@,
            )
            &&& sensitivity && !beta ==> named == Some("beta must be in the open interval (0, 1)"@)
            &&& beta && !alpha ==> named == Some(
                "ewma_alpha must be in the half-open interval (0, 1]"@,
            )
            &&& alpha && !min ==> named == Some("ceiling_min must be at least 1"@)
            &&& min && !max ==> named == Some("ceiling_max must be >= ceiling_min"@)
            &&& max && !init ==> named == Some(
                "ceiling_init must be between ceiling_min and ceiling_max"@,
            )
            &&& init && !failures ==> named == Some("cb_consecutive_failures must be at least 1"@)
            &&& failures && !window ==> named == Some("cb_recovery_window_secs must be at least 1"@)
            &&& window ==> named is None
        }),
{
}

/// A configured initial ceiling is taken as it is. Without one, a fixed floor
/// starts from the top and no floor from the bottom.
pub proof fn law_where_the_ceiling_starts(c: SmoothieConfig)
    ensures
        c.ceiling_init is Some ==> c.starting_ceiling() == c.ceiling_init->0,
        c.ceiling_init is None && c.floor_tps is Some ==> c.starting_ceiling() == c.ceiling_max,
        c.ceiling_init is None && c.floor_tps is None ==> c.starting_ceiling() == c.ceiling_min,
{
}

} // verus!
