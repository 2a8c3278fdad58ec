//! Additive-increase, multiplicative-decrease control of the admission ceiling.
//!
//! Latency arithmetic happens outside: [`AimdController::operands`] says what
//! an observation computes with, and [`AimdController::observe`] takes the
//! resulting [`Figures`]. Every decision, and every move of the ceiling, is made
//! here.
use crate::binary64::Binary64;
use vstd::prelude::*;

verus! {

/// Configuration for the AIMD controller.
#[derive(Debug, Clone, Copy)]
pub struct AimdConfig {
    /// Inter-token latency floor in milliseconds.
    /// `None` enables derivative-based crossover detection.
    pub floor_ms: Option<Binary64>,
    /// Headroom below the floor before additive increase (ms).
    pub headroom_ms: Binary64,
    /// Multiplicative decrease factor.
    pub beta: Binary64,
    /// Consecutive steps required before acting.
    pub hysteresis_steps: u32,
    /// Minimum ceiling value.
    pub ceiling_min: u32,
    /// Maximum ceiling value.
    pub ceiling_max: u32,
    /// Fractional latency increase that triggers decrease in derivative mode.
    pub sensitivity: Binary64,
}

/// Phase of the derivative probe cycle.
#[derive(Debug, Clone, Copy, PartialEq, Eq, Structural)]
pub enum ProbePhase {
    /// The semaphore is not saturated, so probing is meaningless.
    WaitingForSaturation,
    /// Accumulating baseline observations at the current ceiling.
    Settling,
    /// Ceiling raised by one; accumulating observations to hold against the baseline.
    Measuring,
}

/// What the arithmetic of one observation works on.
#[derive(Debug, Clone, Copy)]
pub struct Operands {
    /// The latency floor, where one is set.
    pub floor_ms: Option<Binary64>,
    /// Headroom below the floor.
    pub headroom_ms: Binary64,
    /// The observed latency.
    pub itl_ms: Binary64,
    /// Sum of the observations of the current phase before this one.
    pub phase_itl_sum: Binary64,
    /// Number of observations of the current phase, this one counted.
    pub observations: u32,
    /// Baseline average of the last settling phase.
    pub baseline_itl: Binary64,
    /// Fractional increase that counts as a crossover.
    pub sensitivity: Binary64,
}

/// What the arithmetic of one observation gives, from its [`Operands`].
#[derive(Debug, Clone, Copy)]
pub struct Figures {
    /// `floor_ms - headroom_ms`. Not read in derivative mode.
    pub headroom_threshold: Binary64,
    /// `phase_itl_sum + itl_ms`. Not read with a fixed floor.
    pub itl_sum: Binary64,
    /// `itl_sum / observations`. Not read with a fixed floor.
    pub mean_itl: Binary64,
    /// `baseline_itl * (1 + sensitivity)`. Not read with a fixed floor.
    pub crossover_limit: Binary64,
}

/// The controller as a mathematical value.
pub struct AimdModel {
    pub config: AimdConfig,
    pub ceiling: nat,
    /// Consecutive observations at or over the floor.
    pub over: nat,
    /// Consecutive observations under the headroom threshold.
    pub under: nat,
    pub phase: ProbePhase,
    /// Observations accumulated in the current phase.
    pub count: nat,
    pub itl_sum: Binary64,
    pub baseline: Binary64,
}

/// One observation with the figures that belong to it.
pub struct Observation {
    pub itl: Binary64,
    pub active: nat,
    pub figures: Figures,
}

impl AimdModel {
    /// A controller that has observed nothing.
    pub open spec fn fresh(config: AimdConfig, ceiling: nat) -> Self {
        AimdModel {
            config,
            ceiling,
            over: 0,
            under: 0,
            phase: ProbePhase::WaitingForSaturation,
            count: 0,
            itl_sum: Binary64::zero_value(),
            baseline: Binary64::zero_value(),
        }
    }

    /// Consecutive observations it takes to act. Waiting for none and for one are the same.
    pub open spec fn steps(self) -> nat {
        if self.config.hysteresis_steps == 0 {
            1
        } else {
            self.config.hysteresis_steps as nat
        }
    }

    /// The ceiling after an additive increase.
    pub open spec fn raised(self) -> nat {
        if self.ceiling < self.config.ceiling_max {
            self.ceiling + 1
        } else {
            self.config.ceiling_max as nat
        }
    }

    /// The ceiling after a multiplicative decrease.
    pub open spec fn lowered(self) -> nat {
        if self.config.beta.times(self.ceiling) >= self.config.ceiling_min {
            self.config.beta.times(self.ceiling)
        } else {
            self.config.ceiling_min as nat
        }
    }

    /// Whether so few streams are active that a higher ceiling would admit none more.
    pub open spec fn unsaturated(self, active: nat) -> bool {
        self.ceiling > 1 && active + 1 < self.ceiling
    }

    /// One observation against a fixed floor.
    pub open spec fn observed_fixed_floor(
        self,
        itl: Binary64,
        floor: Binary64,
        figures: Figures,
    ) -> Self {
        if itl.at_least(floor) {
            if self.over + 1 >= self.config.hysteresis_steps {
                AimdModel {
                    over: 0,
                    under: 0,
                    ceiling: self.lowered(),
                    ..self
                }
            } else {
                AimdModel { over: self.over + 1, under: 0, ..self }
            }
        } else if itl.less(figures.headroom_threshold) {
            if self.under + 1 >= self.config.hysteresis_steps {
                AimdModel { over: 0, under: 0, ceiling: self.raised(), ..self }
            } else {
                AimdModel { over: 0, under: self.under + 1, ..self }
            }
        } else {
            AimdModel { over: 0, under: 0, ..self }
        }
    }

    /// The phase begins anew, in `phase`, with nothing accumulated.
    pub open spec fn entering(self, phase: ProbePhase) -> Self {
        AimdModel { phase, count: 0, itl_sum: Binary64::zero_value(), ..self }
    }

    /// One more observation counted in `phase`.
    pub open spec fn accumulating(self, phase: ProbePhase, itl_sum: Binary64) -> Self {
        AimdModel { phase, count: self.count + 1, itl_sum, ..self }
    }

    /// One observation while the baseline is being established.
    pub open spec fn settled(self, figures: Figures) -> Self {
        if self.count + 1 < self.config.hysteresis_steps {
            self.accumulating(ProbePhase::Settling, figures.itl_sum)
        } else if self.raised() == self.ceiling {
            AimdModel {
                baseline: figures.mean_itl,
                ..self.entering(ProbePhase::WaitingForSaturation)
            }
        } else {
            AimdModel {
                baseline: figures.mean_itl,
                ceiling: self.raised(),
                ..self.entering(ProbePhase::Measuring)
            }
        }
    }

    /// One observation while a raised ceiling is held against the baseline.
    pub open spec fn measured(self, figures: Figures) -> Self {
        if self.count + 1 < self.config.hysteresis_steps {
            self.accumulating(ProbePhase::Measuring, figures.itl_sum)
        } else if figures.crossover_limit.less(figures.mean_itl) {
            AimdModel {
                ceiling: self.lowered(),
                ..self.entering(ProbePhase::Settling)
            }
        } else {
            AimdModel { baseline: figures.mean_itl, ..self.entering(ProbePhase::Settling) }
        }
    }

    /// One observation of the derivative probe cycle.
    pub open spec fn observed_derivative(self, active: nat, figures: Figures) -> Self {
        match self.phase {
            ProbePhase::WaitingForSaturation => if self.unsaturated(active) {
                self
            } else {
                self.entering(ProbePhase::Settling).settled(figures)
            },
            ProbePhase::Settling => self.settled(figures),
            ProbePhase::Measuring => if self.unsaturated(active) {
                self.entering(ProbePhase::WaitingForSaturation)
            } else {
                self.measured(figures)
            },
        }
    }

    /// One observation.
    pub open spec fn observed(self, o: Observation) -> Self {
        match self.config.floor_ms {
            Some(floor) => self.observed_fixed_floor(o.itl, floor, o.figures),
            None => self.observed_derivative(o.active, o.figures),
        }
    }

    /// A sequence of observations, first to last.
    pub open spec fn observed_all(self, obs: Seq<Observation>) -> Self
        decreases obs.len(),
    {
        if obs.len() == 0 {
            self
        } else {
            self.observed_all(obs.drop_last()).observed(obs.last())
        }
    }

    /// What the arithmetic of an observation of `itl` works on.
    pub open spec fn operands_for(self, itl: Binary64) -> Operands {
        Operands {
            floor_ms: self.config.floor_ms,
            headroom_ms: self.config.headroom_ms,
            itl_ms: itl,
            phase_itl_sum: self.itl_sum,
            observations: (self.count + 1) as u32,
            baseline_itl: self.baseline,
            sensitivity: self.config.sensitivity,
        }
    }

    /// What holds between any two observations: no counter has reached the
    /// number of steps it waits for, and nothing is accumulated while waiting.
    pub open spec fn wf(self) -> bool {
        let steps = self.config.hysteresis_steps;
        &&& self.over == 0 || self.over < steps
        &&& self.under == 0 || self.under < steps
        &&& self.count == 0 || self.count < steps
        &&& self.phase == ProbePhase::WaitingForSaturation ==> self.count == 0 && self.itl_sum
            == Binary64::zero_value()
    }

    /// The ceiling lies within its configured bounds.
    pub open spec fn in_bounds(self) -> bool {
        self.config.ceiling_min <= self.ceiling <= self.config.ceiling_max
    }
}

/// The mutable state of the control step.
#[derive(Debug, Clone, Copy)]
struct AimdInner {
    over_threshold_count: u32,
    under_with_headroom_count: u32,
    probe_phase: ProbePhase,
    phase_observation_count: u32,
    phase_itl_sum: Binary64,
    baseline_itl: Binary64,
}

/// AIMD concurrency controller.
///
/// Adapts an admission ceiling using additive increase and multiplicative
/// decrease, based on the observed inter-token latency of the active streams.
#[derive(Debug)]
pub struct AimdController {
    ceiling: u32,
    inner: AimdInner,
    config: AimdConfig,
}

impl View for AimdController {
    type V = AimdModel;

    closed spec fn view(&self) -> AimdModel {
        AimdModel {
            config: self.config,
            ceiling: self.ceiling as nat,
            over: self.inner.over_threshold_count as nat,
            under: self.inner.under_with_headroom_count as nat,
            phase: self.inner.probe_phase,
            count: self.inner.phase_observation_count as nat,
            itl_sum: self.inner.phase_itl_sum,
            baseline: self.inner.baseline_itl,
        }
    }
}

impl AimdController {
    #[verifier::type_invariant]
    spec fn inv(self) -> bool {
        self@.wf()
    }

    /// Create a new controller with the given config and initial ceiling.
    pub fn new(config: AimdConfig, initial_ceiling: u32) -> (r: Self)
        ensures
            r@ == AimdModel::fresh(config, initial_ceiling as nat),
    {
        AimdController {
            ceiling: initial_ceiling,
            inner: AimdInner {
                over_threshold_count: 0,
                under_with_headroom_count: 0,
                probe_phase: ProbePhase::WaitingForSaturation,
                phase_observation_count: 0,
                phase_itl_sum: Binary64::zero(),
                baseline_itl: Binary64::zero(),
            },
            config,
        }
    }

    /// Current ceiling.
    pub fn ceiling(&self) -> (r: u32)
        ensures
            r == self@.ceiling,
    {
        self.ceiling
    }

    /// What the arithmetic of an observation of `itl_ms` works on.
    pub fn operands(&self, itl_ms: Binary64) -> (r: Operands)
        ensures
            r == self@.operands_for(itl_ms),
            r.observations == self@.count + 1,
    {
        proof {
            use_type_invariant(self);
        }
        Operands {
            floor_ms: self.config.floor_ms,
            headroom_ms: self.config.headroom_ms,
            itl_ms,
            phase_itl_sum: self.inner.phase_itl_sum,
            observations: self.inner.phase_observation_count + 1,
            baseline_itl: self.inner.baseline_itl,
            sensitivity: self.config.sensitivity,
        }
    }

    /// Feed the controller with the smoothed inter-token latency of the active
    /// streams. Returns the (possibly updated) ceiling.
    ///
    /// `active_count` is the number of streams that hold a slot; derivative
    /// mode detects saturation by it. `figures` are the values of the
    /// arithmetic on `self.operands(itl_ms)`.
    pub fn observe(&mut self, itl_ms: Binary64, active_count: u32, figures: Figures) -> (r: u32)
        ensures
            final(self)@ == old(self)@.observed(
                (Observation { itl: itl_ms, active: active_count as nat, figures }),
            ),
            r == final(self)@.ceiling,
    {
        match self.config.floor_ms {
            Some(floor) => self.observe_fixed_floor(itl_ms, floor, figures),
            None => self.observe_derivative(active_count, figures),
        }
    }

    /// Fixed-floor control step.
    ///
    /// Three zones:
    /// - over the floor: after `hysteresis_steps` consecutive observations the
    ///   ceiling is scaled down;
    /// - under the floor with headroom: after `hysteresis_steps` consecutive
    ///   observations the ceiling goes up by one;
    /// - between the two: both counters start again.
    fn observe_fixed_floor(&mut self, itl_ms: Binary64, floor: Binary64, figures: Figures) -> (r:
        u32)
        ensures
            final(self)@ == old(self)@.observed_fixed_floor(itl_ms, floor, figures),
            r == final(self)@.ceiling,
    {
        proof {
            use_type_invariant(&*self);
        }
        let mut inner: AimdInner = self.inner;
        if itl_ms.is_at_least(floor) {
            inner.under_with_headroom_count = 0;
            inner.over_threshold_count = inner.over_threshold_count + 1;
            if inner.over_threshold_count >= self.config.hysteresis_steps {
                inner.over_threshold_count = 0;
                self.lower();
            }
        } else if itl_ms.is_less(figures.headroom_threshold) {
            inner.over_threshold_count = 0;
            inner.under_with_headroom_count = inner.under_with_headroom_count + 1;
            if inner.under_with_headroom_count >= self.config.hysteresis_steps {
                inner.under_with_headroom_count = 0;
                self.raise();
            }
        } else {
            inner.over_threshold_count = 0;
            inner.under_with_headroom_count = 0;
        }
        self.inner = inner;
        self.ceiling
    }

    /// Derivative-based crossover detection.
    ///
    /// Raises the ceiling by one, observes whether the latency rose with it,
    /// and keeps or cuts the ceiling accordingly.
    fn observe_derivative(&mut self, active_count: u32, figures: Figures) -> (r: u32)
        ensures
            final(self)@ == old(self)@.observed_derivative(active_count as nat, figures),
            r == final(self)@.ceiling,
    {
        proof {
            use_type_invariant(&*self);
        }
        let ceiling: u32 = self.ceiling;
        let unsaturated: bool = ceiling > 1 && active_count < ceiling - 1;
        let mut inner: AimdInner = self.inner;
        if inner.probe_phase == ProbePhase::WaitingForSaturation {
            if unsaturated {
                return ceiling;
            }
            inner.probe_phase = ProbePhase::Settling;
            inner.phase_observation_count = 0;
            inner.phase_itl_sum = Binary64::zero();
        }
        if inner.probe_phase == ProbePhase::Measuring && unsaturated {
            inner.probe_phase = ProbePhase::WaitingForSaturation;
            inner.phase_observation_count = 0;
            inner.phase_itl_sum = Binary64::zero();
            self.inner = inner;
            return ceiling;
        }
        inner.phase_observation_count = inner.phase_observation_count + 1;
        inner.phase_itl_sum = figures.itl_sum;
        if inner.phase_observation_count >= self.config.hysteresis_steps {
            inner.phase_observation_count = 0;
            inner.phase_itl_sum = Binary64::zero();
            if inner.probe_phase == ProbePhase::Settling {
                inner.baseline_itl = figures.mean_itl;
                self.raise();
                if self.ceiling == ceiling {
                    inner.probe_phase = ProbePhase::WaitingForSaturation;
                } else {
                    inner.probe_phase = ProbePhase::Measuring;
                }
            } else {
                if figures.crossover_limit.is_less(figures.mean_itl) {
                    self.lower();
                } else {
                    inner.baseline_itl = figures.mean_itl;
                }
                inner.probe_phase = ProbePhase::Settling;
            }
        }
        self.inner = inner;
        self.ceiling
    }

    /// Additive increase by one, up to the maximum.
    fn raise(&mut self)
        ensures
            final(self)@ == (AimdModel { ceiling: old(self)@.raised(), ..old(self)@ }),
    {
        proof {
            use_type_invariant(&*self);
        }
        if self.ceiling < self.config.ceiling_max {
            self.ceiling = self.ceiling + 1;
        } else {
            self.ceiling = self.config.ceiling_max;
        }
    }

    /// Multiplicative decrease by `beta`, down to the minimum.
    fn lower(&mut self)
        ensures
            final(self)@ == (AimdModel { ceiling: old(self)@.lowered(), ..old(self)@ }),
    {
        proof {
            use_type_invariant(&*self);
        }
        let scaled: u32 = self.config.beta.scale(self.ceiling);
        if scaled >= self.config.ceiling_min {
            self.ceiling = scaled;
        } else {
            self.ceiling = self.config.ceiling_min;
        }
    }
}

/// A controller that has observed nothing is well formed, and every
/// observation keeps it so.
pub proof fn law_observing_keeps_counters_short(m: AimdModel, o: Observation)
    requires
        m.wf(),
    ensures
        m.observed(o).wf(),
        m.observed(o).config == m.config,
        AimdModel::fresh(m.config, m.ceiling).wf(),
{
}

/// One observation leaves the ceiling, raises it by one up to the maximum, or
/// cuts it by the factor down to the minimum. Nothing else happens to it.
pub proof fn law_ceiling_moves_by_one_or_is_cut(m: AimdModel, o: Observation)
    ensures
        ({
            let after = m.observed(o).ceiling;
            ||| after == m.ceiling
            ||| after == m.raised()
            ||| after == m.lowered()
        }),
        m.ceiling < m.config.ceiling_max ==> m.raised() == m.ceiling + 1,
        m.lowered() >= m.config.ceiling_min,
{
}

/// From within its bounds, and with a factor between zero and one, a cut never
/// raises the ceiling: one observation leaves it within its bounds, and at most
/// one higher than it was.
pub proof fn law_one_observation_keeps_the_bounds(m: AimdModel, o: Observation)
    requires
        m.in_bounds(),
        m.config.beta.is_proper_fraction(),
    ensures
        m.observed(o).in_bounds(),
        m.observed(o).ceiling <= m.ceiling + 1,
        m.lowered() <= m.ceiling,
        m.observed(o).config == m.config,
{
    crate::scaling::law_a_proper_fraction_never_grows(m.config.beta, m.ceiling as u32);
}

/// A ceiling that starts within its bounds stays there, whatever is observed
/// and however often, in either mode, with a factor between zero and one.
pub proof fn law_ceiling_stays_in_bounds(m: AimdModel, obs: Seq<Observation>)
    requires
        m.in_bounds(),
        m.config.beta.is_proper_fraction(),
    ensures
        m.observed_all(obs).in_bounds(),
        m.observed_all(obs).config == m.config,
    decreases obs.len(),
{
    if obs.len() > 0 {
        law_ceiling_stays_in_bounds(m, obs.drop_last());
        law_one_observation_keeps_the_bounds(m.observed_all(obs.drop_last()), obs.last());
    }
}

/// From cleared counters, fewer observations than `hysteresis_steps` never
/// change the ceiling, in either mode.
pub proof fn law_no_change_before_hysteresis(m: AimdModel, obs: Seq<Observation>)
    requires
        m.config.floor_ms is Some ==> m.over == 0 && m.under == 0,
        m.config.floor_ms is None ==> m.count == 0,
        obs.len() < m.steps(),
    ensures
        m.observed_all(obs).ceiling == m.ceiling,
{
    lemma_counters_grow_by_one(m, obs);
}

/// Below the threshold the ceiling stands and each counter is at most the
/// number of observations.
proof fn lemma_counters_grow_by_one(m: AimdModel, obs: Seq<Observation>)
    requires
        m.config.floor_ms is Some ==> m.over == 0 && m.under == 0,
        m.config.floor_ms is None ==> m.count == 0,
        obs.len() < m.steps(),
    ensures
        ({
            let after = m.observed_all(obs);
            &&& after.config == m.config
            &&& after.ceiling == m.ceiling
            &&& m.config.floor_ms is Some ==> after.over <= obs.len() && after.under <= obs.len()
            &&& m.config.floor_ms is None ==> after.count <= obs.len()
        }),
    decreases obs.len(),
{
    if obs.len() > 0 {
        lemma_counters_grow_by_one(m, obs.drop_last());
    }
}

/// `hysteresis_steps` consecutive observations at or over the floor cut the
/// ceiling once, by the factor, and clear the counters.
pub proof fn law_sustained_slowness_cuts_once(
    m: AimdModel,
    floor: Binary64,
    obs: Seq<Observation>,
)
    requires
        m.config.floor_ms == Some(floor),
        m.over == 0,
        m.under == 0,
        obs.len() == m.steps(),
        forall|i: int| 0 <= i < obs.len() ==> (#[trigger] obs[i]).itl.at_least(floor),
    ensures
        m.observed_all(obs) == (AimdModel {
            ceiling: m.lowered(),
            ..m
        }),
{
    lemma_slow_run_counts(m, floor, obs.drop_last());
    assert(obs.last() == obs[obs.len() - 1]);
}

proof fn lemma_slow_run_counts(m: AimdModel, floor: Binary64, obs: Seq<Observation>)
    requires
        m.config.floor_ms == Some(floor),
        m.over == 0,
        m.under == 0,
        obs.len() < m.steps(),
        forall|i: int| 0 <= i < obs.len() ==> (#[trigger] obs[i]).itl.at_least(floor),
    ensures
        m.observed_all(obs) == (AimdModel { over: obs.len(), ..m }),
    decreases obs.len(),
{
    if obs.len() > 0 {
        lemma_slow_run_counts(m, floor, obs.drop_last());
        assert(obs.last() == obs[obs.len() - 1]);
    }
}

/// `hysteresis_steps` consecutive observations under the headroom threshold
/// raise the ceiling once, by one up to the maximum, and clear the counters.
pub proof fn law_sustained_headroom_raises_once(
    m: AimdModel,
    floor: Binary64,
    obs: Seq<Observation>,
)
    requires
        m.config.floor_ms == Some(floor),
        m.over == 0,
        m.under == 0,
        obs.len() == m.steps(),
        forall|i: int|
            0 <= i < obs.len() ==> {
                &&& !(#[trigger] obs[i]).itl.at_least(floor)
                &&& obs[i].itl.less(obs[i].figures.headroom_threshold)
            },
    ensures
        m.observed_all(obs) == (AimdModel { ceiling: m.raised(), ..m }),
{
    lemma_fast_run_counts(m, floor, obs.drop_last());
    assert(obs.last() == obs[obs.len() - 1]);
}

proof fn lemma_fast_run_counts(m: AimdModel, floor: Binary64, obs: Seq<Observation>)
    requires
        m.config.floor_ms == Some(floor),
        m.over == 0,
        m.under == 0,
        obs.len() < m.steps(),
        forall|i: int|
            0 <= i < obs.len() ==> {
                &&& !(#[trigger] obs[i]).itl.at_least(floor)
                &&& obs[i].itl.less(obs[i].figures.headroom_threshold)
            },
    ensures
        m.observed_all(obs) == (AimdModel { under: obs.len(), ..m }),
    decreases obs.len(),
{
    if obs.len() > 0 {
        lemma_fast_run_counts(m, floor, obs.drop_last());
        assert(obs.last() == obs[obs.len() - 1]);
    }
}

/// Between the headroom threshold and the floor the ceiling stands and both
/// counters start again, so that the next change takes a full run of
/// `hysteresis_steps` observations.
pub proof fn law_dead_zone_starts_the_count_again(
    m: AimdModel,
    floor: Binary64,
    o: Observation,
    next: Seq<Observation>,
)
    requires
        m.config.floor_ms == Some(floor),
        !o.itl.at_least(floor),
        !o.itl.less(o.figures.headroom_threshold),
        next.len() < m.steps(),
    ensures
        m.observed(o) == (AimdModel { over: 0, under: 0, ..m }),
        m.observed(o).observed_all(next).ceiling == m.ceiling,
{
    law_no_change_before_hysteresis(m.observed(o), next);
}

/// Runs are consecutive: an observation that is not over the floor ends a run of
/// slow ones, and one that is not under the headroom threshold ends a run of
/// fast ones.
pub proof fn law_another_zone_ends_the_run(m: AimdModel, floor: Binary64, o: Observation)
    requires
        m.config.floor_ms == Some(floor),
    ensures
        !o.itl.at_least(floor) ==> m.observed(o).over == 0,
        o.itl.at_least(floor) || !o.itl.less(o.figures.headroom_threshold) ==> m.observed(o).under
            == 0,
{
}

/// While the controller waits for saturation, observations of an unsaturated
/// semaphore change nothing at all.
pub proof fn law_unsaturated_waiting_is_inert(m: AimdModel, obs: Seq<Observation>)
    requires
        m.config.floor_ms is None,
        m.phase == ProbePhase::WaitingForSaturation,
        forall|i: int| 0 <= i < obs.len() ==> m.unsaturated((#[trigger] obs[i]).active),
    ensures
        m.observed_all(obs) == m,
    decreases obs.len(),
{
    if obs.len() > 0 {
        law_unsaturated_waiting_is_inert(m, obs.drop_last());
        assert(obs.last() == obs[obs.len() - 1]);
    }
}

/// Losing saturation during a measurement drops the measurement: the ceiling
/// and the baseline stand, and the controller waits for saturation again.
pub proof fn law_unsaturation_cancels_the_probe(m: AimdModel, o: Observation)
    requires
        m.config.floor_ms is None,
        m.phase == ProbePhase::Measuring,
        m.unsaturated(o.active),
    ensures
        m.observed(o) == m.entering(ProbePhase::WaitingForSaturation),
        m.observed(o).ceiling == m.ceiling,
        m.observed(o).baseline == m.baseline,
{
}

/// A settling phase of `hysteresis_steps` observations takes the mean of its
/// last figures as the baseline and probes one higher. At the maximum it
/// leaves the ceiling and waits.
pub proof fn law_settling_probes_one_higher(m: AimdModel, obs: Seq<Observation>)
    requires
        m.config.floor_ms is None,
        m.wf(),
        m.count == 0,
        m.phase == ProbePhase::Settling || m.phase == ProbePhase::WaitingForSaturation
            && !m.unsaturated(obs[0].active),
        obs.len() == m.steps(),
    ensures
        ({
            let after = m.observed_all(obs);
            &&& after.baseline == obs.last().figures.mean_itl
            &&& after.ceiling == m.raised()
            &&& after.count == 0
            &&& after.phase == if m.raised() == m.ceiling {
                ProbePhase::WaitingForSaturation
            } else {
                ProbePhase::Measuring
            }
        }),
{
    lemma_settling_accumulates(m, obs.drop_last(), obs[0].active);
    assert(obs.last() == obs[obs.len() - 1]);
    if obs.len() > 1 {
        assert(obs.drop_last()[0] == obs[0]);
    }
}

proof fn lemma_settling_accumulates(m: AimdModel, obs: Seq<Observation>, first_active: nat)
    requires
        m.config.floor_ms is None,
        m.wf(),
        m.count == 0,
        m.phase == ProbePhase::Settling || m.phase == ProbePhase::WaitingForSaturation
            && !m.unsaturated(first_active),
        obs.len() > 0 ==> obs[0].active == first_active,
        obs.len() < m.steps(),
    ensures
        obs.len() == 0 ==> m.observed_all(obs) == m,
        obs.len() > 0 ==> {
            let after = m.observed_all(obs);
            &&& after.config == m.config
            &&& after.ceiling == m.ceiling
            &&& after.phase == ProbePhase::Settling
            &&& after.count == obs.len()
        },
    decreases obs.len(),
{
    if obs.len() > 0 {
        lemma_settling_accumulates(m, obs.drop_last(), first_active);
        if obs.len() > 1 {
            assert(obs.drop_last()[0] == obs[0]);
        }
    }
}

/// A measuring phase of `hysteresis_steps` saturated observations cuts the
/// ceiling if and only if its mean exceeds the crossover limit. Otherwise the
/// raised ceiling is kept and the mean becomes the baseline. Either way the
/// controller settles again.
pub proof fn law_measurement_cuts_exactly_on_crossover(m: AimdModel, obs: Seq<Observation>)
    requires
        m.config.floor_ms is None,
        m.phase == ProbePhase::Measuring,
        m.count == 0,
        obs.len() == m.steps(),
        forall|i: int| 0 <= i < obs.len() ==> !m.unsaturated((#[trigger] obs[i]).active),
    ensures
        ({
            let after = m.observed_all(obs);
            let figures = obs.last().figures;
            &&& after.phase == ProbePhase::Settling
            &&& after.count == 0
            &&& if figures.crossover_limit.less(figures.mean_itl) {
                after.ceiling == m.lowered() && after.baseline == m.baseline
            } else {
                after.ceiling == m.ceiling && after.baseline == figures.mean_itl
            }
        }),
{
    lemma_measuring_accumulates(m, obs.drop_last());
    assert(obs.last() == obs[obs.len() - 1]);
}

proof fn lemma_measuring_accumulates(m: AimdModel, obs: Seq<Observation>)
    requires
        m.config.floor_ms is None,
        m.phase == ProbePhase::Measuring,
        m.count == 0,
        obs.len() < m.steps(),
        forall|i: int| 0 <= i < obs.len() ==> !m.unsaturated((#[trigger] obs[i]).active),
    ensures
        ({
            let after = m.observed_all(obs);
            &&& after.config == m.config
            &&& after.ceiling == m.ceiling
            &&& after.baseline == m.baseline
            &&& after.phase == ProbePhase::Measuring
            &&& after.count == obs.len()
        }),
    decreases obs.len(),
{
    if obs.len() > 0 {
        lemma_measuring_accumulates(m, obs.drop_last());
        assert(obs.last() == obs[obs.len() - 1]);
    }
}

/// A new controller starts at the given ceiling with nothing observed, and the
/// arithmetic of an observation works on what the controller holds.
pub proof fn law_operands_are_what_is_held(m: AimdModel, itl: Binary64)
    requires
        m.count < u32::MAX,
    ensures
        m.operands_for(itl).itl_ms == itl,
        m.operands_for(itl).floor_ms == m.config.floor_ms,
        m.operands_for(itl).headroom_ms == m.config.headroom_ms,
        m.operands_for(itl).sensitivity == m.config.sensitivity,
        m.operands_for(itl).phase_itl_sum == m.itl_sum,
        m.operands_for(itl).baseline_itl == m.baseline,
        m.operands_for(itl).observations == m.count + 1,
        AimdModel::fresh(m.config, m.ceiling).config == m.config,
        AimdModel::fresh(m.config, m.ceiling).ceiling == m.ceiling,
        AimdModel::fresh(m.config, m.ceiling).phase == ProbePhase::WaitingForSaturation,
        AimdModel::fresh(m.config, m.ceiling).over == 0,
        AimdModel::fresh(m.config, m.ceiling).under == 0,
        AimdModel::fresh(m.config, m.ceiling).count == 0,
        AimdModel::fresh(m.config, m.ceiling).itl_sum.bits == 0,
        AimdModel::fresh(m.config, m.ceiling).baseline.bits == 0,
{
}

/// Without a fixed floor, a controller that waits for saturation at a ceiling
/// above one is left as it is by every observation with two or more slots free,
/// and takes every other observation as the first of a settling phase. A
/// measuring controller drops its probe under the same condition, and otherwise
/// goes on. A settling controller does not look at the number of active streams.
pub proof fn law_probing_needs_all_but_one_slot_taken(m: AimdModel, o: Observation, other: nat)
    requires
        m.config.floor_ms is None,
    ensures
        m.phase == ProbePhase::WaitingForSaturation && m.ceiling > 1 && o.active + 1 < m.ceiling
            ==> m.observed(o) == m,
        m.phase == ProbePhase::WaitingForSaturation && !(m.ceiling > 1 && o.active + 1 < m.ceiling)
            ==> {
            &&& m.observed(o) == (AimdModel {
                phase: ProbePhase::Settling,
                count: 0,
                itl_sum: (Binary64 { bits: 0 }),
                ..m
            }).observed(o)
            &&& m.config.hysteresis_steps > 1 ==> m.observed(o) == (AimdModel {
                phase: ProbePhase::Settling,
                count: 1,
                itl_sum: o.figures.itl_sum,
                ..m
            })
            &&& m.config.hysteresis_steps <= 1 ==> m.observed(o).baseline == o.figures.mean_itl
        },
        m.phase == ProbePhase::Measuring && m.ceiling > 1 && o.active + 1 < m.ceiling
            ==> m.observed(o) == (AimdModel {
            phase: ProbePhase::WaitingForSaturation,
            count: 0,
            itl_sum: (Binary64 { bits: 0 }),
            ..m
        }),
        m.phase == ProbePhase::Measuring && !(m.ceiling > 1 && o.active + 1 < m.ceiling) ==> {
            &&& m.observed(o).phase != ProbePhase::WaitingForSaturation
            &&& m.observed(o) == m.observed((Observation { active: m.ceiling, ..o }))
        },
        m.phase == ProbePhase::Settling ==> m.observed(o) == m.observed(
            (Observation { active: other, ..o }),
        ),
{
}

/// A settling controller gathers observations until there are
/// `hysteresis_steps` of them. The last one makes their mean the baseline and
/// moves the ceiling one up to be measured, or, at the maximum, leaves it and
/// waits again.
pub proof fn law_settling_step_by_step(m: AimdModel, o: Observation)
    requires
        m.config.floor_ms is None,
        m.phase == ProbePhase::Settling,
    ensures
        m.count + 1 < m.config.hysteresis_steps ==> m.observed(o) == (AimdModel {
            count: m.count + 1,
            itl_sum: o.figures.itl_sum,
            ..m
        }),
        m.count + 1 >= m.config.hysteresis_steps ==> {
            let after = m.observed(o);
            &&& after.baseline == o.figures.mean_itl
            &&& after.count == 0
            &&& after.itl_sum.bits == 0
            &&& after.over == m.over && after.under == m.under && after.config == m.config
            &&& m.ceiling < m.config.ceiling_max ==> after.ceiling == m.ceiling + 1
            &&& m.ceiling >= m.config.ceiling_max ==> after.ceiling == m.config.ceiling_max
            &&& after.phase == ProbePhase::WaitingForSaturation <==> m.ceiling
                == m.config.ceiling_max
            &&& after.phase == ProbePhase::Measuring <==> m.ceiling != m.config.ceiling_max
        },
{
}

/// A measuring controller that stays saturated gathers observations until there
/// are `hysteresis_steps` of them. If their mean then lies above the crossover
/// limit the ceiling is multiplied by the factor, down to the minimum, and the
/// baseline stands. Otherwise the ceiling stands and the mean is the new
/// baseline. Either way a settling phase begins.
pub proof fn law_measuring_step_by_step(m: AimdModel, o: Observation)
    requires
        m.config.floor_ms is None,
        m.phase == ProbePhase::Measuring,
        m.ceiling <= 1 || o.active + 1 >= m.ceiling,
    ensures
        m.count + 1 < m.config.hysteresis_steps ==> m.observed(o) == (AimdModel {
            count: m.count + 1,
            itl_sum: o.figures.itl_sum,
            ..m
        }),
        m.count + 1 >= m.config.hysteresis_steps ==> {
            let after = m.observed(o);
            let product = m.config.beta.times(m.ceiling);
            &&& after.phase == ProbePhase::Settling
            &&& after.count == 0
            &&& after.itl_sum.bits == 0
            &&& after.over == m.over && after.under == m.under && after.config == m.config
            &&& o.figures.crossover_limit.less(o.figures.mean_itl) ==> {
                &&& after.baseline == m.baseline
                &&& product >= m.config.ceiling_min ==> after.ceiling == product
                &&& product < m.config.ceiling_min ==> after.ceiling == m.config.ceiling_min
            }
            &&& !o.figures.crossover_limit.less(o.figures.mean_itl) ==> after.ceiling == m.ceiling
                && after.baseline == o.figures.mean_itl
        },
{
}

/// With a fixed floor, an observation lies in one of three zones. At or over the
/// floor it adds to the slow run and ends the fast one, under the headroom
/// threshold it adds to the fast run and ends the slow one, and between the two
/// it ends both. A run that reaches `hysteresis_steps` moves the ceiling and
/// starts again: a slow one multiplies it by the factor, down to the minimum, a
/// fast one adds one, up to the maximum. The probe cycle is not touched, and the
/// number of active streams is not looked at.
pub proof fn law_fixed_floor_step_by_step(m: AimdModel, o: Observation, floor: Binary64)
    requires
        m.config.floor_ms == Some(floor),
    ensures
        ({
            let after = m.observed(o);
            let product = m.config.beta.times(m.ceiling);
            let steps = m.config.hysteresis_steps;
            let slow = o.itl.at_least(floor);
            let fast = !slow && o.itl.less(o.figures.headroom_threshold);
            &&& slow && m.over + 1 < steps ==> after.over == m.over + 1 && after.under == 0
                && after.ceiling == m.ceiling
            &&& slow && m.over + 1 >= steps ==> {
                &&& after.over == 0 && after.under == 0
                &&& product >= m.config.ceiling_min ==> after.ceiling == product
                &&& product < m.config.ceiling_min ==> after.ceiling == m.config.ceiling_min
            }
            &&& fast && m.under + 1 < steps ==> after.under == m.under + 1 && after.over == 0
                && after.ceiling == m.ceiling
            &&& fast && m.under + 1 >= steps ==> {
                &&& after.over == 0 && after.under == 0
                &&& m.ceiling < m.config.ceiling_max ==> after.ceiling == m.ceiling + 1
                &&& m.ceiling >= m.config.ceiling_max ==> after.ceiling == m.config.ceiling_max
            }
            &&& !slow && !fast ==> after.over == 0 && after.under == 0 && after.ceiling == m.ceiling
            &&& after.phase == m.phase && after.count == m.count
            &&& after.itl_sum == m.itl_sum && after.baseline == m.baseline
            &&& after.config == m.config
        }),
{
}

/// Sustained slowness multiplies: a full run of observations at or over the
/// floor, from cleared counters, leaves the ceiling at the integer part of its
/// product with the factor, or at the minimum if that is higher. In exact terms,
/// for a factor between zero and one of pattern `bits` and so of value
/// `(2^52 + bits % 2^52) / 2^(1075 - bits / 2^52)`: the new ceiling is more than
/// the factor's share of the old one less one, and, above the minimum, no more
/// than that share but for the rounding of the product.
pub proof fn law_sustained_slowness_multiplies(
    m: AimdModel,
    floor: Binary64,
    obs: Seq<Observation>,
)
    requires
        m.config.floor_ms == Some(floor),
        m.over == 0,
        m.under == 0,
        m.ceiling <= u32::MAX,
        obs.len() == m.config.hysteresis_steps || m.config.hysteresis_steps == 0 && obs.len() == 1,
        obs.len() > 0,
        forall|i: int| 0 <= i < obs.len() ==> (#[trigger] obs[i]).itl.at_least(floor),
    ensures
        ({
            let after = m.observed_all(obs).ceiling;
            let product = m.config.beta.times(m.ceiling);
            let bits = m.config.beta.bits;
            let share = m.ceiling * (0x10_0000_0000_0000 + bits % 0x10_0000_0000_0000) as nat;
            let one = vstd::arithmetic::power2::pow2((1075 - bits / 0x10_0000_0000_0000) as nat);
            &&& product >= m.config.ceiling_min ==> after == product
            &&& product < m.config.ceiling_min ==> after == m.config.ceiling_min
            &&& 0x10_0000_0000_0000 <= bits < 0x3ff0_0000_0000_0000 ==> {
                &&& share < (after + 1) * one
                &&& after > m.config.ceiling_min ==> 0x20_0000_0000_0000 * (after * one - share)
                    <= share
            }
        }),
{
    lemma_slow_run_counts(m, floor, obs.drop_last());
    assert(obs.last() == obs[obs.len() - 1]);
    let bits = m.config.beta.bits;
    if 0x10_0000_0000_0000 <= bits < 0x3ff0_0000_0000_0000 {
        crate::scaling::law_a_fraction_leaves_its_share(m.config.beta, m.ceiling as u32);
        let one = vstd::arithmetic::power2::pow2((1075 - bits / 0x10_0000_0000_0000) as nat);
        let after = m.observed_all(obs).ceiling;
        let product = m.config.beta.times(m.ceiling);
        assert((product + 1) * one <= (after + 1) * one) by (nonlinear_arith)
            requires
                product <= after,
        ;
    }
}

/// Sustained headroom adds one: a full run of observations under the headroom
/// threshold, from cleared counters, leaves the ceiling one higher, or at the
/// maximum.
pub proof fn law_sustained_headroom_adds_one(m: AimdModel, floor: Binary64, obs: Seq<Observation>)
    requires
        m.config.floor_ms == Some(floor),
        m.over == 0,
        m.under == 0,
        obs.len() == m.config.hysteresis_steps || m.config.hysteresis_steps == 0 && obs.len() == 1,
        obs.len() > 0,
        forall|i: int|
            0 <= i < obs.len() ==> {
                &&& !(#[trigger] obs[i]).itl.at_least(floor)
                &&& obs[i].itl.less(obs[i].figures.headroom_threshold)
            },
    ensures
        m.ceiling < m.config.ceiling_max ==> m.observed_all(obs).ceiling == m.ceiling + 1,
        m.ceiling >= m.config.ceiling_max ==> m.observed_all(obs).ceiling == m.config.ceiling_max,
        m.observed_all(obs).over == 0,
        m.observed_all(obs).under == 0,
{
    lemma_fast_run_counts(m, floor, obs.drop_last());
    assert(obs.last() == obs[obs.len() - 1]);
}

} // verus!
