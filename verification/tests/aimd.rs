use smoothie::aimd::{AimdConfig, AimdController, Figures, Operands};
use smoothie::binary64::Binary64;

fn binary(x: f64) -> Binary64 {
    Binary64::from_bits(x.to_bits())
}

fn value(x: Binary64) -> f64 {
    f64::from_bits(x.bits)
}

fn evaluate(o: &Operands) -> Figures {
    let headroom_threshold = match o.floor_ms {
        Some(floor) => value(floor) - value(o.headroom_ms),
        None => 0.0,
    };
    let itl_sum = value(o.phase_itl_sum) + value(o.itl_ms);
    Figures {
        headroom_threshold: binary(headroom_threshold),
        itl_sum: binary(itl_sum),
        mean_itl: binary(itl_sum / f64::from(o.observations)),
        crossover_limit: binary(value(o.baseline_itl) * (1.0 + value(o.sensitivity))),
    }
}

fn observe(ctrl: &mut AimdController, itl: f64, active: u32) -> u32 {
    let figures = evaluate(&ctrl.operands(binary(itl)));
    ctrl.observe(binary(itl), active, figures)
}

fn test_config() -> AimdConfig {
    AimdConfig {
        floor_ms: Some(binary(100.0)), // 10 tok/s
        headroom_ms: binary(15.0),     // increase threshold at 85ms
        beta: binary(0.8),
        hysteresis_steps: 3,
        ceiling_min: 1,
        ceiling_max: 64,
        sensitivity: binary(0.10),
    }
}

/// Observe with active_count == ceiling (saturated).
fn observe_saturated(ctrl: &mut AimdController, itl: f64) -> u32 {
    let ceiling = ctrl.ceiling();
    observe(ctrl, itl, ceiling)
}

#[test]
fn initial_ceiling() {
    let ctrl = AimdController::new(test_config(), 32);
    assert_eq!(ctrl.ceiling(), 32);
}

#[test]
fn decrease_after_hysteresis() {
    let mut ctrl = AimdController::new(test_config(), 10);

    // 3 consecutive over-threshold observations.
    observe_saturated(&mut ctrl, 110.0); // step 1
    assert_eq!(ctrl.ceiling(), 10, "no change before hysteresis");
    observe_saturated(&mut ctrl, 120.0); // step 2
    assert_eq!(ctrl.ceiling(), 10);
    observe_saturated(&mut ctrl, 105.0); // step 3 triggers decrease
    assert_eq!(ctrl.ceiling(), 8, "10 * 0.8 = 8");
}

#[test]
fn increase_after_hysteresis() {
    let mut ctrl = AimdController::new(test_config(), 5);

    // 3 consecutive under-headroom observations (< 85ms).
    observe_saturated(&mut ctrl, 80.0);
    observe_saturated(&mut ctrl, 70.0);
    observe_saturated(&mut ctrl, 60.0);
    assert_eq!(ctrl.ceiling(), 6, "should additive-increase by 1");
}

#[test]
fn dead_zone_resets_counters() {
    let mut ctrl = AimdController::new(test_config(), 10);

    // 2 over-threshold, then one in dead zone.
    observe_saturated(&mut ctrl, 110.0);
    observe_saturated(&mut ctrl, 120.0);
    observe_saturated(&mut ctrl, 90.0); // dead zone: 85 <= 90 < 100

    // Now 3 more over-threshold: should need full 3 again.
    observe_saturated(&mut ctrl, 110.0);
    assert_eq!(ctrl.ceiling(), 10, "counter was reset by dead zone");
    observe_saturated(&mut ctrl, 110.0);
    observe_saturated(&mut ctrl, 110.0); // triggers
    assert_eq!(ctrl.ceiling(), 8);
}

#[test]
fn clamps_to_ceiling_min() {
    let mut ctrl = AimdController::new(test_config(), 1);

    // Try to decrease below min.
    for _ in 0..3 {
        observe_saturated(&mut ctrl, 200.0);
    }
    assert_eq!(ctrl.ceiling(), 1, "should not go below ceiling_min");
}

#[test]
fn clamps_to_ceiling_max() {
    let mut ctrl = AimdController::new(test_config(), 64);

    // Try to increase above max.
    for _ in 0..3 {
        observe_saturated(&mut ctrl, 50.0);
    }
    assert_eq!(ctrl.ceiling(), 64, "should not exceed ceiling_max");
}

#[test]
fn multiple_decrease_rounds() {
    let mut ctrl = AimdController::new(test_config(), 20);

    // First round: 20 * 0.8 = 16
    for _ in 0..3 {
        observe_saturated(&mut ctrl, 150.0);
    }
    assert_eq!(ctrl.ceiling(), 16);

    // Second round: 16 * 0.8 = 12 (12.8 truncated)
    for _ in 0..3 {
        observe_saturated(&mut ctrl, 150.0);
    }
    assert_eq!(ctrl.ceiling(), 12);
}

#[test]
fn interleaved_increase_decrease() {
    let mut ctrl = AimdController::new(test_config(), 10);

    // Increase to 11.
    for _ in 0..3 {
        observe_saturated(&mut ctrl, 50.0);
    }
    assert_eq!(ctrl.ceiling(), 11);

    // Decrease: 11 * 0.8 = 8 (8.8 truncated)
    for _ in 0..3 {
        observe_saturated(&mut ctrl, 150.0);
    }
    assert_eq!(ctrl.ceiling(), 8);
}

#[test]
fn exactly_at_floor_triggers_over() {
    let mut ctrl = AimdController::new(test_config(), 10);

    // 100ms is exactly at the floor: counts as over.
    for _ in 0..3 {
        observe_saturated(&mut ctrl, 100.0);
    }
    assert_eq!(ctrl.ceiling(), 8);
}

#[test]
fn exactly_at_headroom_threshold_is_dead_zone() {
    let mut ctrl = AimdController::new(test_config(), 10);

    // 85ms is exactly at the headroom threshold: dead zone, not under.
    for _ in 0..10 {
        observe_saturated(&mut ctrl, 85.0);
    }
    assert_eq!(ctrl.ceiling(), 10, "at threshold boundary should be dead zone");
}

// --- Derivative mode ---

fn derivative_config() -> AimdConfig {
    AimdConfig {
        floor_ms: None,
        headroom_ms: binary(15.0),
        beta: binary(0.5),
        hysteresis_steps: 3,
        ceiling_min: 1,
        ceiling_max: 20,
        sensitivity: binary(0.10),
    }
}

#[test]
fn derivative_waits_for_saturation() {
    let mut ctrl = AimdController::new(derivative_config(), 5);

    // active=2, ceiling=5, 2 < 5-1=4: not saturated, no change.
    for _ in 0..10 {
        observe(&mut ctrl, 50.0, 2);
    }
    assert_eq!(ctrl.ceiling(), 5, "should not change while unsaturated");
}

#[test]
fn derivative_probes_upward_when_memory_bound() {
    let mut ctrl = AimdController::new(derivative_config(), 5);
    let active = 5; // saturated

    // Settling: 3 observations at 50ms, baseline = 50
    observe(&mut ctrl, 50.0, active);
    observe(&mut ctrl, 50.0, active);
    observe(&mut ctrl, 50.0, active);

    // After settling, ceiling should bump to 6 (probe).
    assert_eq!(ctrl.ceiling(), 6, "should probe upward after settling");

    // Measuring: 3 observations still at 50ms, no increase detected.
    observe(&mut ctrl, 50.0, active);
    observe(&mut ctrl, 50.0, active);
    observe(&mut ctrl, 50.0, active);

    // No crossover: keeps ceiling at 6, enters Settling again.
    assert_eq!(ctrl.ceiling(), 6, "should keep probed ceiling when memory-bound");
}

#[test]
fn derivative_detects_crossover_and_decreases() {
    let mut ctrl = AimdController::new(derivative_config(), 5);
    let active = 5;

    // Settling: baseline = 50ms.
    for _ in 0..3 {
        observe(&mut ctrl, 50.0, active);
    }
    assert_eq!(ctrl.ceiling(), 6, "probed to 6");

    // Measuring: latency jumps to 60ms (20% increase > 10% sensitivity).
    for _ in 0..3 {
        observe(&mut ctrl, 60.0, active);
    }
    // 6 * 0.5 = 3
    assert_eq!(ctrl.ceiling(), 3, "should multiplicative-decrease after crossover");
}

#[test]
fn derivative_clamps_to_ceiling_max() {
    let mut ctrl = AimdController::new(derivative_config(), 19);
    let active = 19;

    // Settling, then probe from 19 to 20 (max).
    for _ in 0..3 {
        observe(&mut ctrl, 50.0, active);
    }
    assert_eq!(ctrl.ceiling(), 20, "should probe to max");

    // Measuring at the same latency: no crossover, keeps 20.
    for _ in 0..3 {
        observe(&mut ctrl, 50.0, active);
    }
    assert_eq!(ctrl.ceiling(), 20);

    // Next settling: already at max, cannot probe higher.
    for _ in 0..3 {
        observe(&mut ctrl, 50.0, active);
    }
    assert_eq!(ctrl.ceiling(), 20, "should stay at max");
}

#[test]
fn derivative_clamps_to_ceiling_min() {
    let mut cfg = derivative_config();
    cfg.ceiling_min = 2;
    let mut ctrl = AimdController::new(cfg, 3);
    let active = 3;

    // Settle, then probe to 4.
    for _ in 0..3 {
        observe(&mut ctrl, 50.0, active);
    }
    assert_eq!(ctrl.ceiling(), 4);

    // Crossover detected: 4 * 0.5 = 2, clamped to ceiling_min=2.
    for _ in 0..3 {
        observe(&mut ctrl, 80.0, active); // 60% increase > 10% sensitivity
    }
    assert_eq!(ctrl.ceiling(), 2, "should clamp to ceiling_min");
}

#[test]
fn derivative_unsaturation_during_measurement_resets() {
    let mut ctrl = AimdController::new(derivative_config(), 5);

    // Settle with saturation.
    for _ in 0..3 {
        observe(&mut ctrl, 50.0, 5);
    }
    assert_eq!(ctrl.ceiling(), 6, "probed to 6");

    // First measurement observation saturated.
    observe(&mut ctrl, 50.0, 6);

    // Become unsaturated mid-measurement (active=2, ceiling=6, 2 < 5).
    observe(&mut ctrl, 50.0, 2);

    // Should have reset to waiting for saturation. Ceiling stays at 6.
    assert_eq!(ctrl.ceiling(), 6);

    // Further unsaturated observations: no change.
    for _ in 0..10 {
        observe(&mut ctrl, 50.0, 2);
    }
    assert_eq!(ctrl.ceiling(), 6, "should stay put while unsaturated");
}

#[test]
fn derivative_multiple_probe_rounds() {
    let mut ctrl = AimdController::new(derivative_config(), 3);
    let active = 3;

    // Round 1: settle at 3, probe to 4, measure stable, keep 4.
    for _ in 0..3 {
        observe(&mut ctrl, 50.0, active);
    }
    assert_eq!(ctrl.ceiling(), 4);
    for _ in 0..3 {
        observe(&mut ctrl, 50.0, active);
    }
    assert_eq!(ctrl.ceiling(), 4);

    // Round 2: settle at 4, probe to 5, measure stable, keep 5.
    for _ in 0..3 {
        observe(&mut ctrl, 50.0, active);
    }
    assert_eq!(ctrl.ceiling(), 5);
    for _ in 0..3 {
        observe(&mut ctrl, 50.0, active);
    }
    assert_eq!(ctrl.ceiling(), 5);
}

#[test]
fn operands_follow_the_phase() {
    let mut ctrl = AimdController::new(derivative_config(), 5);
    let first = ctrl.operands(binary(50.0));
    assert_eq!(first.observations, 1);
    assert_eq!(value(first.phase_itl_sum), 0.0);
    assert_eq!(value(first.itl_ms), 50.0);
    assert_eq!(ctrl.ceiling(), 5);
    assert!(first.floor_ms.is_none());

    observe(&mut ctrl, 50.0, 5);
    let second = ctrl.operands(binary(40.0));
    assert_eq!(second.observations, 2);
    assert_eq!(value(second.phase_itl_sum), 50.0);

    observe(&mut ctrl, 40.0, 5);
    observe(&mut ctrl, 60.0, 5);
    let probing = ctrl.operands(binary(70.0));
    assert_eq!(probing.observations, 1);
    assert_eq!(value(probing.phase_itl_sum), 0.0);
    assert_eq!(value(probing.baseline_itl), 50.0);
    assert_eq!(ctrl.ceiling(), 6);
}

#[test]
fn crossover_keeps_the_old_baseline() {
    let mut ctrl = AimdController::new(derivative_config(), 5);
    for _ in 0..3 {
        observe(&mut ctrl, 50.0, 5);
    }
    for _ in 0..3 {
        observe(&mut ctrl, 60.0, 5);
    }
    assert_eq!(value(ctrl.operands(binary(1.0)).baseline_itl), 50.0);

    let mut ctrl = AimdController::new(derivative_config(), 5);
    for _ in 0..3 {
        observe(&mut ctrl, 50.0, 5);
    }
    for _ in 0..3 {
        observe(&mut ctrl, 54.0, 5);
    }
    assert_eq!(value(ctrl.operands(binary(1.0)).baseline_itl), 54.0);
}

#[test]
fn a_mean_at_the_limit_is_no_crossover() {
    let mut cfg = derivative_config();
    cfg.sensitivity = binary(0.5);
    let mut ctrl = AimdController::new(cfg, 5);
    for _ in 0..3 {
        observe(&mut ctrl, 50.0, 5);
    }
    for _ in 0..3 {
        observe(&mut ctrl, 75.0, 5);
    }
    assert_eq!(ctrl.ceiling(), 6);
}

#[test]
fn no_hysteresis_acts_on_every_observation() {
    let mut cfg = test_config();
    cfg.hysteresis_steps = 0;
    let mut ctrl = AimdController::new(cfg, 10);
    assert_eq!(observe_saturated(&mut ctrl, 100.0), 8);
    assert_eq!(observe_saturated(&mut ctrl, 84.0), 9);
    assert_eq!(observe_saturated(&mut ctrl, 90.0), 9);
}

#[test]
fn nan_falls_into_the_dead_zone() {
    let mut ctrl = AimdController::new(test_config(), 10);
    observe_saturated(&mut ctrl, 110.0);
    observe_saturated(&mut ctrl, 110.0);
    observe_saturated(&mut ctrl, f64::NAN);
    observe_saturated(&mut ctrl, 110.0);
    assert_eq!(ctrl.ceiling(), 10);
}

#[test]
fn the_largest_ceiling_stays_at_the_maximum() {
    let mut cfg = test_config();
    cfg.ceiling_max = u32::MAX;
    let mut ctrl = AimdController::new(cfg, u32::MAX);
    for _ in 0..3 {
        observe_saturated(&mut ctrl, 50.0);
    }
    assert_eq!(ctrl.ceiling(), u32::MAX);
}

#[test]
fn a_start_above_the_maximum_comes_down_to_it() {
    let mut ctrl = AimdController::new(test_config(), 100);
    for _ in 0..3 {
        observe_saturated(&mut ctrl, 50.0);
    }
    assert_eq!(ctrl.ceiling(), 64);
}

#[test]
fn the_ceiling_stays_in_bounds() {
    let mut cfg = test_config();
    cfg.ceiling_min = 4;
    cfg.ceiling_max = 12;
    cfg.hysteresis_steps = 1;
    let mut ctrl = AimdController::new(cfg, 8);
    let readings = [200.0, 200.0, 200.0, 200.0, 10.0, 10.0, 10.0, 90.0, 10.0, 10.0, 10.0, 10.0,
        10.0, 10.0, 10.0, 10.0, 300.0];
    for itl in readings {
        let ceiling = observe_saturated(&mut ctrl, itl);
        assert!((4..=12).contains(&ceiling));
    }
    assert_eq!(ctrl.ceiling(), 9, "12 * 0.8 = 9");
}

#[test]
fn a_fast_observation_ends_a_run_of_slow_ones() {
    let mut ctrl = AimdController::new(test_config(), 10);
    for itl in [110.0, 110.0, 50.0, 110.0, 110.0] {
        assert_eq!(observe_saturated(&mut ctrl, itl), 10);
    }
    assert_eq!(observe_saturated(&mut ctrl, 110.0), 8);
}

#[test]
fn any_fraction_keeps_the_bounds() {
    let mut state: u64 = 12345;
    for _ in 0..500 {
        state = state.wrapping_mul(6364136223846793005).wrapping_add(1442695040888963407);
        let beta = f64::from_bits(state % 0x3ff0_0000_0000_0000 + 1).min(1.0 - f64::EPSILON / 2.0);
        let config = AimdConfig {
            beta: binary(beta),
            hysteresis_steps: 1,
            ceiling_min: 3,
            ceiling_max: u32::MAX - 1,
            ..test_config()
        };
        let start = (state >> 32) as u32 % (u32::MAX - 4) + 3;
        let mut ctrl = AimdController::new(config, start);
        for itl in [150.0, 50.0, 150.0] {
            let before = ctrl.ceiling();
            let after = observe_saturated(&mut ctrl, itl);
            assert!((3..=u32::MAX - 1).contains(&after));
            assert!(after <= before + 1);
            assert_eq!(after, ctrl.ceiling());
        }
    }
}
