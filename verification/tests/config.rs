use smoothie::binary64::Binary64;
use smoothie::config::{
    default_beta, default_cb_consecutive_failures, default_cb_recovery_window_secs,
    default_ceiling_max, default_ceiling_min, default_ewma_alpha, default_headroom_ms,
    default_hysteresis_steps, default_sensitivity, SmoothieConfig,
};

fn binary(x: f64) -> Binary64 {
    Binary64::from_bits(x.to_bits())
}

fn value(x: Binary64) -> f64 {
    f64::from_bits(x.bits)
}

fn default_config() -> SmoothieConfig {
    SmoothieConfig::default()
}

fn message(cfg: &SmoothieConfig) -> String {
    cfg.validate().unwrap_err()
}

#[test]
fn defaults_are_valid() {
    let cfg = default_config();
    cfg.validate().unwrap();
}

#[test]
fn default_floor_tps_is_none() {
    let cfg = default_config();
    assert!(cfg.floor_tps.is_none());
    assert!(cfg.floor_ms(binary(0.0)).is_none());
}

#[test]
fn floor_ms_derivation() {
    let mut cfg = default_config();
    cfg.floor_tps = Some(binary(10.0));
    let expected = 100.0; // 1000 / 10
    let quotient = binary(1000.0 / value(cfg.floor_tps.unwrap()));
    assert!((value(cfg.floor_ms(quotient).unwrap()) - expected).abs() < f64::EPSILON);
}

#[test]
fn rejects_zero_floor_tps() {
    let mut cfg = default_config();
    cfg.floor_tps = Some(binary(0.0));
    assert!(cfg.validate().is_err());
}

#[test]
fn rejects_negative_floor_tps() {
    let mut cfg = default_config();
    cfg.floor_tps = Some(binary(-1.0));
    assert!(cfg.validate().is_err());
}

#[test]
fn rejects_infinite_floor_tps() {
    let mut cfg = default_config();
    cfg.floor_tps = Some(binary(f64::INFINITY));
    assert!(cfg.validate().is_err());
}

#[test]
fn rejects_sensitivity_zero() {
    let mut cfg = default_config();
    cfg.sensitivity = binary(0.0);
    assert!(cfg.validate().is_err());
}

#[test]
fn rejects_sensitivity_one() {
    let mut cfg = default_config();
    cfg.sensitivity = binary(1.0);
    assert!(cfg.validate().is_err());
}

#[test]
fn rejects_beta_zero() {
    let mut cfg = default_config();
    cfg.beta = binary(0.0);
    assert!(cfg.validate().is_err());
}

#[test]
fn rejects_beta_one() {
    let mut cfg = default_config();
    cfg.beta = binary(1.0);
    assert!(cfg.validate().is_err());
}

#[test]
fn rejects_ewma_alpha_zero() {
    let mut cfg = default_config();
    cfg.ewma_alpha = binary(0.0);
    assert!(cfg.validate().is_err());
}

#[test]
fn accepts_ewma_alpha_one() {
    let mut cfg = default_config();
    cfg.ewma_alpha = binary(1.0);
    cfg.validate().unwrap();
}

#[test]
fn rejects_ceiling_max_below_min() {
    let mut cfg = default_config();
    cfg.ceiling_min = 10;
    cfg.ceiling_max = 5;
    assert!(cfg.validate().is_err());
}

#[test]
fn rejects_ceiling_init_out_of_range() {
    let mut cfg = default_config();
    cfg.ceiling_init = Some(100);
    cfg.ceiling_max = 64;
    assert!(cfg.validate().is_err());
}

#[test]
fn accepts_ceiling_init_in_range() {
    let mut cfg = default_config();
    cfg.ceiling_init = Some(32);
    cfg.validate().unwrap();
}

#[test]
fn rejects_zero_cb_consecutive_failures() {
    let mut cfg = default_config();
    cfg.cb_consecutive_failures = 0;
    assert!(cfg.validate().is_err());
}

#[test]
fn rejects_zero_cb_recovery_window() {
    let mut cfg = default_config();
    cfg.cb_recovery_window_secs = 0;
    assert!(cfg.validate().is_err());
}

#[test]
fn default_values() {
    assert_eq!(value(default_sensitivity()), 0.10);
    assert_eq!(default_headroom_ms(), 15);
    assert_eq!(value(default_beta()), 0.8);
    assert_eq!(value(default_ewma_alpha()), 0.3);
    assert_eq!(default_hysteresis_steps(), 3);
    assert_eq!(default_ceiling_min(), 1);
    assert_eq!(default_ceiling_max(), 64);
    assert_eq!(default_cb_consecutive_failures(), 5);
    assert_eq!(default_cb_recovery_window_secs(), 30);
    assert!(default_config().ceiling_init.is_none());
}

#[test]
fn each_rule_has_its_message() {
    let base = SmoothieConfig {
        ..default_config()
    };
    let cfg = SmoothieConfig { floor_tps: Some(binary(f64::NAN)), ..base };
    assert_eq!(message(&cfg), "floor_tps must be a finite number greater than 0");
    let cfg = SmoothieConfig { sensitivity: binary(f64::NAN), ..base };
    assert_eq!(message(&cfg), "sensitivity must be in the open interval (0, 1)");
    let cfg = SmoothieConfig { beta: binary(-0.5), ..base };
    assert_eq!(message(&cfg), "beta must be in the open interval (0, 1)");
    let cfg = SmoothieConfig { ewma_alpha: binary(1.5), ..base };
    assert_eq!(message(&cfg), "ewma_alpha must be in the half-open interval (0, 1]");
    let cfg = SmoothieConfig { ceiling_min: 0, ..base };
    assert_eq!(message(&cfg), "ceiling_min must be at least 1");
    let cfg = SmoothieConfig { ceiling_min: 65, ..base };
    assert_eq!(message(&cfg), "ceiling_max must be >= ceiling_min");
    let cfg = SmoothieConfig { ceiling_init: Some(65), ..base };
    assert_eq!(message(&cfg), "ceiling_init must be between ceiling_min and ceiling_max");
    let cfg = SmoothieConfig { cb_consecutive_failures: 0, ..base };
    assert_eq!(message(&cfg), "cb_consecutive_failures must be at least 1");
    let cfg = SmoothieConfig { cb_recovery_window_secs: 0, ..base };
    assert_eq!(message(&cfg), "cb_recovery_window_secs must be at least 1");
}

#[test]
fn the_first_broken_rule_is_reported() {
    let cfg = SmoothieConfig { beta: binary(2.0), ceiling_min: 0, ..default_config() };
    assert_eq!(message(&cfg), "beta must be in the open interval (0, 1)");
}

#[test]
fn the_start_follows_the_mode() {
    let cfg = default_config();
    assert_eq!(cfg.initial_ceiling(), 1);
    let cfg = SmoothieConfig { floor_tps: Some(binary(10.0)), ..default_config() };
    assert_eq!(cfg.initial_ceiling(), 64);
    let cfg = SmoothieConfig { ceiling_init: Some(7), ..default_config() };
    assert_eq!(cfg.initial_ceiling(), 7);
}
