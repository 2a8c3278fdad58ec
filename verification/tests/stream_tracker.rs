use std::time::Duration;

use smoothie::binary64::Binary64;
use smoothie::stream_tracker::{Smoothing, StreamTracker};

fn binary(x: f64) -> Binary64 {
    Binary64::from_bits(x.to_bits())
}

fn value(x: Binary64) -> f64 {
    f64::from_bits(x.bits)
}

fn millis(nanos: u128) -> f64 {
    Duration::from_nanos(nanos as u64).as_secs_f64() * 1000.0
}

fn smooth(smoothing: Smoothing) -> Binary64 {
    match smoothing {
        Smoothing::Seed { elapsed_nanos } => binary(millis(elapsed_nanos)),
        Smoothing::Blend { alpha, elapsed_nanos, previous } => {
            let alpha = value(alpha);
            binary(alpha * millis(elapsed_nanos) + (1.0 - alpha) * value(previous))
        }
    }
}

fn record_token(tracker: &mut StreamTracker, now: u128) -> f64 {
    let smoothed = smooth(tracker.smoothing(now));
    value(tracker.record_token(now, smoothed))
}

const MS: u128 = 1_000_000;
const START: u128 = 7_000_000_000;

#[test]
fn first_interval_seeds_ewma() {
    let mut tracker = StreamTracker::new(binary(0.3), START);
    let t0 = START;
    tracker.record_first_token(t0);
    let t1 = t0 + 50 * MS;
    let itl = record_token(&mut tracker, t1);
    assert!((itl - 50.0).abs() < 0.1, "first interval should seed EWMA directly");
    assert_eq!(tracker.intervals(), 1);
}

#[test]
fn ewma_converges_to_steady_state() {
    let mut tracker = StreamTracker::new(binary(0.3), START);
    let t0 = START;
    tracker.record_first_token(t0);

    // Feed 20 tokens at steady 100ms intervals.
    let mut t = t0;
    for _ in 0..20 {
        t += 100 * MS;
        record_token(&mut tracker, t);
    }

    // Should converge close to 100ms.
    let smoothed = value(tracker.smoothed_itl_ms());
    assert!((smoothed - 100.0).abs() < 1.0, "EWMA should converge to 100ms, got {}", smoothed);
}

#[test]
fn spike_recovery() {
    let mut tracker = StreamTracker::new(binary(0.3), START);
    let t0 = START;
    tracker.record_first_token(t0);

    // Establish baseline at 50ms.
    let mut t = t0;
    for _ in 0..10 {
        t += 50 * MS;
        record_token(&mut tracker, t);
    }
    let baseline = value(tracker.smoothed_itl_ms());
    assert!((baseline - 50.0).abs() < 1.0);

    // Inject a spike (500ms).
    t += 500 * MS;
    let after_spike = record_token(&mut tracker, t);
    assert!(after_spike > baseline, "spike should raise EWMA");
    assert!(after_spike < 500.0, "EWMA should dampen spike");

    // Recover back toward 50ms.
    for _ in 0..20 {
        t += 50 * MS;
        record_token(&mut tracker, t);
    }
    let smoothed = value(tracker.smoothed_itl_ms());
    assert!((smoothed - 50.0).abs() < 5.0, "should recover toward baseline, got {}", smoothed);
}

#[test]
fn terminal_correction_overrides_ewma() {
    let mut tracker = StreamTracker::new(binary(0.3), START);
    let t0 = START;
    tracker.record_first_token(t0);
    record_token(&mut tracker, t0 + 100 * MS);

    tracker.apply_terminal_correction(binary(42.0));
    assert!((value(tracker.smoothed_itl_ms()) - 42.0).abs() < f64::EPSILON);
}

#[test]
fn later_intervals_blend_with_the_estimate() {
    let mut tracker = StreamTracker::new(binary(0.25), START);
    assert_eq!(tracker.smoothing(START + 5), Smoothing::Seed { elapsed_nanos: 5 });
    record_token(&mut tracker, START + 40 * MS);
    assert_eq!(
        tracker.smoothing(START + 120 * MS),
        Smoothing::Blend {
            alpha: binary(0.25),
            elapsed_nanos: 80 * MS,
            previous: binary(40.0),
        }
    );
    assert_eq!(record_token(&mut tracker, START + 120 * MS), 50.0);
    assert_eq!(tracker.intervals(), 2);
}

#[test]
fn a_token_before_the_last_one_counts_as_no_time() {
    let tracker = StreamTracker::new(binary(0.3), START);
    assert_eq!(tracker.smoothing(START - 1), Smoothing::Seed { elapsed_nanos: 0 });
}

#[test]
fn the_next_interval_blends_with_a_correction() {
    let mut tracker = StreamTracker::new(binary(0.5), START);
    record_token(&mut tracker, START + 10 * MS);
    tracker.apply_terminal_correction(binary(30.0));
    assert_eq!(record_token(&mut tracker, START + 20 * MS), 20.0);
}
