use std::time::Duration;

use smoothie::aimd::{Figures, Operands};
use smoothie::binary64::Binary64;
use smoothie::config::SmoothieConfig;
use smoothie::decimal::decimal;
use smoothie::filter::{
    BodyAction, BodyStep, Rejection, RequestOutcome, SmoothieFilter, SmoothieRequestState,
};
use smoothie::stream_tracker::Smoothing;

const SECOND: u128 = 1_000_000_000;
const MS: u128 = 1_000_000;

fn binary(x: f64) -> Binary64 {
    Binary64::from_bits(x.to_bits())
}

fn value(x: Binary64) -> f64 {
    f64::from_bits(x.bits)
}

fn millis(nanos: u128) -> f64 {
    Duration::from_nanos(nanos as u64).as_secs_f64() * 1000.0
}

fn smooth(smoothing: Smoothing) -> Binary64 {
    match smoothing {
        Smoothing::Seed { elapsed_nanos } => binary(millis(elapsed_nanos)),
        Smoothing::Blend { alpha, elapsed_nanos, previous } => {
            let alpha = value(alpha);
            binary(alpha * millis(elapsed_nanos) + (1.0 - alpha) * value(previous))
        }
    }
}

fn evaluate(o: &Operands) -> Figures {
    let headroom_threshold = match o.floor_ms {
        Some(floor) => value(floor) - value(o.headroom_ms),
        None => 0.0,
    };
    let itl_sum = value(o.phase_itl_sum) + value(o.itl_ms);
    Figures {
        headroom_threshold: binary(headroom_threshold),
        itl_sum: binary(itl_sum),
        mean_itl: binary(itl_sum / f64::from(o.observations)),
        crossover_limit: binary(value(o.baseline_itl) * (1.0 + value(o.sensitivity))),
    }
}

/// Carry a chunk to its end. Returns the observed latencies with the action.
fn finish(filter: &mut SmoothieFilter, first: BodyStep) -> (BodyAction, Vec<f64>) {
    let mut observed = Vec::new();
    let mut step = first;
    loop {
        step = match step {
            BodyStep::Smooth { smoothing, run } => filter.with_smoothed(run, smooth(smoothing)),
            BodyStep::Midpoint { lower, upper, run } => {
                filter.with_midpoint(run, binary((value(lower) + value(upper)) / 2.0))
            }
            BodyStep::Evaluate { operands, run } => {
                observed.push(value(operands.itl_ms));
                filter.with_figures(run, evaluate(&operands))
            }
            BodyStep::Finished { action } => return (action, observed),
        };
    }
}

fn body(
    filter: &mut SmoothieFilter,
    state: &mut SmoothieRequestState,
    chunk: Option<&[u8]>,
    end_of_stream: bool,
    now: u128,
) -> (BodyAction, Vec<f64>) {
    let step = filter.on_response_body_at(state, chunk, end_of_stream, now);
    finish(filter, step)
}

fn fixed_floor(ceiling: u32) -> SmoothieFilter {
    let cfg = SmoothieConfig {
        floor_tps: Some(binary(10.0)),
        ceiling_init: Some(ceiling),
        ..SmoothieConfig::default()
    };
    SmoothieFilter::from_config(&cfg, binary(100.0), binary(15.0)).unwrap()
}

fn admitted(filter: &mut SmoothieFilter, now: u128) -> SmoothieRequestState {
    match filter.on_request_at(now) {
        RequestOutcome::Admitted(state) => state,
        RequestOutcome::Rejected(rejection) => panic!("rejected: {:?}", rejection),
    }
}

fn rejected(filter: &mut SmoothieFilter, now: u128) -> Rejection {
    match filter.on_request_at(now) {
        RequestOutcome::Admitted(_) => panic!("admitted"),
        RequestOutcome::Rejected(rejection) => rejection,
    }
}

fn header(name: &str, text: &str) -> (String, String) {
    (name.to_string(), text.to_string())
}

#[test]
fn a_broken_configuration_is_refused() {
    let cfg = SmoothieConfig { beta: binary(1.0), ..SmoothieConfig::default() };
    let refused = SmoothieFilter::from_config(&cfg, binary(0.0), binary(15.0));
    assert_eq!(
        refused.unwrap_err(),
        "smoothie: beta must be in the open interval (0, 1)"
    );
}

#[test]
fn the_initial_ceiling_follows_the_mode() {
    let cfg = SmoothieConfig::default();
    let filter = SmoothieFilter::from_config(&cfg, binary(0.0), binary(15.0)).unwrap();
    assert_eq!(filter.ceiling(), 1);
    let cfg = SmoothieConfig { floor_tps: Some(binary(10.0)), ..cfg };
    let filter = SmoothieFilter::from_config(&cfg, binary(100.0), binary(15.0)).unwrap();
    assert_eq!(filter.ceiling(), 64);
}

#[test]
fn overflow_is_shed() {
    let mut filter = fixed_floor(2);
    let first = admitted(&mut filter, 0);
    let second = admitted(&mut filter, 0);
    assert_eq!(first.stream_id(), 0);
    assert_eq!(second.stream_id(), 1);
    let rejection = rejected(&mut filter, 0);
    assert_eq!(rejection.status, 429);
    assert_eq!(
        rejection.headers,
        vec![header("Retry-After", "1"), header("X-Smoothie-Ceiling", "2")]
    );
    assert!(rejection.body.is_none());
    assert_eq!(filter.active(), 2);
}

#[test]
fn an_open_breaker_answers_first() {
    let mut filter = fixed_floor(1);
    let _held = admitted(&mut filter, 0);
    for _ in 0..5 {
        filter.on_response_at(Some(500), 10 * SECOND);
    }
    assert_eq!(filter.consecutive_failures(), 5);
    let rejection = rejected(&mut filter, 39 * SECOND);
    assert_eq!(rejection.status, 503);
    assert_eq!(rejection.headers, vec![header("X-Smoothie-State", "circuit-open")]);
    assert_eq!(
        rejection.body.as_deref(),
        Some("service unavailable: circuit breaker open")
    );
    // Once the window has elapsed, the semaphore decides.
    assert_eq!(rejected(&mut filter, 40 * SECOND).status, 429);
}

#[test]
fn probes_pass_after_the_window_and_a_success_closes() {
    let mut filter = fixed_floor(8);
    for _ in 0..5 {
        filter.on_response_at(Some(503), 0);
    }
    assert_eq!(rejected(&mut filter, 29 * SECOND).status, 503);
    let _probe = admitted(&mut filter, 30 * SECOND);
    filter.on_response_at(Some(200), 31 * SECOND);
    let _next = admitted(&mut filter, 31 * SECOND);
    assert_eq!(filter.consecutive_failures(), 0);
}

#[test]
fn a_half_open_breaker_admits_one_probe() {
    let mut filter = fixed_floor(8);
    for _ in 0..5 {
        filter.on_response_at(Some(503), 0);
    }
    let mut probe = admitted(&mut filter, 30 * SECOND);
    for i in 0..3 {
        let rejection = rejected(&mut filter, (31 + i) * SECOND);
        assert_eq!(rejection.status, 503);
        assert_eq!(rejection.headers, vec![header("X-Smoothie-State", "circuit-open")]);
    }
    assert_eq!(filter.active(), 1);
    // The body of the probe is no outcome.
    body(&mut filter, &mut probe, Some(b"data: x\n"), false, 40 * SECOND);
    assert_eq!(rejected(&mut filter, 41 * SECOND).status, 503);
    // A failed probe opens the breaker for another window, and then one more passes.
    filter.on_response_at(Some(500), 50 * SECOND);
    assert_eq!(rejected(&mut filter, 79 * SECOND).status, 503);
    let _second_probe = admitted(&mut filter, 80 * SECOND);
    assert_eq!(rejected(&mut filter, 80 * SECOND).status, 503);
    // A success closes it for all.
    filter.on_response_at(Some(200), 81 * SECOND);
    let _a = admitted(&mut filter, 81 * SECOND);
    let _b = admitted(&mut filter, 81 * SECOND);
    assert_eq!(filter.active(), 4);
}

#[test]
fn a_shed_request_is_no_probe() {
    let mut filter = fixed_floor(1);
    let mut held = admitted(&mut filter, 0);
    for _ in 0..5 {
        filter.on_response_at(Some(503), 0);
    }
    assert_eq!(rejected(&mut filter, 30 * SECOND).status, 429);
    assert_eq!(rejected(&mut filter, 31 * SECOND).status, 429);
    body(&mut filter, &mut held, None, true, 32 * SECOND);
    let _probe = admitted(&mut filter, 33 * SECOND);
    assert_eq!(rejected(&mut filter, 33 * SECOND).status, 503);
}

#[test]
fn only_server_errors_count_as_failures() {
    let mut filter = fixed_floor(8);
    for status in [500, 599, 503, 502] {
        filter.on_response_at(Some(status), 0);
    }
    assert_eq!(filter.consecutive_failures(), 4);
    for status in [None, Some(499), Some(600), Some(200), Some(429)] {
        filter.on_response_at(Some(500), 0);
        filter.on_response_at(status, 0);
        assert_eq!(filter.consecutive_failures(), 0);
    }
}

#[test]
fn the_end_marker_gives_up_the_slot_once() {
    let mut filter = fixed_floor(4);
    let mut state = admitted(&mut filter, 0);
    let other = admitted(&mut filter, 0);
    assert_eq!(filter.active(), 2);
    let (action, _) = body(&mut filter, &mut state, Some(b"data: x\ndata: [DONE]\n"), false, MS);
    assert_eq!(action, BodyAction::BodyDone);
    assert_eq!(filter.active(), 1);
    let (action, _) = body(&mut filter, &mut state, None, true, 2 * MS);
    assert_eq!(action, BodyAction::BodyDone);
    assert_eq!(filter.active(), 1);
    assert_eq!(other.stream_id(), 1);
}

#[test]
fn the_end_of_the_body_gives_up_the_slot() {
    let mut filter = fixed_floor(4);
    let mut state = admitted(&mut filter, 0);
    let (action, _) = body(&mut filter, &mut state, Some(b"data: x\n"), false, MS);
    assert_eq!(action, BodyAction::Continue);
    assert_eq!(filter.active(), 1);
    let (action, _) = body(&mut filter, &mut state, None, false, MS);
    assert_eq!(action, BodyAction::Continue);
    assert_eq!(filter.active(), 1);
    let (action, _) = body(&mut filter, &mut state, Some(b"data: y\n"), true, 2 * MS);
    assert_eq!(action, BodyAction::BodyDone);
    assert_eq!(filter.active(), 0);
    let _again = admitted(&mut filter, 3 * MS);
    assert_eq!(filter.active(), 1);
}

#[test]
fn the_first_token_is_no_interval() {
    let mut filter = fixed_floor(4);
    let mut state = admitted(&mut filter, 0);
    // The time to the first token does not count.
    let (_, observed) = body(&mut filter, &mut state, Some(b"data: a\n"), false, 900 * MS);
    assert!(observed.is_empty());
    let (_, observed) = body(&mut filter, &mut state, Some(b"data: b\n"), false, 940 * MS);
    assert_eq!(observed, vec![40.0]);
    // A chunk without a complete data line is no observation.
    let (_, observed) = body(&mut filter, &mut state, Some(b"data: c"), false, 950 * MS);
    assert!(observed.is_empty());
    // 0.3 * 60 + 0.7 * 40
    let (_, observed) = body(&mut filter, &mut state, Some(b"\n"), false, 1000 * MS);
    assert_eq!(observed, vec![0.3 * 60.0 + (1.0 - 0.3) * 40.0]);
}

#[test]
fn tokens_that_come_with_the_first_are_measured_from_it() {
    let mut filter = fixed_floor(4);
    let mut state = admitted(&mut filter, 0);
    // Three tokens at once after 900 ms: two intervals, none of which holds the wait.
    let step = filter.on_response_body_at(
        &mut state,
        Some(b"data: a\ndata: b\ndata: c\n"),
        false,
        900 * MS,
    );
    let run = match step {
        BodyStep::Smooth { smoothing, run } => {
            assert_eq!(smoothing, Smoothing::Seed { elapsed_nanos: 0 });
            assert_eq!(run.tracker.intervals(), 0);
            run
        }
        other => panic!("{:?}", other),
    };
    let run = match filter.with_smoothed(run, binary(0.0)) {
        BodyStep::Smooth { smoothing, run } => {
            assert_eq!(
                smoothing,
                Smoothing::Blend { alpha: binary(0.3), elapsed_nanos: 0, previous: binary(0.0) }
            );
            assert_eq!(run.tracker.intervals(), 1);
            run
        }
        other => panic!("{:?}", other),
    };
    let step = filter.with_smoothed(run, binary(0.0));
    assert!(matches!(step, BodyStep::Finished { action: BodyAction::Continue }));
    // The third interval blends with what the two left.
    match filter.on_response_body_at(&mut state, Some(b"data: d\n"), false, 940 * MS) {
        BodyStep::Smooth { smoothing, run } => {
            assert_eq!(
                smoothing,
                Smoothing::Blend {
                    alpha: binary(0.3),
                    elapsed_nanos: 40 * MS,
                    previous: binary(0.0)
                }
            );
            assert_eq!(run.tracker.intervals(), 2);
        }
        other => panic!("{:?}", other),
    }
    assert_eq!(state.sse().token_count(), 4);
}

#[test]
fn every_token_of_a_chunk_is_recorded() {
    let mut filter = fixed_floor(4);
    let mut state = admitted(&mut filter, 0);
    body(&mut filter, &mut state, Some(b"data: a\n"), false, 0);
    // Three tokens at once: one interval of 100 ms and two of none.
    let (_, observed) =
        body(&mut filter, &mut state, Some(b"data: b\ndata: c\ndata: d\n"), false, 100 * MS);
    let expected = (1.0 - 0.3) * ((1.0 - 0.3) * 100.0);
    assert_eq!(observed.len(), 1);
    assert!((observed[0] - expected).abs() < 1e-9);
    assert_eq!(state.sse().token_count(), 4);
}

#[test]
fn the_median_of_the_streams_is_observed() {
    let mut filter = fixed_floor(4);
    let mut a = admitted(&mut filter, 0);
    let mut b = admitted(&mut filter, 0);
    let mut c = admitted(&mut filter, 0);
    body(&mut filter, &mut a, Some(b"data: 1\n"), false, 0);
    body(&mut filter, &mut b, Some(b"data: 1\n"), false, 0);
    body(&mut filter, &mut c, Some(b"data: 1\n"), false, 0);
    let (_, observed) = body(&mut filter, &mut a, Some(b"data: 2\n"), false, 40 * MS);
    assert_eq!(observed, vec![40.0]);
    let (_, observed) = body(&mut filter, &mut b, Some(b"data: 2\n"), false, 60 * MS);
    assert_eq!(observed, vec![50.0]);
    let (_, observed) = body(&mut filter, &mut c, Some(b"data: 2\n"), false, 900 * MS);
    assert_eq!(observed, vec![60.0]);
}

#[test]
fn the_terminal_timing_corrects_and_is_observed() {
    let mut filter = fixed_floor(4);
    let mut state = admitted(&mut filter, 0);
    body(&mut filter, &mut state, Some(b"data: a\n"), false, 0);
    let (action, observed) = body(
        &mut filter,
        &mut state,
        Some(b"data: {\"timings\":{\"predicted_per_token_ms\":42.5}}\n\ndata: [DONE]\n\n"),
        false,
        80 * MS,
    );
    assert_eq!(action, BodyAction::BodyDone);
    assert_eq!(observed, vec![80.0, 42.5]);
    assert_eq!(filter.active(), 0);
}

#[test]
fn the_terminal_timing_outlives_its_chunk() {
    let mut filter = fixed_floor(4);
    let mut state = admitted(&mut filter, 0);
    body(&mut filter, &mut state, Some(b"data: a\n"), false, 0);
    let timing: &[u8] = b"data: {\"timings\":{\"predicted_per_token_ms\":42.5}}\n\n";
    let (_, observed) = body(&mut filter, &mut state, Some(timing), false, 80 * MS);
    assert_eq!(observed, vec![80.0]);
    let (action, observed) =
        body(&mut filter, &mut state, Some(b"data: [DONE]\n\n"), false, 81 * MS);
    assert_eq!(action, BodyAction::BodyDone);
    assert_eq!(observed, vec![42.5]);
    assert_eq!(filter.active(), 0);
}

#[test]
fn a_second_marker_is_not_observed() {
    let mut filter = fixed_floor(4);
    let mut other = admitted(&mut filter, 0);
    body(&mut filter, &mut other, Some(b"data: a\n"), false, 0);
    body(&mut filter, &mut other, Some(b"data: b\n"), false, 60 * MS);
    let mut state = admitted(&mut filter, 0);
    let ending: &[u8] =
        b"data: {\"timings\":{\"predicted_per_token_ms\":42.5}}\n\ndata: [DONE]\n\n";
    let (_, observed) = body(&mut filter, &mut state, Some(ending), false, 80 * MS);
    assert_eq!(observed, vec![(42.5 + 60.0) / 2.0]);
    let (action, observed) =
        body(&mut filter, &mut state, Some(b"data: [DONE]\n\n"), false, 90 * MS);
    assert_eq!(action, BodyAction::BodyDone);
    assert!(observed.is_empty());
    assert_eq!(filter.active(), 1);
}

#[test]
fn concurrency_never_exceeds_the_maximum() {
    let cfg = SmoothieConfig {
        floor_tps: Some(binary(10.0)),
        ceiling_max: 5,
        ceiling_init: Some(2),
        hysteresis_steps: 1,
        ..SmoothieConfig::default()
    };
    let mut filter = SmoothieFilter::from_config(&cfg, binary(100.0), binary(15.0)).unwrap();
    let mut held: Vec<SmoothieRequestState> = Vec::new();
    for round in 0u128..300 {
        let now = round * 20 * MS;
        if let RequestOutcome::Admitted(state) = filter.on_request_at(now) {
            held.push(state);
        }
        if round % 11 == 10 {
            filter.on_response_at(Some(if round % 2 == 0 { 500 } else { 200 }), now);
        }
        if round % 7 == 6 {
            let mut state = held.remove(0);
            body(&mut filter, &mut state, None, true, now);
        }
        for state in held.iter_mut() {
            body(&mut filter, state, Some(b"data: x\n"), false, now);
        }
        assert_eq!(filter.active() as usize, held.len());
        assert!(filter.active() <= 5);
        assert!((1..=5).contains(&filter.ceiling()));
    }
    assert_eq!(filter.ceiling(), 5);
}

#[test]
fn a_stream_gives_up_its_slot_with_the_first_part_that_ends_it() {
    let mut filter = fixed_floor(4);
    let mut state = admitted(&mut filter, 0);
    let _other = admitted(&mut filter, 0);
    let parts: [(Option<&[u8]>, bool, u32); 6] = [
        (Some(b"data: a\ndata: [DO"), false, 2),
        (None, false, 2),
        (Some(b"NE]\n"), false, 1),
        (Some(b"data: [DONE]\n"), false, 1),
        (None, true, 1),
        (Some(b"data: b\n"), true, 1),
    ];
    for (chunk, end_of_stream, active) in parts {
        body(&mut filter, &mut state, chunk, end_of_stream, MS);
        assert_eq!(filter.active(), active);
    }
}

#[test]
fn slow_streams_lower_the_ceiling() {
    let mut filter = fixed_floor(10);
    let mut state = admitted(&mut filter, 0);
    body(&mut filter, &mut state, Some(b"data: 0\n"), false, 0);
    for i in 1..=2 {
        body(&mut filter, &mut state, Some(b"data: x\n"), false, i * 150 * MS);
        assert_eq!(filter.ceiling(), 10);
    }
    body(&mut filter, &mut state, Some(b"data: x\n"), false, 3 * 150 * MS);
    assert_eq!(filter.ceiling(), 8);
    for i in 4..=6 {
        body(&mut filter, &mut state, Some(b"data: x\n"), false, i * 150 * MS);
    }
    assert_eq!(filter.ceiling(), 6);
}

#[test]
fn fast_streams_raise_the_ceiling() {
    let mut filter = fixed_floor(10);
    let mut state = admitted(&mut filter, 0);
    body(&mut filter, &mut state, Some(b"data: 0\n"), false, 0);
    for i in 1..=3 {
        body(&mut filter, &mut state, Some(b"data: x\n"), false, i * 20 * MS);
    }
    assert_eq!(filter.ceiling(), 11);
}

#[test]
fn a_lowered_ceiling_evicts_nobody() {
    let mut filter = fixed_floor(3);
    let mut a = admitted(&mut filter, 0);
    let _b = admitted(&mut filter, 0);
    let _c = admitted(&mut filter, 0);
    body(&mut filter, &mut a, Some(b"data: 0\n"), false, 0);
    for i in 1..=3 {
        body(&mut filter, &mut a, Some(b"data: x\n"), false, i * 500 * MS);
    }
    assert_eq!(filter.ceiling(), 2);
    assert_eq!(filter.active(), 3);
    assert_eq!(rejected(&mut filter, 0).status, 429);
    body(&mut filter, &mut a, None, true, SECOND);
    assert_eq!(rejected(&mut filter, 0).headers[1], header("X-Smoothie-Ceiling", "2"));
}

#[test]
fn a_stream_that_is_gone_is_not_recorded() {
    let mut filter = fixed_floor(4);
    let mut state = admitted(&mut filter, 0);
    body(&mut filter, &mut state, None, true, 0);
    let (action, observed) =
        body(&mut filter, &mut state, Some(b"data: a\ndata: b\n"), false, 100 * MS);
    assert_eq!(action, BodyAction::Continue);
    assert!(observed.is_empty());
    assert_eq!(filter.active(), 0);
}

#[test]
fn the_clock_drives_the_phases() {
    let mut filter = fixed_floor(1);
    let mut state = match filter.on_request() {
        RequestOutcome::Admitted(state) => state,
        RequestOutcome::Rejected(rejection) => panic!("rejected: {:?}", rejection),
    };
    filter.on_response(Some(200));
    let step = filter.on_response_body(&mut state, Some(b"data: a\n\ndata: [DONE]\n\n"), true);
    let (action, _) = finish(&mut filter, step);
    assert_eq!(action, BodyAction::BodyDone);
    assert_eq!(filter.active(), 0);
    for _ in 0..5 {
        filter.on_response(Some(500));
    }
    assert!(matches!(filter.on_request(), RequestOutcome::Rejected(r) if r.status == 503));
}

#[test]
fn decimal_text_of_integers() {
    for n in [0, 1, 9, 10, 11, 99, 100, 12345, 67890, 1_000_000, u32::MAX] {
        assert_eq!(decimal(n), n.to_string());
    }
}
