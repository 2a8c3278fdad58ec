//! The request and response phases of the controller.
use crate::aimd::{AimdConfig, AimdController, AimdModel, Figures, Observation, Operands};
use crate::binary64::Binary64;
use crate::circuit_breaker::{BreakerModel, BreakerState, FaultCircuitBreaker};
use crate::config::SmoothieConfig;
use crate::decimal::decimal;
use crate::semaphore::AdaptiveSemaphore;
use crate::sse::{SseModel, SseParseResult, SseParserState};
use crate::stream_tracker::{Smoothing, StreamTracker};
use crate::streams::{Median, Streams};
use vstd::prelude::*;
use vstd::string::StringExecFns;

verus! {

/// A response that is sent in place of forwarding the request.
#[derive(Debug)]
pub struct Rejection {
    pub status: u16,
    pub headers: Vec<(String, String)>,
    pub body: Option<String>,
}

/// A rejection as a mathematical value.
pub struct RejectionModel {
    pub status: u16,
    pub headers: Seq<(Seq<char>, Seq<char>)>,
    pub body: Option<Seq<char>>,
}

impl View for Rejection {
    type V = RejectionModel;

    open spec fn view(&self) -> RejectionModel {
        RejectionModel {
            status: self.status,
            headers: self.headers@.map_values(|h: (String, String)| (h.0@, h.1@)),
            body: match self.body {
                Some(body) => Some(body@),
                None => None,
            },
        }
    }
}

/// What an open circuit is answered with.
pub open spec fn circuit_open_rejection() -> RejectionModel {
    RejectionModel {
        status: 503,
        headers: seq![("X-Smoothie-State"@, "circuit-open"@)],
        body: Some("service unavailable: circuit breaker open"@),
    }
}

/// What a request beyond the ceiling is answered with.
pub open spec fn shed_rejection(ceiling: nat) -> RejectionModel {
    RejectionModel {
        status: 429,
        headers: seq![
            ("Retry-After"@, "1"@),
            ("X-Smoothie-Ceiling"@, crate::decimal::decimal_text(ceiling)),
        ],
        body: None,
    }
}

impl Rejection {
    /// What an open circuit is answered with.
    pub fn circuit_open() -> (r: Self)
        ensures
            r@ == circuit_open_rejection(),
    {
        let headers: Vec<(String, String)> = vec![
            ("X-Smoothie-State".to_owned(), "circuit-open".to_owned()),
        ];
        let r: Rejection = Rejection {
            status: 503,
            headers,
            body: Some("service unavailable: circuit breaker open".to_owned()),
        };
        assert(r@.headers =~= circuit_open_rejection().headers);
        r
    }

    /// What a request beyond the ceiling is answered with.
    pub fn shed(ceiling: u32) -> (r: Self)
        ensures
            r@ == shed_rejection(ceiling as nat),
    {
        let headers: Vec<(String, String)> = vec![
            ("Retry-After".to_owned(), "1".to_owned()),
            ("X-Smoothie-Ceiling".to_owned(), decimal(ceiling)),
        ];
        let r: Rejection = Rejection { status: 429, headers, body: None };
        assert(r@.headers =~= shed_rejection(ceiling as nat).headers);
        r
    }
}

/// Per-request state, kept between the request phase and the end of the response.
#[derive(Debug)]
pub struct SmoothieRequestState {
    stream_id: u64,
    admitted: bool,
    sse: SseParserState,
}

/// The per-request state as a mathematical value.
pub struct RequestModel {
    pub stream_id: u64,
    pub admitted: bool,
    pub sse: SseModel,
}

impl View for SmoothieRequestState {
    type V = RequestModel;

    closed spec fn view(&self) -> RequestModel {
        RequestModel { stream_id: self.stream_id, admitted: self.admitted, sse: self.sse@ }
    }
}

impl SmoothieRequestState {
    /// The parser of the response body.
    pub fn sse(&self) -> (r: &SseParserState)
        ensures
            r@ == self@.sse,
    {
        &self.sse
    }

    /// The id of the stream.
    pub fn stream_id(&self) -> (r: u64)
        ensures
            r == self@.stream_id,
    {
        self.stream_id
    }
}

/// What becomes of a request.
#[derive(Debug)]
pub enum RequestOutcome {
    /// The request goes no further.
    Rejected(Rejection),
    /// The request proceeds, with this state.
    Admitted(SmoothieRequestState),
}

/// What becomes of a request, as a mathematical value.
pub enum OutcomeModel {
    Rejected(RejectionModel),
    Admitted(RequestModel),
}

impl View for RequestOutcome {
    type V = OutcomeModel;

    open spec fn view(&self) -> OutcomeModel {
        match self {
            RequestOutcome::Rejected(rejection) => OutcomeModel::Rejected(rejection@),
            RequestOutcome::Admitted(state) => OutcomeModel::Admitted(state@),
        }
    }
}

/// What the response-body phase answers.
#[derive(Debug, Clone, Copy, PartialEq, Eq, Structural)]
pub enum BodyAction {
    /// Go on with the next chunk.
    Continue,
    /// The body needs no further inspection.
    BodyDone,
}

/// What is left to do for a chunk once its tokens are recorded.
#[derive(Debug, Clone, Copy, PartialEq, Eq, Structural)]
pub struct BodyRest {
    pub stream_id: u64,
    /// When the chunk arrived.
    pub now: u128,
    /// The terminal timing that the chunk carried.
    pub timing: Option<Binary64>,
    /// Whether the chunk completed the end-of-stream marker.
    pub stream_done: bool,
    /// Whether the body ends with this chunk.
    pub end_of_stream: bool,
}

/// What a latency observation follows.
#[derive(Debug, Clone, Copy, PartialEq, Eq, Structural)]
pub enum Signal {
    /// Tokens of the chunk.
    Tokens,
    /// The terminal timing.
    Terminal,
}

/// A token arrival that waits for its smoothed latency.
#[derive(Debug, Clone, Copy, PartialEq, Eq, Structural)]
pub struct SmoothRun {
    pub rest: BodyRest,
    /// The stream's tracker before the arrival.
    pub tracker: StreamTracker,
    /// How many tokens of the chunk follow this one.
    pub tokens_after: u64,
}

/// An observation that waits for the midpoint of two latencies.
#[derive(Debug, Clone, Copy, PartialEq, Eq, Structural)]
pub struct MedianRun {
    pub rest: BodyRest,
    pub signal: Signal,
}

/// An observation that waits for its figures.
#[derive(Debug, Clone, Copy, PartialEq, Eq, Structural)]
pub struct ObserveRun {
    pub rest: BodyRest,
    pub signal: Signal,
    /// The observed latency.
    pub itl: Binary64,
}

/// Where the handling of a chunk stands: finished, or in want of binary64 arithmetic.
#[derive(Debug, Clone, Copy)]
pub enum BodyStep {
    /// Wants the value of `smoothing`, for `SmoothieFilter::with_smoothed`.
    Smooth { smoothing: Smoothing, run: SmoothRun },
    /// Wants `(lower + upper) / 2`, for `SmoothieFilter::with_midpoint`.
    Midpoint { lower: Binary64, upper: Binary64, run: MedianRun },
    /// Wants the figures of `operands`, for `SmoothieFilter::with_figures`.
    Evaluate { operands: Operands, run: ObserveRun },
    /// The chunk is dealt with.
    Finished { action: BodyAction },
}

/// Whether a status code reports a server error.
pub open spec fn is_server_error_status(status: Option<u16>) -> bool {
    status is Some && 500 <= status->0 <= 599
}

/// A chunk, if there is one, as bytes.
pub open spec fn chunk_bytes(chunk: Option<&[u8]>) -> Option<Seq<u8>> {
    match chunk {
        Some(bytes) => Some(bytes@),
        None => None,
    }
}

/// The filter as a mathematical value.
pub struct FilterModel {
    pub aimd: AimdModel,
    /// Slots taken.
    pub active: nat,
    pub streams: Map<u64, StreamTracker>,
    pub next_stream_id: u64,
    pub breaker: BreakerModel,
    pub ewma_alpha: Binary64,
}

/// The control parameters of a configuration, with its two derived latencies.
pub open spec fn aimd_config_of(
    cfg: SmoothieConfig,
    ms_per_token: Binary64,
    headroom_ms: Binary64,
) -> AimdConfig {
    AimdConfig {
        floor_ms: if cfg.floor_tps is Some {
            Some(ms_per_token)
        } else {
            None
        },
        headroom_ms,
        beta: cfg.beta,
        hysteresis_steps: cfg.hysteresis_steps,
        ceiling_min: cfg.ceiling_min,
        ceiling_max: cfg.ceiling_max,
        sensitivity: cfg.sensitivity,
    }
}

impl FilterModel {
    /// A filter that has seen no request.
    pub open spec fn configured(
        cfg: SmoothieConfig,
        ms_per_token: Binary64,
        headroom_ms: Binary64,
    ) -> Self {
        FilterModel {
            aimd: AimdModel::fresh(
                aimd_config_of(cfg, ms_per_token, headroom_ms),
                cfg.starting_ceiling() as nat,
            ),
            active: 0,
            streams: crate::streams::no_streams(),
            next_stream_id: 0,
            breaker: BreakerModel::fresh(
                cfg.cb_consecutive_failures as nat,
                cfg.cb_recovery_window_secs as nat,
            ),
            ewma_alpha: cfg.ewma_alpha,
        }
    }

    /// A request at `now`: the breaker is asked first, then the semaphore. A
    /// request that a half-open breaker lets through is its probe.
    pub open spec fn requested(self, now: u128) -> (Self, OutcomeModel) {
        let checked = FilterModel { breaker: self.breaker.checked(now), ..self };
        if !checked.breaker.passes() {
            (checked, OutcomeModel::Rejected(circuit_open_rejection()))
        } else if self.active >= self.aimd.ceiling {
            (checked, OutcomeModel::Rejected(shed_rejection(self.aimd.ceiling)))
        } else {
            (
                FilterModel {
                    active: self.active + 1,
                    streams: self.streams.insert(
                        self.next_stream_id,
                        StreamTracker::fresh(self.ewma_alpha, now),
                    ),
                    next_stream_id: if self.next_stream_id == u64::MAX {
                        0
                    } else {
                        (self.next_stream_id + 1) as u64
                    },
                    breaker: checked.breaker.sent(),
                    ..self
                },
                OutcomeModel::Admitted(
                    RequestModel {
                        stream_id: self.next_stream_id,
                        admitted: true,
                        sse: SseModel::fresh(),
                    },
                ),
            )
        }
    }

    /// A response with the given status, if it had one, at `now`.
    pub open spec fn responded(self, status: Option<u16>, now: u128) -> Self {
        FilterModel {
            breaker: if is_server_error_status(status) {
                self.breaker.failed(now)
            } else {
                self.breaker.succeeded()
            },
            ..self
        }
    }

    /// The stream has ended: it and its slot are given up, if it was there.
    pub open spec fn ended(self, id: u64) -> Self {
        if self.streams.contains_key(id) {
            FilterModel {
                streams: self.streams.remove(id),
                active: crate::semaphore::released(self.active),
                ..self
            }
        } else {
            self
        }
    }

    /// The tracker of the stream, if it is there, is replaced.
    pub open spec fn tracking(self, id: u64, tracker: StreamTracker) -> Self {
        FilterModel {
            streams: crate::streams::with_tracker(self.streams, id, tracker),
            ..self
        }
    }

    /// The last part of a chunk: clean up if the stream is over.
    pub open spec fn closing(self, rest: BodyRest) -> (Self, BodyStep) {
        if rest.stream_done || rest.end_of_stream {
            (self.ended(rest.stream_id), BodyStep::Finished { action: BodyAction::BodyDone })
        } else {
            (self, BodyStep::Finished { action: BodyAction::Continue })
        }
    }

    /// What follows the observation for `signal`.
    pub open spec fn proceeding(self, rest: BodyRest, signal: Signal) -> (Self, BodyStep) {
        match signal {
            Signal::Tokens => self.correcting(rest),
            Signal::Terminal => self.closing(rest),
        }
    }

    /// The terminal timing, if there is one, overrides the estimate and is observed.
    pub open spec fn correcting(self, rest: BodyRest) -> (Self, BodyStep) {
        match rest.timing {
            None => self.closing(rest),
            Some(ms) => self.tracking(
                rest.stream_id,
                self.streams[rest.stream_id].corrected(ms),
            ).observing_terminal(rest),
        }
    }

    /// The median latency after a correction is observed.
    pub open spec fn observing_terminal(self, rest: BodyRest) -> (Self, BodyStep) {
        match crate::streams::median_of(self.streams) {
            Median::Unmeasured => self.closing(rest),
            Median::Middle(itl) => self.signalled_terminal(rest, itl),
            Median::Between { lower, upper } => (
                self,
                BodyStep::Midpoint {
                    lower,
                    upper,
                    run: MedianRun { rest, signal: Signal::Terminal },
                },
            ),
        }
    }

    /// The latency `itl` is observed after a correction, if it is greater than zero.
    pub open spec fn signalled_terminal(self, rest: BodyRest, itl: Binary64) -> (Self, BodyStep) {
        if itl.positive() {
            (
                self,
                BodyStep::Evaluate {
                    operands: self.aimd.operands_for(itl),
                    run: ObserveRun { rest, signal: Signal::Terminal, itl },
                },
            )
        } else {
            self.closing(rest)
        }
    }

    /// The median latency after the tokens of a chunk is observed.
    pub open spec fn observing_tokens(self, rest: BodyRest) -> (Self, BodyStep) {
        match crate::streams::median_of(self.streams) {
            Median::Unmeasured => self.correcting(rest),
            Median::Middle(itl) => self.signalled_tokens(rest, itl),
            Median::Between { lower, upper } => (
                self,
                BodyStep::Midpoint {
                    lower,
                    upper,
                    run: MedianRun { rest, signal: Signal::Tokens },
                },
            ),
        }
    }

    /// The latency `itl` is observed after tokens, if it is greater than zero.
    pub open spec fn signalled_tokens(self, rest: BodyRest, itl: Binary64) -> (Self, BodyStep) {
        if itl.positive() {
            (
                self,
                BodyStep::Evaluate {
                    operands: self.aimd.operands_for(itl),
                    run: ObserveRun { rest, signal: Signal::Tokens, itl },
                },
            )
        } else {
            self.correcting(rest)
        }
    }

    /// The midpoint of the two middle latencies is known.
    pub open spec fn midpoint_given(self, run: MedianRun, itl: Binary64) -> (Self, BodyStep) {
        match run.signal {
            Signal::Tokens => self.signalled_tokens(run.rest, itl),
            Signal::Terminal => self.signalled_terminal(run.rest, itl),
        }
    }

    /// The figures of an observation are known.
    pub open spec fn figures_given(self, run: ObserveRun, figures: Figures) -> (Self, BodyStep) {
        FilterModel {
            aimd: self.aimd.observed(Observation { itl: run.itl, active: self.active, figures }),
            ..self
        }.proceeding(run.rest, run.signal)
    }

    /// The smoothed latency of a token arrival is known.
    pub open spec fn smoothed_given(self, run: SmoothRun, smoothed: Binary64) -> (Self, BodyStep) {
        let tracker = run.tracker.token_at(run.rest.now, smoothed);
        if run.tokens_after > 0 {
            (
                self,
                BodyStep::Smooth {
                    smoothing: tracker.smoothing_at(run.rest.now),
                    run: SmoothRun { tracker, tokens_after: (run.tokens_after - 1) as u64, ..run },
                },
            )
        } else {
            self.tracking(run.rest.stream_id, tracker).observing_tokens(run.rest)
        }
    }

    /// `n` intervals end now for the stream with the given tracker. Without any,
    /// the tracker is kept and nothing is observed.
    pub open spec fn intervals_recorded(self, rest: BodyRest, tracker: StreamTracker, n: nat) -> (
        Self,
        BodyStep,
    ) {
        if n == 0 {
            self.tracking(rest.stream_id, tracker).correcting(rest)
        } else {
            (
                self,
                BodyStep::Smooth {
                    smoothing: tracker.smoothing_at(rest.now),
                    run: SmoothRun { rest, tracker, tokens_after: (n - 1) as u64 },
                },
            )
        }
    }

    /// A part of the response body arrives at `now`: the request state after it,
    /// and what the filter does first.
    pub open spec fn body_received(
        self,
        req: RequestModel,
        chunk: Option<Seq<u8>>,
        end_of_stream: bool,
        now: u128,
    ) -> (Self, RequestModel, BodyStep) {
        let id = req.stream_id;
        if !req.admitted {
            (self, req, BodyStep::Finished { action: BodyAction::Continue })
        } else {
            match chunk {
                None => {
                    let rest = BodyRest {
                        stream_id: id,
                        now,
                        timing: None,
                        stream_done: false,
                        end_of_stream,
                    };
                    let (after, step) = self.closing(rest);
                    (after, req, step)
                },
                Some(bytes) => {
                    let fed = RequestModel { sse: req.sse.fed(bytes), ..req };
                    let rest = BodyRest {
                        stream_id: id,
                        now,
                        timing: req.sse.timing_with(bytes),
                        stream_done: req.sse.done_with(bytes),
                        end_of_stream,
                    };
                    let tokens = req.sse.tokens_with(bytes);
                    let (after, step) = if tokens == 0 || !self.streams.contains_key(id) {
                        self.correcting(rest)
                    } else if req.sse.token_count == 0 {
                        // The first token of the stream is no interval, the others are.
                        self.intervals_recorded(
                            rest,
                            self.streams[id].first_token_at(now),
                            (tokens - 1) as nat,
                        )
                    } else {
                        self.intervals_recorded(rest, self.streams[id], tokens)
                    };
                    (after, fed, step)
                },
            }
        }
    }
}

/// A latency-floor concurrency controller for token streams.
///
/// Caps concurrent streams via an AIMD controller and sheds overflow at once.
/// Treats token streams as streaming media with a per-stream bitrate floor.
#[derive(Debug)]
pub struct SmoothieFilter {
    aimd: AimdController,
    semaphore: AdaptiveSemaphore,
    streams: Streams,
    next_stream_id: u64,
    circuit_breaker: FaultCircuitBreaker,
    ewma_alpha: Binary64,
}

impl View for SmoothieFilter {
    type V = FilterModel;

    closed spec fn view(&self) -> FilterModel {
        FilterModel {
            aimd: self.aimd@,
            active: self.semaphore@,
            streams: self.streams@,
            next_stream_id: self.next_stream_id,
            breaker: self.circuit_breaker@,
            ewma_alpha: self.ewma_alpha,
        }
    }
}

impl SmoothieFilter {
    /// The clock that the filter reads.
    pub closed spec fn clock(&self) -> crate::clock::Clock {
        self.circuit_breaker.clock()
    }

    /// A filter from its configuration, where `ms_per_token` is
    /// `1000 / floor_tps` (not read if no floor is set) and `headroom_ms` is the
    /// configured headroom as binary64.
    pub fn from_config(cfg: &SmoothieConfig, ms_per_token: Binary64, headroom_ms: Binary64) -> (r:
        Result<Self, String>)
        ensures
            r is Ok <==> cfg.valid(),
            r is Ok ==> r->Ok_0@ == FilterModel::configured(*cfg, ms_per_token, headroom_ms),
            r is Ok ==> r->Ok_0.clock().started(),
            r is Err ==> cfg.first_violation() is Some && r->Err_0@ == "smoothie: "@
                + cfg.first_violation()->0,
    {
        if let Err(violation) = cfg.validate() {
            let mut message: String = "smoothie: ".to_owned();
            message.append(violation.as_str());
            return Err(message);
        }
        let aimd_config: AimdConfig = AimdConfig {
            floor_ms: cfg.floor_ms(ms_per_token),
            headroom_ms,
            beta: cfg.beta,
            hysteresis_steps: cfg.hysteresis_steps,
            ceiling_min: cfg.ceiling_min,
            ceiling_max: cfg.ceiling_max,
            sensitivity: cfg.sensitivity,
        };
        Ok(
            SmoothieFilter {
                aimd: AimdController::new(aimd_config, cfg.initial_ceiling()),
                semaphore: AdaptiveSemaphore::new(),
                streams: Streams::new(),
                next_stream_id: 0,
                circuit_breaker: FaultCircuitBreaker::new(
                    cfg.cb_consecutive_failures,
                    cfg.cb_recovery_window_secs,
                ),
                ewma_alpha: cfg.ewma_alpha,
            },
        )
    }

    /// Current admission ceiling.
    pub fn ceiling(&self) -> (r: u32)
        ensures
            r == self@.aimd.ceiling,
    {
        self.aimd.ceiling()
    }

    /// Current number of active streams.
    pub fn active(&self) -> (r: u32)
        ensures
            r == self@.active,
    {
        self.semaphore.active()
    }

    /// Failures recorded since the last success.
    pub fn consecutive_failures(&self) -> (r: u32)
        ensures
            r == self@.breaker.failures,
    {
        self.circuit_breaker.consecutive_failures()
    }

    /// Decide on a request that arrives now.
    pub fn on_request(&mut self) -> (r: RequestOutcome)
        ensures
            final(self).clock() == old(self).clock(),
            exists|now: u128|
                old(self).clock().reads(now) && (final(self)@, r@) == #[trigger] old(
                    self,
                )@.requested(now),
    {
        let now: u128 = self.circuit_breaker.now();
        self.on_request_at(now)
    }

    /// Decide on a request that arrives at `now`.
    pub fn on_request_at(&mut self, now: u128) -> (r: RequestOutcome)
        ensures
            final(self).clock() == old(self).clock(),
            (final(self)@, r@) == old(self)@.requested(now),
    {
        // Check circuit breaker first.
        let _ = self.circuit_breaker.check_at(now);
        if !self.circuit_breaker.allows_request() {
            return RequestOutcome::Rejected(Rejection::circuit_open());
        }
        // Try to acquire a semaphore slot.

        let ceiling: u32 = self.aimd.ceiling();
        if !self.semaphore.try_acquire(ceiling) {
            return RequestOutcome::Rejected(Rejection::shed(ceiling));
        }
        // Admitted: set up per-request state.

        self.circuit_breaker.record_sent();
        let stream_id: u64 = self.next_stream_id;
        self.next_stream_id = stream_id.wrapping_add(1);
        self.streams.insert(stream_id, StreamTracker::new(self.ewma_alpha, now));
        RequestOutcome::Admitted(
            SmoothieRequestState { stream_id, admitted: true, sse: SseParserState::new() },
        )
    }

    /// Feed the circuit breaker with the status of a response, `None` if the
    /// response has no header.
    pub fn on_response(&mut self, status: Option<u16>)
        requires
            is_server_error_status(status) ==> old(self)@.breaker.failures < u32::MAX,
        ensures
            final(self).clock() == old(self).clock(),
            exists|now: u128|
                old(self).clock().reads(now) && final(self)@ == #[trigger] old(self)@.responded(
                    status,
                    now,
                ),
    {
        let now: u128 = self.circuit_breaker.now();
        self.on_response_at(status, now)
    }

    /// Feed the circuit breaker with the status of a response that came at `now`.
    pub fn on_response_at(&mut self, status: Option<u16>, now: u128)
        requires
            is_server_error_status(status) ==> old(self)@.breaker.failures < u32::MAX,
        ensures
            final(self).clock() == old(self).clock(),
            final(self)@ == old(self)@.responded(status, now),
    {
        let is_server_error: bool = match status {
            Some(code) => 500 <= code && code <= 599,
            None => false,
        };
        if is_server_error {
            self.circuit_breaker.record_failure_at(now);
        } else {
            self.circuit_breaker.record_success();
        }
    }

    /// Handle a part of the response body that arrives now.
    pub fn on_response_body(
        &mut self,
        state: &mut SmoothieRequestState,
        chunk: Option<&[u8]>,
        end_of_stream: bool,
    ) -> (r: BodyStep)
        requires
            old(state)@.admitted && chunk is Some ==> old(state)@.sse.fed(
                chunk->0@,
            ).token_count <= u64::MAX,
        ensures
            final(self).clock() == old(self).clock(),
            exists|now: u128|
                old(self).clock().reads(now) && (final(self)@, final(state)@, r)
                    == #[trigger] old(self)@.body_received(
                    old(state)@,
                    chunk_bytes(chunk),
                    end_of_stream,
                    now,
                ),
    {
        let now: u128 = self.circuit_breaker.now();
        self.on_response_body_at(state, chunk, end_of_stream, now)
    }

    /// Handle a part of the response body that arrives at `now`.
    pub fn on_response_body_at(
        &mut self,
        state: &mut SmoothieRequestState,
        chunk: Option<&[u8]>,
        end_of_stream: bool,
        now: u128,
    ) -> (r: BodyStep)
        requires
            old(state)@.admitted && chunk is Some ==> old(state)@.sse.fed(
                chunk->0@,
            ).token_count <= u64::MAX,
        ensures
            final(self).clock() == old(self).clock(),
            (final(self)@, final(state)@, r) == old(self)@.body_received(
                old(state)@,
                chunk_bytes(chunk),
                end_of_stream,
                now,
            ),
    {
        if !state.admitted {
            return BodyStep::Finished { action: BodyAction::Continue };
        }
        let stream_id: u64 = state.stream_id;
        let bytes: &[u8] = match chunk {
            Some(bytes) => bytes,
            None => {
                let rest: BodyRest = BodyRest {
                    stream_id,
                    now,
                    timing: None,
                    stream_done: false,
                    end_of_stream,
                };
                return self.close(rest);
            },
        };
        // Feed the body bytes to the parser.
        let first: bool = state.sse.token_count() == 0;
        let result: SseParseResult = state.sse.feed(bytes);
        let rest: BodyRest = BodyRest {
            stream_id,
            now,
            timing: result.terminal_timing_ms,
            stream_done: result.stream_done,
            end_of_stream,
        };
        // Process token observations.
        if result.new_tokens > 0 {
            if let Some(found) = self.streams.get(stream_id) {
                let mut tracker: StreamTracker = found;
                let mut intervals: u64 = result.new_tokens;
                if first {
                    // The first token of the stream is no interval, the others are.
                    tracker.record_first_token(now);
                    intervals = intervals - 1;
                }
                if intervals > 0 {
                    return BodyStep::Smooth {
                        smoothing: tracker.smoothing(now),
                        run: SmoothRun { rest, tracker, tokens_after: intervals - 1 },
                    };
                }
                self.streams.set(stream_id, tracker);
            }
        }
        self.correct(rest)
    }

    /// Go on with the value of the smoothing that was asked for.
    pub fn with_smoothed(&mut self, run: SmoothRun, smoothed: Binary64) -> (r: BodyStep)
        requires
            run.tracker.intervals < u64::MAX,
        ensures
            final(self).clock() == old(self).clock(),
            (final(self)@, r) == old(self)@.smoothed_given(run, smoothed),
    {
        let mut tracker: StreamTracker = run.tracker;
        let _ = tracker.record_token(run.rest.now, smoothed);
        if run.tokens_after > 0 {
            return BodyStep::Smooth {
                smoothing: tracker.smoothing(run.rest.now),
                run: SmoothRun { rest: run.rest, tracker, tokens_after: run.tokens_after - 1 },
            };
        }
        self.streams.set(run.rest.stream_id, tracker);
        self.observe_after_tokens(run.rest)
    }

    /// Go on with the midpoint that was asked for.
    pub fn with_midpoint(&mut self, run: MedianRun, midpoint: Binary64) -> (r: BodyStep)
        ensures
            final(self).clock() == old(self).clock(),
            (final(self)@, r) == old(self)@.midpoint_given(run, midpoint),
    {
        match run.signal {
            Signal::Tokens => self.signal_after_tokens(run.rest, midpoint),
            Signal::Terminal => self.signal_after_correction(run.rest, midpoint),
        }
    }

    /// Go on with the figures that were asked for.
    pub fn with_figures(&mut self, run: ObserveRun, figures: Figures) -> (r: BodyStep)
        ensures
            final(self).clock() == old(self).clock(),
            (final(self)@, r) == old(self)@.figures_given(run, figures),
    {
        let active: u32 = self.semaphore.active();
        let _ = self.aimd.observe(run.itl, active, figures);
        match run.signal {
            Signal::Tokens => self.correct(run.rest),
            Signal::Terminal => self.close(run.rest),
        }
    }

    /// Observe the median latency after the tokens of a chunk.
    fn observe_after_tokens(&mut self, rest: BodyRest) -> (r: BodyStep)
        ensures
            final(self).clock() == old(self).clock(),
            (final(self)@, r) == old(self)@.observing_tokens(rest),
    {
        match self.streams.median_smoothed_itl() {
            Median::Unmeasured => self.correct(rest),
            Median::Middle(itl) => self.signal_after_tokens(rest, itl),
            Median::Between { lower, upper } => BodyStep::Midpoint {
                lower,
                upper,
                run: MedianRun { rest, signal: Signal::Tokens },
            },
        }
    }

    /// Ask for the figures of a latency greater than zero, after tokens.
    fn signal_after_tokens(&mut self, rest: BodyRest, itl: Binary64) -> (r: BodyStep)
        ensures
            final(self).clock() == old(self).clock(),
            (final(self)@, r) == old(self)@.signalled_tokens(rest, itl),
    {
        if itl.is_positive() {
            BodyStep::Evaluate {
                operands: self.aimd.operands(itl),
                run: ObserveRun { rest, signal: Signal::Tokens, itl },
            }
        } else {
            self.correct(rest)
        }
    }

    /// Apply the terminal timing correction, if there is one.
    fn correct(&mut self, rest: BodyRest) -> (r: BodyStep)
        ensures
            final(self).clock() == old(self).clock(),
            (final(self)@, r) == old(self)@.correcting(rest),
    {
        match rest.timing {
            None => self.close(rest),
            Some(ms) => {
                if let Some(found) = self.streams.get(rest.stream_id) {
                    let mut tracker: StreamTracker = found;
                    tracker.apply_terminal_correction(ms);
                    self.streams.set(rest.stream_id, tracker);
                }
                self.observe_after_correction(rest)
            },
        }
    }

    /// Observe the median latency after a correction.
    fn observe_after_correction(&mut self, rest: BodyRest) -> (r: BodyStep)
        ensures
            final(self).clock() == old(self).clock(),
            (final(self)@, r) == old(self)@.observing_terminal(rest),
    {
        match self.streams.median_smoothed_itl() {
            Median::Unmeasured => self.close(rest),
            Median::Middle(itl) => self.signal_after_correction(rest, itl),
            Median::Between { lower, upper } => BodyStep::Midpoint {
                lower,
                upper,
                run: MedianRun { rest, signal: Signal::Terminal },
            },
        }
    }

    /// Ask for the figures of a latency greater than zero, after a correction.
    fn signal_after_correction(&mut self, rest: BodyRest, itl: Binary64) -> (r: BodyStep)
        ensures
            final(self).clock() == old(self).clock(),
            (final(self)@, r) == old(self)@.signalled_terminal(rest, itl),
    {
        if itl.is_positive() {
            BodyStep::Evaluate {
                operands: self.aimd.operands(itl),
                run: ObserveRun { rest, signal: Signal::Terminal, itl },
            }
        } else {
            self.close(rest)
        }
    }

    /// Clean up if the stream is over. A stream that is already gone gives up
    /// no second slot.
    fn close(&mut self, rest: BodyRest) -> (r: BodyStep)
        ensures
            final(self).clock() == old(self).clock(),
            (final(self)@, r) == old(self)@.closing(rest),
    {
        if rest.stream_done || rest.end_of_stream {
            if self.streams.remove(rest.stream_id) {
                self.semaphore.release();
            } else {
                assert(self.streams@ =~= old(self).streams@);
            }
            BodyStep::Finished { action: BodyAction::BodyDone }
        } else {
            BodyStep::Finished { action: BodyAction::Continue }
        }
    }
}

/// The binary64 arithmetic that the handling of a chunk asks for.
pub struct Arithmetic {
    pub smooth: spec_fn(Smoothing) -> Binary64,
    pub midpoint: spec_fn(Binary64, Binary64) -> Binary64,
    pub evaluate: spec_fn(Operands) -> Figures,
}

/// How far a chunk is from being dealt with.
pub open spec fn steps_left(step: BodyStep) -> nat {
    match step {
        BodyStep::Finished { .. } => 0,
        BodyStep::Evaluate { run, .. } => if run.signal == Signal::Terminal {
            1
        } else {
            3
        },
        BodyStep::Midpoint { run, .. } => if run.signal == Signal::Terminal {
            2
        } else {
            4
        },
        BodyStep::Smooth { run, .. } => 5 + run.tokens_after as nat,
    }
}

impl FilterModel {
    /// What holds between any two events: every active stream holds one slot,
    /// and ids are given out in order.
    pub open spec fn wf(self) -> bool {
        &&& self.aimd.wf()
        &&& self.breaker.wf()
        &&& self.streams.dom().finite()
        &&& self.active == self.streams.dom().len()
        &&& self.active <= u32::MAX
        &&& self.aimd.ceiling <= u32::MAX
        &&& forall|id: u64| #[trigger] self.streams.contains_key(id) ==> id < self.next_stream_id
    }

    /// One more step of a chunk, with its arithmetic done by `a`.
    pub open spec fn stepped(self, step: BodyStep, a: Arithmetic) -> (Self, BodyStep) {
        match step {
            BodyStep::Finished { .. } => (self, step),
            BodyStep::Smooth { smoothing, run } => self.smoothed_given(run, (a.smooth)(smoothing)),
            BodyStep::Midpoint { lower, upper, run } => self.midpoint_given(
                run,
                (a.midpoint)(lower, upper),
            ),
            BodyStep::Evaluate { operands, run } => self.figures_given(
                run,
                (a.evaluate)(operands),
            ),
        }
    }

    /// A chunk carried on from `step` until it is dealt with.
    pub open spec fn completed(self, step: BodyStep, a: Arithmetic) -> (Self, BodyAction)
        decreases steps_left(step),
    {
        match step {
            BodyStep::Finished { action } => (self, action),
            _ => {
                let (after, next) = self.stepped(step, a);
                after.completed(next, a)
            },
        }
    }
}

/// Every step brings a chunk closer to being dealt with.
pub proof fn law_every_step_makes_progress(m: FilterModel, step: BodyStep, a: Arithmetic)
    requires
        !(step is Finished),
    ensures
        steps_left(m.stepped(step, a).1) < steps_left(step),
{
}

/// A request is admitted exactly if the breaker lets it through at that moment
/// and a slot is free under the current ceiling.
pub proof fn law_admission_needs_breaker_and_slot(m: FilterModel, now: u128)
    ensures
        m.requested(now).1 is Admitted <==> {
            &&& m.breaker.checked(now).passes()
            &&& m.active < m.aimd.ceiling
        },
{
}

/// An admitted request takes one slot, no slot beyond the ceiling, and an id of
/// its own, and leaves every other stream and the ceiling alone.
pub proof fn law_admission_takes_one_slot(m: FilterModel, now: u128)
    requires
        m.wf(),
        m.requested(now).1 is Admitted,
    ensures
        ({
            let after = m.requested(now).0;
            let id = m.requested(now).1->Admitted_0.stream_id;
            &&& after.active == m.active + 1
            &&& after.active <= m.aimd.ceiling
            &&& !m.streams.contains_key(id)
            &&& after.streams == m.streams.insert(id, StreamTracker::fresh(m.ewma_alpha, now))
            &&& after.aimd == m.aimd
        }),
{
}

/// A request that is not admitted is answered with 503 while the breaker lets
/// nothing through and with 429 otherwise, and takes nothing: no slot, no id,
/// no stream, and not the probe of a half-open breaker.
pub proof fn law_rejection_takes_nothing(m: FilterModel, now: u128)
    requires
        m.requested(now).1 is Rejected,
    ensures
        m.requested(now).0 == (FilterModel { breaker: m.breaker.checked(now), ..m }),
        m.breaker.checked(now).state == BreakerState::Open ==> !m.breaker.checked(now).passes(),
        !m.breaker.checked(now).passes() ==> m.requested(now).1 == OutcomeModel::Rejected(
            circuit_open_rejection(),
        ),
        m.breaker.checked(now).passes() ==> m.requested(now).1
            == OutcomeModel::Rejected(shed_rejection(m.aimd.ceiling)),
{
}

/// Ending a stream twice gives up one slot: a stream that is gone is left alone.
pub proof fn law_a_slot_is_given_up_once(m: FilterModel, id: u64)
    ensures
        m.ended(id).ended(id) == m.ended(id),
        !m.ended(id).streams.contains_key(id),
{
}

/// Admitting a request and ending its stream leaves slots and streams as they were.
pub proof fn law_ending_undoes_admission(m: FilterModel, now: u128)
    requires
        m.wf(),
        m.requested(now).1 is Admitted,
    ensures
        ({
            let after = m.requested(now).0;
            let id = m.requested(now).1->Admitted_0.stream_id;
            &&& after.ended(id).active == m.active
            &&& after.ended(id).streams == m.streams
        }),
{
    let id = m.requested(now).1->Admitted_0.stream_id;
    assert(m.requested(now).0.ended(id).streams =~= m.streams);
}

/// A newly configured filter is well formed. With a valid configuration its
/// ceiling lies within the bounds and its factor between zero and one.
pub proof fn law_a_new_filter_is_well_formed(
    cfg: SmoothieConfig,
    ms_per_token: Binary64,
    headroom_ms: Binary64,
)
    ensures
        FilterModel::configured(cfg, ms_per_token, headroom_ms).wf(),
        cfg.valid() ==> {
            let aimd = FilterModel::configured(cfg, ms_per_token, headroom_ms).aimd;
            aimd.in_bounds() && aimd.config.beta.is_proper_fraction()
        },
{
}

/// Every event keeps the filter well formed: each active stream holds exactly
/// one slot. A request does so as long as ids have not run out.
pub proof fn law_every_stream_holds_one_slot(
    m: FilterModel,
    now: u128,
    status: Option<u16>,
    id: u64,
    tracker: StreamTracker,
)
    requires
        m.wf(),
    ensures
        m.next_stream_id < u64::MAX ==> m.requested(now).0.wf(),
        m.responded(status, now).wf(),
        m.ended(id).wf(),
        m.tracking(id, tracker).wf(),
{
    let updated = m.tracking(id, tracker);
    if m.streams.contains_key(id) {
        assert(updated.streams.dom() =~= m.streams.dom());
    }
}

/// Every step of a chunk keeps the filter well formed.
pub proof fn law_every_step_keeps_the_slots(m: FilterModel, step: BodyStep, a: Arithmetic)
    requires
        m.wf(),
    ensures
        m.stepped(step, a).0.wf(),
{
    match step {
        BodyStep::Finished { .. } => {},
        BodyStep::Smooth { smoothing, run } => {
            let tracker = run.tracker.token_at(run.rest.now, (a.smooth)(smoothing));
            law_every_stream_holds_one_slot(m, 0, None, run.rest.stream_id, tracker);
            let after = m.tracking(run.rest.stream_id, tracker);
            lemma_correcting_keeps_the_slots(after, run.rest);
        },
        BodyStep::Midpoint { lower, upper, run } => {
            lemma_correcting_keeps_the_slots(m, run.rest);
        },
        BodyStep::Evaluate { operands, run } => {
            let after = FilterModel {
                aimd: m.aimd.observed(
                    Observation {
                        itl: run.itl,
                        active: m.active,
                        figures: (a.evaluate)(operands),
                    },
                ),
                ..m
            };
            assert(after.wf());
            lemma_correcting_keeps_the_slots(after, run.rest);
        },
    }
}

proof fn lemma_correcting_keeps_the_slots(m: FilterModel, rest: BodyRest)
    requires
        m.wf(),
    ensures
        m.correcting(rest).0.wf(),
        m.closing(rest).0.wf(),
{
    law_every_stream_holds_one_slot(m, 0, None, rest.stream_id, m.streams[rest.stream_id]);
    if rest.timing is Some {
        let tracker = m.streams[rest.stream_id].corrected(rest.timing->0);
        law_every_stream_holds_one_slot(m, 0, None, rest.stream_id, tracker);
        let after = m.tracking(rest.stream_id, tracker);
        law_every_stream_holds_one_slot(after, 0, None, rest.stream_id, tracker);
    }
}

/// What a step that is not finished has left to do.
pub open spec fn rest_of(step: BodyStep) -> BodyRest
    recommends
        !(step is Finished),
{
    match step {
        BodyStep::Smooth { run, .. } => run.rest,
        BodyStep::Midpoint { run, .. } => run.rest,
        BodyStep::Evaluate { run, .. } => run.rest,
        BodyStep::Finished { .. } => arbitrary(),
    }
}

/// Whether a chunk is the last of its stream.
pub open spec fn is_last(rest: BodyRest) -> bool {
    rest.stream_done || rest.end_of_stream
}

/// Whether nothing but the ceiling control and the stream itself differs.
pub open spec fn differ_in_stream_only(m: FilterModel, after: FilterModel, id: u64) -> bool {
    &&& after.streams.remove(id) == m.streams.remove(id)
    &&& after.next_stream_id == m.next_stream_id
    &&& after.breaker == m.breaker
    &&& after.ewma_alpha == m.ewma_alpha
    &&& after.aimd.config == m.aimd.config
}

/// Whether the stream, and with it its slot, is as the end of a chunk leaves it.
pub open spec fn settles_the_slot(m: FilterModel, after: FilterModel, rest: BodyRest) -> bool {
    let id = rest.stream_id;
    &&& after.streams.contains_key(id) <==> m.streams.contains_key(id) && !is_last(rest)
    &&& after.active == if m.streams.contains_key(id) && is_last(rest) {
        crate::semaphore::released(m.active)
    } else {
        m.active
    }
}

/// Whether a step ends the chunk as it should, or carries it on with the stream
/// and its slot in place.
spec fn carries_on(m: FilterModel, after: FilterModel, step: BodyStep, rest: BodyRest) -> bool {
    let id = rest.stream_id;
    &&& differ_in_stream_only(m, after, id)
    &&& match step {
        BodyStep::Finished { action } => {
            &&& action == BodyAction::BodyDone <==> is_last(rest)
            &&& settles_the_slot(m, after, rest)
        },
        _ => {
            &&& rest_of(step) == rest
            &&& after.streams.contains_key(id) == m.streams.contains_key(id)
            &&& after.active == m.active
        },
    }
}

proof fn lemma_closing_carries_on(m: FilterModel, rest: BodyRest)
    ensures
        carries_on(m, m.closing(rest).0, m.closing(rest).1, rest),
{
    let after = m.closing(rest).0;
    assert(after.streams.remove(rest.stream_id) =~= m.streams.remove(rest.stream_id));
}

proof fn lemma_tracking_stays_in_stream(m: FilterModel, id: u64, tracker: StreamTracker)
    ensures
        differ_in_stream_only(m, m.tracking(id, tracker), id),
        m.tracking(id, tracker).active == m.active,
        m.tracking(id, tracker).streams.contains_key(id) == m.streams.contains_key(id),
{
    assert(m.tracking(id, tracker).streams.remove(id) =~= m.streams.remove(id));
}

proof fn lemma_correcting_carries_on(m: FilterModel, rest: BodyRest)
    ensures
        carries_on(m, m.correcting(rest).0, m.correcting(rest).1, rest),
{
    lemma_closing_carries_on(m, rest);
    if rest.timing is Some {
        let tracker = m.streams[rest.stream_id].corrected(rest.timing->0);
        lemma_tracking_stays_in_stream(m, rest.stream_id, tracker);
        lemma_closing_carries_on(m.tracking(rest.stream_id, tracker), rest);
    }
}

proof fn lemma_step_carries_on(m: FilterModel, step: BodyStep, a: Arithmetic)
    requires
        !(step is Finished),
    ensures
        carries_on(m, m.stepped(step, a).0, m.stepped(step, a).1, rest_of(step)),
{
    let rest = rest_of(step);
    lemma_correcting_carries_on(m, rest);
    lemma_closing_carries_on(m, rest);
    match step {
        BodyStep::Smooth { smoothing, run } => {
            let tracker = run.tracker.token_at(rest.now, (a.smooth)(smoothing));
            lemma_tracking_stays_in_stream(m, rest.stream_id, tracker);
            lemma_correcting_carries_on(m.tracking(rest.stream_id, tracker), rest);
        },
        BodyStep::Evaluate { operands, run } => {
            let observed = FilterModel {
                aimd: m.aimd.observed(
                    Observation {
                        itl: run.itl,
                        active: m.active,
                        figures: (a.evaluate)(operands),
                    },
                ),
                ..m
            };
            lemma_correcting_carries_on(observed, rest);
            lemma_closing_carries_on(observed, rest);
        },
        _ => {},
    }
}

/// A chunk that is carried on from any step, whatever the arithmetic gives,
/// ends with the body done exactly if it is the last of its stream. Then, and
/// only then, the stream leaves and its slot is released; no other stream and
/// nothing of the breaker is touched.
pub proof fn law_completing_a_chunk_settles_its_stream(
    m: FilterModel,
    step: BodyStep,
    a: Arithmetic,
)
    requires
        !(step is Finished),
    ensures
        ({
            let (after, action) = m.completed(step, a);
            let rest = rest_of(step);
            &&& action == BodyAction::BodyDone <==> is_last(rest)
            &&& differ_in_stream_only(m, after, rest.stream_id)
            &&& settles_the_slot(m, after, rest)
        }),
    decreases steps_left(step),
{
    lemma_step_carries_on(m, step, a);
    let (next, next_step) = m.stepped(step, a);
    if !(next_step is Finished) {
        law_completing_a_chunk_settles_its_stream(next, next_step, a);
    }
}

/// Handling a part of a body, from its arrival to its end and whatever the
/// arithmetic gives, keeps the filter well formed, touches no other stream, and
/// answers that the body is done exactly if an admitted stream is over: by its
/// end marker or by the end of the body. The slot is then free again.
pub proof fn law_a_body_part_releases_exactly_at_the_end(
    m: FilterModel,
    req: RequestModel,
    chunk: Option<Seq<u8>>,
    end_of_stream: bool,
    now: u128,
    a: Arithmetic,
)
    requires
        m.wf(),
    ensures
        ({
            let (received, req_after, step) = m.body_received(req, chunk, end_of_stream, now);
            let (after, action) = received.completed(step, a);
            let id = req.stream_id;
            let over = req.admitted && (end_of_stream || chunk is Some && req.sse.done_with(
                chunk->0,
            ));
            &&& after.wf()
            &&& req_after.stream_id == id && req_after.admitted == req.admitted
            &&& action == BodyAction::BodyDone <==> over
            &&& differ_in_stream_only(m, after, id)
            &&& after.streams.contains_key(id) <==> m.streams.contains_key(id) && !over
            &&& after.active == if m.streams.contains_key(id) && over {
                (m.active - 1) as nat
            } else {
                m.active
            }
        }),
{
    let (received, req_after, step) = m.body_received(req, chunk, end_of_stream, now);
    let id = req.stream_id;
    if req.admitted {
        let rest = rest_for(req, chunk, end_of_stream, now);
        let first = m.streams[id].first_token_at(now);
        lemma_arrival_carries_on(m, req, chunk, end_of_stream, now);
        if !(step is Finished) {
            law_completing_a_chunk_settles_its_stream(received, step, a);
        }
        lemma_correcting_keeps_the_slots(m, rest);
        law_every_stream_holds_one_slot(m, 0, None, id, first);
        lemma_correcting_keeps_the_slots(m.tracking(id, first), rest);
        if m.streams.contains_key(id) {
            assert(m.streams.dom().len() > 0);
        }
    }
    lemma_completing_keeps_the_slots(received, step, a);
}

/// What is left to do for a part of a body once its tokens are recorded.
pub open spec fn rest_for(
    req: RequestModel,
    chunk: Option<Seq<u8>>,
    end_of_stream: bool,
    now: u128,
) -> BodyRest {
    BodyRest {
        stream_id: req.stream_id,
        now,
        timing: if chunk is Some {
            req.sse.timing_with(chunk->0)
        } else {
            None
        },
        stream_done: chunk is Some && req.sse.done_with(chunk->0),
        end_of_stream,
    }
}

proof fn lemma_arrival_carries_on(
    m: FilterModel,
    req: RequestModel,
    chunk: Option<Seq<u8>>,
    end_of_stream: bool,
    now: u128,
)
    requires
        req.admitted,
    ensures
        ({
            let (received, _, step) = m.body_received(req, chunk, end_of_stream, now);
            carries_on(m, received, step, rest_for(req, chunk, end_of_stream, now))
        }),
{
    let id = req.stream_id;
    let rest = rest_for(req, chunk, end_of_stream, now);
    let first = m.streams[id].first_token_at(now);
    lemma_closing_carries_on(m, rest);
    lemma_correcting_carries_on(m, rest);
    lemma_tracking_stays_in_stream(m, id, first);
    lemma_correcting_carries_on(m.tracking(id, first), rest);
}

proof fn lemma_completing_keeps_the_slots(m: FilterModel, step: BodyStep, a: Arithmetic)
    requires
        m.wf(),
    ensures
        m.completed(step, a).0.wf(),
    decreases steps_left(step),
{
    if !(step is Finished) {
        law_every_step_keeps_the_slots(m, step, a);
        lemma_completing_keeps_the_slots(m.stepped(step, a).0, m.stepped(step, a).1, a);
    }
}

/// A tracker after `n` tokens at `now`, each smoothed from what was before it.
pub open spec fn recorded(
    tracker: StreamTracker,
    n: nat,
    now: u128,
    smooth: spec_fn(Smoothing) -> Binary64,
) -> StreamTracker
    decreases n,
{
    if n == 0 {
        tracker
    } else {
        recorded(
            tracker.token_at(now, smooth(tracker.smoothing_at(now))),
            (n - 1) as nat,
            now,
            smooth,
        )
    }
}

/// The tokens of a chunk are recorded one after another, all of them, and one
/// observation follows the last.
pub proof fn law_every_token_is_recorded(m: FilterModel, run: SmoothRun, a: Arithmetic)
    ensures
        ({
            let smoothing = run.tracker.smoothing_at(run.rest.now);
            let tracker = recorded(
                run.tracker,
                (run.tokens_after + 1) as nat,
                run.rest.now,
                a.smooth,
            );
            let (after, step) = m.tracking(run.rest.stream_id, tracker).observing_tokens(run.rest);
            m.completed(BodyStep::Smooth { smoothing, run }, a) == after.completed(step, a)
        }),
    decreases run.tokens_after,
{
    let now = run.rest.now;
    let smoothing = run.tracker.smoothing_at(now);
    let tracker = run.tracker.token_at(now, (a.smooth)(smoothing));
    reveal_with_fuel(recorded, 2);
    if run.tokens_after > 0 {
        let next = SmoothRun { tracker, tokens_after: (run.tokens_after - 1) as u64, ..run };
        law_every_token_is_recorded(m, next, a);
    }
}

/// Recording `n` tokens counts `n` intervals.
proof fn lemma_recorded_counts(
    tracker: StreamTracker,
    n: nat,
    now: u128,
    smooth: spec_fn(Smoothing) -> Binary64,
)
    requires
        tracker.intervals + n <= u64::MAX,
    ensures
        recorded(tracker, n, now, smooth).intervals == tracker.intervals + n,
    decreases n,
{
    if n > 0 {
        let next = tracker.token_at(now, smooth(tracker.smoothing_at(now)));
        lemma_recorded_counts(next, (n - 1) as nat, now, smooth);
    }
}

/// The first token of a stream is no interval, however many tokens come with it:
/// it sets the time from which the others are measured, so that the time since
/// the admission enters none of them, and the others are recorded from there. If
/// it comes alone, nothing is observed for it.
pub proof fn law_first_token_is_no_interval(
    m: FilterModel,
    req: RequestModel,
    bytes: Seq<u8>,
    end_of_stream: bool,
    now: u128,
    a: Arithmetic,
)
    requires
        req.admitted,
        req.sse.token_count == 0,
        0 < req.sse.tokens_with(bytes) <= u64::MAX,
        m.streams.contains_key(req.stream_id),
    ensures
        ({
            let (received, _, step) = m.body_received(req, Some(bytes), end_of_stream, now);
            let id = req.stream_id;
            let rest = rest_for(req, Some(bytes), end_of_stream, now);
            let others = (req.sse.tokens_with(bytes) - 1) as nat;
            let first = m.streams[id].first_token_at(now);
            let (after, next) = m.tracking(
                id,
                recorded(first, others, now, a.smooth),
            ).observing_tokens(rest);
            &&& others == 0 ==> (received, step) == m.tracking(id, first).correcting(rest)
            &&& others == 0 && rest.timing is None ==> step is Finished && received.aimd == m.aimd
            &&& others > 0 ==> received.completed(step, a) == after.completed(next, a)
            &&& others > 0 ==> step is Smooth && step->smoothing == first.smoothing_at(now)
            &&& first.elapsed_at(now) == 0
        }),
{
    let (received, _, step) = m.body_received(req, Some(bytes), end_of_stream, now);
    if req.sse.tokens_with(bytes) > 1 {
        law_every_token_is_recorded(m, step->Smooth_run, a);
    }
}

/// Whether the stream's intervals are its tokens but the first.
pub open spec fn intervals_match(m: FilterModel, req: RequestModel) -> bool {
    m.streams.contains_key(req.stream_id) ==> m.streams[req.stream_id].intervals
        == if req.sse.token_count == 0 {
        0
    } else {
        req.sse.token_count - 1
    }
}

/// Whether no stream is new and none has another number of intervals.
spec fn keeps_intervals(m: FilterModel, after: FilterModel) -> bool {
    forall|id: u64| #[trigger]
        after.streams.contains_key(id) ==> m.streams.contains_key(id)
            && after.streams[id].intervals == m.streams[id].intervals
}

proof fn lemma_correcting_keeps_intervals(m: FilterModel, rest: BodyRest)
    ensures
        keeps_intervals(m, m.closing(rest).0),
        keeps_intervals(m, m.correcting(rest).0),
        !(m.correcting(rest).1 is Smooth),
{
    if rest.timing is Some {
        let tracker = m.streams[rest.stream_id].corrected(rest.timing->0);
        let corrected = m.tracking(rest.stream_id, tracker);
        assert(keeps_intervals(m, corrected));
        assert(keeps_intervals(corrected, corrected.closing(rest).0));
    }
}

proof fn lemma_completing_keeps_intervals(m: FilterModel, step: BodyStep, a: Arithmetic)
    requires
        !(step is Smooth),
    ensures
        keeps_intervals(m, m.completed(step, a).0),
    decreases steps_left(step),
{
    if !(step is Finished) {
        let (after, next) = m.stepped(step, a);
        let rest = rest_of(step);
        lemma_correcting_keeps_intervals(m, rest);
        if let BodyStep::Evaluate { operands, run } = step {
            let observed = FilterModel {
                aimd: m.aimd.observed(
                    Observation {
                        itl: run.itl,
                        active: m.active,
                        figures: (a.evaluate)(operands),
                    },
                ),
                ..m
            };
            lemma_correcting_keeps_intervals(observed, rest);
        }
        assert(keeps_intervals(m, after));
        lemma_completing_keeps_intervals(after, next, a);
    }
}

/// The intervals of a stream are its tokens but the first: so it is at its
/// admission, and so it is left by every part of its body, whatever the
/// arithmetic gives.
pub proof fn law_intervals_are_the_tokens_but_the_first(
    m: FilterModel,
    req: RequestModel,
    chunk: Option<Seq<u8>>,
    end_of_stream: bool,
    now: u128,
    a: Arithmetic,
)
    requires
        intervals_match(m, req),
        req.admitted && chunk is Some ==> req.sse.fed(chunk->0).token_count <= u64::MAX,
    ensures
        m.requested(now).1 is Admitted ==> intervals_match(
            m.requested(now).0,
            m.requested(now).1->Admitted_0,
        ),
        intervals_match(
            m.body_handled(req, chunk, end_of_stream, now, a).0,
            m.body_handled(req, chunk, end_of_stream, now, a).1,
        ),
{
    let (received, req_after, step) = m.body_received(req, chunk, end_of_stream, now);
    let id = req.stream_id;
    if req.admitted {
        let rest = rest_for(req, chunk, end_of_stream, now);
        lemma_correcting_keeps_intervals(m, rest);
        let first = m.streams[id].first_token_at(now);
        lemma_correcting_keeps_intervals(m.tracking(id, first), rest);
        if step is Smooth {
            let run = step->Smooth_run;
            let n = (run.tokens_after + 1) as nat;
            let tracker = recorded(run.tracker, n, now, a.smooth);
            law_every_token_is_recorded(m, run, a);
            lemma_recorded_counts(run.tracker, n, now, a.smooth);
            let updated = m.tracking(id, tracker);
            let (after, next) = updated.observing_tokens(rest);
            lemma_correcting_keeps_intervals(updated, rest);
            lemma_completing_keeps_intervals(after, next, a);
        } else {
            lemma_completing_keeps_intervals(received, step, a);
        }
    }
}

/// A part of a response body.
pub struct BodyPart {
    pub chunk: Option<Seq<u8>>,
    pub end_of_stream: bool,
    pub now: u128,
}

/// What happens to a filter.
pub enum Event {
    /// A request arrives.
    Request { now: u128 },
    /// A response arrives, with the status it has: an outcome for the breaker.
    Response { status: Option<u16>, now: u128 },
    /// A part of the body of some response arrives and is dealt with.
    Body { req: RequestModel, part: BodyPart },
}

impl FilterModel {
    /// A part of a body, from its arrival until it is dealt with.
    pub open spec fn body_handled(
        self,
        req: RequestModel,
        chunk: Option<Seq<u8>>,
        end_of_stream: bool,
        now: u128,
        a: Arithmetic,
    ) -> (Self, RequestModel, BodyAction) {
        let (received, req_after, step) = self.body_received(req, chunk, end_of_stream, now);
        let (after, action) = received.completed(step, a);
        (after, req_after, action)
    }

    /// The parts of one body, first to last.
    pub open spec fn body_handled_all(
        self,
        req: RequestModel,
        parts: Seq<BodyPart>,
        a: Arithmetic,
    ) -> (Self, RequestModel)
        decreases parts.len(),
    {
        if parts.len() == 0 {
            (self, req)
        } else {
            let (before, req_before) = self.body_handled_all(req, parts.drop_last(), a);
            let last = parts.last();
            let (after, req_after, _) = before.body_handled(
                req_before,
                last.chunk,
                last.end_of_stream,
                last.now,
                a,
            );
            (after, req_after)
        }
    }

    /// The filter after an event.
    pub open spec fn after_event(self, event: Event, a: Arithmetic) -> Self {
        match event {
            Event::Request { now } => self.requested(now).0,
            Event::Response { status, now } => self.responded(status, now),
            Event::Body { req, part } => self.body_handled(
                req,
                part.chunk,
                part.end_of_stream,
                part.now,
                a,
            ).0,
        }
    }

    /// The filter after a sequence of events, first to last.
    pub open spec fn after_events(self, events: Seq<Event>, a: Arithmetic) -> Self
        decreases events.len(),
    {
        if events.len() == 0 {
            self
        } else {
            self.after_events(events.drop_last(), a).after_event(events.last(), a)
        }
    }

    /// How many requests among `events` are admitted.
    pub open spec fn admissions(self, events: Seq<Event>, a: Arithmetic) -> nat
        decreases events.len(),
    {
        if events.len() == 0 {
            0
        } else {
            let before = self.after_events(events.drop_last(), a);
            let so_far = self.admissions(events.drop_last(), a);
            match events.last() {
                Event::Request { now } => if before.requested(now).1 is Admitted {
                    so_far + 1
                } else {
                    so_far
                },
                _ => so_far,
            }
        }
    }
}

/// Bodies tell the breaker nothing.
proof fn lemma_bodies_leave_the_breaker(
    m: FilterModel,
    req: RequestModel,
    part: BodyPart,
    a: Arithmetic,
)
    ensures
        m.body_handled(req, part.chunk, part.end_of_stream, part.now, a).0.breaker == m.breaker,
{
    if req.admitted {
        lemma_arrival_carries_on(m, req, part.chunk, part.end_of_stream, part.now);
        let (received, _, step) = m.body_received(req, part.chunk, part.end_of_stream, part.now);
        if !(step is Finished) {
            law_completing_a_chunk_settles_its_stream(received, step, a);
        }
    }
}

/// A breaker that is not closed admits at most one request before the next
/// outcome is recorded, however many arrive and whatever bodies go by: the probe
/// that a half-open breaker allows. While that is out, none is admitted.
pub proof fn law_one_probe_until_the_next_outcome(
    m: FilterModel,
    events: Seq<Event>,
    a: Arithmetic,
)
    requires
        m.breaker.state != BreakerState::Closed,
        forall|i: int| 0 <= i < events.len() ==> !(#[trigger] events[i] is Response),
    ensures
        m.admissions(events, a) <= 1,
        m.breaker.state == BreakerState::HalfOpen && m.breaker.probe_out ==> m.admissions(events, a)
            == 0,
        m.admissions(events, a) == 1 ==> !m.after_events(events, a).breaker.passes(),
{
    lemma_probe_stays_out(m, events, a);
}

proof fn lemma_probe_stays_out(m: FilterModel, events: Seq<Event>, a: Arithmetic)
    requires
        m.breaker.state != BreakerState::Closed,
        forall|i: int| 0 <= i < events.len() ==> !(#[trigger] events[i] is Response),
    ensures
        ({
            let after = m.after_events(events, a).breaker;
            let out = after.state == BreakerState::HalfOpen && after.probe_out;
            &&& after.state != BreakerState::Closed
            &&& m.admissions(events, a) <= 1
            &&& m.admissions(events, a) == 1 ==> out
            &&& m.breaker.state == BreakerState::HalfOpen && m.breaker.probe_out ==> out
                && m.admissions(events, a) == 0
        }),
    decreases events.len(),
{
    if events.len() > 0 {
        lemma_probe_stays_out(m, events.drop_last(), a);
        assert(events.last() == events[events.len() - 1]);
        if let Event::Body { req, part } = events.last() {
            lemma_bodies_leave_the_breaker(m.after_events(events.drop_last(), a), req, part, a);
        }
    }
}

impl FilterModel {
    /// Whether the number of slots taken is within the largest ceiling, and the
    /// ceiling will stay so too: it lies within its bounds, its factor lies
    /// between zero and one, and every stream has a slot to give up.
    pub open spec fn is_capped(self) -> bool {
        &&& self.active <= self.aimd.config.ceiling_max
        &&& self.aimd.in_bounds()
        &&& self.aimd.config.beta.is_proper_fraction()
        &&& self.streams.dom().finite()
        &&& self.streams.dom().len() <= self.active
    }
}

/// Handling a part of a body keeps the cap.
proof fn lemma_bodies_keep_the_cap(m: FilterModel, req: RequestModel, part: BodyPart, a: Arithmetic)
    requires
        m.is_capped(),
    ensures
        ({
            let after = m.body_handled(req, part.chunk, part.end_of_stream, part.now, a).0;
            &&& after.is_capped()
            &&& after.active <= m.active
            &&& after.aimd.config == m.aimd.config
        }),
{
    let id = req.stream_id;
    let (received, _, step) = m.body_received(req, part.chunk, part.end_of_stream, part.now);
    let after = received.completed(step, a).0;
    law_chunks_keep_the_ceiling_in_bounds(received, step, a);
    if req.admitted {
        lemma_arrival_carries_on(m, req, part.chunk, part.end_of_stream, part.now);
        if !(step is Finished) {
            law_completing_a_chunk_settles_its_stream(received, step, a);
        }
        let rest = rest_for(req, part.chunk, part.end_of_stream, part.now);
        assert(settles_the_slot(m, after, rest));
        assert(after.streams.remove(id) == m.streams.remove(id));
        let others = m.streams.remove(id).dom();
        assert(others == m.streams.dom().remove(id));
        assert(others == after.streams.dom().remove(id));
        if after.streams.contains_key(id) {
            assert(after.streams.dom() == others.insert(id));
            assert(m.streams.dom() == others.insert(id));
        } else {
            assert(after.streams.dom() == others);
            if !m.streams.contains_key(id) {
                assert(m.streams.dom() == others);
            }
        }
    }
}

/// Whatever happens, one event leaves no more streams active than the largest
/// ceiling allows, and no more than it found unless it admits one under the
/// ceiling of its moment.
pub proof fn law_one_event_keeps_the_cap(m: FilterModel, event: Event, a: Arithmetic)
    requires
        m.is_capped(),
    ensures
        m.after_event(event, a).is_capped(),
        m.after_event(event, a).active <= m.aimd.config.ceiling_max,
        m.after_event(event, a).aimd.config == m.aimd.config,
        m.after_event(event, a).active > m.active ==> event is Request && m.after_event(
            event,
            a,
        ).active == m.active + 1 && m.active < m.aimd.ceiling,
{
    match event {
        Event::Request { now } => {},
        Event::Response { status, now } => {},
        Event::Body { req, part } => {
            lemma_bodies_keep_the_cap(m, req, part, a);
        },
    }
}

/// Concurrency is capped: however requests, responses and body parts follow one
/// another, and whatever the arithmetic gives, no more streams are active than
/// the largest ceiling allows.
pub proof fn law_concurrency_is_capped(m: FilterModel, events: Seq<Event>, a: Arithmetic)
    requires
        m.wf(),
        m.aimd.in_bounds(),
        m.aimd.config.beta.is_proper_fraction(),
        m.active <= m.aimd.config.ceiling_max,
    ensures
        m.after_events(events, a).active <= m.aimd.config.ceiling_max,
        m.after_events(events, a).aimd.in_bounds(),
        m.after_events(events, a).is_capped(),
        m.after_events(events, a).aimd.config == m.aimd.config,
    decreases events.len(),
{
    if events.len() > 0 {
        law_concurrency_is_capped(m, events.drop_last(), a);
        law_one_event_keeps_the_cap(m.after_events(events.drop_last(), a), events.last(), a);
    }
}

/// A filter made from a valid configuration never has more streams active than
/// the configured maximum, nor a ceiling outside the configured bounds.
pub proof fn law_a_valid_filter_is_capped(
    cfg: SmoothieConfig,
    ms_per_token: Binary64,
    headroom_ms: Binary64,
    events: Seq<Event>,
    a: Arithmetic,
)
    requires
        cfg.valid(),
    ensures
        ({
            let after = FilterModel::configured(cfg, ms_per_token, headroom_ms).after_events(
                events,
                a,
            );
            &&& after.active <= cfg.ceiling_max
            &&& cfg.ceiling_min <= after.aimd.ceiling <= cfg.ceiling_max
        }),
{
    law_a_new_filter_is_well_formed(cfg, ms_per_token, headroom_ms);
    law_concurrency_is_capped(
        FilterModel::configured(cfg, ms_per_token, headroom_ms),
        events,
        a,
    );
}

/// The request state after parts of its body.
pub open spec fn request_after(req: RequestModel, parts: Seq<BodyPart>) -> RequestModel
    decreases parts.len(),
{
    if parts.len() == 0 {
        req
    } else {
        let before = request_after(req, parts.drop_last());
        match parts.last().chunk {
            Some(bytes) => RequestModel { sse: before.sse.fed(bytes), ..before },
            None => before,
        }
    }
}

/// Whether a part ends its stream: by the end marker or by the end of the body.
pub open spec fn ends_stream(req: RequestModel, part: BodyPart) -> bool {
    part.end_of_stream || part.chunk is Some && req.sse.done_with(part.chunk->0)
}

/// Whether one of the parts ends the stream.
pub open spec fn some_part_ends(req: RequestModel, parts: Seq<BodyPart>) -> bool
    decreases parts.len(),
{
    parts.len() > 0 && {
        ||| some_part_ends(req, parts.drop_last())
        ||| ends_stream(request_after(req, parts.drop_last()), parts.last())
    }
}

/// Over a whole body, however it is cut and whatever still follows its end, a
/// stream gives up its one slot exactly where a part has ended it, at the first
/// such part: before it the slot is held, and no later part gives up another.
pub proof fn law_a_stream_gives_up_one_slot(
    m: FilterModel,
    req: RequestModel,
    parts: Seq<BodyPart>,
    a: Arithmetic,
)
    requires
        m.wf(),
        req.admitted,
        m.streams.contains_key(req.stream_id),
    ensures
        ({
            let (after, req_after) = m.body_handled_all(req, parts, a);
            &&& after.wf()
            &&& req_after == request_after(req, parts)
            &&& after.streams.contains_key(req.stream_id) <==> !some_part_ends(req, parts)
            &&& after.active == if some_part_ends(req, parts) {
                m.active - 1
            } else {
                m.active as int
            }
            &&& after.streams.remove(req.stream_id) == m.streams.remove(req.stream_id)
        }),
    decreases parts.len(),
{
    if parts.len() > 0 {
        let last = parts.last();
        law_a_stream_gives_up_one_slot(m, req, parts.drop_last(), a);
        let (before, req_before) = m.body_handled_all(req, parts.drop_last(), a);
        lemma_request_keeps_its_id(req, parts.drop_last());
        law_a_body_part_releases_exactly_at_the_end(
            before,
            req_before,
            last.chunk,
            last.end_of_stream,
            last.now,
            a,
        );
    }
}

proof fn lemma_request_keeps_its_id(req: RequestModel, parts: Seq<BodyPart>)
    ensures
        request_after(req, parts).stream_id == req.stream_id,
        request_after(req, parts).admitted == req.admitted,
    decreases parts.len(),
{
    if parts.len() > 0 {
        lemma_request_keeps_its_id(req, parts.drop_last());
    }
}

/// The ceiling of a filter with a valid configuration stays within its bounds
/// through every step of every chunk, whatever the arithmetic gives.
pub proof fn law_chunks_keep_the_ceiling_in_bounds(
    m: FilterModel,
    step: BodyStep,
    a: Arithmetic,
)
    requires
        m.aimd.in_bounds(),
        m.aimd.config.beta.is_proper_fraction(),
    ensures
        m.completed(step, a).0.aimd.in_bounds(),
        m.completed(step, a).0.aimd.config == m.aimd.config,
    decreases steps_left(step),
{
    if !(step is Finished) {
        if let BodyStep::Evaluate { operands, run } = step {
            let figures = (a.evaluate)(operands);
            crate::aimd::law_one_observation_keeps_the_bounds(
                m.aimd,
                Observation { itl: run.itl, active: m.active, figures },
            );
        }
        law_chunks_keep_the_ceiling_in_bounds(m.stepped(step, a).0, m.stepped(step, a).1, a);
    }
}

/// The admission ceiling is read, never moved, by requests and responses.
pub proof fn law_only_observations_move_the_ceiling(
    m: FilterModel,
    now: u128,
    status: Option<u16>,
    id: u64,
)
    ensures
        m.requested(now).0.aimd == m.aimd,
        m.responded(status, now).aimd == m.aimd,
        m.ended(id).aimd == m.aimd,
{
}

/// The median latency of the streams, if any is measured, with a midpoint
/// computed by `a`.
pub open spec fn median_latency(streams: Map<u64, StreamTracker>, a: Arithmetic) -> Option<
    Binary64,
> {
    match crate::streams::median_of(streams) {
        Median::Unmeasured => None,
        Median::Middle(itl) => Some(itl),
        Median::Between { lower, upper } => Some((a.midpoint)(lower, upper)),
    }
}

/// A controller that is fed the median latency of `streams`, if that is a number
/// above zero, with `active` slots taken and its figures computed by `a`.
pub open spec fn fed_the_median(
    aimd: AimdModel,
    streams: Map<u64, StreamTracker>,
    active: nat,
    a: Arithmetic,
) -> AimdModel {
    match median_latency(streams, a) {
        Some(itl) => if 0 < itl.bits <= 0x7ff0_0000_0000_0000 {
            let figures = (a.evaluate)(aimd.operands_for(itl));
            aimd.observed(Observation { itl, active, figures })
        } else {
            aimd
        },
        None => aimd,
    }
}

/// The outcome of a chunk at its end.
spec fn closed_with(m: FilterModel, aimd: AimdModel, rest: BodyRest) -> (FilterModel, BodyAction) {
    let (after, step) = (FilterModel { aimd, ..m }).closing(rest);
    (after, step->action)
}

proof fn lemma_terminal_observation(m: FilterModel, rest: BodyRest, a: Arithmetic)
    ensures
        ({
            let (x, step) = m.observing_terminal(rest);
            x.completed(step, a) == closed_with(
                m,
                fed_the_median(m.aimd, m.streams, m.active, a),
                rest,
            )
        }),
{
    reveal_with_fuel(FilterModel::completed, 3);
}

proof fn lemma_correction(m: FilterModel, rest: BodyRest, a: Arithmetic)
    ensures
        ({
            let (x, step) = m.correcting(rest);
            x.completed(step, a) == match rest.timing {
                None => closed_with(m, m.aimd, rest),
                Some(ms) => {
                    let corrected = m.tracking(
                        rest.stream_id,
                        StreamTracker { smoothed_itl_ms: ms, ..m.streams[rest.stream_id] },
                    );
                    closed_with(
                        corrected,
                        fed_the_median(m.aimd, corrected.streams, m.active, a),
                        rest,
                    )
                },
            }
        }),
{
    reveal_with_fuel(FilterModel::completed, 2);
    if let Some(ms) = rest.timing {
        let corrected = m.tracking(
            rest.stream_id,
            StreamTracker { smoothed_itl_ms: ms, ..m.streams[rest.stream_id] },
        );
        lemma_terminal_observation(corrected, rest, a);
    }
}

proof fn lemma_token_observation(m: FilterModel, rest: BodyRest, a: Arithmetic)
    ensures
        ({
            let (x, step) = m.observing_tokens(rest);
            let observed = FilterModel {
                aimd: fed_the_median(m.aimd, m.streams, m.active, a),
                ..m
            };
            let (y, next) = observed.correcting(rest);
            x.completed(step, a) == y.completed(next, a)
        }),
{
    reveal_with_fuel(FilterModel::completed, 3);
}

/// What a part of a body does, from its arrival until it is dealt with.
///
/// The tokens it completes are recorded for a stream that is there: each is an
/// interval, but for the first token of the stream, which only sets the time.
/// If intervals were recorded, the controller is fed the median latency that
/// follows, once, with the current number of active streams. A terminal timing
/// then takes the place of the stream's estimate, and the controller is fed the
/// median that follows from that. In both cases nothing else is asked of the
/// ceiling or of the number of active streams. At the end of the stream it
/// leaves, with its slot. Nothing else changes.
pub proof fn law_what_a_body_part_does(
    m: FilterModel,
    req: RequestModel,
    bytes: Seq<u8>,
    end_of_stream: bool,
    now: u128,
    a: Arithmetic,
)
    requires
        req.admitted,
        req.sse.tokens_with(bytes) <= u64::MAX,
    ensures
        ({
            let (after, req_after, action) = m.body_handled(
                req,
                Some(bytes),
                end_of_stream,
                now,
                a,
            );
            let id = req.stream_id;
            let here = m.streams.contains_key(id);
            let tokens = req.sse.tokens_with(bytes);
            let timing = req.sse.timing_with(bytes);
            let over = end_of_stream || req.sse.done_with(bytes);
            // The tokens.
            let first = req.sse.token_count == 0;
            let intervals = if first && tokens > 0 {
                (tokens - 1) as nat
            } else {
                tokens
            };
            let start = if first {
                StreamTracker { last_token_time: now, ..m.streams[id] }
            } else {
                m.streams[id]
            };
            let recording = if here && tokens > 0 {
                m.streams.insert(id, recorded(start, intervals, now, a.smooth))
            } else {
                m.streams
            };
            let fed = if here && intervals > 0 {
                fed_the_median(m.aimd, recording, m.active, a)
            } else {
                m.aimd
            };
            // The terminal timing.
            let correction = if here && timing is Some {
                recording.insert(
                    id,
                    StreamTracker { smoothed_itl_ms: timing->0, ..recording[id] },
                )
            } else {
                recording
            };
            let fed_again = if timing is Some {
                fed_the_median(fed, correction, m.active, a)
            } else {
                fed
            };
            &&& after.aimd == fed_again
            &&& after.streams == if over {
                correction.remove(id)
            } else {
                correction
            }
            &&& after.active == if !here || !over {
                m.active
            } else if m.active == 0 {
                0xffff_ffff
            } else {
                (m.active - 1) as nat
            }
            &&& after.next_stream_id == m.next_stream_id
            &&& after.breaker == m.breaker
            &&& after.ewma_alpha == m.ewma_alpha
            &&& action == if over {
                BodyAction::BodyDone
            } else {
                BodyAction::Continue
            }
            &&& req_after == (RequestModel { sse: req.sse.fed(bytes), ..req })
        }),
{
    let id = req.stream_id;
    let here = m.streams.contains_key(id);
    let tokens = req.sse.tokens_with(bytes);
    let timing = req.sse.timing_with(bytes);
    let rest = rest_for(req, Some(bytes), end_of_stream, now);
    let first = req.sse.token_count == 0;
    let intervals = if first && tokens > 0 {
        (tokens - 1) as nat
    } else {
        tokens
    };
    let start = if first {
        StreamTracker { last_token_time: now, ..m.streams[id] }
    } else {
        m.streams[id]
    };
    let (received, _, step) = m.body_received(req, Some(bytes), end_of_stream, now);
    let recording = if here && tokens > 0 {
        m.tracking(id, recorded(start, intervals, now, a.smooth))
    } else {
        m
    };
    if here && intervals > 0 {
        law_every_token_is_recorded(m, step->Smooth_run, a);
        lemma_token_observation(recording, rest, a);
    }
    let observed = FilterModel {
        aimd: if here && intervals > 0 {
            fed_the_median(m.aimd, recording.streams, m.active, a)
        } else {
            m.aimd
        },
        ..recording
    };
    lemma_correction(observed, rest, a);
    let (y, next) = observed.correcting(rest);
    assert(received.completed(step, a) == y.completed(next, a));
    let correction = if here && timing is Some {
        recording.streams.insert(
            id,
            StreamTracker { smoothed_itl_ms: timing->0, ..recording.streams[id] },
        )
    } else {
        recording.streams
    };
    if !here {
        assert(correction.remove(id) =~= correction);
    }
}

/// Without bytes a part only ends its stream, if it is the last, and a request
/// that was not admitted has none to end.
pub proof fn law_a_part_without_bytes_only_ends(
    m: FilterModel,
    req: RequestModel,
    chunk: Option<Seq<u8>>,
    end_of_stream: bool,
    now: u128,
    a: Arithmetic,
)
    requires
        chunk is None || !req.admitted,
    ensures
        ({
            let (after, req_after, action) = m.body_handled(req, chunk, end_of_stream, now, a);
            let id = req.stream_id;
            let over = req.admitted && end_of_stream;
            &&& req_after == req
            &&& action == BodyAction::BodyDone <==> over
            &&& !over || !m.streams.contains_key(id) ==> after == m
            &&& over && m.streams.contains_key(id) ==> after == (FilterModel {
                streams: m.streams.remove(id),
                active: if m.active == 0 {
                    0xffff_ffff
                } else {
                    (m.active - 1) as nat
                },
                ..m
            })
        }),
{
}

/// Recording one more token measures it from what the others left.
pub proof fn law_tokens_are_recorded_one_by_one(
    t: StreamTracker,
    n: nat,
    now: u128,
    smooth: spec_fn(Smoothing) -> Binary64,
)
    requires
        t.intervals + n < u64::MAX,
    ensures
        recorded(t, 0, now, smooth) == t,
        ({
            let before = recorded(t, n, now, smooth);
            let elapsed_nanos = if now >= before.last_token_time {
                (now - before.last_token_time) as u128
            } else {
                0
            };
            recorded(t, n + 1, now, smooth) == (StreamTracker {
                smoothed_itl_ms: if before.intervals == 0 {
                    smooth(Smoothing::Seed { elapsed_nanos })
                } else {
                    smooth(
                        Smoothing::Blend {
                            alpha: before.alpha,
                            elapsed_nanos,
                            previous: before.smoothed_itl_ms,
                        },
                    )
                },
                intervals: (before.intervals + 1) as u64,
                last_token_time: now,
                alpha: before.alpha,
            })
        }),
    decreases n,
{
    reveal_with_fuel(recorded, 2);
    if n > 0 {
        let next = t.token_at(now, smooth(t.smoothing_at(now)));
        law_tokens_are_recorded_one_by_one(next, (n - 1) as nat, now, smooth);
    }
}

/// What a request does. The breaker is checked, whatever follows. If it then
/// lets nothing pass, the answer is 503. If it does and every slot under the
/// ceiling is taken, the answer is 429 with the ceiling. Otherwise the request is
/// admitted with the next id: one more slot is taken, a new tracker starts now,
/// a new parser waits for the body, and a half-open breaker has its probe out.
pub proof fn law_what_a_request_does(m: FilterModel, now: u128)
    ensures
        ({
            let breaker = m.breaker.checked(now);
            let (after, outcome) = m.requested(now);
            let passes = breaker.state == BreakerState::Closed || breaker.state
                == BreakerState::HalfOpen && !breaker.probe_out;
            &&& !passes || m.active >= m.aimd.ceiling ==> after == (FilterModel { breaker, ..m })
            &&& !passes ==> outcome == OutcomeModel::Rejected(
                RejectionModel {
                    status: 503,
                    headers: seq![("X-Smoothie-State"@, "circuit-open"@)],
                    body: Some("service unavailable: circuit breaker open"@),
                },
            )
            &&& passes && m.active >= m.aimd.ceiling ==> outcome == OutcomeModel::Rejected(
                RejectionModel {
                    status: 429,
                    headers: seq![
                        ("Retry-After"@, "1"@),
                        ("X-Smoothie-Ceiling"@, crate::decimal::decimal_text(m.aimd.ceiling)),
                    ],
                    body: None,
                },
            )
            &&& passes && m.active < m.aimd.ceiling ==> {
                &&& outcome == OutcomeModel::Admitted(
                    RequestModel {
                        stream_id: m.next_stream_id,
                        admitted: true,
                        sse: (SseModel {
                            partial: Seq::empty(),
                            token_count: 0,
                            first_token_seen: false,
                            held_line: None,
                        }),
                    },
                )
                &&& after.active == m.active + 1
                &&& after.streams == m.streams.insert(
                    m.next_stream_id,
                    StreamTracker {
                        smoothed_itl_ms: (Binary64 { bits: 0 }),
                        intervals: 0,
                        last_token_time: now,
                        alpha: m.ewma_alpha,
                    },
                )
                &&& m.next_stream_id < u64::MAX ==> after.next_stream_id == m.next_stream_id + 1
                &&& m.next_stream_id == u64::MAX ==> after.next_stream_id == 0
                &&& after.breaker == (BreakerModel {
                    probe_out: breaker.state == BreakerState::HalfOpen,
                    ..breaker
                })
                &&& after.aimd == m.aimd && after.ewma_alpha == m.ewma_alpha
            }
        }),
{
}

/// What a response does: every status from 500 to 599 is a failure for the
/// breaker, and every other one, or none at all, a success. Nothing else
/// changes.
pub proof fn law_what_a_response_does(m: FilterModel, status: Option<u16>, now: u128)
    ensures
        status is Some && 500 <= status->0 < 600 ==> m.responded(status, now) == (FilterModel {
            breaker: m.breaker.failed(now),
            ..m
        }),
        status is None || status->0 < 500 || status->0 >= 600 ==> m.responded(status, now)
            == (FilterModel {
            breaker: (BreakerModel {
                state: BreakerState::Closed,
                failures: 0,
                opened_at: None,
                probe_out: false,
                ..m.breaker
            }),
            ..m
        }),
{
}

/// A new filter has what its configuration says, no stream and no slot taken.
pub proof fn law_what_a_new_filter_holds(
    cfg: SmoothieConfig,
    ms_per_token: Binary64,
    headroom_ms: Binary64,
)
    ensures
        ({
            let m = FilterModel::configured(cfg, ms_per_token, headroom_ms);
            &&& m.active == 0 && m.next_stream_id == 0
            &&& m.streams == Map::<u64, StreamTracker>::empty()
            &&& m.ewma_alpha == cfg.ewma_alpha
            &&& m.breaker == (BreakerModel {
                state: BreakerState::Closed,
                failures: 0,
                opened_at: None,
                probe_out: false,
                threshold: cfg.cb_consecutive_failures as nat,
                window: 1_000_000_000 * cfg.cb_recovery_window_secs as nat,
            })
            &&& cfg.floor_tps is Some ==> m.aimd.config.floor_ms == Some(ms_per_token)
            &&& cfg.floor_tps is None ==> m.aimd.config.floor_ms is None
            &&& m.aimd.config.headroom_ms == headroom_ms
            &&& m.aimd.config.beta == cfg.beta
            &&& m.aimd.config.sensitivity == cfg.sensitivity
            &&& m.aimd.config.hysteresis_steps == cfg.hysteresis_steps
            &&& m.aimd.config.ceiling_min == cfg.ceiling_min
            &&& m.aimd.config.ceiling_max == cfg.ceiling_max
            &&& cfg.ceiling_init is Some ==> m.aimd.ceiling == cfg.ceiling_init->0
            &&& cfg.ceiling_init is None && cfg.floor_tps is Some ==> m.aimd.ceiling
                == cfg.ceiling_max
            &&& cfg.ceiling_init is None && cfg.floor_tps is None ==> m.aimd.ceiling
                == cfg.ceiling_min
            &&& m.aimd.over == 0 && m.aimd.under == 0 && m.aimd.count == 0
            &&& m.aimd.phase == crate::aimd::ProbePhase::WaitingForSaturation
        }),
{
}

} // verus!
