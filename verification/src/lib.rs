//! A latency-floor concurrency controller for streams of generated tokens.
//!
//! Every actively decoding stream slows the others down. To hold each stream
//! above a rate floor, the controller caps how many decode at once and sheds
//! the overflow. [`filter::SmoothieFilter`] puts the parts together: a circuit
//! breaker for faults, a semaphore for admission, a parser that counts tokens
//! in the response body, a smoothed latency per stream, and an AIMD controller
//! that moves the ceiling by the median of those latencies.
//!
//! Binary64 values are held by their bit patterns. They are ordered here, and
//! the ceiling is scaled by one here. Latencies are computed outside: where
//! arithmetic on them is needed, a function says on what and another takes the
//! result.

pub mod aimd;
pub mod binary64;
pub mod byte_search;
pub mod circuit_breaker;
pub mod clock;
pub mod config;
pub mod decimal;
pub mod filter;
pub mod json;
pub mod scaling;
pub mod semaphore;
pub mod sse;
pub mod stream_tracker;
pub mod streams;

pub use filter::SmoothieFilter;
