//! Precision UDP packet pacing and arrival-timing analysis.
//!
//! - `config`: what identifies a link, and its validation.
//! - `lifecycle`: the stopped/running state machine of one link, which tells
//!   its owner when to start, stop or restart the background context.
//! - `pacer`: deadline scheduling of outbound packets, free of drift.
//! - `payload`: the little-endian sequence counter at the start of a payload.
//! - `stats`: running statistics of arrivals: gaps, maximum, mean, reorders.
//! - `window`: statistics and a histogram over a recent window of arrivals.
//!
//! Times are whole microseconds on a monotonic clock that the caller reads.

pub mod config;
pub mod lifecycle;
pub mod pacer;
pub mod payload;
pub mod stats;
pub mod window;
