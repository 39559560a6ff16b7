//! Cross-system distributed-trace continuity for an event-driven
//! image-labeling handler.
//!
//! The crate bridges a trace identity carried in an upstream trace header
//! into a portable span context, opens child spans under that context,
//! and drains the span export buffer before the host may suspend the
//! process. The three components are:
//!
//! * [`codec`] — pure decoding of the external trace header into a
//!   [`codec::SpanContext`], and hex round-tripping of the identifiers;
//! * [`span`] — the span lifecycle: open, attribute, close, flush;
//! * [`handler`] — the per-invocation state machine that ties argument
//!   extraction, the labeling call and telemetry flushing together.

pub mod codec;
pub mod handler;
pub mod span;
