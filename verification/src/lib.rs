//! Call-path timing for trees of nested spans.
//!
//! A span is one bracketed unit of work: it is created, entered and left
//! any number of times, possibly by several threads at once, and closed.
//! Spans nest, and the chain of callsites from the root span down to a
//! span is its call path. This library adds up, for each call path below
//! a root span, how often it was taken and for how long its spans were
//! alive, busy, and busy themselves rather than in a sub span.
//!
//! * [`clock`] is the time source.
//! * [`pool`] holds the call paths of one call tree and their timings.
//! * [`tracker`] holds the timing of one span while it is open.
//! * [`collector`] says what an event does to the two, and hands the pool
//!   of a root span that closes to a [`FinishedCallTreeProcessor`].
//! * [`display`] turns a finished call tree into text.
//! * [`protocol`] and [`history`] state what holds of the timings after
//!   every course of events.
//!
//! All times are counted in nanoseconds.

pub mod clock;
pub mod collector;
pub mod display;
pub mod history;
pub mod pool;
pub mod protocol;
pub mod tracker;

pub use collector::{CallTreeCollector, CallTreeCollectorBuilder, FinishedCallTreeProcessor};
pub use pool::{CallPathPool, CallPathPoolId, CallPathTiming, SpanMeta, TimingOverflow};
pub use tracker::{PerThreadInfo, SpanTimingInfo};
