//! Client side of a pull-based diagnostics protocol: the engine that decides
//! when to pull diagnostics from language servers, coalesces bursts of edits
//! into one debounced sweep, tracks per-document diagnostic version tokens,
//! applies full and unchanged reports, and retries server-issued
//! cancellations.
//!
//! The engine owns the decisions; the surrounding application owns the
//! transport, the timers and the task scheduling, and feeds outcomes back in
//! as plain values.

pub mod debounce;
pub mod driver;
pub mod model;
pub mod triggers;
