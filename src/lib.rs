//! Instrumentation core: decaying rate meters, latency histograms, timers that
//! combine the two, and a registry that keeps one metric per name.
//!
//! Time is measured in milliseconds. Instants handed to the metrics come from a
//! monotonic clock whose origin the caller chooses; creation times are wall-clock
//! milliseconds and are only kept for reporting.

pub mod meter;
pub mod histogram;
pub mod timer;
pub mod registry;
