//! Per-interface traffic deltas computed from a log of cumulative network counters.
pub mod delta;
pub mod model;
pub mod record;
pub mod report;
pub mod series;
pub mod store;
