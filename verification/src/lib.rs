//! Buffers time-stamped telemetry records per topic, detects ordering
//! anomalies while batching, and drives every batch through a matrix of
//! serialization codecs and byte compressors, checking that each combination
//! round-trips losslessly.

pub mod base;
pub mod clock;
pub mod compress;
pub mod decimal;
pub mod harness;
pub mod serialization;

use vstd::prelude::*;

verus! {

/// Largest number of characters the anomaly text of a batch may hold.
pub const ANOMALY_TEXT_CAP: usize = 100;

} // verus!
