//! Verified core of a flight-telemetry charting pipeline.
//!
//! The library ingests line-delimited JSON telemetry records, rebuilds
//! aligned time series for altitude, relative altitude and speed, smooths
//! them with a trailing windowed moving average, and prepares the aligned
//! data that a chart renderer consumes. Numeric samples are held as exact
//! fixed-point values (signed 64-bit counts of nanounits), so every
//! arithmetic step in the core carries a proved contract.

pub mod errors;
pub mod numeric;
pub mod timestamp;
pub mod smooth;
pub mod bounds;
pub mod json;
pub mod record;
pub mod series;
pub mod pipeline;
