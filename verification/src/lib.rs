//! Core logic of a streaming-telemetry chart application: time-windowed
//! retention buffers for timestamped sensor samples, an aggregating chart
//! buffer with a dynamic y-axis range, parsing of sample lines, and the
//! pacing rule for replaying a recorded stream.
//!
//! Sensor values are carried as fixed-point integers (micro-units), so the
//! whole data path is exact; rendering converts at the edge.

pub mod datasource;
pub mod fixed;
pub mod generic;
pub mod state;
