//! Reconstruction of per-sequence-number latency series from the line
//! output of an external echo-probe tool.
//!
//! The library turns raw, line-oriented probe output into two dense,
//! gap-filled time series (replies and timeouts) together with growing
//! axis bounds, ready for a chart renderer. Latencies are held as integer
//! microseconds; a position never explicitly set holds a sentinel that a
//! renderer may map to an out-of-range value such as `-1.0`.

pub mod parse;
pub mod probe;
pub mod series;
pub mod session;
pub mod viewport;
