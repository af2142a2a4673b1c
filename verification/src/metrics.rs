//! Measurements: latency histograms, system counters, memory-controller
//! events.

pub mod histogram;
pub mod name;
pub mod perf;
pub mod system;

pub use histogram::{HistogramSnapshot, LatencyHistogram};
pub use name::MetricName;
pub use system::{SystemCollector, SystemMetrics};
