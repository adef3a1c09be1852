//! Kinds of metric.

use vstd::prelude::*;

verus! {

/// How a metric's value changes.
#[derive(Debug, Clone, Copy, PartialEq, Eq, Structural)]
pub enum MetricType {
    /// Only grows, by the amounts recorded.
    Counter,
    /// Takes the last value recorded.
    Gauge,
    /// Takes the last value recorded, kept as a distribution.
    Histogram,
}

} // verus!
