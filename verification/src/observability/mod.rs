//! Tracing and metrics.

pub mod metrics;
pub mod tracer;

pub use metrics::MetricType;
pub use tracer::{Span, SpanEvent, SpanRecorder, SpanStatus, TraceReport, Tracer};
