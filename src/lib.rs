//! In-process span model for distributed tracing: builders, active spans,
//! finished spans, contexts with baggage, and the sampling gate.
pub mod carrier;
pub mod error;
pub mod log;
pub mod names;
pub mod sampler;
pub mod span;
pub mod tag;
pub mod time;
pub mod tracer;
