//! The propagation API: contexts, carriers and propagators.

pub mod context;
pub mod correlation;
pub mod text;
pub mod trace;
pub mod value;

pub use context::propagation::binary_propagator::{BinaryFormat, BinaryPropagator};
pub use context::propagation::composite_propagator::TextMapCompositePropagator;
pub use context::propagation::text_propagator::TextMapFormat;
pub use context::propagation::{Extractor, Injector};
pub use context::{Context, ContextEntry, ContextGuard, CurrentContext};
pub use correlation::propagation::{CorrelationContextExt, CorrelationContextPropagator};
pub use correlation::CorrelationContext;
pub use trace::{SpanContext, SpanId, TraceId, TRACE_FLAG_SAMPLED};
pub use value::{Key, KeyValue, Value};
