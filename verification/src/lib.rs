//! Context propagation for distributed tracing.
//!
//! The crate carries trace identity and correlation data across process
//! boundaries: an immutable [`api::Context`], carriers that fields are written
//! to and read from, and propagators that take a context to a carrier and
//! back.

pub mod api;
