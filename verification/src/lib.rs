//! Structured logging for Fastly Compute applications.
//!
//! Events and the fields of their active spans are combined into one
//! self-contained record, which a provider turns into its own wire format.
//! The Datadog provider validates and encodes tags and maps log levels onto
//! Datadog statuses.

pub mod bq_logging;
pub mod event;
pub mod layer;
pub mod level;
pub mod logging;
pub mod providers;
pub mod serialize;
pub mod setup;

pub use layer::{StructuredEvent, StructuredEventLayer};
