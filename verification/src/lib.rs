//! Verified core of a small space-data ingestion service.
//!
//! The library keeps an append-only telemetry log, a per-source snapshot
//! cache and a deduplicated catalog keyed by an optional natural key, and
//! derives a movement trend from the two most recent telemetry samples.
//! Upstream JSON is modelled by [`json::JsonValue`]; heterogeneous field
//! shapes are reconciled by the ordered-candidate probing in [`extract`].

pub mod dates;
pub mod digits;
pub mod errors;
pub mod extract;
pub mod geo;
pub mod json;
pub mod sources;
pub mod store;
pub mod summary;
pub mod sync;
pub mod trend;
