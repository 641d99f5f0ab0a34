//! A verified core for translating vendor metric-stream records into
//! uniquely identified, dynamically labeled time series.
//!
//! The library resolves the dimension label schema of each incoming metric
//! (cached per region/namespace/metric key), derives a deterministic series
//! family name and a stable label order, accumulates gauge-style observations
//! in a registry that registers each family at most once, and classifies the
//! outcome of a push cycle before the registry is cleared for the next one.
//!
//! Network I/O (the inbound HTTP request, the metadata lookup, the outbound
//! push) lives outside this crate; the functions here take the plain values
//! those calls produce and hand plain values back.

pub mod errors;
pub mod identity;
pub mod ingest;
pub mod push;
pub mod registry;
pub mod schema;
pub mod structs;
pub mod text;
pub mod units;
