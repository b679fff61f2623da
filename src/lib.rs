//! Ingestion of company and corporate-tax tables: decoding delimited lines
//! into records, encoding records as JSON, and planning batched uploads to a
//! document index.

pub mod text;
pub mod coerce;
pub mod record;
pub mod json;
pub mod batch;
pub mod client;
