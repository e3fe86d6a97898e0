//! Log ingestion: framing of records out of line-buffered text, parsing of
//! framed records into a uniform shape, batching towards a bounded consumer,
//! and sliding-window analytics over the parsed records.

pub mod analytics;
pub mod engine;
pub mod error;
pub mod ingest;
pub mod json;
pub mod keyed;
pub mod number;
pub mod parser;
pub mod text;
pub mod time;
