//! Tolerant line parser for timestamped scalar measurements.
//!
//! The library ingests loosely CSV-formatted lines of `timestamp,value`
//! text and turns each into a typed record.  It handles two timestamp
//! shapes (`YYYY-MM-DD HH:MM:SS` and `YYYY-MM-DD`), an optional leading
//! quote on the timestamp field, decimal-comma values, and per-line
//! corruption, without aborting the whole ingestion.

pub mod datetime;
pub mod scan;
pub mod record;
pub mod numeric;
pub mod line;
pub mod ingest;
