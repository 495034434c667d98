//! Turns line-delimited EDN records into a tab-separated table: a printer
//! that renders any value as one line of text, an ingestor that keeps the
//! map records and the sorted union of their keyword keys, and an emitter
//! that projects every record onto that union.

pub mod ingest;
pub mod order;
pub mod table;
pub mod text;
pub mod value;
