//! Log analysis: parse timestamped, leveled log lines, filter them by level,
//! time window and text, and aggregate the result into summary statistics.

pub mod level;
pub mod datetime;
pub mod entry;
pub mod parser;
pub mod filter;
pub mod ingest;
pub mod tally;
pub mod hour;
pub mod stats;
pub mod args;
