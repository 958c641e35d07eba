//! Verified access-log analysis: a whitespace-delimited line parser, three
//! aggregation reducers over the parsed records, a record-loading pipeline,
//! and report rendering in plain-text and CSV form.

pub mod log_analysis;
pub mod log_entry;
pub mod log_parser;
pub mod pipeline;
pub mod report;
pub mod summation;

pub use log_entry::LogEntry;
