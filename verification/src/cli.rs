//! The commands of the command line: what they select, decide and report.

pub mod files;
pub mod laws;
pub mod query;
pub mod report;
pub mod writer;
