//! Verified log-file analyzer: a multi-pattern log line parser with a
//! timestamp resolver, a streaming aggregator with a time-bucketed
//! histogram, filters, and a summary builder.

pub mod analyze;
pub mod model;
pub mod parse;
pub mod report;
pub mod text;
pub mod ui;
