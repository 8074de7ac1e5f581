//! Segmentation and field extraction for security-product scan logs.
//!
//! A log is split into entries on a long separator; each entry that carries
//! the expected anchors contributes its file path, process, rule, result and
//! hour to an aggregate of counts.

pub mod text;
pub mod conv;
pub mod field;
pub mod hour;
pub mod category;
pub mod tally;
pub mod stats;
pub mod width;
pub mod laws;
pub mod report;
