//! Turns raw status updates into a per-author team report: text
//! normalization, issue-reference extraction, aggregation and rendering.
pub mod normal_form;
pub mod order;
pub mod render;
pub mod report;
pub mod text;
