//! Core engine of a test-result dashboard: a typed model of parsed test
//! reports, a builder that turns a report into a display tree with rolled-up
//! totals and a case-detail index, an auto-expand / default-selection policy,
//! and the single-flight state machine that orchestrates external test runs.

pub mod app;
pub mod policy;
pub mod report;
pub mod run;
pub mod tree;
