//! A small framework that declares a tree of named tests, plans how each
//! node is reported, and aggregates the outcomes of a run.
pub mod runners;
pub mod suite;
pub mod text;
pub mod laws;

pub use runners::{ReportLine, Step, Style, TestRunResult, TestRunner};
pub use suite::{Assertion, AssertionResult, Body, TestSuite};
