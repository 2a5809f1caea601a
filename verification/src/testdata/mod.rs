//! Support for tests based on text files.
//!
//! A test case is an `.input` file. What the code under test makes of it is
//! compared with the `.valid` file of the same name.

pub mod names;
pub mod report;
pub mod run;
pub mod scan;

pub use run::{TestInput, TestResult, TestRun};
