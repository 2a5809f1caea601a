//! Miscellaneous utility functions for unit and integration tests.
//!
//! - `diff`: the difference between two lists, as an edit script and as
//!   text.
//! - `exec`: where the binaries of a project lie and how a process ended.
//! - `server`: what the test server answers.
//! - `temp`: where the files of a temporary directory may lie.
//! - `testdata`: support for file based tests.
//! - `text`: text utility functions.
//!
//! Nothing in this library reads or writes a file, starts a process or
//! opens a connection: it computes on values that its caller has read, and
//! says what to do next.

pub mod diff;
pub mod exec;
pub mod server;
pub mod temp;
pub mod testdata;
pub mod text;

pub use testdata::{TestInput, TestResult, TestRun};
