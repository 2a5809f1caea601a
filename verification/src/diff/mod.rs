//! Utilities for computing the difference between sequences.

pub mod lcs;
pub mod lines;
pub mod ranges;
pub mod render;
pub mod script;
pub mod steps;

pub use lcs::lcs;
pub use lines::{lines, Diff, DiffResult};
pub use ranges::diff_lines;
