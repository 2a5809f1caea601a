//! General text utilities for tests.

pub mod chars;
pub mod join_lines;
pub mod line;
pub mod lines;
pub mod trim;

pub use chars::AsText;
pub use join_lines::join_lines;
pub use line::{to_lines, Line};
pub use lines::{lines, trim_lines};
pub use trim::trim;
