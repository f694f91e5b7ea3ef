//! Compile-and-run judge core: line-ending normalization, input splitting,
//! line diffs, and the assembly of a run's result from captured outputs.

pub mod diff;
pub mod pipeline;
pub mod text;
