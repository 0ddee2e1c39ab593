//! The Flagfile formatter: consistent indentation, operator spacing,
//! boolean casing and blank-line handling, with comments preserved.
pub mod classify;
pub mod walk;
pub mod normalize;
pub mod format;
pub mod diff;
pub mod comments;
pub mod spaces;
