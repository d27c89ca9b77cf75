//! What holds of operations on a state altogether.

pub mod calls;
pub mod edits;
pub mod exports;
pub mod fields;
pub mod merges;
pub mod places;
pub mod uniqueness;

