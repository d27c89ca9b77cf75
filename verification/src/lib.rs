//! State of a live stream restreamer, and the shareable specifications that
//! are applied to it and exported from it.

// Imports of ghost items are unused once those are erased.
#![allow(unused_imports)]

pub mod addresses;
pub mod ids;
pub mod laws;
pub mod lists;
pub mod measures;
pub mod names;
pub mod srs;
pub mod spec;
pub mod state;
