//! A library for planning and safely executing bulk file-rename operations.
//!
//! Paths are modelled as byte strings with `/` as the component separator.
//! The engine plans a batch of source-to-destination renames, detects
//! overwrite hazards before any mutation, and executes a batch while
//! isolating per-item failures.

pub mod check;
pub mod denest;
pub mod errors;
pub mod execute;
pub mod model;
pub mod orchestrate;
pub mod order;
pub mod path;
pub mod plan;
pub mod relative;
pub mod rempref;
