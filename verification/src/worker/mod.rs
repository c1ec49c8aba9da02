//! Carrying out a resize.

pub mod job;
pub mod non_optimized;
