//! Detectors that act on shape rather than size.

pub mod storm;
