//! Readings of the machine.

pub mod disk;
pub mod gpu;
pub mod memory;
pub mod process;
