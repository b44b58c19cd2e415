//! Verified core of a tool that fills spinning disks with reproducible
//! pseudorandom data and reads it back to find corruption.

pub mod device;
pub mod generator;
pub mod path;
pub mod text;
