//! MPEG-TS demultiplexing for the DASH packager.

pub mod screen;
pub mod sps;
pub mod tables;
pub mod ts;
pub mod types;
pub mod units;
