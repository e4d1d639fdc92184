//! Continuous MPEG-TS from HLS segments: alignment, continuity, stitching and egress.

pub mod continuous;
pub mod egress;
pub mod repair;
pub mod stitch;
pub mod stream;
pub mod streamer;
