//! Shared access-unit types for the DASH packager.

use vstd::prelude::*;

verus! {

/// Media timescale used by the packager (milliseconds).
pub const TIMESCALE: u32 = 1000;

pub const VIDEO_TRACK_ID: u32 = 1;

pub const AUDIO_TRACK_ID: u32 = 2;

/// `transmux::CodecConfig`, which the packager gets as the demultiplexer made it.
#[verifier::external_type_specification]
#[verifier::external_body]
pub struct ExCodecConfig(transmux::CodecConfig);

/// `transmux::Sample`, which the packager gets as the demultiplexer made it.
#[verifier::external_type_specification]
#[verifier::external_body]
pub struct ExSample(transmux::Sample);

/// One coded sample with its timing.
#[derive(Debug)]
pub struct MediaSample {
    /// Duration in ticks of the timescale.
    pub duration: u32,
    /// Presentation time less decode time, in ticks of the timescale.
    pub composition_offset: i32,
    /// The sample itself. Its own timing is that of the source.
    pub coded: transmux::Sample,
}

/// One codec config or media sample ready for CMAF packaging.
#[derive(Debug)]
pub enum AccessUnit {
    VideoConfig { config: transmux::CodecConfig },
    AudioConfig { config: transmux::CodecConfig },
    VideoSample(MediaSample),
    AudioSample(MediaSample),
}

} // verus!
