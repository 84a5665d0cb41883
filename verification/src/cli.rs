//! The ranges of track settings that the command-line tool accepts.

use vstd::prelude::*;

verus! {

/// Video dimensions the command-line tool accepts: 320x240 up to 4096x2160.
pub open spec fn spec_video_dimensions_supported(width: u32, height: u32) -> bool {
    320 <= width <= 4096 && 240 <= height <= 2160
}

/// Audio sample rates the command-line tool accepts: 1 Hz to 192 kHz.
pub open spec fn spec_sample_rate_supported(sample_rate: u32) -> bool {
    1 <= sample_rate <= 192_000
}

/// Audio channel counts the command-line tool accepts: 1 to 8.
pub open spec fn spec_channel_count_supported(channels: u8) -> bool {
    1 <= channels <= 8
}

/// Whether the video dimensions are in the supported range.
pub fn video_dimensions_supported(width: u32, height: u32) -> (r: bool)
    ensures
        r == spec_video_dimensions_supported(width, height),
{
    320 <= width && width <= 4096 && 240 <= height && height <= 2160
}

/// Whether the audio sample rate is in the supported range.
pub fn sample_rate_supported(sample_rate: u32) -> (r: bool)
    ensures
        r == spec_sample_rate_supported(sample_rate),
{
    1 <= sample_rate && sample_rate <= 192_000
}

/// Whether the audio channel count is in the supported range.
pub fn channel_count_supported(channels: u8) -> (r: bool)
    ensures
        r == spec_channel_count_supported(channels),
{
    1 <= channels && channels <= 8
}

} // verus!
