//! Codec configuration extraction for container muxing: the minimal
//! bitstream parsing needed to build the codec configuration boxes.

pub mod annexb;
pub mod av1;
pub mod bits;
pub mod h265;
pub mod vp9;
pub mod h264;
pub mod opus;
