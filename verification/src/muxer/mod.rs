//! MP4 container construction.

pub mod fourcc;
pub mod headers;
pub mod entries;
pub mod tables;
pub mod meta;
pub mod moov;
pub mod adts;
pub mod mp4;
pub mod layout;
pub mod laws;
pub mod interleave;
pub mod readback;
pub mod readback_codec;
pub mod readback_headers;
pub mod readback_meta;
