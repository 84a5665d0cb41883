//! Muxide: a strict MP4 (ISO-BMFF) muxer core.
//!
//! The library turns already-encoded audio/video samples into the byte image
//! of an MP4 file: sample tables, codec configuration boxes, the `moov`
//! header and the `mdat` payload, in either the standard layout
//! (`ftyp`, `mdat`, `moov`) or the fast-start layout (`ftyp`, `moov`, `mdat`).
//! Every function here is verified; the I/O around it lives in the
//! application crate.

pub mod wire;
pub mod api;
pub mod codec;
pub mod muxer;
pub mod hex;
pub mod inspect;
pub mod cli;
