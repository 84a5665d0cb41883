//! VP9 frame-header parsing for MP4 muxing.
//!
//! VP9 packs its uncompressed frame header at the bit level, most significant
//! bit first; the mandatory `frame_marker` occupies the two top bits of the
//! first byte and equals 2.

use vstd::prelude::*;

use super::bits::{bit_at, bits_available, bits_value, lemma_bits_value_bound, BitReader};

verus! {

/// VP9 codec configuration extracted from the first keyframe.
#[derive(Clone, Debug, PartialEq)]
pub struct Vp9Config {
    /// Video width in pixels.
    pub width: u32,
    /// Video height in pixels.
    pub height: u32,
    /// VP9 profile (0-3).
    pub profile: u8,
    /// Bit depth: 8 for profiles 0 and 1; 10, or 12 for a twelve-bit
    /// frame, for profiles 2 and 3.
    pub bit_depth: u8,
    /// Color space information.
    pub color_space: u8,
    /// Transfer characteristics.
    pub transfer_function: u8,
    /// Matrix coefficients.
    pub matrix_coefficients: u8,
    /// VP9 level.
    pub level: u8,
    /// Video full range flag (0 = limited range, 1 = full range).
    pub full_range_flag: u8,
}

/// Errors that can occur during VP9 parsing.
#[derive(Debug, Clone, PartialEq)]
pub enum Vp9Error {
    /// Frame data is too short to contain a valid VP9 frame header.
    FrameTooShort,
    /// Invalid frame marker (top 2 bits of first byte must be `10`, value 2).
    InvalidFrameMarker,
    /// Unsupported VP9 profile.
    UnsupportedProfile(u8),
    /// Invalid bit depth.
    InvalidBitDepth(u8),
    /// Frame parsing error with details.
    ParseError(String),
}

/// The profile encoded by the two bits after the frame marker (low bit
/// first).
pub open spec fn spec_profile(s: Seq<u8>) -> u8 {
    (bit_at(s, 3) * 2 + bit_at(s, 2)) as u8
}

/// What `is_vp9_keyframe` decides of a frame.
pub open spec fn spec_is_vp9_keyframe(s: Seq<u8>) -> Result<bool, Vp9Error> {
    if s.len() == 0 {
        Err(Vp9Error::FrameTooShort)
    } else if bits_value(s, 0, 2) != 2 {
        Err(Vp9Error::InvalidFrameMarker)
    } else {
        let p: int = if spec_profile(s) == 3 { 5 } else { 4 };
        if bit_at(s, p) != 0 {
            Ok(false)
        } else {
            Ok(bit_at(s, p + 1) == 0)
        }
    }
}

/// The configuration that the uncompressed header of a VP9 keyframe
/// describes, read field by field as the VP9 bitstream defines it; `None`
/// when the frame is shorter than four bytes, is not a keyframe, shows an
/// existing frame, lacks the sync code, or ends before the frame size.
/// Profiles 0 and 1 are 8-bit; profiles 2 and 3 are 10-bit, or 12-bit when
/// their `ten_or_twelve_bit` flag is set.
pub open spec fn spec_extract_vp9_config(s: Seq<u8>) -> Option<Vp9Config> {
    if s.len() < 4 || bits_value(s, 0, 2) != 2 {
        None
    } else {
        let profile = spec_profile(s);
        let p0: int = if profile == 3 { 5 } else { 4 };
        if bit_at(s, p0) != 0 || bit_at(s, p0 + 1) != 0 {
            None
        } else {
            let ps = p0 + 4;
            if !bits_available(s, ps, 24) || bits_value(s, ps, 8) != 0x49 || bits_value(s, ps + 8, 8)
                != 0x83 || bits_value(s, ps + 16, 8) != 0x42 {
                None
            } else {
                let pd = ps + 24;
                if profile >= 2 && !bits_available(s, pd, 1) {
                    None
                } else {
                    let bit_depth: u8 = if profile < 2 {
                        8
                    } else if bit_at(s, pd) != 0 {
                        12
                    } else {
                        10
                    };
                    let pc: int = if profile >= 2 { pd + 1 } else { pd };
                    if !bits_available(s, pc, 3) {
                        None
                    } else {
                        let color_space = bits_value(s, pc, 3) as u8;
                        let pr = pc + 3;
                        let extra: int = if profile == 1 || profile == 3 { 3 } else { 0 };
                        if color_space != 7 && !bits_available(s, pr, (1 + extra) as nat) {
                            None
                        } else {
                            let full_range: u8 = if color_space != 7 { bit_at(s, pr) } else { 1 };
                            let pw: int = if color_space != 7 { pr + 1 + extra } else { pr };
                            if !bits_available(s, pw, 32) {
                                None
                            } else {
                                Some(Vp9Config {
                                    width: (bits_value(s, pw, 16) + 1) as u32,
                                    height: (bits_value(s, pw + 16, 16) + 1) as u32,
                                    profile,
                                    bit_depth,
                                    color_space,
                                    transfer_function: 0,
                                    matrix_coefficients: 0,
                                    level: 0,
                                    full_range_flag: full_range,
                                })
                            }
                        }
                    }
                }
            }
        }
    }
}

/// Checks if a VP9 frame is a keyframe (intra frame): `frame_type == 0`
/// and `show_existing_frame == 0` in the uncompressed header.
pub fn is_vp9_keyframe(frame: &[u8]) -> (r: Result<bool, Vp9Error>)
    ensures
        r == spec_is_vp9_keyframe(frame@),
{
    if frame.len() == 0 {
        return Err(Vp9Error::FrameTooShort);
    }
    let mut r = BitReader::new(frame);
    let frame_marker = match r.read_bits(2) {
        Some(v) => v,
        None => {
            return Err(Vp9Error::FrameTooShort);
        },
    };
    if frame_marker != 2 {
        return Err(Vp9Error::InvalidFrameMarker);
    }
    let profile_low = match r.read_bit() {
        Some(v) => v,
        None => {
            return Err(Vp9Error::FrameTooShort);
        },
    };
    let profile_high = match r.read_bit() {
        Some(v) => v,
        None => {
            return Err(Vp9Error::FrameTooShort);
        },
    };
    let profile: u8 = profile_high * 2 + profile_low;
    if profile == 3 {
        match r.read_bit() {
            Some(_) => {},
            None => {
                return Err(Vp9Error::FrameTooShort);
            },
        }
    }
    let show_existing = match r.read_bit() {
        Some(v) => v,
        None => {
            return Err(Vp9Error::FrameTooShort);
        },
    };
    if show_existing != 0 {
        return Ok(false);
    }
    let frame_type = match r.read_bit() {
        Some(v) => v,
        None => {
            return Err(Vp9Error::FrameTooShort);
        },
    };
    Ok(frame_type == 0)
}

/// Extracts the VP9 configuration from the uncompressed header of a
/// keyframe: profile, bit depth, color space, color range and frame size.
pub fn extract_vp9_config(keyframe: &[u8]) -> (r: Option<Vp9Config>)
    ensures
        r == spec_extract_vp9_config(keyframe@),
{
    if keyframe.len() < 4 {
        return None;
    }
    let ghost s = keyframe@;
    let mut r = BitReader::new(keyframe);
    let frame_marker = r.read_bits(2)?;
    if frame_marker != 2 {
        return None;
    }
    let profile_low = r.read_bit()?;
    let profile_high = r.read_bit()?;
    let profile: u8 = profile_high * 2 + profile_low;
    if profile == 3 {
        r.read_bit()?;
    }
    let show_existing = r.read_bit()?;
    if show_existing != 0 {
        return None;
    }
    let frame_type = r.read_bit()?;
    if frame_type != 0 {
        return None;
    }
    r.read_bit()?;
    r.read_bit()?;
    let ghost ps = r.pos();
    let sync0 = r.read_bits(8)?;
    let sync1 = r.read_bits(8)?;
    let sync2 = r.read_bits(8)?;
    if sync0 != 0x49 || sync1 != 0x83 || sync2 != 0x42 {
        return None;
    }
    let bit_depth: u8 = if profile >= 2 {
        let ten_or_twelve = r.read_bit()?;
        if ten_or_twelve != 0 {
            12
        } else {
            10
        }
    } else {
        8
    };
    let cs = r.read_bits(3)?;
    proof {
        lemma_bits_value_bound(s, r.pos() - 3, 3);
        vstd::arithmetic::power2::lemma2_to64();
    }
    let color_space = cs as u8;
    let full_range_flag: u8 = if color_space != 7 {
        let cr = r.read_bit()?;
        if profile == 1 || profile == 3 {
            r.read_bit()?;
            r.read_bit()?;
            r.read_bit()?;
        }
        cr
    } else {
        1
    };
    let width_minus_1 = r.read_bits(16)?;
    let height_minus_1 = r.read_bits(16)?;
    proof {
        lemma_bits_value_bound(s, r.pos() - 32, 16);
        lemma_bits_value_bound(s, r.pos() - 16, 16);
        vstd::arithmetic::power2::lemma2_to64();
    }
    Some(
        Vp9Config {
            width: width_minus_1 + 1,
            height: height_minus_1 + 1,
            profile,
            bit_depth,
            color_space,
            transfer_function: 0,
            matrix_coefficients: 0,
            level: 0,
            full_range_flag,
        },
    )
}

/// Validates that a buffer starts with the VP9 frame marker: the top two
/// bits of the first byte equal `10`.
pub fn is_valid_vp9_frame(frame: &[u8]) -> (r: bool)
    ensures
        r == (frame@.len() > 0 && (frame@[0] >> 6u8) == 2),
{
    if frame.len() == 0 {
        return false;
    }
    (frame[0] >> 6u8) == 2
}

} // verus!
