//! H.265/HEVC codec configuration extraction.
//!
//! H.265 uses the Annex B NAL unit structure of H.264, with the NAL type in
//! bits 1-6 of the first header byte and an extra Video Parameter Set.

pub mod nal_type;

use vstd::prelude::*;

use super::annexb::{copy_range, nal_ranges, nal_unit_ranges};
use super::h264::{annexb_to_avcc, nal_at, spec_annexb_to_avcc};

verus! {

/// HEVC (H.265) codec configuration: the VPS, SPS and PPS NAL units (without
/// start codes) needed to build the `hvcC` box.
#[derive(Debug, Clone, PartialEq, Eq)]
pub struct HevcConfig {
    /// Video Parameter Set NAL unit (without start code)
    pub vps: Vec<u8>,
    /// Sequence Parameter Set NAL unit (without start code)
    pub sps: Vec<u8>,
    /// Picture Parameter Set NAL unit (without start code)
    pub pps: Vec<u8>,
}

/// The NAL unit type of an H.265 NAL unit: bits 1-6 of its first byte, or 0
/// for an empty unit.
pub open spec fn spec_hevc_nal_type(nal: Seq<u8>) -> u8 {
    if nal.len() == 0 {
        0
    } else {
        (nal[0] >> 1u8) & 0x3fu8
    }
}

/// Whether an H.265 NAL type denotes an IDR picture.
pub open spec fn spec_is_hevc_keyframe_nal_type(t: u8) -> bool {
    t == nal_type::IDR_W_RADL || t == nal_type::IDR_N_LP
}

/// Whether some non-empty NAL unit of the Annex B stream is an IDR picture.
pub open spec fn spec_is_hevc_keyframe(data: Seq<u8>) -> bool {
    exists|k: int|
        0 <= k < nal_ranges(data, 0).len() && {
            let r = #[trigger] nal_ranges(data, 0)[k];
            let nal = data.subrange(r.0, r.1);
            nal.len() > 0 && spec_is_hevc_keyframe_nal_type(spec_hevc_nal_type(nal))
        }
}

/// Extracts the NAL unit type from an H.265 NAL header.
pub fn hevc_nal_type(nal: &[u8]) -> (r: u8)
    ensures
        r == spec_hevc_nal_type(nal@),
{
    if nal.len() == 0 {
        return 0;
    }
    (nal[0] >> 1u8) & 0x3fu8
}

/// Checks if the given NAL type represents a keyframe.
pub fn is_hevc_keyframe_nal_type(t: u8) -> (r: bool)
    ensures
        r == spec_is_hevc_keyframe_nal_type(t),
{
    t == nal_type::IDR_W_RADL || t == nal_type::IDR_N_LP
}

/// The first non-empty NAL unit of H.265 type `t` among the units numbered
/// `k` and up.
pub open spec fn find_hevc_nal(data: Seq<u8>, t: u8, k: int) -> Option<Seq<u8>>
    decreases nal_ranges(data, 0).len() - k,
{
    if k < 0 || k >= nal_ranges(data, 0).len() {
        None
    } else if nal_at(data, k).len() > 0 && spec_hevc_nal_type(nal_at(data, k)) == t {
        Some(nal_at(data, k))
    } else {
        find_hevc_nal(data, t, k + 1)
    }
}

/// The configuration an Annex B access unit carries: its first VPS, first
/// SPS and first PPS, if it has all three.
pub open spec fn spec_extract_hevc_config(data: Seq<u8>) -> Option<(Seq<u8>, Seq<u8>, Seq<u8>)> {
    match (
        find_hevc_nal(data, nal_type::VPS, 0),
        find_hevc_nal(data, nal_type::SPS, 0),
        find_hevc_nal(data, nal_type::PPS, 0),
    ) {
        (Some(vps), Some(sps), Some(pps)) => Some((vps, sps, pps)),
        _ => None,
    }
}

/// The bytes of the first NAL unit with H.265 type `t`.
fn first_hevc_nal(data: &[u8], ranges: &Vec<(usize, usize)>, t: u8) -> (r: Option<Vec<u8>>)
    requires
        ranges@.len() == nal_ranges(data@, 0).len(),
        forall|j: int|
            0 <= j < ranges@.len() ==> ranges@[j].0 == nal_ranges(data@, 0)[j].0 && ranges@[j].1
                == nal_ranges(data@, 0)[j].1,
        forall|j: int| 0 <= j < ranges@.len() ==> (#[trigger] ranges@[j]).0 <= ranges@[j].1 <= data@.len(),
    ensures
        match (r, find_hevc_nal(data@, t, 0)) {
            (Some(v), Some(n)) => v@ == n,
            (None, None) => true,
            _ => false,
        },
{
    let mut k: usize = 0;
    while k < ranges.len()
        invariant
            k <= ranges@.len(),
            ranges@.len() == nal_ranges(data@, 0).len(),
            forall|j: int|
                0 <= j < ranges@.len() ==> ranges@[j].0 == nal_ranges(data@, 0)[j].0 && ranges@[j].1
                    == nal_ranges(data@, 0)[j].1,
            forall|j: int| 0 <= j < ranges@.len() ==> (#[trigger] ranges@[j]).0 <= ranges@[j].1 <= data@.len(),
            find_hevc_nal(data@, t, 0) == find_hevc_nal(data@, t, k as int),
        decreases ranges@.len() - k,
    {
        let (b, e) = ranges[k];
        if b < e && ((data[b] >> 1u8) & 0x3fu8) == t {
            let v = copy_range(data, b, e);
            assert(nal_at(data@, k as int)[0] == data@[b as int]);
            return Some(v);
        }
        proof {
            if b < e {
                assert(nal_at(data@, k as int)[0] == data@[b as int]);
            }
        }
        k = k + 1;
    }
    None
}

/// Extracts the HEVC configuration (first VPS, SPS and PPS) from Annex B
/// data; `None` when one of the three is missing.
pub fn extract_hevc_config(data: &[u8]) -> (r: Option<HevcConfig>)
    ensures
        match (r, spec_extract_hevc_config(data@)) {
            (Some(c), Some((vps, sps, pps))) => c.vps@ == vps && c.sps@ == sps && c.pps@ == pps,
            (None, None) => true,
            _ => false,
        },
{
    let ranges = nal_unit_ranges(data);
    let vps = first_hevc_nal(data, &ranges, nal_type::VPS);
    let sps = first_hevc_nal(data, &ranges, nal_type::SPS);
    let pps = first_hevc_nal(data, &ranges, nal_type::PPS);
    match (vps, sps, pps) {
        (Some(vps), Some(sps), Some(pps)) => Some(HevcConfig { vps, sps, pps }),
        _ => None,
    }
}

/// Checks if the given Annex B data represents an HEVC keyframe.
pub fn is_hevc_keyframe(data: &[u8]) -> (r: bool)
    ensures
        r == spec_is_hevc_keyframe(data@),
{
    let ranges = nal_unit_ranges(data);
    let mut k: usize = 0;
    while k < ranges.len()
        invariant
            k <= ranges@.len(),
            ranges@.len() == nal_ranges(data@, 0).len(),
            forall|j: int|
                0 <= j < ranges@.len() ==> ranges@[j].0 == nal_ranges(data@, 0)[j].0 && ranges@[j].1
                    == nal_ranges(data@, 0)[j].1,
            forall|j: int| 0 <= j < ranges@.len() ==> (#[trigger] ranges@[j]).0 <= ranges@[j].1 <= data@.len(),
            forall|j: int|
                0 <= j < k ==> {
                    let r = #[trigger] nal_ranges(data@, 0)[j];
                    let nal = data@.subrange(r.0, r.1);
                    !(nal.len() > 0 && spec_is_hevc_keyframe_nal_type(spec_hevc_nal_type(nal)))
                },
        decreases ranges@.len() - k,
    {
        let (b, e) = ranges[k];
        if b < e {
            let t = (data[b] >> 1u8) & 0x3fu8;
            proof {
                let r = nal_ranges(data@, 0)[k as int];
                let nal = data@.subrange(r.0, r.1);
                assert(nal[0] == data@[b as int]);
                assert(spec_hevc_nal_type(nal) == t);
            }
            if is_hevc_keyframe_nal_type(t) {
                proof {
                    let r = nal_ranges(data@, 0)[k as int];
                    assert(data@.subrange(r.0, r.1).len() > 0);
                }
                return true;
            }
        } else {
            proof {
                let r = nal_ranges(data@, 0)[k as int];
                assert(data@.subrange(r.0, r.1).len() == 0);
            }
        }
        k = k + 1;
    }
    false
}

/// Converts an Annex B HEVC stream to the length-prefixed (HVCC) form: each
/// non-empty NAL unit preceded by its 32-bit big-endian length.
pub fn hevc_annexb_to_hvcc(data: &[u8]) -> (r: Vec<u8>)
    ensures
        r@ == spec_annexb_to_avcc(data@),
{
    annexb_to_avcc(data)
}

impl HevcConfig {
    /// `general_profile_space`: the top two bits of the first
    /// profile-tier-level byte (SPS byte 3), 0 when the SPS is shorter.
    pub fn general_profile_space(&self) -> (r: u8)
        ensures
            r == (if self.sps@.len() > 3 { self.sps@[3] >> 6u8 } else { 0u8 }),
            r < 4,
    {
        if self.sps.len() > 3 {
            let b = self.sps[3];
            assert(b >> 6u8 < 4) by (bit_vector);
            b >> 6u8
        } else {
            0
        }
    }

    /// `general_tier_flag`: bit 5 of SPS byte 3, false when the SPS is shorter.
    pub fn general_tier_flag(&self) -> (r: bool)
        ensures
            r == (self.sps@.len() > 3 && (self.sps@[3] & 0x20u8) != 0),
    {
        self.sps.len() > 3 && (self.sps[3] & 0x20u8) != 0
    }

    /// `general_profile_idc`: the low five bits of SPS byte 3, or 1 (Main)
    /// when the SPS is shorter.
    pub fn general_profile_idc(&self) -> (r: u8)
        ensures
            r == (if self.sps@.len() > 3 { self.sps@[3] & 0x1fu8 } else { 1u8 }),
    {
        if self.sps.len() > 3 {
            self.sps[3] & 0x1fu8
        } else {
            1
        }
    }

    /// `general_level_idc`: SPS byte 14, or 93 (level 3.1) when the SPS is
    /// shorter.
    pub fn general_level_idc(&self) -> (r: u8)
        ensures
            r == (if self.sps@.len() > 14 { self.sps@[14] } else { 93u8 }),
    {
        if self.sps.len() > 14 {
            self.sps[14]
        } else {
            93
        }
    }
}


proof fn lemma_find_hevc_nal(data: Seq<u8>, t: u8, k: int)
    ensures
        find_hevc_nal(data, t, k) matches Some(n) ==> n.len() > 0 && spec_hevc_nal_type(n) == t && exists|
            j: int,
        | k <= j < nal_ranges(data, 0).len() && n == #[trigger] nal_at(data, j),
    decreases nal_ranges(data, 0).len() - k,
{
    if !(k < 0 || k >= nal_ranges(data, 0).len()) && !(nal_at(data, k).len() > 0 && spec_hevc_nal_type(
        nal_at(data, k),
    ) == t) {
        lemma_find_hevc_nal(data, t, k + 1);
    }
}

/// The configuration taken from an access unit is made of its own NAL
/// units: a VPS (type 32), an SPS (type 33) and a PPS (type 34), each one
/// of the stream's units.
pub proof fn lemma_hevc_config_units(data: Seq<u8>)
    ensures
        spec_extract_hevc_config(data) matches Some((vps, sps, pps)) ==> {
            &&& vps.len() > 0 && spec_hevc_nal_type(vps) == 32
            &&& sps.len() > 0 && spec_hevc_nal_type(sps) == 33
            &&& pps.len() > 0 && spec_hevc_nal_type(pps) == 34
            &&& exists|j: int| 0 <= j < nal_ranges(data, 0).len() && vps == #[trigger] nal_at(data, j)
            &&& exists|j: int| 0 <= j < nal_ranges(data, 0).len() && sps == #[trigger] nal_at(data, j)
            &&& exists|j: int| 0 <= j < nal_ranges(data, 0).len() && pps == #[trigger] nal_at(data, j)
        },
{
    lemma_find_hevc_nal(data, nal_type::VPS, 0);
    lemma_find_hevc_nal(data, nal_type::SPS, 0);
    lemma_find_hevc_nal(data, nal_type::PPS, 0);
}

} // verus!
