//! What a reader of the sample descriptions gets back: the sample entries
//! and the codec configuration boxes they carry.

use vstd::prelude::*;

use super::entries::{
    audio_entry_fields, av1c_flags_byte, av1c_profile_byte, descriptor, hvcc_profile_byte,
    spec_audio_specific_config, spec_av1c, spec_avcc, spec_dops, spec_esds, spec_hvcc, spec_mp4a,
    spec_video_entry, spec_video_stsd, visual_entry_fields, VideoConfigView,
};
use super::fourcc::{AV01, AV1C, AVC1, AVCC, DOPS, ESDS, HVC1, HVCC, MP4A, STSD};
use super::readback::{box_type, u16_at, u32_at};
use crate::codec::av1::Av1Config;
use crate::codec::opus::OPUS_SAMPLE_RATE;
use crate::wire::{be16, be32, box_payload, lemma_be16_roundtrip, lemma_be32_roundtrip, lemma_box_parts, spec_box};

verus! {

/// A reader of `av1C` finds the marker and version byte, then the
/// configuration's profile and level, its tier, bit depth, monochrome and
/// chroma fields each in its own bit, no initial presentation delay, and
/// the sequence header OBU.
#[verifier::rlimit(30)]
pub proof fn lemma_av1c_reads_back(c: Av1Config)
    ensures
        ({
            let b = spec_av1c(c);
            let p = box_payload(b);
            &&& box_type(b) == AV1C
            &&& p.len() == 4 + c.sequence_header@.len()
            &&& p[0] == 0x81
            &&& c.seq_profile < 8 ==> p[1] >> 5u8 == c.seq_profile
            &&& c.seq_level_idx < 32 ==> p[1] & 0x1fu8 == c.seq_level_idx
            &&& c.seq_tier < 2 ==> p[2] >> 7u8 == c.seq_tier
            &&& ((p[2] & 0x40u8) != 0) == c.high_bitdepth
            &&& ((p[2] & 0x20u8) != 0) == c.twelve_bit
            &&& ((p[2] & 0x10u8) != 0) == c.monochrome
            &&& ((p[2] & 0x08u8) != 0) == c.chroma_subsampling_x
            &&& ((p[2] & 0x04u8) != 0) == c.chroma_subsampling_y
            &&& c.chroma_sample_position < 4 ==> p[2] & 0x03u8 == c.chroma_sample_position
            &&& p[3] == 0
            &&& p.subrange(4, p.len() as int) == c.sequence_header@
        }),
{
    let pb = av1c_profile_byte(c);
    let fb = av1c_flags_byte(c);
    let p = seq![0x81u8, pb, fb, 0x00u8] + c.sequence_header@;
    lemma_box_parts(AV1C, p);
    assert(p.subrange(4, p.len() as int) =~= c.sequence_header@);
    let (pr, lv, ti, csp) = (c.seq_profile, c.seq_level_idx, c.seq_tier, c.chroma_sample_position);
    assert(((((pr & 0x07u8) << 5u8) | (lv & 0x1fu8)) >> 5u8 == pr) || pr >= 8) by (bit_vector);
    assert(lv < 32 ==> (((pr & 0x07u8) << 5u8) | (lv & 0x1fu8)) & 0x1fu8 == lv) by (bit_vector);
    let h: u8 = if c.high_bitdepth { 0x40u8 } else { 0u8 };
    let t: u8 = if c.twelve_bit { 0x20u8 } else { 0u8 };
    let m: u8 = if c.monochrome { 0x10u8 } else { 0u8 };
    let x: u8 = if c.chroma_subsampling_x { 0x08u8 } else { 0u8 };
    let y: u8 = if c.chroma_subsampling_y { 0x04u8 } else { 0u8 };
    assert(fb == ((ti & 0x01u8) << 7u8) | h | t | m | x | y | (csp & 0x03u8));
    assert({
        let f = ((ti & 0x01u8) << 7u8) | h | t | m | x | y | (csp & 0x03u8);
        &&& (h == 0x40u8 || h == 0u8) && (t == 0x20u8 || t == 0u8) && (m == 0x10u8 || m == 0u8)
            && (x == 0x08u8 || x == 0u8) && (y == 0x04u8 || y == 0u8) ==> {
            &&& (ti < 2 ==> f >> 7u8 == ti)
            &&& ((f & 0x40u8) != 0) == (h == 0x40u8)
            &&& ((f & 0x20u8) != 0) == (t == 0x20u8)
            &&& ((f & 0x10u8) != 0) == (m == 0x10u8)
            &&& ((f & 0x08u8) != 0) == (x == 0x08u8)
            &&& ((f & 0x04u8) != 0) == (y == 0x04u8)
            &&& (csp < 4 ==> f & 0x03u8 == csp)
        }
    }) by (bit_vector);
}

/// One `hvcC` array: complete, of NAL type `t`, holding the one unit.
#[verifier::opaque]
pub open spec fn hvcc_array(t: u8, unit: Seq<u8>) -> Seq<u8> {
    seq![0x20u8 | t] + be16(1) + be16(unit.len() as u16) + unit
}

/// The fixed part of `hvcC`, up to the number of arrays.
#[verifier::opaque]
pub open spec fn hvcc_head(sps: Seq<u8>) -> Seq<u8> {
    let level: u8 = if sps.len() > 14 { sps[14] } else { 93u8 };
    seq![1u8, hvcc_profile_byte(sps)] + seq![0x60u8, 0u8, 0u8, 0u8] + seq![0x90u8, 0u8, 0u8, 0u8, 0u8, 0u8]
        + seq![level] + seq![0xf0u8, 0u8] + seq![0xfcu8, 0xfdu8, 0xf8u8, 0xf8u8] + be16(0) + seq![
        0x03u8,
        3u8,
    ]
}

proof fn lemma_hvcc_parts(vps: Seq<u8>, sps: Seq<u8>, pps: Seq<u8>)
    ensures
        spec_hvcc(vps, sps, pps) == spec_box(
            HVCC,
            hvcc_head(sps) + hvcc_array(32, vps) + hvcc_array(33, sps) + hvcc_array(34, pps),
        ),
{
    reveal(hvcc_head);
    reveal(hvcc_array);
    let level: u8 = if sps.len() > 14 { sps[14] } else { 93u8 };
    assert(hvcc_head(sps) + hvcc_array(32, vps) + hvcc_array(33, sps) + hvcc_array(34, pps) =~= seq![
        1u8,
        hvcc_profile_byte(sps),
    ] + seq![0x60u8, 0u8, 0u8, 0u8] + seq![0x90u8, 0u8, 0u8, 0u8, 0u8, 0u8] + seq![level] + seq![
        0xf0u8,
        0u8,
    ] + seq![0xfcu8, 0xfdu8, 0xf8u8, 0xf8u8] + be16(0) + seq![0x03u8, 3u8] + seq![0x20u8 | 32u8] + be16(
        1,
    ) + be16(vps.len() as u16) + vps + seq![0x20u8 | 33u8] + be16(1) + be16(sps.len() as u16) + sps
        + seq![0x20u8 | 34u8] + be16(1) + be16(pps.len() as u16) + pps);
}

proof fn lemma_hvcc_head(sps: Seq<u8>)
    ensures
        ({
            let h = hvcc_head(sps);
            &&& h.len() == 23
            &&& h[0] == 1
            &&& sps.len() > 3 ==> h[1] == sps[3]
            &&& sps.len() > 14 ==> h[12] == sps[14]
            &&& (h[21] & 0x03u8) + 1 == 4
            &&& h[22] == 3
        }),
{
    reveal(hvcc_head);
    if sps.len() > 3 {
        let x = sps[3];
        assert(((x >> 6u8) << 6u8) | (if (x & 0x20u8) != 0 { 0x20u8 } else { 0u8 }) | ((x & 0x1fu8)
            & 0x1fu8) == x) by (bit_vector);
    }
    assert((0x03u8 & 0x03u8) + 1 == 4) by (bit_vector);
}

proof fn lemma_hvcc_array(t: u8, unit: Seq<u8>, p: Seq<u8>, k: int)
    requires
        32 <= t < 64,
        unit.len() <= 0xffff,
        0 <= k,
        k + 5 + unit.len() <= p.len(),
        p.subrange(k, k + 5 + unit.len()) == hvcc_array(t, unit),
    ensures
        p[k] & 0x3fu8 == t,
        u16_at(p, k + 1) == 1,
        u16_at(p, k + 3) == unit.len(),
        p.subrange(k + 5, k + 5 + unit.len()) == unit,
{
    reveal(hvcc_array);
    let a = hvcc_array(t, unit);
    assert(p[k] == a[0]);
    assert(p.subrange(k + 1, k + 3) =~= a.subrange(1, 3));
    assert(a.subrange(1, 3) =~= be16(1));
    assert(p.subrange(k + 3, k + 5) =~= a.subrange(3, 5));
    assert(a.subrange(3, 5) =~= be16(unit.len() as u16));
    assert(p.subrange(k + 5, k + 5 + unit.len()) =~= a.subrange(5, a.len() as int));
    assert(a.subrange(5, a.len() as int) =~= unit);
    lemma_be16_roundtrip(1);
    lemma_be16_roundtrip(unit.len() as u16);
    assert(32 <= t < 64 ==> (0x20u8 | t) & 0x3fu8 == t) by (bit_vector);
}

proof fn lemma_hvcc_array_len(t: u8, unit: Seq<u8>)
    ensures
        hvcc_array(t, unit).len() == 5 + unit.len(),
{
    reveal(hvcc_array);
}

/// A reader of `hvcC` finds version 1; the profile space, tier and profile
/// of SPS byte 3 and the level of SPS byte 14 (the start of the SPS's
/// profile, tier and level); NAL lengths of four bytes, as the stored
/// samples carry them; and three arrays of one NAL unit each, the VPS, the
/// SPS and the PPS, each with its type and length.
#[verifier::rlimit(30)]
pub proof fn lemma_hvcc_reads_back(vps: Seq<u8>, sps: Seq<u8>, pps: Seq<u8>)
    requires
        vps.len() <= 0xffff,
        sps.len() <= 0xffff,
        pps.len() <= 0xffff,
    ensures
        ({
            let b = spec_hvcc(vps, sps, pps);
            let p = box_payload(b);
            let o1: int = 28 + vps.len() as int;
            let o2: int = o1 + 5 + sps.len();
            &&& box_type(b) == HVCC
            &&& p.len() == o2 + 5 + pps.len()
            &&& p[0] == 1
            &&& sps.len() > 3 ==> p[1] == sps[3]
            &&& sps.len() > 14 ==> p[12] == sps[14]
            &&& (p[21] & 0x03u8) + 1 == 4
            &&& p[22] == 3
            &&& p[23] & 0x3fu8 == 32 && u16_at(p, 24) == 1 && u16_at(p, 26) == vps.len()
            &&& p.subrange(28, o1) == vps
            &&& p[o1] & 0x3fu8 == 33 && u16_at(p, o1 + 1) == 1 && u16_at(p, o1 + 3) == sps.len()
            &&& p.subrange(o1 + 5, o2) == sps
            &&& p[o2] & 0x3fu8 == 34 && u16_at(p, o2 + 1) == 1 && u16_at(p, o2 + 3) == pps.len()
            &&& p.subrange(o2 + 5, p.len() as int) == pps
        }),
{
    let h = hvcc_head(sps);
    let a1 = hvcc_array(32, vps);
    let a2 = hvcc_array(33, sps);
    let a3 = hvcc_array(34, pps);
    let p = h + a1 + a2 + a3;
    lemma_hvcc_parts(vps, sps, pps);
    lemma_box_parts(HVCC, p);
    lemma_hvcc_head(sps);
    lemma_hvcc_array_len(32, vps);
    lemma_hvcc_array_len(33, sps);
    lemma_hvcc_array_len(34, pps);
    let o1: int = 28 + vps.len() as int;
    let o2: int = o1 + 5 + sps.len();
    assert(p.subrange(0, 23) =~= h);
    assert(p[0] == h[0] && p[1] == h[1] && p[12] == h[12] && p[21] == h[21] && p[22] == h[22]);
    assert(p.subrange(23, o1) =~= a1);
    assert(p.subrange(o1, o2) =~= a2);
    assert(p.subrange(o2, p.len() as int) =~= a3);
    lemma_hvcc_array(32, vps, p, 23);
    lemma_hvcc_array(33, sps, p, o1);
    lemma_hvcc_array(34, pps, p, o2);
}

/// A reader of `avcC` finds version 1; the profile, compatibility flags
/// and level of SPS bytes 1 to 3; NAL lengths of four bytes, as the stored
/// samples carry them; one SPS and one PPS, each with its length.
pub proof fn lemma_avcc_reads_back(sps: Seq<u8>, pps: Seq<u8>)
    requires
        sps.len() <= 0xffff,
        pps.len() <= 0xffff,
    ensures
        ({
            let b = spec_avcc(sps, pps);
            let p = box_payload(b);
            let o: int = 8 + sps.len() as int;
            &&& box_type(b) == AVCC
            &&& p.len() == o + 3 + pps.len()
            &&& p[0] == 1
            &&& sps.len() >= 4 ==> p[1] == sps[1] && p[2] == sps[2] && p[3] == sps[3]
            &&& (p[4] & 0x03u8) + 1 == 4
            &&& p[5] & 0x1fu8 == 1
            &&& u16_at(p, 6) == sps.len()
            &&& p.subrange(8, o) == sps
            &&& p[o] == 1
            &&& u16_at(p, o + 1) == pps.len()
            &&& p.subrange(o + 3, p.len() as int) == pps
        }),
{
    let (pi, pc, li) = if sps.len() >= 4 {
        (sps[1], sps[2], sps[3])
    } else {
        (0x42u8, 0x00u8, 0x1eu8)
    };
    let head = seq![1u8, pi, pc, li, 0xffu8, 0xe1u8];
    let p = head + be16(sps.len() as u16) + sps + seq![1u8] + be16(pps.len() as u16) + pps;
    lemma_box_parts(AVCC, p);
    let o: int = 8 + sps.len() as int;
    assert(p.subrange(0, 6) =~= head);
    assert(p[0] == head[0] && p[1] == head[1] && p[2] == head[2] && p[3] == head[3] && p[4] == head[4]
        && p[5] == head[5]);
    assert(p.subrange(6, 8) =~= be16(sps.len() as u16));
    assert(p.subrange(8, o) =~= sps);
    assert(p.subrange(o + 1, o + 3) =~= be16(pps.len() as u16));
    assert(p.subrange(o + 3, p.len() as int) =~= pps);
    lemma_be16_roundtrip(sps.len() as u16);
    lemma_be16_roundtrip(pps.len() as u16);
    assert((0xffu8 & 0x03u8) + 1 == 4 && 0xe1u8 & 0x1fu8 == 1) by (bit_vector);
}

/// The sample rate that an MPEG-4 sampling frequency index stands for
/// (ISO/IEC 14496-3); `None` for the indices it leaves unassigned.
pub open spec fn aac_sampling_rate(index: u8) -> Option<u32> {
    match index {
        0 => Some(96000),
        1 => Some(88200),
        2 => Some(64000),
        3 => Some(48000),
        4 => Some(44100),
        5 => Some(32000),
        6 => Some(24000),
        7 => Some(22050),
        8 => Some(16000),
        9 => Some(12000),
        10 => Some(11025),
        11 => Some(8000),
        12 => Some(7350),
        _ => None,
    }
}

/// A reader of the AudioSpecificConfig finds object type 2 (AAC LC); a
/// sampling frequency index that stands for the track's sample rate, or,
/// for a rate without an index, the index of 44.1 kHz; the channel count
/// (15 for more) as channel configuration; and no further flags.
pub proof fn lemma_audio_specific_config_reads_back(sample_rate: u32, channels: u16)
    ensures
        ({
            let a = spec_audio_specific_config(sample_rate, channels);
            let index = ((a[0] & 0x07u8) << 1u8) | (a[1] >> 7u8);
            &&& a.len() == 2
            &&& a[0] >> 3u8 == 2
            &&& aac_sampling_rate(index) == Some(sample_rate) || (index == 4 && forall|i: u8|
                aac_sampling_rate(i) != Some(sample_rate))
            &&& ((a[1] >> 3u8) & 0x0fu8) as int == if channels < 15 {
                channels as int
            } else {
                15
            }
            &&& a[1] & 0x07u8 == 0
        }),
{
    let sfi = super::entries::sampling_frequency_index(sample_rate);
    let chan = ((if channels < 15 { channels } else { 15u16 }) as u8) & 0x0fu8;
    assert(sfi <= 12);
    let c16: u16 = if channels < 15 { channels } else { 15u16 };
    assert((c16 as u8) as int == c16 as int);
    let c8 = c16 as u8;
    assert(c8 < 16 ==> c8 & 0x0fu8 == c8) by (bit_vector);
    assert(chan as int == if channels < 15 { channels as int } else { 15 });
    assert(sfi < 16 && chan < 16 ==> {
        let a0 = (2u8 << 3u8) | (sfi >> 1u8);
        let a1 = ((sfi & 1u8) << 7u8) | (chan << 3u8);
        &&& ((a0 & 0x07u8) << 1u8) | (a1 >> 7u8) == sfi
        &&& a0 >> 3u8 == 2
        &&& (a1 >> 3u8) & 0x0fu8 == chan
        &&& a1 & 0x07u8 == 0
    }) by (bit_vector);
}

/// A reader of a visual sample entry's fields finds data reference 1, the
/// track's width and height (when they fit 16 bits), 72 dpi both ways, one
/// frame per sample, depth 24 and pre-defined -1: 78 bytes.
pub proof fn lemma_visual_entry_reads_back(width: u32, height: u32)
    ensures
        ({
            let p = visual_entry_fields(width, height);
            &&& p.len() == 78
            &&& u16_at(p, 6) == 1
            &&& width <= 0xffff ==> u16_at(p, 24) == width
            &&& height <= 0xffff ==> u16_at(p, 26) == height
            &&& u32_at(p, 28) == 0x0048_0000
            &&& u32_at(p, 32) == 0x0048_0000
            &&& u16_at(p, 40) == 1
            &&& u16_at(p, 74) == 0x18
            &&& u16_at(p, 76) == 0xffff
        }),
{
    let p = visual_entry_fields(width, height);
    assert(p.subrange(6, 8) =~= be16(1));
    assert(p.subrange(24, 26) =~= be16(width as u16));
    assert(p.subrange(26, 28) =~= be16(height as u16));
    assert(p.subrange(28, 32) =~= be32(0x0048_0000));
    assert(p.subrange(32, 36) =~= be32(0x0048_0000));
    assert(p.subrange(40, 42) =~= be16(1));
    assert(p.subrange(74, 76) =~= be16(0x18));
    assert(p.subrange(76, 78) =~= be16(0xffff));
    lemma_be16_roundtrip(1);
    lemma_be16_roundtrip(width as u16);
    lemma_be16_roundtrip(height as u16);
    lemma_be16_roundtrip(0x18);
    lemma_be16_roundtrip(0xffff);
    lemma_be32_roundtrip(0x0048_0000);
}

/// A reader of the video `stsd` finds one sample entry, of the type of the
/// track's codec (`avc1`, `hvc1`, `av01`), holding the visual fields and
/// then the codec's configuration box.
#[verifier::rlimit(30)]
pub proof fn lemma_video_stsd_reads_back(width: u32, height: u32, config: VideoConfigView)
    ensures
        ({
            let b = spec_video_stsd(width, height, config);
            let p = box_payload(b);
            let e = p.subrange(8, p.len() as int);
            let ep = box_payload(e);
            &&& box_type(b) == STSD
            &&& u32_at(p, 0) == 0
            &&& u32_at(p, 4) == 1
            &&& e == spec_video_entry(width, height, config)
            &&& ep.subrange(0, 78) == visual_entry_fields(width, height)
            &&& match config {
                VideoConfigView::Avc { sps, pps } => box_type(e) == AVC1 && ep.subrange(78, ep.len() as int)
                    == spec_avcc(sps, pps),
                VideoConfigView::Hevc(c) => box_type(e) == HVC1 && ep.subrange(78, ep.len() as int)
                    == spec_hvcc(c.vps@, c.sps@, c.pps@),
                VideoConfigView::Av1(c) => box_type(e) == AV01 && ep.subrange(78, ep.len() as int)
                    == spec_av1c(c),
            }
        }),
{
    let entry = spec_video_entry(width, height, config);
    let p = be32(0) + be32(1) + entry;
    lemma_box_parts(STSD, p);
    assert(p.subrange(0, 4) =~= be32(0));
    assert(p.subrange(4, 8) =~= be32(1));
    assert(p.subrange(8, p.len() as int) =~= entry);
    lemma_be32_roundtrip(0);
    lemma_be32_roundtrip(1);
    let f = visual_entry_fields(width, height);
    lemma_visual_entry_reads_back(width, height);
    let cfg = match config {
        VideoConfigView::Avc { sps, pps } => spec_avcc(sps, pps),
        VideoConfigView::Hevc(c) => spec_hvcc(c.vps@, c.sps@, c.pps@),
        VideoConfigView::Av1(c) => spec_av1c(c),
    };
    let t = match config {
        VideoConfigView::Avc { .. } => AVC1,
        VideoConfigView::Hevc(_) => HVC1,
        VideoConfigView::Av1(_) => AV01,
    };
    assert(entry == spec_box(t, f + cfg));
    lemma_box_parts(t, f + cfg);
    assert((f + cfg).subrange(0, 78) =~= f);
    assert((f + cfg).subrange(78, (f + cfg).len() as int) =~= cfg);
}

/// A reader of an audio sample entry's fields finds data reference 1, the
/// channel count, 16-bit samples and the sample rate in 16.16 fixed point
/// (when it fits 16 bits).
pub proof fn lemma_audio_entry_reads_back(channels: u16, rate: u32)
    ensures
        ({
            let p = audio_entry_fields(channels, rate);
            &&& p.len() == 28
            &&& u16_at(p, 6) == 1
            &&& u16_at(p, 16) == channels
            &&& u16_at(p, 18) == 16
            &&& rate <= 0xffff ==> u32_at(p, 24) == rate * 0x1_0000
        }),
{
    let p = audio_entry_fields(channels, rate);
    assert(p.subrange(6, 8) =~= be16(1));
    assert(p.subrange(16, 18) =~= be16(channels));
    assert(p.subrange(18, 20) =~= be16(16));
    assert(p.subrange(24, 28) =~= be32(rate << 16u32));
    lemma_be16_roundtrip(1);
    lemma_be16_roundtrip(channels);
    lemma_be16_roundtrip(16);
    lemma_be32_roundtrip(rate << 16u32);
    assert(rate <= 0xffff ==> rate << 16u32 == rate * 0x1_0000) by (bit_vector);
}

/// A reader of `esds` finds an ES descriptor whose decoder configuration
/// names MPEG-4 audio (object type 0x40) in an audio stream, and whose
/// decoder-specific information is the AudioSpecificConfig of the track.
#[verifier::rlimit(30)]
pub proof fn lemma_esds_reads_back(sample_rate: u32, channels: u16)
    ensures
        ({
            let b = spec_esds(sample_rate, channels);
            let p = box_payload(b);
            &&& box_type(b) == ESDS
            &&& p.len() == 31
            &&& u32_at(p, 0) == 0
            &&& p[4] == 3 && p[5] == 25 && u16_at(p, 6) == 1
            &&& p[9] == 4 && p[10] == 17
            &&& p[11] == 0x40
            &&& p[12] >> 2u8 == 5
            &&& p[24] == 5 && p[25] == 2
            &&& p.subrange(26, 28) == spec_audio_specific_config(sample_rate, channels)
            &&& p[28] == 6 && p[29] == 1 && p[30] == 2
        }),
{
    let asc = spec_audio_specific_config(sample_rate, channels);
    let dec_specific = descriptor(0x05, asc);
    let dec_config = descriptor(
        0x04,
        seq![0x40u8, 0x15u8, 0x00u8, 0x00u8, 0x00u8] + be32(0) + be32(0) + dec_specific,
    );
    let es = descriptor(0x03, be16(1) + seq![0u8] + dec_config + seq![0x06u8, 0x01u8, 0x02u8]);
    let p = be32(0) + es;
    lemma_box_parts(ESDS, p);
    assert(p.subrange(0, 4) =~= be32(0));
    assert(p.subrange(6, 8) =~= be16(1));
    assert(p.subrange(26, 28) =~= asc);
    lemma_be32_roundtrip(0);
    lemma_be16_roundtrip(1);
    assert(0x15u8 >> 2u8 == 5) by (bit_vector);
}

/// A reader of `mp4a` finds the audio fields of the track and then its
/// `esds`.
pub proof fn lemma_mp4a_reads_back(sample_rate: u32, channels: u16)
    ensures
        ({
            let b = spec_mp4a(sample_rate, channels);
            let p = box_payload(b);
            &&& box_type(b) == MP4A
            &&& p.subrange(0, 28) == audio_entry_fields(channels, sample_rate)
            &&& p.subrange(28, p.len() as int) == spec_esds(sample_rate, channels)
        }),
{
    let f = audio_entry_fields(channels, sample_rate);
    let p = f + spec_esds(sample_rate, channels);
    lemma_box_parts(MP4A, p);
    lemma_audio_entry_reads_back(channels, sample_rate);
    assert(p.subrange(0, 28) =~= f);
    assert(p.subrange(28, p.len() as int) =~= spec_esds(sample_rate, channels));
}

/// A reader of `dOps` finds version 0, the channel count, a pre-skip of
/// 312 samples, a 48 kHz input rate and no gain; for more than two
/// channels, mapping family 1 with one stream, no coupled stream and each
/// channel mapped to itself; else family 0 and nothing more.
#[verifier::rlimit(30)]
pub proof fn lemma_dops_reads_back(channels: u16)
    ensures
        ({
            let b = spec_dops(channels);
            let p = box_payload(b);
            let n = channels as u8;
            &&& box_type(b) == DOPS
            &&& p[0] == 0
            &&& p[1] == n
            &&& u16_at(p, 2) == 312
            &&& u32_at(p, 4) == 48000
            &&& u16_at(p, 8) == 0
            &&& if n > 2 {
                &&& p.len() == 13 + n
                &&& p[10] == 1 && p[11] == 1 && p[12] == 0
                &&& forall|i: int| 0 <= i < n ==> #[trigger] p[13 + i] == i
            } else {
                p.len() == 11 && p[10] == 0
            }
        }),
{
    let occ = channels as u8;
    let family: u8 = if occ > 2 { 1 } else { 0 };
    let tail = if family != 0 {
        seq![1u8, 0u8] + Seq::new(occ as nat, |i: int| i as u8)
    } else {
        Seq::empty()
    };
    let p = seq![0u8, occ] + be16(312) + be32(OPUS_SAMPLE_RATE) + be16(0) + seq![family] + tail;
    lemma_box_parts(DOPS, p);
    assert(p.subrange(2, 4) =~= be16(312));
    assert(p.subrange(4, 8) =~= be32(48000));
    assert(p.subrange(8, 10) =~= be16(0));
    lemma_be16_roundtrip(312);
    lemma_be16_roundtrip(0);
    lemma_be32_roundtrip(48000);
    if occ > 2 {
        assert forall|i: int| 0 <= i < occ implies #[trigger] p[13 + i] == i by {
            assert(p[13 + i] == tail[2 + i]);
        }
    }
}

} // verus!
