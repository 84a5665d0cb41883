//! Sample descriptions: the visual and audio sample entries and their codec
//! configuration boxes (`avcC`, `hvcC`, `av1C`, `esds`, `dOps`).

use vstd::prelude::*;

use super::fourcc::{AV01, AV1C, AVC1, AVCC, DOPS, ESDS, HVC1, HVCC, MP4A, OPUS, STSD};
use super::headers::zeros;
use crate::api::AudioCodec;
use crate::codec::av1::Av1Config;
use crate::codec::h264::AvcConfig;
use crate::codec::h265::HevcConfig;
use crate::codec::opus::{OpusConfig, OPUS_SAMPLE_RATE};
use crate::wire::{be16, be32, build_box, push_bytes, push_u16, push_u32, push_zeros, spec_box};

verus! {

/// Video codec configuration extracted from the first keyframe.
#[derive(Clone, Debug)]
pub enum VideoConfig {
    /// H.264/AVC configuration (SPS + PPS)
    Avc(AvcConfig),
    /// H.265/HEVC configuration (VPS + SPS + PPS)
    Hevc(HevcConfig),
    /// AV1 configuration (Sequence Header OBU)
    Av1(Av1Config),
}

/// The value of a video configuration: the parameter sets of an AVC
/// configuration, or the whole HEVC or AV1 configuration.
pub enum VideoConfigView {
    Avc { sps: Seq<u8>, pps: Seq<u8> },
    Hevc(HevcConfig),
    Av1(Av1Config),
}

impl View for VideoConfig {
    type V = VideoConfigView;

    open spec fn view(&self) -> VideoConfigView {
        match *self {
            VideoConfig::Avc(c) => VideoConfigView::Avc { sps: c.sps@, pps: c.pps@ },
            VideoConfig::Hevc(c) => VideoConfigView::Hevc(c),
            VideoConfig::Av1(c) => VideoConfigView::Av1(c),
        }
    }
}

/// Dimensions of the video track as written into its headers.
#[derive(Clone, Copy, Debug)]
pub struct Mp4VideoTrack {
    pub width: u32,
    pub height: u32,
}

/// Parameters of the audio track.
#[derive(Clone, Copy, Debug)]
pub struct Mp4AudioTrack {
    pub sample_rate: u32,
    pub channels: u16,
    pub codec: AudioCodec,
}

/// The fields shared by all visual sample entries: reserved bytes, data
/// reference 1, width and height (16 bits each, the low bits of the
/// track's dimensions), 72 dpi, one frame per sample, an empty compressor
/// name, depth 24, pre-defined -1: 78 bytes.
pub open spec fn visual_entry_fields(width: u32, height: u32) -> Seq<u8> {
    zeros(6) + be16(1) + be16(0) + be16(0) + be32(0) + be32(0) + be32(0) + be16(width as u16) + be16(
        height as u16,
    ) + be32(0x0048_0000) + be32(0x0048_0000) + be32(0) + be16(1) + zeros(32) + be16(0x0018) + be16(
        0xffff,
    )
}

fn push_visual_entry_fields(p: &mut Vec<u8>, width: u32, height: u32)
    ensures
        final(p)@ == old(p)@ + visual_entry_fields(width, height),
{
    push_zeros(p, 6);
    push_u16(p, 1);
    push_u16(p, 0);
    push_u16(p, 0);
    push_u32(p, 0);
    push_u32(p, 0);
    push_u32(p, 0);
    push_u16(p, width as u16);
    push_u16(p, height as u16);
    push_u32(p, 0x0048_0000);
    push_u32(p, 0x0048_0000);
    push_u32(p, 0);
    push_u16(p, 1);
    push_zeros(p, 32);
    push_u16(p, 0x0018);
    push_u16(p, 0xffff);
    assert(p@ =~= old(p)@ + visual_entry_fields(width, height));
}

/// `avcC`: version 1, profile/compatibility/level from SPS bytes 1-3
/// (Baseline 3.0 when the SPS is shorter), 4-byte NAL lengths, one SPS and
/// one PPS each with a 16-bit length.
pub open spec fn spec_avcc(sps: Seq<u8>, pps: Seq<u8>) -> Seq<u8> {
    let (pi, pc, li) = if sps.len() >= 4 {
        (sps[1], sps[2], sps[3])
    } else {
        (0x42u8, 0x00u8, 0x1eu8)
    };
    spec_box(
        AVCC,
        seq![1u8, pi, pc, li, 0xffu8, 0xe1u8] + be16(sps.len() as u16) + sps + seq![1u8] + be16(
            pps.len() as u16,
        ) + pps,
    )
}

/// Writes the `avcC` box of an AVC configuration.
pub fn build_avcc_box(avc_config: &AvcConfig) -> (r: Vec<u8>)
    ensures
        r@ == spec_avcc(avc_config.sps@, avc_config.pps@),
{
    let (pi, pc, li) = if avc_config.sps.len() >= 4 {
        (avc_config.sps[1], avc_config.sps[2], avc_config.sps[3])
    } else {
        (0x42u8, 0x00u8, 0x1eu8)
    };
    let mut p: Vec<u8> = Vec::new();
    p.push(1);
    p.push(pi);
    p.push(pc);
    p.push(li);
    p.push(0xff);
    p.push(0xe1);
    push_u16(&mut p, avc_config.sps.len() as u16);
    push_bytes(&mut p, avc_config.sps.as_slice());
    p.push(1);
    push_u16(&mut p, avc_config.pps.len() as u16);
    push_bytes(&mut p, avc_config.pps.as_slice());
    assert(p@ =~= seq![1u8, pi, pc, li, 0xffu8, 0xe1u8] + be16(avc_config.sps@.len() as u16)
        + avc_config.sps@ + seq![1u8] + be16(avc_config.pps@.len() as u16) + avc_config.pps@);
    build_box(AVCC, p.as_slice())
}

/// `avc1` sample entry carrying the `avcC`.
pub open spec fn spec_avc1(width: u32, height: u32, sps: Seq<u8>, pps: Seq<u8>) -> Seq<u8> {
    spec_box(AVC1, visual_entry_fields(width, height) + spec_avcc(sps, pps))
}

/// Writes the `avc1` visual sample entry with its `avcC`.
pub fn build_avc1_box(video: &Mp4VideoTrack, avc_config: &AvcConfig) -> (r: Vec<u8>)
    ensures
        r@ == spec_avc1(video.width, video.height, avc_config.sps@, avc_config.pps@),
{
    let mut p: Vec<u8> = Vec::new();
    push_visual_entry_fields(&mut p, video.width, video.height);
    let mut c = build_avcc_box(avc_config);
    p.append(&mut c);
    build_box(AVC1, p.as_slice())
}

/// The first byte of `hvcC` after the version: profile space (2 bits), tier
/// flag, profile idc (5 bits).
pub open spec fn hvcc_profile_byte(sps: Seq<u8>) -> u8 {
    let space: u8 = if sps.len() > 3 { sps[3] >> 6u8 } else { 0u8 };
    let tier: bool = sps.len() > 3 && (sps[3] & 0x20u8) != 0;
    let idc: u8 = if sps.len() > 3 { sps[3] & 0x1fu8 } else { 1u8 };
    (space << 6u8) | (if tier { 0x20u8 } else { 0u8 }) | (idc & 0x1fu8)
}

/// `hvcC`: version 1, profile byte, Main compatibility flags, constraint
/// flags, level, fixed 4:2:0 8-bit parameters, 4-byte NAL lengths and three
/// parameter-set arrays (VPS, SPS, PPS) of one unit each.
pub open spec fn spec_hvcc(vps: Seq<u8>, sps: Seq<u8>, pps: Seq<u8>) -> Seq<u8> {
    let level: u8 = if sps.len() > 14 { sps[14] } else { 93u8 };
    spec_box(
        HVCC,
        seq![1u8, hvcc_profile_byte(sps)] + seq![0x60u8, 0u8, 0u8, 0u8] + seq![0x90u8, 0u8, 0u8, 0u8, 0u8, 0u8]
            + seq![level] + seq![0xf0u8, 0u8] + seq![0xfcu8, 0xfdu8, 0xf8u8, 0xf8u8] + be16(0) + seq![
            0x03u8,
            3u8,
        ] + seq![0x20u8 | 32u8] + be16(1) + be16(vps.len() as u16) + vps + seq![0x20u8 | 33u8] + be16(1)
            + be16(sps.len() as u16) + sps + seq![0x20u8 | 34u8] + be16(1) + be16(pps.len() as u16) + pps,
    )
}

/// Writes the `hvcC` box of an HEVC configuration.
pub fn build_hvcc_box(hevc_config: &HevcConfig) -> (r: Vec<u8>)
    ensures
        r@ == spec_hvcc(hevc_config.vps@, hevc_config.sps@, hevc_config.pps@),
{
    let space = hevc_config.general_profile_space();
    let tier = hevc_config.general_tier_flag();
    let idc = hevc_config.general_profile_idc();
    let level = hevc_config.general_level_idc();
    let mut p: Vec<u8> = Vec::new();
    p.push(1);
    let byte1 = (space << 6u8) | (if tier {
        0x20u8
    } else {
        0u8
    }) | (idc & 0x1fu8);
    p.push(byte1);
    p.push(0x60);
    p.push(0);
    p.push(0);
    p.push(0);
    p.push(0x90);
    p.push(0);
    p.push(0);
    p.push(0);
    p.push(0);
    p.push(0);
    p.push(level);
    p.push(0xf0);
    p.push(0);
    p.push(0xfc);
    p.push(0xfd);
    p.push(0xf8);
    p.push(0xf8);
    push_u16(&mut p, 0);
    p.push(0x03);
    p.push(3);
    p.push(0x20u8 | 32u8);
    push_u16(&mut p, 1);
    push_u16(&mut p, hevc_config.vps.len() as u16);
    push_bytes(&mut p, hevc_config.vps.as_slice());
    p.push(0x20u8 | 33u8);
    push_u16(&mut p, 1);
    push_u16(&mut p, hevc_config.sps.len() as u16);
    push_bytes(&mut p, hevc_config.sps.as_slice());
    p.push(0x20u8 | 34u8);
    push_u16(&mut p, 1);
    push_u16(&mut p, hevc_config.pps.len() as u16);
    push_bytes(&mut p, hevc_config.pps.as_slice());
    let ghost sps = hevc_config.sps@;
    assert(byte1 == hvcc_profile_byte(sps));
    assert(p@ =~= seq![1u8, hvcc_profile_byte(sps)] + seq![0x60u8, 0u8, 0u8, 0u8] + seq![
        0x90u8,
        0u8,
        0u8,
        0u8,
        0u8,
        0u8,
    ] + seq![level] + seq![0xf0u8, 0u8] + seq![0xfcu8, 0xfdu8, 0xf8u8, 0xf8u8] + be16(0) + seq![
        0x03u8,
        3u8,
    ] + seq![0x20u8 | 32u8] + be16(1) + be16(hevc_config.vps@.len() as u16) + hevc_config.vps@
        + seq![0x20u8 | 33u8] + be16(1) + be16(sps.len() as u16) + sps + seq![0x20u8 | 34u8] + be16(1)
        + be16(hevc_config.pps@.len() as u16) + hevc_config.pps@);
    build_box(HVCC, p.as_slice())
}

/// `hvc1` sample entry carrying the `hvcC`.
pub open spec fn spec_hvc1(width: u32, height: u32, c: HevcConfig) -> Seq<u8> {
    spec_box(HVC1, visual_entry_fields(width, height) + spec_hvcc(c.vps@, c.sps@, c.pps@))
}

/// Writes the `hvc1` visual sample entry with its `hvcC`.
pub fn build_hvc1_box(video: &Mp4VideoTrack, hevc_config: &HevcConfig) -> (r: Vec<u8>)
    ensures
        r@ == spec_hvc1(video.width, video.height, *hevc_config),
{
    let mut p: Vec<u8> = Vec::new();
    push_visual_entry_fields(&mut p, video.width, video.height);
    let mut c = build_hvcc_box(hevc_config);
    p.append(&mut c);
    build_box(HVC1, p.as_slice())
}

/// The two `av1C` bytes after the marker: profile/level, then tier, bit-depth,
/// monochrome and chroma flags.
pub open spec fn av1c_profile_byte(c: Av1Config) -> u8 {
    ((c.seq_profile & 0x07u8) << 5u8) | (c.seq_level_idx & 0x1fu8)
}

/// The `av1C` byte holding the tier, depth and chroma flags.
pub open spec fn av1c_flags_byte(c: Av1Config) -> u8 {
    ((c.seq_tier & 0x01u8) << 7u8) | (if c.high_bitdepth { 0x40u8 } else { 0u8 }) | (if c.twelve_bit {
        0x20u8
    } else {
        0u8
    }) | (if c.monochrome { 0x10u8 } else { 0u8 }) | (if c.chroma_subsampling_x {
        0x08u8
    } else {
        0u8
    }) | (if c.chroma_subsampling_y { 0x04u8 } else { 0u8 }) | (c.chroma_sample_position & 0x03u8)
}

/// `av1C`: marker and version (0x81), profile/level byte, flags byte, no
/// initial presentation delay, then the Sequence Header OBU.
pub open spec fn spec_av1c(c: Av1Config) -> Seq<u8> {
    spec_box(
        AV1C,
        seq![0x81u8, av1c_profile_byte(c), av1c_flags_byte(c), 0x00u8] + c.sequence_header@,
    )
}

/// Writes the `av1C` box of an AV1 configuration.
pub fn build_av1c_box(av1_config: &Av1Config) -> (r: Vec<u8>)
    ensures
        r@ == spec_av1c(*av1_config),
{
    let c = av1_config;
    let mut p: Vec<u8> = Vec::new();
    p.push(0x81);
    let byte1 = ((c.seq_profile & 0x07u8) << 5u8) | (c.seq_level_idx & 0x1fu8);
    p.push(byte1);
    let byte2 = ((c.seq_tier & 0x01u8) << 7u8) | (if c.high_bitdepth {
        0x40u8
    } else {
        0u8
    }) | (if c.twelve_bit {
        0x20u8
    } else {
        0u8
    }) | (if c.monochrome {
        0x10u8
    } else {
        0u8
    }) | (if c.chroma_subsampling_x {
        0x08u8
    } else {
        0u8
    }) | (if c.chroma_subsampling_y {
        0x04u8
    } else {
        0u8
    }) | (c.chroma_sample_position & 0x03u8);
    p.push(byte2);
    p.push(0x00);
    push_bytes(&mut p, c.sequence_header.as_slice());
    assert(p@ =~= seq![0x81u8, av1c_profile_byte(*c), av1c_flags_byte(*c), 0x00u8]
        + c.sequence_header@);
    build_box(AV1C, p.as_slice())
}

/// `av01` sample entry carrying the `av1C`.
pub open spec fn spec_av01(width: u32, height: u32, c: Av1Config) -> Seq<u8> {
    spec_box(AV01, visual_entry_fields(width, height) + spec_av1c(c))
}

/// Writes the `av01` visual sample entry with its `av1C`.
pub fn build_av01_box(video: &Mp4VideoTrack, av1_config: &Av1Config) -> (r: Vec<u8>)
    ensures
        r@ == spec_av01(video.width, video.height, *av1_config),
{
    let mut p: Vec<u8> = Vec::new();
    push_visual_entry_fields(&mut p, video.width, video.height);
    let mut c = build_av1c_box(av1_config);
    p.append(&mut c);
    build_box(AV01, p.as_slice())
}

/// The sample entry of the video track for its codec configuration.
pub open spec fn spec_video_entry(width: u32, height: u32, config: VideoConfigView) -> Seq<u8> {
    match config {
        VideoConfigView::Avc { sps, pps } => spec_avc1(width, height, sps, pps),
        VideoConfigView::Hevc(c) => spec_hvc1(width, height, c),
        VideoConfigView::Av1(c) => spec_av01(width, height, c),
    }
}

/// `stsd` of the video track: one sample entry.
pub open spec fn spec_video_stsd(width: u32, height: u32, config: VideoConfigView) -> Seq<u8> {
    spec_box(STSD, be32(0) + be32(1) + spec_video_entry(width, height, config))
}

/// Writes the video `stsd` with the sample entry of its configuration.
pub fn build_stsd_box(video: &Mp4VideoTrack, video_config: &VideoConfig) -> (r: Vec<u8>)
    ensures
        r@ == spec_video_stsd(video.width, video.height, video_config@),
{
    let mut entry = match video_config {
        VideoConfig::Avc(c) => build_avc1_box(video, c),
        VideoConfig::Hevc(c) => build_hvc1_box(video, c),
        VideoConfig::Av1(c) => build_av01_box(video, c),
    };
    let mut p: Vec<u8> = Vec::new();
    push_u32(&mut p, 0);
    push_u32(&mut p, 1);
    p.append(&mut entry);
    build_box(STSD, p.as_slice())
}

/// The MPEG-4 sampling frequency index of a sample rate; unlisted rates map
/// to 4 (44.1 kHz).
pub open spec fn sampling_frequency_index(sample_rate: u32) -> u8 {
    if sample_rate == 96000 {
        0
    } else if sample_rate == 88200 {
        1
    } else if sample_rate == 64000 {
        2
    } else if sample_rate == 48000 {
        3
    } else if sample_rate == 44100 {
        4
    } else if sample_rate == 32000 {
        5
    } else if sample_rate == 24000 {
        6
    } else if sample_rate == 22050 {
        7
    } else if sample_rate == 16000 {
        8
    } else if sample_rate == 12000 {
        9
    } else if sample_rate == 11025 {
        10
    } else if sample_rate == 8000 {
        11
    } else if sample_rate == 7350 {
        12
    } else {
        4
    }
}

/// AudioSpecificConfig for AAC LC: object type 2 (5 bits), frequency index
/// (4 bits), channel configuration (4 bits, channels capped at 15).
pub open spec fn spec_audio_specific_config(sample_rate: u32, channels: u16) -> Seq<u8> {
    let sfi = sampling_frequency_index(sample_rate);
    let chan = ((if channels < 15 { channels } else { 15u16 }) as u8) & 0x0fu8;
    seq![(2u8 << 3u8) | (sfi >> 1u8), ((sfi & 1u8) << 7u8) | (chan << 3u8)]
}

/// The two-byte AAC-LC AudioSpecificConfig for a sample rate and channel
/// count.
pub fn build_audio_specific_config(sample_rate: u32, channels: u16) -> (r: [u8; 2])
    ensures
        r@ == spec_audio_specific_config(sample_rate, channels),
{
    let sfi: u8 = if sample_rate == 96000 {
        0
    } else if sample_rate == 88200 {
        1
    } else if sample_rate == 64000 {
        2
    } else if sample_rate == 48000 {
        3
    } else if sample_rate == 44100 {
        4
    } else if sample_rate == 32000 {
        5
    } else if sample_rate == 24000 {
        6
    } else if sample_rate == 22050 {
        7
    } else if sample_rate == 16000 {
        8
    } else if sample_rate == 12000 {
        9
    } else if sample_rate == 11025 {
        10
    } else if sample_rate == 8000 {
        11
    } else if sample_rate == 7350 {
        12
    } else {
        4
    };
    let aot: u8 = 2;
    let capped: u16 = if channels < 15 {
        channels
    } else {
        15
    };
    let chan = (capped as u8) & 0x0fu8;
    let byte0 = (aot << 3u8) | (sfi >> 1u8);
    let byte1 = ((sfi & 1u8) << 7u8) | (chan << 3u8);
    let r = [byte0, byte1];
    assert(r@ =~= spec_audio_specific_config(sample_rate, channels));
    r
}

/// An MPEG-4 descriptor: tag, one-byte length, body.
pub open spec fn descriptor(tag: u8, body: Seq<u8>) -> Seq<u8> {
    seq![tag, body.len() as u8] + body
}

/// `esds`: an ES descriptor (ES id 1) holding a decoder configuration
/// descriptor (AAC, audio stream, zero buffer and bitrates) with the
/// AudioSpecificConfig, and an SL configuration descriptor.
pub open spec fn spec_esds(sample_rate: u32, channels: u16) -> Seq<u8> {
    let dec_specific = descriptor(0x05, spec_audio_specific_config(sample_rate, channels));
    let dec_config = descriptor(
        0x04,
        seq![0x40u8, 0x15u8, 0x00u8, 0x00u8, 0x00u8] + be32(0) + be32(0) + dec_specific,
    );
    let es = descriptor(0x03, be16(1) + seq![0u8] + dec_config + seq![0x06u8, 0x01u8, 0x02u8]);
    spec_box(ESDS, be32(0) + es)
}

/// Writes the `esds` box of an AAC track.
pub fn build_esds_box(audio: &Mp4AudioTrack) -> (r: Vec<u8>)
    ensures
        r@ == spec_esds(audio.sample_rate, audio.channels),
{
    let asc = build_audio_specific_config(audio.sample_rate, audio.channels);
    let ghost asc_s = spec_audio_specific_config(audio.sample_rate, audio.channels);
    let mut dec_specific: Vec<u8> = Vec::new();
    dec_specific.push(0x05);
    dec_specific.push(2);
    dec_specific.push(asc[0]);
    dec_specific.push(asc[1]);
    assert(dec_specific@ =~= descriptor(0x05, asc_s));
    let mut dcp: Vec<u8> = Vec::new();
    dcp.push(0x40);
    dcp.push(0x15);
    dcp.push(0x00);
    dcp.push(0x00);
    dcp.push(0x00);
    push_u32(&mut dcp, 0);
    push_u32(&mut dcp, 0);
    dcp.append(&mut dec_specific);
    let ghost dcp_s = seq![0x40u8, 0x15u8, 0x00u8, 0x00u8, 0x00u8] + be32(0) + be32(0) + descriptor(
        0x05,
        asc_s,
    );
    assert(dcp@ =~= dcp_s);
    let mut dec_config: Vec<u8> = Vec::new();
    dec_config.push(0x04);
    dec_config.push(dcp.len() as u8);
    dec_config.append(&mut dcp);
    assert(dec_config@ =~= descriptor(0x04, dcp_s));
    let mut es_payload: Vec<u8> = Vec::new();
    push_u16(&mut es_payload, 1);
    es_payload.push(0);
    let ghost dc = dec_config@;
    es_payload.append(&mut dec_config);
    es_payload.push(0x06);
    es_payload.push(0x01);
    es_payload.push(0x02);
    let ghost esp = be16(1) + seq![0u8] + dc + seq![0x06u8, 0x01u8, 0x02u8];
    assert(es_payload@ =~= esp);
    let mut es_desc: Vec<u8> = Vec::new();
    es_desc.push(0x03);
    es_desc.push(es_payload.len() as u8);
    es_desc.append(&mut es_payload);
    assert(es_desc@ =~= descriptor(0x03, esp));
    let mut p: Vec<u8> = Vec::new();
    push_u32(&mut p, 0);
    p.append(&mut es_desc);
    build_box(ESDS, p.as_slice())
}

/// Fields shared by the audio sample entries: reserved bytes, data
/// reference 1, channel count, 16-bit samples, and the sample rate as 16.16
/// fixed point (shifted left by 16 in 32 bits).
pub open spec fn audio_entry_fields(channels: u16, rate: u32) -> Seq<u8> {
    zeros(6) + be16(1) + be32(0) + be32(0) + be16(channels) + be16(16) + be16(0) + be16(0) + be32(
        rate << 16u32,
    )
}

fn push_audio_entry_fields(p: &mut Vec<u8>, channels: u16, rate: u32)
    ensures
        final(p)@ == old(p)@ + audio_entry_fields(channels, rate),
{
    push_zeros(p, 6);
    push_u16(p, 1);
    push_u32(p, 0);
    push_u32(p, 0);
    push_u16(p, channels);
    push_u16(p, 16);
    push_u16(p, 0);
    push_u16(p, 0);
    push_u32(p, rate << 16u32);
    assert(p@ =~= old(p)@ + audio_entry_fields(channels, rate));
}

/// `mp4a` sample entry carrying the `esds`.
pub open spec fn spec_mp4a(sample_rate: u32, channels: u16) -> Seq<u8> {
    spec_box(MP4A, audio_entry_fields(channels, sample_rate) + spec_esds(sample_rate, channels))
}

/// Writes the `mp4a` audio sample entry with its `esds`.
pub fn build_mp4a_box(audio: &Mp4AudioTrack) -> (r: Vec<u8>)
    ensures
        r@ == spec_mp4a(audio.sample_rate, audio.channels),
{
    let mut p: Vec<u8> = Vec::new();
    push_audio_entry_fields(&mut p, audio.channels, audio.sample_rate);
    let mut esds = build_esds_box(audio);
    p.append(&mut esds);
    build_box(MP4A, p.as_slice())
}

/// `dOps` for the default Opus configuration with `channels` output channels
/// (the channel count reduced to 8 bits): version 0, pre-skip 312, 48 kHz
/// input, no gain; above two channels mapping family 1 with one stream, no
/// coupled streams and the identity channel mapping.
pub open spec fn spec_dops(channels: u16) -> Seq<u8> {
    let occ = channels as u8;
    let family: u8 = if occ > 2 { 1 } else { 0 };
    spec_box(
        DOPS,
        seq![0u8, occ] + be16(312) + be32(OPUS_SAMPLE_RATE) + be16(0) + seq![family] + (if family
            != 0 {
            seq![1u8, 0u8] + Seq::new(occ as nat, |i: int| i as u8)
        } else {
            Seq::empty()
        }),
    )
}

/// Writes the `dOps` box of an Opus track.
pub fn build_dops_box(audio: &Mp4AudioTrack) -> (r: Vec<u8>)
    ensures
        r@ == spec_dops(audio.channels),
{
    let config = OpusConfig::default().with_channels(audio.channels as u8);
    let mut p: Vec<u8> = Vec::new();
    p.push(config.version);
    p.push(config.output_channel_count);
    push_u16(&mut p, config.pre_skip);
    push_u32(&mut p, config.input_sample_rate);
    push_u16(&mut p, config.output_gain as u16);
    p.push(config.channel_mapping_family);
    let ghost head = seq![0u8, config.output_channel_count] + be16(312) + be32(OPUS_SAMPLE_RATE)
        + be16(0) + seq![config.channel_mapping_family];
    assert(p@ =~= head);
    if config.channel_mapping_family != 0 {
        let sc = match config.stream_count {
            Some(v) => v,
            None => 1,
        };
        let cc = match config.coupled_count {
            Some(v) => v,
            None => 0,
        };
        p.push(sc);
        p.push(cc);
        match &config.channel_mapping {
            Some(mapping) => {
                push_bytes(&mut p, mapping.as_slice());
            },
            None => {
                let mut i: u8 = 0;
                while i < config.output_channel_count
                    invariant
                        i <= config.output_channel_count,
                        p@ == head + seq![1u8, 0u8] + Seq::new(i as nat, |j: int| j as u8),
                    decreases config.output_channel_count - i,
                {
                    p.push(i);
                    i = i + 1;
                    assert(p@ =~= head + seq![1u8, 0u8] + Seq::new(i as nat, |j: int| j as u8));
                }
            },
        }
    } else {
        assert(p@ =~= head + Seq::<u8>::empty());
    }
    build_box(DOPS, p.as_slice())
}

/// `Opus` sample entry (always 48 kHz) carrying the `dOps`.
pub open spec fn spec_opus_entry(channels: u16) -> Seq<u8> {
    spec_box(OPUS, audio_entry_fields(channels, OPUS_SAMPLE_RATE) + spec_dops(channels))
}

/// Writes the `Opus` audio sample entry with its `dOps`.
pub fn build_opus_box(audio: &Mp4AudioTrack) -> (r: Vec<u8>)
    ensures
        r@ == spec_opus_entry(audio.channels),
{
    let mut p: Vec<u8> = Vec::new();
    push_audio_entry_fields(&mut p, audio.channels, OPUS_SAMPLE_RATE);
    let mut dops = build_dops_box(audio);
    p.append(&mut dops);
    build_box(OPUS, p.as_slice())
}

/// The sample entry of the audio track: `Opus` for Opus, else `mp4a`.
pub open spec fn spec_audio_entry(audio: Mp4AudioTrack) -> Seq<u8> {
    match audio.codec {
        AudioCodec::Opus => spec_opus_entry(audio.channels),
        _ => spec_mp4a(audio.sample_rate, audio.channels),
    }
}

/// `stsd` of the audio track: one sample entry.
pub open spec fn spec_audio_stsd(audio: Mp4AudioTrack) -> Seq<u8> {
    spec_box(STSD, be32(0) + be32(1) + spec_audio_entry(audio))
}

/// Writes the audio `stsd` with the sample entry of the track's codec.
pub fn build_audio_stsd_box(audio: &Mp4AudioTrack) -> (r: Vec<u8>)
    ensures
        r@ == spec_audio_stsd(*audio),
{
    let mut entry = match audio.codec {
        AudioCodec::Aac => build_mp4a_box(audio),
        AudioCodec::Opus => build_opus_box(audio),
        AudioCodec::NoAudio => build_mp4a_box(audio),
    };
    let mut p: Vec<u8> = Vec::new();
    push_u32(&mut p, 0);
    push_u32(&mut p, 1);
    p.append(&mut entry);
    build_box(STSD, p.as_slice())
}

} // verus!
