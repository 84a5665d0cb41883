//! Fixed-layout header boxes: `ftyp`, `mvhd`, `tkhd`, `mdhd`, `hdlr`,
//! `vmhd`, `smhd` and the data-reference boxes.

use vstd::prelude::*;

use super::fourcc::{DINF, DREF, FTYP, HDLR, ISOM, MDHD, MP41, SMHD, SOUN, TKHD, URL, VIDE, VMHD};
use crate::wire::{be16, be32, be64, build_box, push_u16, push_u32, push_u64, push_zeros, spec_box};

verus! {

/// Movie timescale (ticks per second) of the `mvhd` box.
pub const MOVIE_TIMESCALE: u32 = 1000;

/// Track/media timescale: `pts` seconds become sample deltas at 90 kHz.
pub const MEDIA_TIMESCALE: u32 = 90_000;

/// `n` zero bytes.
pub open spec fn zeros(n: nat) -> Seq<u8> {
    Seq::new(n, |_i: int| 0u8)
}

/// The identity transformation matrix of `mvhd` and `tkhd`.
pub open spec fn unity_matrix() -> Seq<u8> {
    be32(0x0001_0000) + be32(0) + be32(0) + be32(0) + be32(0x0001_0000) + be32(0) + be32(0) + be32(0)
        + be32(0x4000_0000)
}

fn push_unity_matrix(p: &mut Vec<u8>)
    ensures
        final(p)@ == old(p)@ + unity_matrix(),
{
    push_u32(p, 0x0001_0000);
    push_u32(p, 0);
    push_u32(p, 0);
    push_u32(p, 0);
    push_u32(p, 0x0001_0000);
    push_u32(p, 0);
    push_u32(p, 0);
    push_u32(p, 0);
    push_u32(p, 0x4000_0000);
    assert(p@ =~= old(p)@ + unity_matrix());
}

/// `ftyp`: major brand `isom`, minor version 0x200, compatible brands
/// `isom` and `mp41`.
pub open spec fn spec_ftyp() -> Seq<u8> {
    spec_box(FTYP, be32(ISOM) + be32(0x200) + be32(ISOM) + be32(MP41))
}

/// Writes the 24-byte `ftyp` box.
pub fn build_ftyp_box() -> (r: Vec<u8>)
    ensures
        r@ == spec_ftyp(),
        r@.len() == 24,
{
    let mut p: Vec<u8> = Vec::new();
    push_u32(&mut p, ISOM);
    push_u32(&mut p, 0x200);
    push_u32(&mut p, ISOM);
    push_u32(&mut p, MP41);
    assert(p@ =~= be32(ISOM) + be32(0x200) + be32(ISOM) + be32(MP41));
    build_box(FTYP, p.as_slice())
}

/// Payload of `mvhd`: version/flags, times, the movie timescale, zero
/// duration, unit rate and volume, the unity matrix, pre-defined zeros and
/// the id the next added track would take.
pub open spec fn spec_mvhd_payload(next_track_id: u32) -> Seq<u8> {
    be32(0) + be32(0) + be32(0) + be32(MOVIE_TIMESCALE) + be32(0) + be32(0x0001_0000) + be16(0x0100)
        + be16(0) + be64(0) + unity_matrix() + be32(0) + be32(0) + be32(0) + be32(0) + be32(0) + be32(0)
        + be32(next_track_id)
}

/// The payload of the `mvhd` box.
pub fn build_mvhd_payload(next_track_id: u32) -> (r: Vec<u8>)
    ensures
        r@ == spec_mvhd_payload(next_track_id),
{
    let mut p: Vec<u8> = Vec::new();
    push_u32(&mut p, 0);
    push_u32(&mut p, 0);
    push_u32(&mut p, 0);
    push_u32(&mut p, MOVIE_TIMESCALE);
    push_u32(&mut p, 0);
    push_u32(&mut p, 0x0001_0000);
    push_u16(&mut p, 0x0100);
    push_u16(&mut p, 0);
    push_u64(&mut p, 0);
    push_unity_matrix(&mut p);
    push_u32(&mut p, 0);
    push_u32(&mut p, 0);
    push_u32(&mut p, 0);
    push_u32(&mut p, 0);
    push_u32(&mut p, 0);
    push_u32(&mut p, 0);
    push_u32(&mut p, next_track_id);
    assert(p@ =~= spec_mvhd_payload(next_track_id));
    p
}

/// `tkhd` (version 0, 92 bytes): flags 3 (track enabled, in movie), zero
/// times, the track id, a 32-bit duration of zero, layer/group zero, the
/// given volume, the unity matrix and width/height as 16.16 fixed point
/// (shifted left by 16 in 32 bits).
pub open spec fn spec_tkhd(track_id: u32, volume: u16, width: u32, height: u32) -> Seq<u8> {
    spec_box(
        TKHD,
        be32(3) + be32(0) + be32(0) + be32(track_id) + be32(0) + be32(0) + be64(0) + be16(0) + be16(0)
            + be16(volume) + be16(0) + unity_matrix() + be32(width << 16u32) + be32(height << 16u32),
    )
}

/// Writes a `tkhd` box for the given track id, volume and dimensions.
pub fn build_tkhd_box_with_id(track_id: u32, volume: u16, width: u32, height: u32) -> (r: Vec<u8>)
    ensures
        r@ == spec_tkhd(track_id, volume, width, height),
        r@.len() == 92,
{
    let mut p: Vec<u8> = Vec::new();
    push_u32(&mut p, 3);
    push_u32(&mut p, 0);
    push_u32(&mut p, 0);
    push_u32(&mut p, track_id);
    push_u32(&mut p, 0);
    push_u32(&mut p, 0);
    push_u64(&mut p, 0);
    push_u16(&mut p, 0);
    push_u16(&mut p, 0);
    push_u16(&mut p, volume);
    push_u16(&mut p, 0);
    push_unity_matrix(&mut p);
    push_u32(&mut p, width << 16u32);
    push_u32(&mut p, height << 16u32);
    assert(p@ =~= be32(3) + be32(0) + be32(0) + be32(track_id) + be32(0) + be32(0) + be64(0) + be16(
        0,
    ) + be16(0) + be16(volume) + be16(0) + unity_matrix() + be32(width << 16u32) + be32(
        height << 16u32,
    ));
    build_box(TKHD, p.as_slice())
}

/// `tkhd` of the video track: track 1, volume 0.
pub fn build_tkhd_box(width: u32, height: u32) -> (r: Vec<u8>)
    ensures
        r@ == spec_tkhd(1, 0, width, height),
{
    build_tkhd_box_with_id(1, 0, width, height)
}

/// `tkhd` of the audio track: track 2, full volume, no dimensions.
pub fn build_audio_tkhd_box() -> (r: Vec<u8>)
    ensures
        r@ == spec_tkhd(2, 0x0100, 0, 0),
{
    build_tkhd_box_with_id(2, 0x0100, 0, 0)
}

/// `mdhd`: the given timescale, zero duration, language code `und`.
pub open spec fn spec_mdhd(timescale: u32) -> Seq<u8> {
    spec_box(
        MDHD,
        be32(0) + be32(0) + be32(0) + be32(timescale) + be32(0) + be16(0x55c4) + be16(0),
    )
}

/// Writes an `mdhd` box with the given timescale.
pub fn build_mdhd_box_with_timescale(timescale: u32) -> (r: Vec<u8>)
    ensures
        r@ == spec_mdhd(timescale),
{
    let mut p: Vec<u8> = Vec::new();
    push_u32(&mut p, 0);
    push_u32(&mut p, 0);
    push_u32(&mut p, 0);
    push_u32(&mut p, timescale);
    push_u32(&mut p, 0);
    push_u16(&mut p, 0x55c4);
    push_u16(&mut p, 0);
    assert(p@ =~= be32(0) + be32(0) + be32(0) + be32(timescale) + be32(0) + be16(0x55c4) + be16(0));
    build_box(MDHD, p.as_slice())
}

/// `mdhd` of the video track, at the media timescale.
pub fn build_mdhd_box() -> (r: Vec<u8>)
    ensures
        r@ == spec_mdhd(MEDIA_TIMESCALE),
{
    build_mdhd_box_with_timescale(MEDIA_TIMESCALE)
}

/// `hdlr` with handler type `handler` and a 12-byte name followed by a NUL.
pub open spec fn spec_hdlr(handler: u32, name0: u32, name1: u32, name2: u32) -> Seq<u8> {
    spec_box(
        HDLR,
        be32(0) + be32(0) + be32(handler) + zeros(12) + be32(name0) + be32(name1) + be32(name2) + seq![
            0u8,
        ],
    )
}

fn build_named_hdlr(handler: u32, name0: u32, name1: u32, name2: u32) -> (r: Vec<u8>)
    ensures
        r@ == spec_hdlr(handler, name0, name1, name2),
{
    let mut p: Vec<u8> = Vec::new();
    push_u32(&mut p, 0);
    push_u32(&mut p, 0);
    push_u32(&mut p, handler);
    push_zeros(&mut p, 12);
    push_u32(&mut p, name0);
    push_u32(&mut p, name1);
    push_u32(&mut p, name2);
    p.push(0);
    assert(p@ =~= be32(0) + be32(0) + be32(handler) + zeros(12) + be32(name0) + be32(name1) + be32(
        name2,
    ) + seq![0u8]);
    build_box(HDLR, p.as_slice())
}

/// `hdlr` of the video track: `vide`, named "VideoHandler".
pub open spec fn spec_video_hdlr() -> Seq<u8> {
    spec_hdlr(VIDE, 0x5669_6465, 0x6f48_616e, 0x646c_6572)
}

/// Writes the video handler `hdlr` box.
pub fn build_hdlr_box() -> (r: Vec<u8>)
    ensures
        r@ == spec_video_hdlr(),
{
    build_named_hdlr(VIDE, 0x5669_6465, 0x6f48_616e, 0x646c_6572)
}

/// `hdlr` of the audio track: `soun`, named "SoundHandler".
pub open spec fn spec_sound_hdlr() -> Seq<u8> {
    spec_hdlr(SOUN, 0x536f_756e, 0x6448_616e, 0x646c_6572)
}

/// Writes the sound handler `hdlr` box.
pub fn build_sound_hdlr_box() -> (r: Vec<u8>)
    ensures
        r@ == spec_sound_hdlr(),
{
    build_named_hdlr(SOUN, 0x536f_756e, 0x6448_616e, 0x646c_6572)
}

/// `vmhd`: version 0, flags 1, graphics mode and opcolor zero.
pub open spec fn spec_vmhd() -> Seq<u8> {
    spec_box(VMHD, be32(1) + be16(0) + be16(0) + be16(0) + be16(0))
}

/// Writes the `vmhd` box.
pub fn build_vmhd_box() -> (r: Vec<u8>)
    ensures
        r@ == spec_vmhd(),
{
    let mut p: Vec<u8> = Vec::new();
    push_u32(&mut p, 1);
    push_u16(&mut p, 0);
    push_u16(&mut p, 0);
    push_u16(&mut p, 0);
    push_u16(&mut p, 0);
    assert(p@ =~= be32(1) + be16(0) + be16(0) + be16(0) + be16(0));
    build_box(VMHD, p.as_slice())
}

/// `smhd`: balance zero.
pub open spec fn spec_smhd() -> Seq<u8> {
    spec_box(SMHD, be32(0) + be16(0) + be16(0))
}

/// Writes the `smhd` box.
pub fn build_smhd_box() -> (r: Vec<u8>)
    ensures
        r@ == spec_smhd(),
{
    let mut p: Vec<u8> = Vec::new();
    push_u32(&mut p, 0);
    push_u16(&mut p, 0);
    push_u16(&mut p, 0);
    assert(p@ =~= be32(0) + be16(0) + be16(0));
    build_box(SMHD, p.as_slice())
}

/// `url `: flag 1, the media is in this file.
pub open spec fn spec_url() -> Seq<u8> {
    spec_box(URL, be32(1))
}

/// Writes the self-contained `url ` data entry.
pub fn build_url_box() -> (r: Vec<u8>)
    ensures
        r@ == spec_url(),
{
    let mut p: Vec<u8> = Vec::new();
    push_u32(&mut p, 1);
    assert(p@ =~= be32(1));
    build_box(URL, p.as_slice())
}

/// `dref` with one `url ` entry.
pub open spec fn spec_dref() -> Seq<u8> {
    spec_box(DREF, be32(0) + be32(1) + spec_url())
}

/// Writes the `dref` box with its one `url ` entry.
pub fn build_dref_box() -> (r: Vec<u8>)
    ensures
        r@ == spec_dref(),
{
    let mut url = build_url_box();
    let mut p: Vec<u8> = Vec::new();
    push_u32(&mut p, 0);
    push_u32(&mut p, 1);
    p.append(&mut url);
    assert(p@ =~= be32(0) + be32(1) + spec_url());
    build_box(DREF, p.as_slice())
}

/// `dinf` holding the `dref`.
pub open spec fn spec_dinf() -> Seq<u8> {
    spec_box(DINF, spec_dref())
}

/// Writes the `dinf` box.
pub fn build_dinf_box() -> (r: Vec<u8>)
    ensures
        r@ == spec_dinf(),
{
    let dref = build_dref_box();
    build_box(DINF, dref.as_slice())
}

} // verus!
