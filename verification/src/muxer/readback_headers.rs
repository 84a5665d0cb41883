//! What a reader of the header boxes gets back: track, media and movie
//! headers, handlers, data references and the file type.

use vstd::prelude::*;

use super::entries::{Mp4AudioTrack, Mp4VideoTrack, VideoConfigView};
use super::fourcc::{DREF, FTYP, HDLR, ISOM, MDHD, MOOV, MP41, MVHD, SMHD, SOUN, TKHD, URL, VIDE, VMHD};
use super::headers::{
    spec_dref, spec_ftyp, spec_hdlr, spec_mdhd, spec_mvhd_payload, spec_smhd, spec_sound_hdlr, spec_tkhd,
    spec_url, spec_video_hdlr, spec_vmhd, unity_matrix, zeros, MOVIE_TIMESCALE,
};
use super::moov::{
    lemma_moov_is_box, lemma_moov_payload_starts_with, next_track_id, spec_moov, spec_moov_payload,
};
use super::readback::{box_type, u16_at, u32_at};
use super::tables::TablesView;
use crate::api::Metadata;
use crate::wire::{be16, be32, be64, box_payload, lemma_be16_roundtrip, lemma_be32_roundtrip, lemma_box_parts, spec_box};

verus! {

/// The words of the unity matrix, in order.
pub open spec fn unity_word(j: int) -> int {
    if j == 0 || j == 4 {
        0x0001_0000
    } else if j == 8 {
        0x4000_0000
    } else {
        0
    }
}

proof fn lemma_unity_matrix_at(p: Seq<u8>, k: int)
    requires
        0 <= k,
        k + 36 <= p.len(),
        p.subrange(k, k + 36) == unity_matrix(),
    ensures
        forall|j: int| 0 <= j < 9 ==> #[trigger] u32_at(p, k + 4 * j) == unity_word(j),
{
    let m = unity_matrix();
    lemma_be32_roundtrip(0x0001_0000);
    lemma_be32_roundtrip(0);
    lemma_be32_roundtrip(0x4000_0000);
    assert forall|j: int| 0 <= j < 9 implies #[trigger] u32_at(p, k + 4 * j) == unity_word(j) by {
        assert(p.subrange(k + 4 * j, k + 4 * j + 4) =~= m.subrange(4 * j, 4 * j + 4));
        if j == 0 || j == 4 {
            assert(m.subrange(4 * j, 4 * j + 4) =~= be32(0x0001_0000));
        } else if j == 8 {
            assert(m.subrange(4 * j, 4 * j + 4) =~= be32(0x4000_0000));
        } else {
            assert(m.subrange(4 * j, 4 * j + 4) =~= be32(0));
        }
    }
}

proof fn lemma_fixed_16_16(x: u32)
    ensures
        x <= 0xffff ==> x << 16u32 == x * 0x1_0000,
{
    assert(x <= 0xffff ==> x << 16u32 == x * 0x1_0000) by (bit_vector);
}

/// The first forty bytes of a `tkhd` payload.
spec fn tkhd_head(track_id: u32, volume: u16) -> Seq<u8> {
    be32(3) + be32(0) + be32(0) + be32(track_id) + be32(0) + be32(0) + be64(0) + be16(0) + be16(0) + be16(
        volume,
    ) + be16(0)
}

proof fn lemma_tkhd_head(track_id: u32, volume: u16)
    ensures
        ({
            let h = tkhd_head(track_id, volume);
            &&& h.len() == 40
            &&& h[0] == 0
            &&& u32_at(h, 0) == 3
            &&& u32_at(h, 12) == track_id
            &&& u32_at(h, 20) == 0
            &&& u16_at(h, 36) == volume
        }),
{
    let h = tkhd_head(track_id, volume);
    assert(h.subrange(0, 4) =~= be32(3));
    assert(h.subrange(12, 16) =~= be32(track_id));
    assert(h.subrange(20, 24) =~= be32(0));
    assert(h.subrange(36, 38) =~= be16(volume));
    lemma_be32_roundtrip(3);
    lemma_be32_roundtrip(0);
    lemma_be32_roundtrip(track_id);
    lemma_be16_roundtrip(volume);
}

/// A reader of `tkhd` finds version 0 with the track enabled and in the
/// movie (flags 3), the track id, a 32-bit duration, the volume, the unity
/// matrix and the width and height in 16.16 fixed point: 92 bytes in all.
#[verifier::rlimit(30)]
pub proof fn lemma_tkhd_reads_back(track_id: u32, volume: u16, width: u32, height: u32)
    ensures
        ({
            let b = spec_tkhd(track_id, volume, width, height);
            let p = box_payload(b);
            &&& box_type(b) == TKHD
            &&& b.len() == 92
            &&& p[0] == 0
            &&& u32_at(p, 0) == 3
            &&& u32_at(p, 12) == track_id
            &&& u32_at(p, 20) == 0
            &&& u16_at(p, 36) == volume
            &&& forall|j: int| 0 <= j < 9 ==> #[trigger] u32_at(p, 40 + 4 * j) == unity_word(j)
            &&& width <= 0xffff ==> u32_at(p, 76) == width * 0x1_0000
            &&& height <= 0xffff ==> u32_at(p, 80) == height * 0x1_0000
        }),
{
    let h = tkhd_head(track_id, volume);
    let t = be32(width << 16u32) + be32(height << 16u32);
    let p = h + unity_matrix() + t;
    assert(spec_tkhd(track_id, volume, width, height) == spec_box(TKHD, p)) by {
        assert(p =~= be32(3) + be32(0) + be32(0) + be32(track_id) + be32(0) + be32(0) + be64(0) + be16(0)
            + be16(0) + be16(volume) + be16(0) + unity_matrix() + be32(width << 16u32) + be32(
            height << 16u32,
        ));
    }
    lemma_box_parts(TKHD, p);
    lemma_tkhd_head(track_id, volume);
    assert(p.subrange(0, 40) =~= h);
    assert(p[0] == h[0]);
    assert(p.subrange(0, 4) =~= h.subrange(0, 4));
    assert(p.subrange(12, 16) =~= h.subrange(12, 16));
    assert(p.subrange(20, 24) =~= h.subrange(20, 24));
    assert(p.subrange(36, 38) =~= h.subrange(36, 38));
    assert(p.subrange(40, 76) =~= unity_matrix());
    lemma_unity_matrix_at(p, 40);
    assert(p.subrange(76, 80) =~= be32(width << 16u32));
    assert(p.subrange(80, 84) =~= be32(height << 16u32));
    lemma_be32_roundtrip(width << 16u32);
    lemma_be32_roundtrip(height << 16u32);
    lemma_fixed_16_16(width);
    lemma_fixed_16_16(height);
}

/// A reader of `mdhd` finds version 0, the timescale, a zero duration and
/// the packed language code that spells `und`.
#[verifier::rlimit(30)]
pub proof fn lemma_mdhd_reads_back(timescale: u32)
    ensures
        ({
            let b = spec_mdhd(timescale);
            let p = box_payload(b);
            let l = u16_at(p, 20);
            &&& box_type(b) == MDHD
            &&& p.len() == 24
            &&& u32_at(p, 0) == 0
            &&& u32_at(p, 12) == timescale
            &&& u32_at(p, 16) == 0
            &&& l / 0x8000 == 0
            &&& l / 0x400 % 0x20 + 0x60 == 'u' as int
            &&& l / 0x20 % 0x20 + 0x60 == 'n' as int
            &&& l % 0x20 + 0x60 == 'd' as int
        }),
{
    let p = be32(0) + be32(0) + be32(0) + be32(timescale) + be32(0) + be16(0x55c4) + be16(0);
    lemma_box_parts(MDHD, p);
    assert(p.subrange(0, 4) =~= be32(0));
    assert(p.subrange(12, 16) =~= be32(timescale));
    assert(p.subrange(16, 20) =~= be32(0));
    assert(p.subrange(20, 22) =~= be16(0x55c4));
    lemma_be32_roundtrip(0);
    lemma_be32_roundtrip(timescale);
    lemma_be16_roundtrip(0x55c4);
}

/// A reader of the `mvhd` payload finds the movie timescale, rate 1.0,
/// full volume, the unity matrix and the id for a next track: 100 bytes.
#[verifier::rlimit(30)]
pub proof fn lemma_mvhd_reads_back(next_track_id: u32)
    ensures
        ({
            let p = spec_mvhd_payload(next_track_id);
            &&& p.len() == 100
            &&& u32_at(p, 0) == 0
            &&& u32_at(p, 12) == MOVIE_TIMESCALE
            &&& u32_at(p, 20) == 0x0001_0000
            &&& u16_at(p, 24) == 0x0100
            &&& forall|j: int| 0 <= j < 9 ==> #[trigger] u32_at(p, 36 + 4 * j) == unity_word(j)
            &&& u32_at(p, 96) == next_track_id
        }),
{
    let p = spec_mvhd_payload(next_track_id);
    assert(p.subrange(0, 4) =~= be32(0));
    assert(p.subrange(12, 16) =~= be32(MOVIE_TIMESCALE));
    assert(p.subrange(20, 24) =~= be32(0x0001_0000));
    assert(p.subrange(24, 26) =~= be16(0x0100));
    assert(p.subrange(36, 72) =~= unity_matrix());
    assert(p.subrange(96, 100) =~= be32(next_track_id));
    lemma_be32_roundtrip(0);
    lemma_be32_roundtrip(MOVIE_TIMESCALE);
    lemma_be32_roundtrip(0x0001_0000);
    lemma_be16_roundtrip(0x0100);
    lemma_be32_roundtrip(next_track_id);
    lemma_unity_matrix_at(p, 36);
}

/// The `moov` starts with its `mvhd`, whose next track id is one past the
/// tracks it holds: 2 with the video track alone, 3 with an audio track.
#[verifier::rlimit(30)]
pub proof fn lemma_moov_names_next_track(
    v: Mp4VideoTrack,
    vt: TablesView,
    audio: Option<(Mp4AudioTrack, TablesView)>,
    c: VideoConfigView,
    meta: Option<Metadata>,
)
    ensures
        ({
            let b = spec_moov(v, vt, audio, c, meta);
            let tracks: int = if audio is Some { 2 } else { 1 };
            &&& box_type(b) == MOOV
            &&& box_payload(b).subrange(0, 108) == spec_box(MVHD, spec_mvhd_payload((tracks + 1) as u32))
        }),
{
    lemma_moov_is_box(v, vt, audio, c, meta);
    let p = spec_moov_payload(v, vt, audio, c, meta);
    lemma_box_parts(MOOV, p);
    let m = spec_box(MVHD, spec_mvhd_payload(next_track_id(audio is Some)));
    lemma_mvhd_reads_back(next_track_id(audio is Some));
    assert(m.len() == 108);
    lemma_moov_payload_starts_with(v, vt, audio, c, meta, m);
}

/// A reader of `hdlr` finds the handler type and then, after the reserved
/// words, the twelve name bytes and a terminating NUL.
pub proof fn lemma_hdlr_reads_back(handler: u32, name0: u32, name1: u32, name2: u32)
    ensures
        ({
            let b = spec_hdlr(handler, name0, name1, name2);
            let p = box_payload(b);
            &&& box_type(b) == HDLR
            &&& p.len() == 37
            &&& u32_at(p, 0) == 0
            &&& u32_at(p, 4) == 0
            &&& u32_at(p, 8) == handler
            &&& u32_at(p, 24) == name0
            &&& u32_at(p, 28) == name1
            &&& u32_at(p, 32) == name2
            &&& p[36] == 0
        }),
{
    let p = be32(0) + be32(0) + be32(handler) + zeros(12) + be32(name0) + be32(name1) + be32(name2)
        + seq![0u8];
    lemma_box_parts(HDLR, p);
    assert(p.subrange(0, 4) =~= be32(0));
    assert(p.subrange(4, 8) =~= be32(0));
    assert(p.subrange(8, 12) =~= be32(handler));
    assert(p.subrange(24, 28) =~= be32(name0));
    assert(p.subrange(28, 32) =~= be32(name1));
    assert(p.subrange(32, 36) =~= be32(name2));
    lemma_be32_roundtrip(0);
    lemma_be32_roundtrip(handler);
    lemma_be32_roundtrip(name0);
    lemma_be32_roundtrip(name1);
    lemma_be32_roundtrip(name2);
}

/// The video track's handler is `vide` named "VideoHandler", the audio
/// track's `soun` named "SoundHandler" (the names in ASCII, four bytes to a
/// word).
pub proof fn lemma_track_handlers()
    ensures
        u32_at(box_payload(spec_video_hdlr()), 8) == 0x7669_6465,
        u32_at(box_payload(spec_video_hdlr()), 24) == 0x5669_6465,
        u32_at(box_payload(spec_video_hdlr()), 28) == 0x6f48_616e,
        u32_at(box_payload(spec_video_hdlr()), 32) == 0x646c_6572,
        u32_at(box_payload(spec_sound_hdlr()), 8) == 0x736f_756e,
        u32_at(box_payload(spec_sound_hdlr()), 24) == 0x536f_756e,
        u32_at(box_payload(spec_sound_hdlr()), 28) == 0x6448_616e,
        u32_at(box_payload(spec_sound_hdlr()), 32) == 0x646c_6572,
{
    lemma_hdlr_reads_back(VIDE, 0x5669_6465, 0x6f48_616e, 0x646c_6572);
    lemma_hdlr_reads_back(SOUN, 0x536f_756e, 0x6448_616e, 0x646c_6572);
}

/// A reader of `vmhd` finds version 0 with flags 1; of `smhd`, a zero
/// balance; of `dref`, one entry, a `url ` flagged as data in this file.
pub proof fn lemma_media_headers_read_back()
    ensures
        box_type(spec_vmhd()) == VMHD,
        box_payload(spec_vmhd()).len() == 12,
        u32_at(box_payload(spec_vmhd()), 0) == 1,
        box_type(spec_smhd()) == SMHD,
        box_payload(spec_smhd()).len() == 8,
        u16_at(box_payload(spec_smhd()), 4) == 0,
        box_type(spec_dref()) == DREF,
        u32_at(box_payload(spec_dref()), 4) == 1,
        box_payload(spec_dref()).subrange(8, 20) == spec_url(),
        box_type(spec_url()) == URL,
        u32_at(box_payload(spec_url()), 0) == 1,
{
    let vp = be32(1) + be16(0) + be16(0) + be16(0) + be16(0);
    lemma_box_parts(VMHD, vp);
    assert(vp.subrange(0, 4) =~= be32(1));
    let sp = be32(0) + be16(0) + be16(0);
    lemma_box_parts(SMHD, sp);
    assert(sp.subrange(4, 6) =~= be16(0));
    let up = be32(1);
    lemma_box_parts(URL, up);
    assert(up.subrange(0, 4) =~= be32(1));
    let dp = be32(0) + be32(1) + spec_url();
    lemma_box_parts(DREF, dp);
    assert(dp.subrange(4, 8) =~= be32(1));
    assert(dp.subrange(8, 20) =~= spec_url());
    lemma_be32_roundtrip(1);
    lemma_be16_roundtrip(0);
}

/// A reader of `ftyp` finds major brand `isom`, minor version 0x200 and the
/// compatible brands `isom` and `mp41`.
pub proof fn lemma_ftyp_reads_back()
    ensures
        box_type(spec_ftyp()) == FTYP,
        box_payload(spec_ftyp()).len() == 16,
        u32_at(box_payload(spec_ftyp()), 0) == 0x6973_6f6d,
        u32_at(box_payload(spec_ftyp()), 4) == 0x200,
        u32_at(box_payload(spec_ftyp()), 8) == 0x6973_6f6d,
        u32_at(box_payload(spec_ftyp()), 12) == 0x6d70_3431,
{
    let p = be32(ISOM) + be32(0x200) + be32(ISOM) + be32(MP41);
    lemma_box_parts(FTYP, p);
    assert(p.subrange(0, 4) =~= be32(ISOM));
    assert(p.subrange(4, 8) =~= be32(0x200));
    assert(p.subrange(8, 12) =~= be32(ISOM));
    assert(p.subrange(12, 16) =~= be32(MP41));
    lemma_be32_roundtrip(ISOM);
    lemma_be32_roundtrip(0x200);
    lemma_be32_roundtrip(MP41);
}

} // verus!
