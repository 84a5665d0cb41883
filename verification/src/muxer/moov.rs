//! The movie header: track boxes and the `moov` box.

use vstd::prelude::*;

use super::entries::{
    build_audio_stsd_box, build_stsd_box, spec_audio_stsd, spec_video_stsd, Mp4AudioTrack,
    Mp4VideoTrack, VideoConfig, VideoConfigView,
};
use super::fourcc::{MDIA, MINF, MOOV, MVHD, STBL, TRAK};
use super::headers::{
    build_audio_tkhd_box, build_dinf_box, build_hdlr_box, build_mdhd_box,
    build_mdhd_box_with_timescale, build_mvhd_payload, build_smhd_box, build_sound_hdlr_box,
    build_tkhd_box, build_vmhd_box, spec_dinf, spec_mdhd, spec_mvhd_payload, spec_smhd,
    spec_sound_hdlr, spec_tkhd, spec_video_hdlr, spec_vmhd, MEDIA_TIMESCALE,
};
use super::meta::{build_udta_box, metadata_renderable, spec_udta};
use super::tables::{
    build_ctts_box, build_stco_box, build_stsc_box, build_stss_box, build_stsz_box,
    build_stts_box, spec_ctts, spec_stco, spec_stsc, spec_stss, spec_stsz, spec_stts,
    SampleTables, TablesView,
};
use crate::api::Metadata;
use crate::wire::{build_box, spec_box};

verus! {

/// Tables that the box writers can encode: fewer than 2^32 entries in the
/// run-length encoded tables.
pub open spec fn tables_encodable(t: TablesView) -> bool {
    t.durations.len() <= u32::MAX && t.cts_offsets.len() <= u32::MAX
}

/// `stbl` of the video track: `stsd`, `stts`, `ctts` when some sample has
/// pts != dts, `stsc`, `stsz`, `stco`, and `stss` when there are sync
/// samples.
pub open spec fn spec_stbl(v: Mp4VideoTrack, t: TablesView, c: VideoConfigView) -> Seq<u8> {
    spec_box(
        STBL,
        spec_video_stsd(v.width, v.height, c) + spec_stts(t.durations) + (if t.has_bframes {
            spec_ctts(t.cts_offsets)
        } else {
            Seq::empty()
        }) + spec_stsc(t.samples_per_chunk, t.chunk_offsets.len() as u32) + spec_stsz(t.sizes)
            + spec_stco(t.chunk_offsets) + (if t.keyframes.len() > 0 {
            spec_stss(t.keyframes)
        } else {
            Seq::empty()
        }),
    )
}

/// Writes the video `stbl` box.
pub fn build_stbl_box(video: &Mp4VideoTrack, tables: &SampleTables, video_config: &VideoConfig) -> (r:
    Vec<u8>)
    requires
        tables_encodable(tables@),
    ensures
        r@ == spec_stbl(*video, tables@, video_config@),
{
    let mut payload: Vec<u8> = Vec::new();
    let mut stsd = build_stsd_box(video, video_config);
    payload.append(&mut stsd);
    let mut stts = build_stts_box(&tables.durations);
    payload.append(&mut stts);
    let ghost p1 = payload@;
    if tables.has_bframes {
        let mut ctts = build_ctts_box(&tables.cts_offsets);
        payload.append(&mut ctts);
    }
    let ghost p2 = payload@;
    let mut stsc = build_stsc_box(tables.samples_per_chunk, tables.chunk_offsets.len() as u32);
    payload.append(&mut stsc);
    let mut stsz = build_stsz_box(&tables.sizes);
    payload.append(&mut stsz);
    let mut stco = build_stco_box(&tables.chunk_offsets);
    payload.append(&mut stco);
    let ghost p3 = payload@;
    if tables.keyframes.len() > 0 {
        let mut stss = build_stss_box(&tables.keyframes);
        payload.append(&mut stss);
    }
    let ghost t = tables@;
    assert(payload@ =~= spec_video_stsd(video.width, video.height, video_config@) + spec_stts(
        t.durations,
    ) + (if t.has_bframes {
        spec_ctts(t.cts_offsets)
    } else {
        Seq::empty()
    }) + spec_stsc(t.samples_per_chunk, t.chunk_offsets.len() as u32) + spec_stsz(t.sizes)
        + spec_stco(t.chunk_offsets) + (if t.keyframes.len() > 0 {
        spec_stss(t.keyframes)
    } else {
        Seq::empty()
    }));
    build_box(STBL, payload.as_slice())
}

/// `minf` of the video track: `vmhd`, `dinf`, `stbl`.
pub open spec fn spec_minf(v: Mp4VideoTrack, t: TablesView, c: VideoConfigView) -> Seq<u8> {
    spec_box(MINF, spec_vmhd() + spec_dinf() + spec_stbl(v, t, c))
}

/// Writes the video `minf` box.
pub fn build_minf_box(video: &Mp4VideoTrack, tables: &SampleTables, video_config: &VideoConfig) -> (r:
    Vec<u8>)
    requires
        tables_encodable(tables@),
    ensures
        r@ == spec_minf(*video, tables@, video_config@),
{
    let mut payload = build_vmhd_box();
    let mut dinf = build_dinf_box();
    payload.append(&mut dinf);
    let mut stbl = build_stbl_box(video, tables, video_config);
    payload.append(&mut stbl);
    build_box(MINF, payload.as_slice())
}

/// `mdia` of the video track: `mdhd` (90 kHz), `hdlr` (`vide`), `minf`.
pub open spec fn spec_mdia(v: Mp4VideoTrack, t: TablesView, c: VideoConfigView) -> Seq<u8> {
    spec_box(MDIA, spec_mdhd(MEDIA_TIMESCALE) + spec_video_hdlr() + spec_minf(v, t, c))
}

/// Writes the video `mdia` box.
pub fn build_mdia_box(video: &Mp4VideoTrack, tables: &SampleTables, video_config: &VideoConfig) -> (r:
    Vec<u8>)
    requires
        tables_encodable(tables@),
    ensures
        r@ == spec_mdia(*video, tables@, video_config@),
{
    let mut payload = build_mdhd_box();
    let mut hdlr = build_hdlr_box();
    payload.append(&mut hdlr);
    let mut minf = build_minf_box(video, tables, video_config);
    payload.append(&mut minf);
    build_box(MDIA, payload.as_slice())
}

/// `trak` of the video track: `tkhd` (track 1) and `mdia`.
pub open spec fn spec_trak(v: Mp4VideoTrack, t: TablesView, c: VideoConfigView) -> Seq<u8> {
    spec_box(TRAK, spec_tkhd(1, 0, v.width, v.height) + spec_mdia(v, t, c))
}

/// Writes the video `trak` box.
pub fn build_trak_box(video: &Mp4VideoTrack, tables: &SampleTables, video_config: &VideoConfig) -> (r:
    Vec<u8>)
    requires
        tables_encodable(tables@),
    ensures
        r@ == spec_trak(*video, tables@, video_config@),
{
    let mut payload = build_tkhd_box(video.width, video.height);
    let mut mdia = build_mdia_box(video, tables, video_config);
    payload.append(&mut mdia);
    build_box(TRAK, payload.as_slice())
}

/// `stbl` of the audio track: `stsd`, `stts`, `stsc`, `stsz`, `stco`.
pub open spec fn spec_audio_stbl(a: Mp4AudioTrack, t: TablesView) -> Seq<u8> {
    spec_box(
        STBL,
        spec_audio_stsd(a) + spec_stts(t.durations) + spec_stsc(
            t.samples_per_chunk,
            t.chunk_offsets.len() as u32,
        ) + spec_stsz(t.sizes) + spec_stco(t.chunk_offsets),
    )
}

/// Writes the audio `stbl` box.
pub fn build_audio_stbl_box(audio: &Mp4AudioTrack, tables: &SampleTables) -> (r: Vec<u8>)
    requires
        tables_encodable(tables@),
    ensures
        r@ == spec_audio_stbl(*audio, tables@),
{
    let mut payload = build_audio_stsd_box(audio);
    let mut stts = build_stts_box(&tables.durations);
    payload.append(&mut stts);
    let mut stsc = build_stsc_box(tables.samples_per_chunk, tables.chunk_offsets.len() as u32);
    payload.append(&mut stsc);
    let mut stsz = build_stsz_box(&tables.sizes);
    payload.append(&mut stsz);
    let mut stco = build_stco_box(&tables.chunk_offsets);
    payload.append(&mut stco);
    build_box(STBL, payload.as_slice())
}

/// `minf` of the audio track: `smhd`, `dinf`, `stbl`.
pub open spec fn spec_audio_minf(a: Mp4AudioTrack, t: TablesView) -> Seq<u8> {
    spec_box(MINF, spec_smhd() + spec_dinf() + spec_audio_stbl(a, t))
}

/// Writes the audio `minf` box.
pub fn build_audio_minf_box(audio: &Mp4AudioTrack, tables: &SampleTables) -> (r: Vec<u8>)
    requires
        tables_encodable(tables@),
    ensures
        r@ == spec_audio_minf(*audio, tables@),
{
    let mut payload = build_smhd_box();
    let mut dinf = build_dinf_box();
    payload.append(&mut dinf);
    let mut stbl = build_audio_stbl_box(audio, tables);
    payload.append(&mut stbl);
    build_box(MINF, payload.as_slice())
}

/// `mdia` of the audio track: `mdhd` (90 kHz), `hdlr` (`soun`), `minf`.
pub open spec fn spec_audio_mdia(a: Mp4AudioTrack, t: TablesView) -> Seq<u8> {
    spec_box(MDIA, spec_mdhd(MEDIA_TIMESCALE) + spec_sound_hdlr() + spec_audio_minf(a, t))
}

/// Writes the audio `mdia` box.
pub fn build_audio_mdia_box(audio: &Mp4AudioTrack, tables: &SampleTables) -> (r: Vec<u8>)
    requires
        tables_encodable(tables@),
    ensures
        r@ == spec_audio_mdia(*audio, tables@),
{
    let mut payload = build_mdhd_box_with_timescale(MEDIA_TIMESCALE);
    let mut hdlr = build_sound_hdlr_box();
    payload.append(&mut hdlr);
    let mut minf = build_audio_minf_box(audio, tables);
    payload.append(&mut minf);
    build_box(MDIA, payload.as_slice())
}

/// `trak` of the audio track: `tkhd` (track 2, full volume) and `mdia`.
pub open spec fn spec_audio_trak(a: Mp4AudioTrack, t: TablesView) -> Seq<u8> {
    spec_box(TRAK, spec_tkhd(2, 0x0100, 0, 0) + spec_audio_mdia(a, t))
}

/// Writes the audio `trak` box.
pub fn build_audio_trak_box(audio: &Mp4AudioTrack, tables: &SampleTables) -> (r: Vec<u8>)
    requires
        tables_encodable(tables@),
    ensures
        r@ == spec_audio_trak(*audio, tables@),
{
    let mut payload = build_audio_tkhd_box();
    let mut mdia = build_audio_mdia_box(audio, tables);
    payload.append(&mut mdia);
    build_box(TRAK, payload.as_slice())
}

/// The id after the last track's: 2 with the video track alone, 3 with an
/// audio track too.
pub open spec fn next_track_id(has_audio: bool) -> u32 {
    if has_audio {
        3
    } else {
        2
    }
}

/// What the `moov` holds: `mvhd`, the video `trak`, the audio `trak` when
/// there is an audio track, and the `udta` when there is metadata to write.
#[verifier::opaque]
pub open spec fn spec_moov_payload(
    v: Mp4VideoTrack,
    vt: TablesView,
    audio: Option<(Mp4AudioTrack, TablesView)>,
    c: VideoConfigView,
    metadata: Option<Metadata>,
) -> Seq<u8> {
    spec_box(MVHD, spec_mvhd_payload(next_track_id(audio is Some))) + spec_trak(v, vt, c) + (match audio {
        Some((a, at)) => spec_audio_trak(a, at),
        None => Seq::empty(),
    }) + (match metadata {
        Some(m) => spec_udta(m),
        None => Seq::empty(),
    })
}

/// The `moov` box.
#[verifier::opaque]
pub open spec fn spec_moov(
    v: Mp4VideoTrack,
    vt: TablesView,
    audio: Option<(Mp4AudioTrack, TablesView)>,
    c: VideoConfigView,
    metadata: Option<Metadata>,
) -> Seq<u8> {
    spec_box(MOOV, spec_moov_payload(v, vt, audio, c, metadata))
}

/// The `moov` box frames its payload.
pub proof fn lemma_moov_is_box(
    v: Mp4VideoTrack,
    vt: TablesView,
    audio: Option<(Mp4AudioTrack, TablesView)>,
    c: VideoConfigView,
    metadata: Option<Metadata>,
)
    ensures
        spec_moov(v, vt, audio, c, metadata) == spec_box(MOOV, spec_moov_payload(v, vt, audio, c, metadata)),
{
    reveal(spec_moov);
}

/// The `moov` payload starts with the `mvhd`.
pub proof fn lemma_moov_payload_starts_with(
    v: Mp4VideoTrack,
    vt: TablesView,
    audio: Option<(Mp4AudioTrack, TablesView)>,
    c: VideoConfigView,
    metadata: Option<Metadata>,
    mvhd: Seq<u8>,
)
    requires
        mvhd == spec_box(MVHD, spec_mvhd_payload(next_track_id(audio is Some))),
    ensures
        spec_moov_payload(v, vt, audio, c, metadata).subrange(0, mvhd.len() as int) == mvhd,
{
    reveal(spec_moov_payload);
    let p = spec_moov_payload(v, vt, audio, c, metadata);
    assert(p.subrange(0, mvhd.len() as int) =~= mvhd);
}

/// Writes the `moov` box.
pub fn build_moov_box(
    video: &Mp4VideoTrack,
    video_tables: &SampleTables,
    audio: Option<(&Mp4AudioTrack, &SampleTables)>,
    video_config: &VideoConfig,
    metadata: Option<&Metadata>,
) -> (r: Vec<u8>)
    requires
        tables_encodable(video_tables@),
        audio matches Some((_, at)) ==> tables_encodable(at@),
        metadata matches Some(m) ==> metadata_renderable(*m),
    ensures
        r@ == spec_moov(
            *video,
            video_tables@,
            match audio {
                Some((a, at)) => Some((*a, at@)),
                None => None,
            },
            video_config@,
            match metadata {
                Some(m) => Some(*m),
                None => None,
            },
        ),
{
    let mvhd_payload = build_mvhd_payload(if audio.is_some() {
        3
    } else {
        2
    });
    let mut payload = build_box(MVHD, mvhd_payload.as_slice());
    let mut trak = build_trak_box(video, video_tables, video_config);
    payload.append(&mut trak);
    let ghost p1 = payload@;
    match audio {
        Some((audio_track, audio_tables)) => {
            let mut audio_trak = build_audio_trak_box(audio_track, audio_tables);
            payload.append(&mut audio_trak);
        },
        None => {},
    }
    let ghost p2 = payload@;
    match metadata {
        Some(meta) => {
            let mut udta = build_udta_box(meta);
            if udta.len() > 0 {
                payload.append(&mut udta);
            }
        },
        None => {},
    }
    proof {
        reveal(spec_moov);
        reveal(spec_moov_payload);
        if let Some(m) = metadata {
            if spec_udta(*m).len() == 0 {
                assert(payload@ =~= p2 + spec_udta(*m));
            }
        } else {
            assert(payload@ =~= p2 + Seq::<u8>::empty());
        }
        if audio is None {
            assert(p2 =~= p1 + Seq::<u8>::empty());
        }
    }
    build_box(MOOV, payload.as_slice())
}

} // verus!
