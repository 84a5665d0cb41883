//! Properties of the writer that span its operations: what every operation
//! keeps, and how the finished file relates to what was queued.

use vstd::prelude::*;

use super::entries::{Mp4AudioTrack, Mp4VideoTrack, VideoConfigView};
use super::fourcc::{FTYP, ISOM, MDAT, MOOV, MP41};
use super::headers::spec_ftyp;
use super::interleave::{
    lemma_interleaved_slice, lemma_schedule_entry_unique, lemma_walk_cursor, lemma_walk_offset_final,
    track_entries, track_samples, walk_offsets_of,
};
use super::layout::{
    concat_data, entry_data, fast_start_moov_len, file_config, file_moov, file_tables,
    interleaved_bytes, layout_fits, lemma_sched_leq_total, mdat_data_start, payload_size,
    lemma_schedule_valid, lemma_walk_lens, placeholder_tables, prefix_size, sched_leq, schedule,
    schedule_entries, spec_file, spec_mdat, total_size, walk, Entry,
};
use super::moov::{lemma_moov_is_box, spec_moov_payload, spec_audio_stbl, spec_audio_trak, spec_moov, spec_stbl, spec_trak};
use super::mp4::{
    audio_write_spec, track_wf, video_write_spec, with_last_duration, writer_wf, Mp4WriterError,
    WriterState,
};
use super::tables::{cts_offset, keyframe_numbers, lemma_words_len, spec_stco, SampleView, TablesView};
use crate::api::Metadata;
use crate::inspect::{has_top_box, spec_scan_boxes, TopBox};
use crate::wire::{be32, box_size_field, lemma_be32_roundtrip, read_be32, spec_box};

verus! {

/// Setting the last duration keeps the decode times and the bytes of every
/// sample, and every other sample's duration.
proof fn lemma_with_last_duration(s: Seq<SampleView>, d: u32)
    ensures
        with_last_duration(s, d).len() == s.len(),
        forall|i: int|
            0 <= i < s.len() ==> (#[trigger] with_last_duration(s, d)[i]).dts == s[i].dts
                && with_last_duration(s, d)[i].pts == s[i].pts && with_last_duration(s, d)[i].data
                == s[i].data && with_last_duration(s, d)[i].is_keyframe == s[i].is_keyframe,
        forall|i: int|
            0 <= i < s.len() - 1 ==> (#[trigger] with_last_duration(s, d)[i]).duration
                == s[i].duration,
        s.len() > 0 ==> with_last_duration(s, d).last().duration == Some(d),
{
}

/// Appending a sample `d` ticks after the last one (or to an empty queue)
/// keeps a queue consistent.
proof fn lemma_track_push(s: Seq<SampleView>, prev: Option<u64>, strict: bool, x: SampleView)
    requires
        track_wf(s, prev, strict),
        x.data.len() <= u32::MAX,
        s.len() > 0 ==> (if strict {
            s.last().dts < x.dts
        } else {
            s.last().dts <= x.dts
        }) && x.dts - s.last().dts <= u32::MAX,
    ensures
        track_wf(
            with_last_duration(s, (if s.len() > 0 {
                (x.dts - s.last().dts) as u32
            } else {
                0u32
            })).push(x),
            Some(x.dts),
            strict,
        ),
{
    let d: u32 = if s.len() > 0 {
        (x.dts - s.last().dts) as u32
    } else {
        0u32
    };
    lemma_with_last_duration(s, d);
    let t = with_last_duration(s, d);
    let u = t.push(x);
    if s.len() == 0 {
        assert(t =~= s);
    }
    assert forall|i: int, j: int| 0 <= i < j < u.len() implies if strict {
        u[i].dts < u[j].dts
    } else {
        u[i].dts <= u[j].dts
    } by {
        if j < s.len() {
            assert(t[i].dts == s[i].dts && t[j].dts == s[j].dts);
        } else {
            assert(t[i].dts == s[i].dts);
            if i < s.len() - 1 {
                assert(s.last() == s[s.len() - 1]);
            }
        }
    }
    assert forall|i: int| 0 <= i < u.len() - 1 implies #[trigger] u[i].duration == Some(
        (u[i + 1].dts - u[i].dts) as u32,
    ) && u[i + 1].dts - u[i].dts <= u32::MAX by {
        if i < s.len() - 1 {
            assert(t[i] == u[i] && t[i + 1] == u[i + 1]);
        } else {
            assert(i == s.len() - 1);
            assert(u[i] == t.last());
        }
    }
    assert forall|i: int| 0 <= i < u.len() implies (#[trigger] u[i]).data.len() <= u32::MAX by {
        if i < s.len() {
            assert(u[i] == t[i]);
        }
    }
}

/// Setting the last duration to the distance to a later decode time keeps a
/// queue consistent.
proof fn lemma_track_touch(s: Seq<SampleView>, prev: Option<u64>, strict: bool, dts: u64)
    requires
        track_wf(s, prev, strict),
        s.len() > 0,
        s.last().dts <= dts,
        dts - s.last().dts <= u32::MAX,
    ensures
        track_wf(with_last_duration(s, (dts - s.last().dts) as u32), prev, strict),
{
    let d = (dts - s.last().dts) as u32;
    lemma_with_last_duration(s, d);
    let t = with_last_duration(s, d);
    assert forall|i: int, j: int| 0 <= i < j < t.len() implies if strict {
        t[i].dts < t[j].dts
    } else {
        t[i].dts <= t[j].dts
    } by {
        assert(t[i].dts == s[i].dts && t[j].dts == s[j].dts);
    }
    assert forall|i: int| 0 <= i < t.len() - 1 implies #[trigger] t[i].duration == Some(
        (t[i + 1].dts - t[i].dts) as u32,
    ) && t[i + 1].dts - t[i].dts <= u32::MAX by {
        assert(t[i + 1].dts == s[i + 1].dts);
        assert(s[i].duration == Some((s[i + 1].dts - s[i].dts) as u32));
    }
    assert forall|i: int| 0 <= i < t.len() implies (#[trigger] t[i]).data.len() <= u32::MAX by {
        assert(t[i].data == s[i].data);
    }
    assert(t.last() == t[t.len() - 1]);
}

/// Every outcome of queuing a video frame, accepted or refused, leaves a
/// consistent writer consistent.
pub proof fn lemma_video_write_keeps_wf(
    old: WriterState,
    new: WriterState,
    r: Result<(), Mp4WriterError>,
    pts: u64,
    dts: u64,
    data: Seq<u8>,
    is_keyframe: bool,
)
    requires
        writer_wf(old),
        video_write_spec(old, new, r, pts, dts, data, is_keyframe),
    ensures
        writer_wf(new),
{
    if new != old {
        let s = old.video_samples;
        match old.video_prev_dts {
            Some(prev) => {
                assert(s.len() > 0 && s.last().dts == prev);
                let d = (dts - prev) as u32;
                lemma_with_last_duration(s, d);
                if new.video_samples.len() == s.len() {
                    lemma_track_touch(s, old.video_prev_dts, true, dts);
                } else {
                    let x = new.video_samples.last();
                    assert(new.video_samples =~= with_last_duration(s, d).push(x));
                    lemma_track_push(s, old.video_prev_dts, true, x);
                    assert(new.video_samples[0] == with_last_duration(s, d)[0]);
                }
            },
            None => {
                if new.video_samples.len() > s.len() {
                    let x = new.video_samples.last();
                    assert(s.len() == 0);
                    assert(with_last_duration(s, 0) =~= s);
                    assert(new.video_samples =~= with_last_duration(s, 0).push(x));
                    lemma_track_push(s, old.video_prev_dts, true, x);
                    assert(new.video_samples[0] == x);
                }
            },
        }
    }
}

/// Every outcome of queuing an audio frame, accepted or refused, leaves a
/// consistent writer consistent.
pub proof fn lemma_audio_write_keeps_wf(
    old: WriterState,
    new: WriterState,
    r: Result<(), Mp4WriterError>,
    pts: u64,
    data: Seq<u8>,
)
    requires
        writer_wf(old),
        audio_write_spec(old, new, r, pts, data),
    ensures
        writer_wf(new),
{
    if new != old {
        let s = old.audio_samples;
        let codec = old.audio_track->0.codec;
        match old.audio_prev_pts {
            Some(prev) => {
                assert(s.len() > 0 && s.last().dts == prev);
                let d = (pts - prev) as u32;
                lemma_with_last_duration(s, d);
                if new.audio_samples.len() == s.len() {
                    lemma_track_touch(s, old.audio_prev_pts, false, pts);
                } else {
                    let x = new.audio_samples.last();
                    assert(new.audio_samples =~= with_last_duration(s, d).push(x));
                    lemma_track_push(s, old.audio_prev_pts, false, x);
                    assert forall|i: int| 0 <= i < new.audio_samples.len() implies (
                    #[trigger] new.audio_samples[i]).pts == new.audio_samples[i].dts
                        && !new.audio_samples[i].is_keyframe by {
                        if i < s.len() {
                            assert(new.audio_samples[i] == with_last_duration(s, d)[i]);
                        }
                    }
                }
            },
            None => {
                if new.audio_samples.len() > s.len() {
                    let x = new.audio_samples.last();
                    assert(s.len() == 0);
                    assert(with_last_duration(s, 0) =~= s);
                    assert(new.audio_samples =~= with_last_duration(s, 0).push(x));
                    lemma_track_push(s, old.audio_prev_pts, false, x);
                    assert forall|i: int| 0 <= i < new.audio_samples.len() implies (
                    #[trigger] new.audio_samples[i]).pts == new.audio_samples[i].dts
                        && !new.audio_samples[i].is_keyframe by {
                        assert(i == 0);
                    }
                }
            },
        }
    }
}

/// Adding an audio track keeps a consistent writer consistent.
pub proof fn lemma_enable_audio_keeps_wf(old: WriterState, track: Mp4AudioTrack)
    requires
        writer_wf(old),
    ensures
        writer_wf(WriterState { audio_track: Some(track), ..old }),
{
}


/// The samples' bytes, one after the other, are as long as the samples in
/// total.
pub proof fn lemma_concat_len(s: Seq<SampleView>)
    ensures
        concat_data(s).len() == total_size(s),
    decreases s.len(),
{
    if s.len() > 0 {
        lemma_concat_len(s.drop_last());
    }
}

/// Sample `i`'s bytes lie in the concatenation right after the bytes of the
/// samples before it.
pub proof fn lemma_concat_slice(s: Seq<SampleView>, i: int)
    requires
        0 <= i < s.len(),
    ensures
        prefix_size(s, i) + s[i].data.len() == prefix_size(s, i + 1),
        prefix_size(s, i + 1) <= total_size(s),
        concat_data(s).subrange(prefix_size(s, i) as int, prefix_size(s, i + 1) as int) == s[i].data,
    decreases s.len(),
{
    let p = s.drop_last();
    lemma_concat_len(p);
    if i == s.len() - 1 {
        assert(s.take(i) =~= p);
        assert(s.take(i + 1) =~= s);
        assert(s.take(i + 1).drop_last() =~= p);
        assert(concat_data(s).subrange(prefix_size(s, i) as int, prefix_size(s, i + 1) as int)
            =~= s[i].data);
    } else {
        lemma_concat_slice(p, i);
        assert(s.take(i) =~= p.take(i));
        assert(s.take(i + 1) =~= p.take(i + 1));
        assert(p[i] == s[i]);
        assert(concat_data(s).subrange(prefix_size(s, i) as int, prefix_size(s, i + 1) as int)
            =~= concat_data(p).subrange(prefix_size(p, i) as int, prefix_size(p, i + 1) as int));
    }
}


/// Two tables that differ at most in the values of their chunk offsets.
pub open spec fn same_but_offsets(t1: TablesView, t2: TablesView) -> bool {
    &&& t1.durations == t2.durations
    &&& t1.sizes == t2.sizes
    &&& t1.keyframes == t2.keyframes
    &&& t1.chunk_offsets.len() == t2.chunk_offsets.len()
    &&& t1.samples_per_chunk == t2.samples_per_chunk
    &&& t1.cts_offsets == t2.cts_offsets
    &&& t1.has_bframes == t2.has_bframes
}

/// The length of a `moov` does not depend on the values of the chunk
/// offsets it records.
pub proof fn lemma_moov_len_ignores_offsets(
    v: Mp4VideoTrack,
    vt1: TablesView,
    vt2: TablesView,
    audio1: Option<(Mp4AudioTrack, TablesView)>,
    audio2: Option<(Mp4AudioTrack, TablesView)>,
    c: VideoConfigView,
    meta: Option<Metadata>,
)
    requires
        same_but_offsets(vt1, vt2),
        audio1 is None <==> audio2 is None,
        audio1 matches Some((a1, at1)) ==> audio2 matches Some((a2, at2)) && a1 == a2 && same_but_offsets(
            at1,
            at2,
        ),
    ensures
        spec_moov(v, vt1, audio1, c, meta).len() == spec_moov(v, vt2, audio2, c, meta).len(),
{
    reveal(spec_moov);
    reveal(spec_moov_payload);
    lemma_words_len(vt1.chunk_offsets);
    lemma_words_len(vt2.chunk_offsets);
    assert(spec_stco(vt1.chunk_offsets).len() == spec_stco(vt2.chunk_offsets).len());
    assert(spec_stbl(v, vt1, c).len() == spec_stbl(v, vt2, c).len());
    assert(spec_trak(v, vt1, c).len() == spec_trak(v, vt2, c).len());
    match (audio1, audio2) {
        (Some((a1, at1)), Some((a2, at2))) => {
            lemma_words_len(at1.chunk_offsets);
            lemma_words_len(at2.chunk_offsets);
            assert(spec_stco(at1.chunk_offsets).len() == spec_stco(at2.chunk_offsets).len());
            assert(spec_audio_stbl(a1, at1).len() == spec_audio_stbl(a2, at2).len());
            assert(spec_audio_trak(a1, at1).len() == spec_audio_trak(a2, at2).len());
        },
        _ => {},
    }
}

/// With fast start, the `moov` written is exactly as long as the one first
/// measured with placeholder offsets, so the `mdat` payload starts where the
/// recorded offsets place it.
pub proof fn lemma_fast_start_moov_len(w: WriterState, v: Mp4VideoTrack, meta: Option<Metadata>)
    ensures
        file_moov(w, v, meta, true).len() == fast_start_moov_len(w, v, meta),
{
    let (pvt, pat) = placeholder_tables(w);
    let (fvt, fat) = file_tables(w, v, meta, true);
    let start = mdat_data_start(w, v, meta, true);
    let sched = schedule(w);
    lemma_schedule_valid(w);
    lemma_walk_lens(w, sched, 0, true, sched.len() as int);
    lemma_walk_lens(w, sched, start, false, sched.len() as int);
    lemma_moov_len_ignores_offsets(v, fvt, pvt, fat, pat, file_config(w), meta);
}


/// Without an audio track, all video samples form one chunk: its recorded
/// offset points at the first sample's bytes in the file, and each sample's
/// bytes follow those of the samples before it.
pub proof fn lemma_video_chunk_points_at_samples(
    w: WriterState,
    v: Mp4VideoTrack,
    meta: Option<Metadata>,
    fast_start: bool,
    i: int,
)
    requires
        w.audio_track is None,
        layout_fits(w, v, meta, fast_start),
        0 <= i < w.video_samples.len(),
    ensures
        ({
            let t = file_tables(w, v, meta, fast_start).0;
            let f = spec_file(w, v, meta, fast_start);
            let o = t.chunk_offsets[0] + prefix_size(w.video_samples, i);
            &&& t.chunk_offsets.len() == 1
            &&& t.samples_per_chunk == w.video_samples.len()
            &&& o + w.video_samples[i].data.len() <= f.len()
            &&& f.subrange(o, o + w.video_samples[i].data.len()) == w.video_samples[i].data
        }),
{
    let s = w.video_samples;
    let f = spec_file(w, v, meta, fast_start);
    let moov = file_moov(w, v, meta, fast_start);
    let mdat = spec_mdat(w);
    lemma_concat_slice(s, i);
    lemma_concat_len(s);
    let a = prefix_size(s, i) as int;
    let b = prefix_size(s, i + 1) as int;
    let body = concat_data(s);
    assert(mdat == be32((8 + payload_size(w)) as u32) + be32(MDAT) + body);
    assert(spec_ftyp().len() == 24);
    if fast_start {
        lemma_fast_start_moov_len(w, v, meta);
        let m = moov.len() as int;
        assert(f == spec_ftyp() + moov + mdat);
        assert(f.subrange(32 + m + a, 32 + m + b) =~= body.subrange(a, b));
    } else {
        assert(f == spec_ftyp() + mdat + moov);
        assert(f.subrange(32 + a, 32 + b) =~= body.subrange(a, b));
    }
}


/// Bytes of the samples that the entries name.
pub open spec fn entries_size(w: WriterState, s: Seq<Entry>) -> nat
    decreases s.len(),
{
    if s.len() == 0 {
        0
    } else {
        entries_size(w, s.drop_last()) + entry_data(w, s.last()).len()
    }
}

proof fn lemma_interleaved_len(w: WriterState, s: Seq<Entry>, k: int)
    requires
        0 <= k <= s.len(),
    ensures
        interleaved_bytes(w, s, k).len() == entries_size(w, s.take(k)),
    decreases k,
{
    if k > 0 {
        lemma_interleaved_len(w, s, k - 1);
        assert(s.take(k).drop_last() =~= s.take(k - 1));
    }
}

proof fn lemma_entries_size_append(w: WriterState, s1: Seq<Entry>, s2: Seq<Entry>)
    ensures
        entries_size(w, s1 + s2) == entries_size(w, s1) + entries_size(w, s2),
    decreases s2.len(),
{
    if s2.len() == 0 {
        assert(s1 + s2 =~= s1);
    } else {
        lemma_entries_size_append(w, s1, s2.drop_last());
        assert((s1 + s2).drop_last() =~= s1 + s2.drop_last());
    }
}

proof fn lemma_entries_size_remove(w: WriterState, s: Seq<Entry>, j: int)
    requires
        0 <= j < s.len(),
    ensures
        entries_size(w, s) == entries_size(w, s.remove(j)) + entry_data(w, s[j]).len(),
    decreases s.len(),
{
    if j == s.len() - 1 {
        assert(s.remove(j) =~= s.drop_last());
    } else {
        lemma_entries_size_remove(w, s.drop_last(), j);
        assert(s.remove(j).drop_last() =~= s.drop_last().remove(j));
        assert(s.remove(j).last() == s.last());
    }
}

/// Reordering entries keeps the bytes they name in total.
proof fn lemma_entries_size_permutation(w: WriterState, s1: Seq<Entry>, s2: Seq<Entry>)
    requires
        s1.to_multiset() == s2.to_multiset(),
    ensures
        entries_size(w, s1) == entries_size(w, s2),
    decreases s1.len(),
{
    broadcast use vstd::seq_lib::group_to_multiset_ensures;

    vstd::seq_lib::to_multiset_len(s1);
    vstd::seq_lib::to_multiset_len(s2);
    if s1.len() == 0 {
        assert(s2.len() == 0);
    } else {
        let x = s1.last();
        assert(s1 =~= s1.drop_last().push(x));
        assert(s1.to_multiset().count(x) > 0);
        assert(s2.contains(x));
        let j = choose|j: int| 0 <= j < s2.len() && s2[j] == x;
        assert(s2.remove(j).to_multiset() =~= s2.to_multiset().remove(x));
        assert(s1.drop_last().to_multiset() =~= s1.to_multiset().remove(x));
        lemma_entries_size_permutation(w, s1.drop_last(), s2.remove(j));
        lemma_entries_size_remove(w, s2, j);
    }
}

proof fn lemma_entries_size_video(w: WriterState, k: int)
    requires
        0 <= k <= w.video_samples.len(),
        w.video_samples.len() <= u32::MAX,
    ensures
        entries_size(w, Seq::new(k as nat, |i: int| (w.video_samples[i].pts, 0u8, i as usize)))
            == total_size(w.video_samples.take(k)),
    decreases k,
{
    if k > 0 {
        lemma_entries_size_video(w, k - 1);
        assert(Seq::new(k as nat, |i: int| (w.video_samples[i].pts, 0u8, i as usize)).drop_last()
            =~= Seq::new((k - 1) as nat, |i: int| (w.video_samples[i].pts, 0u8, i as usize)));
        assert(w.video_samples.take(k).drop_last() =~= w.video_samples.take(k - 1));
    }
}

proof fn lemma_entries_size_audio(w: WriterState, k: int)
    requires
        0 <= k <= w.audio_samples.len(),
        w.audio_samples.len() <= u32::MAX,
    ensures
        entries_size(w, Seq::new(k as nat, |i: int| (w.audio_samples[i].pts, 1u8, i as usize)))
            == total_size(w.audio_samples.take(k)),
    decreases k,
{
    if k > 0 {
        lemma_entries_size_audio(w, k - 1);
        assert(Seq::new(k as nat, |i: int| (w.audio_samples[i].pts, 1u8, i as usize)).drop_last()
            =~= Seq::new((k - 1) as nat, |i: int| (w.audio_samples[i].pts, 1u8, i as usize)));
        assert(w.audio_samples.take(k).drop_last() =~= w.audio_samples.take(k - 1));
    }
}

/// The interleaved samples are, in total, as long as all queued samples.
pub proof fn lemma_interleaved_payload_len(w: WriterState)
    requires
        w.video_samples.len() <= u32::MAX,
        w.audio_samples.len() <= u32::MAX,
    ensures
        interleaved_bytes(w, schedule(w), schedule(w).len() as int).len() == payload_size(w),
{
    let e = schedule_entries(w);
    let s = schedule(w);
    lemma_sched_leq_total();
    e.lemma_sort_by_ensures(|a: Entry, b: Entry| sched_leq(a, b));
    lemma_interleaved_len(w, s, s.len() as int);
    assert(s.take(s.len() as int) =~= s);
    lemma_entries_size_permutation(w, e, s);
    let nv = w.video_samples.len() as int;
    let na = w.audio_samples.len() as int;
    lemma_entries_size_append(
        w,
        Seq::new(nv as nat, |i: int| (w.video_samples[i].pts, 0u8, i as usize)),
        Seq::new(na as nat, |i: int| (w.audio_samples[i].pts, 1u8, i as usize)),
    );
    lemma_entries_size_video(w, nv);
    lemma_entries_size_audio(w, na);
    assert(w.video_samples.take(nv) =~= w.video_samples);
    assert(w.audio_samples.take(na) =~= w.audio_samples);
}

/// The `mdat` box is framed as the format requires: its size field is its
/// length, 8 header bytes plus the bytes of every queued sample, and its
/// type is `mdat`.
pub proof fn lemma_mdat_framing(w: WriterState)
    requires
        writer_wf(w),
        w.video_samples.len() <= u32::MAX,
        w.audio_samples.len() <= u32::MAX,
        payload_size(w) + 8 <= u32::MAX,
    ensures
        spec_mdat(w).len() == 8 + payload_size(w),
        read_be32(spec_mdat(w).subrange(0, 4)) == spec_mdat(w).len(),
        spec_mdat(w).subrange(4, 8) == be32(MDAT),
{
    let m = spec_mdat(w);
    let size = (8 + payload_size(w)) as u32;
    match w.audio_track {
        None => {
            lemma_concat_len(w.video_samples);
            assert(w.audio_samples.len() == 0);
        },
        Some(_) => {
            lemma_interleaved_payload_len(w);
        },
    }
    lemma_be32_roundtrip(size);
    assert(m.subrange(0, 4) =~= be32(size));
    assert(m.subrange(4, 8) =~= be32(MDAT));
}


/// The tables recorded for track `t` (0 video, 1 audio).
pub open spec fn track_tables(w: WriterState, v: Mp4VideoTrack, meta: Option<Metadata>, fast_start: bool, t: u8) -> TablesView {
    if t == 0 {
        file_tables(w, v, meta, fast_start).0
    } else {
        match file_tables(w, v, meta, fast_start).1 {
            Some(pair) => pair.1,
            None => file_tables(w, v, meta, fast_start).0,
        }
    }
}

/// With an audio track every sample is a chunk of its own, and the offset
/// recorded for sample `m` of track `t` points at that sample's bytes.
proof fn lemma_track_offset_points_at_sample(
    w: WriterState,
    v: Mp4VideoTrack,
    meta: Option<Metadata>,
    fast_start: bool,
    t: u8,
    m: int,
)
    requires
        t == 0 || t == 1,
        w.audio_track is Some,
        layout_fits(w, v, meta, fast_start),
        0 <= m < track_samples(w, t).len(),
    ensures
        ({
            let tables = track_tables(w, v, meta, fast_start, t);
            let f = spec_file(w, v, meta, fast_start);
            let x = track_samples(w, t)[m];
            &&& tables.chunk_offsets.len() == track_samples(w, t).len()
            &&& tables.samples_per_chunk == 1
            &&& tables.chunk_offsets[m] + x.data.len() <= f.len()
            &&& f.subrange(tables.chunk_offsets[m] as int, tables.chunk_offsets[m] + x.data.len()) == x.data
        }),
{
    let sch = schedule(w);
    let n = sch.len() as int;
    let start = mdat_data_start(w, v, meta, fast_start);
    let f = spec_file(w, v, meta, fast_start);
    let tables = track_tables(w, v, meta, fast_start, t);
    let x = track_samples(w, t)[m];
    assert(tables.chunk_offsets == walk_offsets_of(w, sch, start, false, n, t));
    lemma_schedule_valid(w);
    lemma_walk_lens(w, sch, start, false, n);
    let k = lemma_schedule_entry_unique(w, t, m);
    assert(sch[k] == track_entries(w, t)[m]);
    lemma_walk_offset_final(w, sch, start, false, t, m, k, n);
    lemma_walk_cursor(w, sch, start, k);
    lemma_walk_cursor(w, sch, start, n);
    lemma_interleaved_slice(w, sch, k, n);
    let ib = interleaved_bytes(w, sch, n);
    let a = interleaved_bytes(w, sch, k).len() as int;
    let b = interleaved_bytes(w, sch, k + 1).len() as int;
    assert(entry_data(w, sch[k]) == x.data);
    assert(tables.chunk_offsets[m] == start + a);
    lemma_interleaved_payload_len(w);
    let mdat = spec_mdat(w);
    assert(mdat == be32((8 + payload_size(w)) as u32) + be32(MDAT) + ib);
    assert(spec_ftyp().len() == 24);
    if fast_start {
        lemma_fast_start_moov_len(w, v, meta);
        let ml = file_moov(w, v, meta, true).len() as int;
        assert(f == spec_ftyp() + file_moov(w, v, meta, true) + mdat);
        assert(f.subrange(32 + ml + a, 32 + ml + b) =~= ib.subrange(a, b));
    } else {
        assert(f == spec_ftyp() + mdat + file_moov(w, v, meta, false));
        assert(f.subrange(32 + a, 32 + b) =~= ib.subrange(a, b));
    }
}

/// The sum of the sample sizes listed from `a` up to (not including) `b`.
pub open spec fn sizes_between(sizes: Seq<u32>, a: int, b: int) -> nat
    decreases b - a,
{
    if b <= a {
        0
    } else {
        sizes_between(sizes, a, b - 1) + sizes[b - 1] as nat
    }
}

/// Where a reader of the tables finds sample `m`: the offset of its chunk
/// (`stco`, with `samples_per_chunk` samples per chunk as `stsc` gives it)
/// plus the sizes (`stsz`) of the samples before it in that chunk.
pub open spec fn recorded_offset(t: TablesView, m: int) -> int {
    let c = m / t.samples_per_chunk as int;
    t.chunk_offsets[c] + sizes_between(t.sizes, c * t.samples_per_chunk, m)
}

/// A sample no larger than the payload has its size listed exactly.
proof fn lemma_listed_sizes(s: Seq<SampleView>, k: int)
    requires
        0 <= k <= s.len(),
        total_size(s) <= u32::MAX,
    ensures
        sizes_between(Seq::new(s.len(), |i: int| s[i].data.len() as u32), 0, k) == prefix_size(s, k),
        forall|i: int| 0 <= i < s.len() ==> #[trigger] s[i].data.len() <= u32::MAX,
    decreases k,
{
    assert forall|i: int| 0 <= i < s.len() implies #[trigger] s[i].data.len() <= u32::MAX by {
        lemma_concat_slice(s, i);
    }
    if k == 0 {
        assert(s.take(0) =~= Seq::<SampleView>::empty());
    } else {
        lemma_listed_sizes(s, k - 1);
        lemma_concat_slice(s, k - 1);
    }
}

/// Every queued sample of either track lies in the finished file where its
/// tables place it: at the offset that `stco` and `stsc` give, for as many
/// bytes as `stsz` lists, in decode order, in both layouts and whatever the
/// presentation order of the video samples.
pub proof fn lemma_samples_at_recorded_offsets(
    w: WriterState,
    v: Mp4VideoTrack,
    meta: Option<Metadata>,
    fast_start: bool,
    t: u8,
    m: int,
)
    requires
        t == 0 || (t == 1 && w.audio_track is Some),
        layout_fits(w, v, meta, fast_start),
        0 <= m < track_samples(w, t).len(),
    ensures
        ({
            let tables = track_tables(w, v, meta, fast_start, t);
            let f = spec_file(w, v, meta, fast_start);
            let x = track_samples(w, t)[m];
            let o = recorded_offset(tables, m);
            &&& tables.samples_per_chunk >= 1
            &&& 0 <= m / (tables.samples_per_chunk as int) < tables.chunk_offsets.len()
            &&& tables.sizes.len() == track_samples(w, t).len()
            &&& tables.sizes[m] == x.data.len()
            &&& 0 <= o
            &&& o + tables.sizes[m] <= f.len()
            &&& f.subrange(o, o + tables.sizes[m]) == x.data
        }),
{
    let s = track_samples(w, t);
    let tables = track_tables(w, v, meta, fast_start, t);
    assert(total_size(w.video_samples) <= payload_size(w));
    assert(total_size(w.audio_samples) <= payload_size(w));
    lemma_listed_sizes(s, m);
    assert(tables.sizes == Seq::new(s.len(), |i: int| s[i].data.len() as u32));
    assert(tables.sizes[m] == s[m].data.len());
    match w.audio_track {
        Some(_) => {
            lemma_track_offset_points_at_sample(w, v, meta, fast_start, t, m);
            assert(tables.samples_per_chunk == 1);
            assert(m / (tables.samples_per_chunk as int) == m);
            assert(m * (tables.samples_per_chunk as int) == m);
            assert(sizes_between(tables.sizes, m, m) == 0);
            assert(recorded_offset(tables, m) == tables.chunk_offsets[m]);
        },
        None => {
            lemma_video_chunk_points_at_samples(w, v, meta, fast_start, m);
            let n = s.len() as int;
            assert(tables.samples_per_chunk as int == n);
            assert(m / n == 0) by (nonlinear_arith)
                requires
                    0 <= m < n,
            ;
            assert(0int * n == 0);
        },
    }
}

/// The sync sample table lists, in increasing order, the 1-based number of
/// every keyframe among the first `k` samples, and nothing else.
pub proof fn lemma_keyframe_numbers_exact(samples: Seq<SampleView>, k: int)
    requires
        0 <= k <= samples.len(),
        samples.len() < u32::MAX,
    ensures
        forall|j: int|
            0 <= j < k ==> (#[trigger] samples[j].is_keyframe <==> keyframe_numbers(samples, k).contains(
                (j + 1) as u32,
            )),
        forall|a: int, b: int|
            0 <= a < b < keyframe_numbers(samples, k).len() ==> #[trigger] keyframe_numbers(samples, k)[a]
                < #[trigger] keyframe_numbers(samples, k)[b],
        forall|a: int|
            0 <= a < keyframe_numbers(samples, k).len() ==> 1 <= #[trigger] keyframe_numbers(samples, k)[a]
                <= k,
    decreases k,
{
    if k > 0 {
        lemma_keyframe_numbers_exact(samples, k - 1);
        let prev = keyframe_numbers(samples, k - 1);
        let cur = keyframe_numbers(samples, k);
        assert forall|j: int| 0 <= j < k implies (samples[j].is_keyframe <==> cur.contains(
            (j + 1) as u32,
        )) by {
            if j < k - 1 {
                if cur.contains((j + 1) as u32) && !prev.contains((j + 1) as u32) {
                    let q = choose|q: int| 0 <= q < cur.len() && cur[q] == (j + 1) as u32;
                    assert(q == prev.len());
                }
                if prev.contains((j + 1) as u32) {
                    let q = choose|q: int| 0 <= q < prev.len() && prev[q] == (j + 1) as u32;
                    assert(cur[q] == prev[q]);
                }
            } else if samples[j].is_keyframe {
                assert(cur[prev.len() as int] == (j + 1) as u32);
            } else {
                if cur.contains((j + 1) as u32) {
                    let q = choose|q: int| 0 <= q < cur.len() && cur[q] == (j + 1) as u32;
                    assert(prev[q] <= k - 1);
                }
            }
        }
    }
}

/// In the tables of a finished file, every sample but the last lasts
/// exactly until the next one's decode time, and every size is the sample's
/// byte count.
pub proof fn lemma_video_durations_are_decode_deltas(
    w: WriterState,
    v: Mp4VideoTrack,
    meta: Option<Metadata>,
    fast_start: bool,
    i: int,
)
    requires
        writer_wf(w),
        0 <= i < w.video_samples.len(),
    ensures
        ({
            let t = file_tables(w, v, meta, fast_start).0;
            let s = w.video_samples;
            &&& t.durations.len() == s.len()
            &&& i < s.len() - 1 ==> t.durations[i] == s[i + 1].dts - s[i].dts
            &&& t.sizes[i] == s[i].data.len()
            &&& t.cts_offsets[i] == cts_offset(s[i])
        }),
{
    let s = w.video_samples;
    assert(s[i].data.len() <= u32::MAX);
    if i < s.len() - 1 {
        assert(s[i].duration == Some((s[i + 1].dts - s[i].dts) as u32));
    }
}


/// Once finalised, a writer refuses every video frame and stays as it is.
pub proof fn lemma_finalized_refuses_video(
    old: WriterState,
    new: WriterState,
    r: Result<(), Mp4WriterError>,
    pts: u64,
    dts: u64,
    data: Seq<u8>,
    is_keyframe: bool,
)
    requires
        old.finalized,
        video_write_spec(old, new, r, pts, dts, data, is_keyframe),
    ensures
        r == Err::<(), Mp4WriterError>(Mp4WriterError::AlreadyFinalized),
        new == old,
{
}

/// Once finalised, a writer refuses every audio frame and stays as it is.
pub proof fn lemma_finalized_refuses_audio(
    old: WriterState,
    new: WriterState,
    r: Result<(), Mp4WriterError>,
    pts: u64,
    data: Seq<u8>,
)
    requires
        old.finalized,
        audio_write_spec(old, new, r, pts, data),
    ensures
        r == Err::<(), Mp4WriterError>(Mp4WriterError::AlreadyFinalized),
        new == old,
{
}


/// Bytes that form one box: their first eight bytes are a size field equal
/// to their length and the type `tag`.
pub open spec fn framed(b: Seq<u8>, tag: u32) -> bool {
    &&& 8 <= b.len() <= u32::MAX
    &&& b.subrange(0, 4) == be32(b.len() as u32)
    &&& b.subrange(4, 8) == be32(tag)
}

/// One step of the top-level walk over a box that lies at `off`.
proof fn lemma_scan_framed(f: Seq<u8>, off: nat, b: Seq<u8>, tag: u32)
    requires
        framed(b, tag),
        off + b.len() <= f.len(),
        f.subrange(off as int, off + b.len() as int) == b,
    ensures
        spec_scan_boxes(f, off) == seq![
            TopBox { fourcc: tag, size: b.len() as usize, offset: off as usize, within_file: true },
        ] + spec_scan_boxes(f, off + b.len()),
{
    let size = b.len() as u32;
    assert(f.subrange(off as int, off as int + 4) =~= b.subrange(0, 4));
    assert(f.subrange(off as int + 4, off as int + 8) =~= b.subrange(4, 8));
    lemma_be32_roundtrip(size);
    lemma_be32_roundtrip(tag);
}

/// A box of a payload that fits is framed.
proof fn lemma_box_framed(fourcc: u32, payload: Seq<u8>)
    requires
        payload.len() + 8 <= u32::MAX,
    ensures
        framed(spec_box(fourcc, payload), fourcc),
{
    let b = spec_box(fourcc, payload);
    assert(box_size_field(payload.len()) == payload.len() + 8);
    assert(b.subrange(0, 4) =~= be32((payload.len() + 8) as u32));
    assert(b.subrange(4, 8) =~= be32(fourcc));
}

/// A `moov` no longer than 2^32-1 bytes is framed.
proof fn lemma_moov_framed(
    v: Mp4VideoTrack,
    vt: TablesView,
    audio: Option<(Mp4AudioTrack, TablesView)>,
    c: VideoConfigView,
    meta: Option<Metadata>,
)
    requires
        spec_moov(v, vt, audio, c, meta).len() <= u32::MAX,
    ensures
        framed(spec_moov(v, vt, audio, c, meta), MOOV),
{
    lemma_moov_is_box(v, vt, audio, c, meta);
    lemma_box_framed(MOOV, spec_moov_payload(v, vt, audio, c, meta));
}

/// The top-level walk over boxes laid end to end finds each of them.
proof fn lemma_scan_two(x: Seq<u8>, tx: u32, y: Seq<u8>, ty: u32)
    requires
        framed(x, tx),
        framed(y, ty),
        x.len() + y.len() <= usize::MAX,
    ensures
        spec_scan_boxes(x + y, 0) == seq![
            TopBox { fourcc: tx, size: x.len() as usize, offset: 0, within_file: true },
            TopBox { fourcc: ty, size: y.len() as usize, offset: x.len() as usize, within_file: true },
        ],
{
    let f = x + y;
    assert(f.subrange(0, x.len() as int) =~= x);
    assert(f.subrange(x.len() as int, x.len() + y.len() as int) =~= y);
    lemma_scan_framed(f, 0, x, tx);
    lemma_scan_framed(f, x.len(), y, ty);
    assert(spec_scan_boxes(f, x.len() + y.len()) =~= Seq::<TopBox>::empty());
    assert(spec_scan_boxes(f, 0) =~= seq![
        TopBox { fourcc: tx, size: x.len() as usize, offset: 0, within_file: true },
        TopBox { fourcc: ty, size: y.len() as usize, offset: x.len() as usize, within_file: true },
    ]);
}

proof fn lemma_scan_three(x: Seq<u8>, tx: u32, y: Seq<u8>, ty: u32, z: Seq<u8>, tz: u32)
    requires
        framed(x, tx),
        framed(y, ty),
        framed(z, tz),
        x.len() + y.len() + z.len() <= usize::MAX,
    ensures
        spec_scan_boxes(x + y + z, 0) == seq![
            TopBox { fourcc: tx, size: x.len() as usize, offset: 0, within_file: true },
            TopBox { fourcc: ty, size: y.len() as usize, offset: x.len() as usize, within_file: true },
            TopBox { fourcc: tz, size: z.len() as usize, offset: (x.len() + y.len()) as usize, within_file: true },
        ],
{
    let f = x + y + z;
    assert(f.subrange(0, x.len() as int) =~= x);
    assert(f.subrange(x.len() as int, x.len() + y.len() as int) =~= y);
    assert(f.subrange(x.len() + y.len() as int, x.len() + y.len() + z.len() as int) =~= z);
    lemma_scan_framed(f, 0, x, tx);
    lemma_scan_framed(f, x.len(), y, ty);
    lemma_scan_framed(f, x.len() + y.len(), z, tz);
    assert(spec_scan_boxes(f, x.len() + y.len() + z.len()) =~= Seq::<TopBox>::empty());
    assert(spec_scan_boxes(f, 0) =~= seq![
        TopBox { fourcc: tx, size: x.len() as usize, offset: 0, within_file: true },
        TopBox { fourcc: ty, size: y.len() as usize, offset: x.len() as usize, within_file: true },
        TopBox { fourcc: tz, size: z.len() as usize, offset: (x.len() + y.len()) as usize, within_file: true },
    ]);
}

/// The file's boxes, given that each of them fits its 32-bit size field.
#[verifier::rlimit(30)]
proof fn lemma_file_boxes_of_sizes(w: WriterState, v: Mp4VideoTrack, meta: Option<Metadata>, fast_start: bool)
    requires
        writer_wf(w),
        w.video_samples.len() <= u32::MAX,
        w.audio_samples.len() <= u32::MAX,
        file_moov(w, v, meta, fast_start).len() <= u32::MAX,
        (fast_start || !(w.audio_track is None && w.video_samples.len() == 0)) ==> payload_size(w) + 8
            <= u32::MAX,
        spec_file(w, v, meta, fast_start).len() <= usize::MAX,
    ensures
        ({
            let f = spec_file(w, v, meta, fast_start);
            let m = file_moov(w, v, meta, fast_start).len();
            let d = 8 + payload_size(w);
            let ftyp = TopBox { fourcc: FTYP, size: 24, offset: 0, within_file: true };
            spec_scan_boxes(f, 0) == if fast_start {
                seq![
                    ftyp,
                    TopBox { fourcc: MOOV, size: m as usize, offset: 24, within_file: true },
                    TopBox { fourcc: MDAT, size: d as usize, offset: (24 + m) as usize, within_file: true },
                ]
            } else if w.audio_track is None && w.video_samples.len() == 0 {
                seq![ftyp, TopBox { fourcc: MOOV, size: m as usize, offset: 24, within_file: true }]
            } else {
                seq![
                    ftyp,
                    TopBox { fourcc: MDAT, size: d as usize, offset: 24, within_file: true },
                    TopBox { fourcc: MOOV, size: m as usize, offset: (24 + d) as usize, within_file: true },
                ]
            }
        }),
        has_top_box(spec_scan_boxes(spec_file(w, v, meta, fast_start), 0), FTYP),
        has_top_box(spec_scan_boxes(spec_file(w, v, meta, fast_start), 0), MOOV),
{
    let f = spec_file(w, v, meta, fast_start);
    let moov = file_moov(w, v, meta, fast_start);
    let (vt, at) = file_tables(w, v, meta, fast_start);
    lemma_moov_framed(v, vt, at, file_config(w), meta);
    let ftyp = spec_ftyp();
    lemma_box_framed(FTYP, be32(ISOM) + be32(0x200) + be32(ISOM) + be32(MP41));
    let mdat = spec_mdat(w);
    let has_mdat = fast_start || !(w.audio_track is None && w.video_samples.len() == 0);
    if has_mdat {
        lemma_mdat_framing(w);
        assert(mdat.subrange(0, 4) =~= be32(mdat.len() as u32));
    }
    let s = spec_scan_boxes(f, 0);
    if fast_start {
        assert(f == ftyp + moov + mdat);
        lemma_scan_three(ftyp, FTYP, moov, MOOV, mdat, MDAT);
        assert(s[0].fourcc == FTYP && s[0].within_file);
        assert(s[1].fourcc == MOOV && s[1].within_file);
    } else if !has_mdat {
        assert(f == ftyp + moov);
        lemma_scan_two(ftyp, FTYP, moov, MOOV);
        assert(s[0].fourcc == FTYP && s[0].within_file);
        assert(s[1].fourcc == MOOV && s[1].within_file);
    } else {
        assert(f == ftyp + mdat + moov);
        lemma_scan_three(ftyp, FTYP, mdat, MDAT, moov, MOOV);
        assert(s[0].fourcc == FTYP && s[0].within_file);
        assert(s[2].fourcc == MOOV && s[2].within_file);
    }
}

/// A finished file is exactly its top-level boxes, each with a size field
/// equal to its length: `ftyp`, then `moov` and `mdat` with fast start, or
/// `mdat` (when there is one) and `moov` without; so a look at it finds an
/// `ftyp` and a `moov`.
#[verifier::rlimit(30)]
pub proof fn lemma_finished_file_boxes(w: WriterState, v: Mp4VideoTrack, meta: Option<Metadata>, fast_start: bool)
    requires
        writer_wf(w),
        layout_fits(w, v, meta, fast_start),
        spec_file(w, v, meta, fast_start).len() <= usize::MAX,
    ensures
        ({
            let f = spec_file(w, v, meta, fast_start);
            let m = file_moov(w, v, meta, fast_start).len();
            let d = 8 + payload_size(w);
            let ftyp = TopBox { fourcc: FTYP, size: 24, offset: 0, within_file: true };
            spec_scan_boxes(f, 0) == if fast_start {
                seq![
                    ftyp,
                    TopBox { fourcc: MOOV, size: m as usize, offset: 24, within_file: true },
                    TopBox { fourcc: MDAT, size: d as usize, offset: (24 + m) as usize, within_file: true },
                ]
            } else if w.audio_track is None && w.video_samples.len() == 0 {
                seq![ftyp, TopBox { fourcc: MOOV, size: m as usize, offset: 24, within_file: true }]
            } else {
                seq![
                    ftyp,
                    TopBox { fourcc: MDAT, size: d as usize, offset: 24, within_file: true },
                    TopBox { fourcc: MOOV, size: m as usize, offset: (24 + d) as usize, within_file: true },
                ]
            }
        }),
        has_top_box(spec_scan_boxes(spec_file(w, v, meta, fast_start), 0), FTYP),
        has_top_box(spec_scan_boxes(spec_file(w, v, meta, fast_start), 0), MOOV),
{
    if fast_start {
        lemma_fast_start_moov_len(w, v, meta);
    }
    lemma_file_boxes_of_sizes(w, v, meta, fast_start);
}


/// A video frame that is accepted adds exactly one sample; a refused one
/// adds none.
pub proof fn lemma_video_write_counts(
    old: WriterState,
    new: WriterState,
    r: Result<(), Mp4WriterError>,
    pts: u64,
    dts: u64,
    data: Seq<u8>,
    is_keyframe: bool,
)
    requires
        video_write_spec(old, new, r, pts, dts, data, is_keyframe),
    ensures
        r is Ok ==> new.video_samples.len() == old.video_samples.len() + 1,
        r is Err ==> new.video_samples.len() == old.video_samples.len(),
        new.audio_samples == old.audio_samples,
{
    if old.video_prev_dts is Some && r is Err && new != old {
        let d = (dts - old.video_prev_dts->0) as u32;
        assert(with_last_duration(old.video_samples, d).len() == old.video_samples.len());
    }
    if old.video_prev_dts is Some && r is Ok {
        let d = (dts - old.video_prev_dts->0) as u32;
        assert(with_last_duration(old.video_samples, d).len() == old.video_samples.len());
    }
}

/// An audio frame that is accepted adds exactly one sample; a refused one
/// adds none.
pub proof fn lemma_audio_write_counts(
    old: WriterState,
    new: WriterState,
    r: Result<(), Mp4WriterError>,
    pts: u64,
    data: Seq<u8>,
)
    requires
        audio_write_spec(old, new, r, pts, data),
    ensures
        r is Ok ==> new.audio_samples.len() == old.audio_samples.len() + 1,
        r is Err ==> new.audio_samples.len() == old.audio_samples.len(),
        new.video_samples == old.video_samples,
{
    if old.audio_prev_pts is Some {
        let d = (pts - old.audio_prev_pts->0) as u32;
        assert(with_last_duration(old.audio_samples, d).len() == old.audio_samples.len());
    }
}


/// Fast start changes where things lie, not what is recorded: both layouts
/// record the same tables but for the values of the chunk offsets, and carry
/// the same `mdat`; so the files are equally long, but for a file with
/// neither audio track nor video sample, whose standard layout has no
/// `mdat`.
pub proof fn lemma_fast_start_moves_only(w: WriterState, v: Mp4VideoTrack, meta: Option<Metadata>)
    ensures
        same_but_offsets(file_tables(w, v, meta, true).0, file_tables(w, v, meta, false).0),
        file_tables(w, v, meta, true).1 matches Some((a1, t1)) ==> file_tables(w, v, meta, false).1 matches Some(
            (a2, t2),
        ) && a1 == a2 && same_but_offsets(t1, t2),
        file_tables(w, v, meta, true).1 is None <==> file_tables(w, v, meta, false).1 is None,
        file_moov(w, v, meta, true).len() == file_moov(w, v, meta, false).len(),
        !(w.audio_track is None && w.video_samples.len() == 0) ==> spec_file(w, v, meta, true).len()
            == spec_file(w, v, meta, false).len(),
{
    let (ft, fa) = file_tables(w, v, meta, true);
    let (st, sa) = file_tables(w, v, meta, false);
    let sch = schedule(w);
    let n = sch.len() as int;
    lemma_schedule_valid(w);
    lemma_walk_lens(w, sch, mdat_data_start(w, v, meta, true), false, n);
    lemma_walk_lens(w, sch, 32, false, n);
    lemma_moov_len_ignores_offsets(v, ft, st, fa, sa, file_config(w), meta);
}

} // verus!
