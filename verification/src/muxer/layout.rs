//! The layout of a finished file: where every sample lands, which chunk
//! offsets the sample tables record, and the bytes of the whole file.

use vstd::prelude::*;
use vstd::relations::total_ordering;

use super::entries::{Mp4AudioTrack, Mp4VideoTrack, VideoConfigView};
use super::fourcc::MDAT;
use super::headers::spec_ftyp;
use super::moov::spec_moov;
use super::mp4::{entries_valid, WriterState};
use super::tables::{spec_tables, SampleView, TablesView};
use crate::api::Metadata;
use crate::codec::h264::spec_default_avc_config;
use crate::wire::be32;

verus! {

/// Total bytes of the samples.
pub open spec fn total_size(s: Seq<SampleView>) -> nat
    decreases s.len(),
{
    if s.len() == 0 {
        0
    } else {
        total_size(s.drop_last()) + s.last().data.len()
    }
}

/// The samples' bytes, one after the other.
pub open spec fn concat_data(s: Seq<SampleView>) -> Seq<u8>
    decreases s.len(),
{
    if s.len() == 0 {
        Seq::empty()
    } else {
        concat_data(s.drop_last()) + s.last().data
    }
}

/// Bytes of the first `i` samples.
pub open spec fn prefix_size(s: Seq<SampleView>, i: int) -> nat {
    total_size(s.take(i))
}

/// A schedule entry: presentation time, track (0 video, 1 audio), sample
/// index within its track.
pub type Entry = (u64, u8, usize);

/// The order of the interleaved `mdat`: by time, then video before audio,
/// then by index.
pub open spec fn sched_leq(a: Entry, b: Entry) -> bool {
    a.0 < b.0 || (a.0 == b.0 && (a.1 < b.1 || (a.1 == b.1 && a.2 <= b.2)))
}

/// The interleaving order is a total order.
pub proof fn lemma_sched_leq_total()
    ensures
        total_ordering(|a: Entry, b: Entry| sched_leq(a, b)),
{
}

/// One entry per video sample, then one per audio sample.
pub open spec fn schedule_entries(w: WriterState) -> Seq<Entry> {
    Seq::new(w.video_samples.len(), |i: int| (w.video_samples[i].pts, 0u8, i as usize)) + Seq::new(
        w.audio_samples.len(),
        |j: int| (w.audio_samples[j].pts, 1u8, j as usize),
    )
}

/// The entries in interleaving order.
pub open spec fn schedule(w: WriterState) -> Seq<Entry> {
    schedule_entries(w).sort_by(|a: Entry, b: Entry| sched_leq(a, b))
}

/// The bytes of the sample an entry names.
pub open spec fn entry_data(w: WriterState, e: Entry) -> Seq<u8> {
    if e.1 == 0 {
        w.video_samples[e.2 as int].data
    } else {
        w.audio_samples[e.2 as int].data
    }
}

/// Walking the first `k` entries from position `base`, each entry occupying
/// its sample's size (or 1 when `unit`): the offset recorded for each video
/// sample and each audio sample, indexed by the sample's number in its track
/// (0 where no entry was walked yet), and the position reached.
pub open spec fn walk(w: WriterState, sched: Seq<Entry>, base: nat, unit: bool, k: int) -> (
    Seq<u32>,
    Seq<u32>,
    nat,
)
    decreases k,
{
    if k <= 0 {
        (
            Seq::new(w.video_samples.len(), |i: int| 0u32),
            Seq::new(w.audio_samples.len(), |i: int| 0u32),
            base,
        )
    } else {
        let (vo, ao, c) = walk(w, sched, base, unit, k - 1);
        let e = sched[k - 1];
        let size: nat = if unit {
            1
        } else {
            entry_data(w, e).len()
        };
        if e.1 == 0 {
            (vo.update(e.2 as int, c as u32), ao, c + size)
        } else {
            (vo, ao.update(e.2 as int, c as u32), c + size)
        }
    }
}

/// A walk records one offset per sample of each track.
pub proof fn lemma_walk_lens(w: WriterState, sched: Seq<Entry>, base: nat, unit: bool, k: int)
    requires
        entries_valid(w, sched),
        k <= sched.len(),
    ensures
        walk(w, sched, base, unit, k).0.len() == w.video_samples.len(),
        walk(w, sched, base, unit, k).1.len() == w.audio_samples.len(),
    decreases k,
{
    if k > 0 {
        lemma_walk_lens(w, sched, base, unit, k - 1);
        assert(entries_valid(w, sched));
        let e = sched[k - 1];
        assert((e.1 == 0 && (e.2 as int) < w.video_samples.len()) || (e.1 == 1 && (e.2 as int)
            < w.audio_samples.len()));
    }
}

/// Every entry of the schedule names an existing sample of its track.
pub proof fn lemma_schedule_valid(w: WriterState)
    ensures
        entries_valid(w, schedule(w)),
{
    let e = schedule_entries(w);
    let s = schedule(w);
    lemma_sched_leq_total();
    e.lemma_sort_by_ensures(|a: Entry, b: Entry| sched_leq(a, b));
    assert(entries_valid(w, e)) by {
        assert forall|k: int| 0 <= k < e.len() implies ((#[trigger] e[k]).1 == 0 && (e[k].2 as int)
            < w.video_samples.len()) || (e[k].1 == 1 && (e[k].2 as int) < w.audio_samples.len()) by {
            let nv = w.video_samples.len() as int;
            if k < nv {
                assert(e[k] == (w.video_samples[k].pts, 0u8, k as usize));
                if k > usize::MAX {
                    assert((k as usize) as int <= usize::MAX);
                }
            } else {
                assert(e[k] == (w.audio_samples[k - nv].pts, 1u8, (k - nv) as usize));
                if k - nv > usize::MAX {
                    assert(((k - nv) as usize) as int <= usize::MAX);
                }
            }
        }
    }
    assert forall|k: int| 0 <= k < s.len() implies ((#[trigger] s[k]).1 == 0 && (s[k].2 as int)
        < w.video_samples.len()) || (s[k].1 == 1 && (s[k].2 as int) < w.audio_samples.len()) by {
        broadcast use vstd::seq_lib::group_to_multiset_ensures;
        assert(s.to_multiset().count(s[k]) > 0);
        assert(e.contains(s[k]));
        let j = choose|j: int| 0 <= j < e.len() && e[j] == s[k];
        assert(e[j] == s[k]);
    }
}

/// The bytes of the first `k` scheduled samples.
pub open spec fn interleaved_bytes(w: WriterState, sched: Seq<Entry>, k: int) -> Seq<u8>
    decreases k,
{
    if k <= 0 {
        Seq::empty()
    } else {
        interleaved_bytes(w, sched, k - 1) + entry_data(w, sched[k - 1])
    }
}

/// The video configuration written: the one recorded from the first
/// keyframe, else the default AVC one.
pub open spec fn file_config(w: WriterState) -> VideoConfigView {
    match w.video_config {
        Some(c) => c@,
        None => VideoConfigView::Avc {
            sps: spec_default_avc_config().0,
            pps: spec_default_avc_config().1,
        },
    }
}

/// Bytes of all queued samples.
pub open spec fn payload_size(w: WriterState) -> nat {
    total_size(w.video_samples) + total_size(w.audio_samples)
}

/// The `mdat` payload: video samples in order, or, with an audio track, all
/// samples in interleaving order.
pub open spec fn mdat_payload(w: WriterState) -> Seq<u8> {
    match w.audio_track {
        None => concat_data(w.video_samples),
        Some(_) => interleaved_bytes(w, schedule(w), schedule(w).len() as int),
    }
}

/// The `mdat` header and payload as written: a 32-bit size of 8 plus the
/// payload size, then the type.
pub open spec fn spec_mdat(w: WriterState) -> Seq<u8> {
    be32((8 + payload_size(w)) as u32) + be32(MDAT) + mdat_payload(w)
}

/// Tables of a track whose samples form one chunk at `offset` (no chunk
/// when there is no sample).
pub open spec fn single_chunk_tables(s: Seq<SampleView>, offset: u32, fallback: Option<u32>) -> TablesView {
    if s.len() == 0 {
        spec_tables(s, Seq::empty(), 0, fallback)
    } else {
        spec_tables(s, seq![offset], s.len() as u32, fallback)
    }
}

/// Tables of both tracks when every sample is its own chunk, walked from
/// `base`.
pub open spec fn interleaved_tables(w: WriterState, base: nat, unit: bool) -> (TablesView, TablesView) {
    let sched = schedule(w);
    let (vo, ao, _) = walk(w, sched, base, unit, sched.len() as int);
    (
        spec_tables(w.video_samples, vo, 1, w.video_last_delta),
        spec_tables(w.audio_samples, ao, 1, w.audio_last_delta),
    )
}

/// The tables used to measure the `moov` of a fast-start file: offsets are
/// placeholders (0 for the single video chunk, entry positions when
/// interleaved).
pub open spec fn placeholder_tables(w: WriterState) -> (TablesView, Option<(Mp4AudioTrack, TablesView)>) {
    match w.audio_track {
        None => (single_chunk_tables(w.video_samples, 0, w.video_last_delta), None),
        Some(a) => {
            let (vt, at) = interleaved_tables(w, 0, true);
            (vt, Some((a, at)))
        },
    }
}

/// Length of the `moov` of a fast-start file.
pub open spec fn fast_start_moov_len(w: WriterState, v: Mp4VideoTrack, meta: Option<Metadata>) -> nat {
    let (vt, at) = placeholder_tables(w);
    spec_moov(v, vt, at, file_config(w), meta).len()
}

/// Where the `mdat` payload starts.
pub open spec fn mdat_data_start(
    w: WriterState,
    v: Mp4VideoTrack,
    meta: Option<Metadata>,
    fast_start: bool,
) -> nat {
    if fast_start {
        24 + fast_start_moov_len(w, v, meta) + 8
    } else {
        24 + 8
    }
}

/// The tables written into the file.
pub open spec fn file_tables(w: WriterState, v: Mp4VideoTrack, meta: Option<Metadata>, fast_start: bool) -> (
    TablesView,
    Option<(Mp4AudioTrack, TablesView)>,
) {
    let start = mdat_data_start(w, v, meta, fast_start);
    match w.audio_track {
        None => (single_chunk_tables(w.video_samples, start as u32, w.video_last_delta), None),
        Some(a) => {
            let (vt, at) = interleaved_tables(w, start, false);
            (vt, Some((a, at)))
        },
    }
}

/// The `moov` written into the file.
pub open spec fn file_moov(w: WriterState, v: Mp4VideoTrack, meta: Option<Metadata>, fast_start: bool) -> Seq<
    u8,
> {
    let (vt, at) = file_tables(w, v, meta, fast_start);
    spec_moov(v, vt, at, file_config(w), meta)
}

/// The whole file: `ftyp`, `moov`, `mdat` with fast start; otherwise
/// `ftyp`, `mdat`, `moov`, where a file without audio and without video
/// samples has no `mdat`.
pub open spec fn spec_file(w: WriterState, v: Mp4VideoTrack, meta: Option<Metadata>, fast_start: bool) -> Seq<
    u8,
> {
    let moov = file_moov(w, v, meta, fast_start);
    if fast_start {
        spec_ftyp() + moov + spec_mdat(w)
    } else if w.audio_track is None && w.video_samples.len() == 0 {
        spec_ftyp() + moov
    } else {
        spec_ftyp() + spec_mdat(w) + moov
    }
}

/// Whether the layout fits the 32-bit sizes and offsets of the format:
/// fewer than 2^32-1 samples per track, and every size and offset computed
/// on the way within 32 bits.
pub open spec fn layout_fits(w: WriterState, v: Mp4VideoTrack, meta: Option<Metadata>, fast_start: bool) -> bool {
    let nv = w.video_samples.len();
    let na = w.audio_samples.len();
    let p = payload_size(w);
    &&& nv < u32::MAX
    &&& na < u32::MAX
    &&& match (w.audio_track, fast_start) {
        (None, false) => (nv > 0 ==> p + 8 <= u32::MAX) && file_moov(w, v, meta, false).len() <= u32::MAX,
        (Some(_), false) => walk(w, schedule(w), 32, false, schedule(w).len() as int).2 <= u32::MAX
            && p + 8 <= u32::MAX && file_moov(w, v, meta, false).len() <= u32::MAX,
        (None, true) => p + 8 <= u32::MAX && 32 + fast_start_moov_len(w, v, meta) <= u32::MAX,
        (Some(_), true) => nv + na <= u32::MAX && 32 + fast_start_moov_len(w, v, meta) <= u32::MAX
            && walk(w, schedule(w), 32 + fast_start_moov_len(w, v, meta), false, schedule(w).len() as int).2
            <= u32::MAX && p + 8 <= u32::MAX,
    }
}

} // verus!
