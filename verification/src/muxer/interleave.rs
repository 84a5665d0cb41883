//! Where the samples of an interleaved `mdat` land, and how the chunk
//! offsets recorded while walking the schedule relate to them.

use vstd::prelude::*;

use super::layout::{
    entry_data, interleaved_bytes, lemma_sched_leq_total, lemma_walk_lens, sched_leq, schedule,
    schedule_entries, walk, Entry,
};
use super::mp4::{entries_valid, WriterState};
use super::tables::SampleView;

verus! {

/// Whether an entry belongs to track `t` (0 video, anything else audio).
pub open spec fn is_kind(e: Entry, t: u8) -> bool {
    if t == 0 {
        e.1 == 0
    } else {
        e.1 != 0
    }
}

/// The samples of track `t`.
pub open spec fn track_samples(w: WriterState, t: u8) -> Seq<SampleView> {
    if t == 0 {
        w.video_samples
    } else {
        w.audio_samples
    }
}

/// The schedule entries of track `t`, in index order.
pub open spec fn track_entries(w: WriterState, t: u8) -> Seq<Entry> {
    Seq::new(track_samples(w, t).len(), |i: int| (track_samples(w, t)[i].pts, t, i as usize))
}

/// The offsets a walk records for track `t`.
pub open spec fn walk_offsets_of(w: WriterState, s: Seq<Entry>, base: nat, unit: bool, k: int, t: u8) -> Seq<
    u32,
> {
    if t == 0 {
        walk(w, s, base, unit, k).0
    } else {
        walk(w, s, base, unit, k).1
    }
}

/// The walk's position after `k` entries is `base` plus their bytes.
pub proof fn lemma_walk_cursor(w: WriterState, s: Seq<Entry>, base: nat, k: int)
    requires
        0 <= k,
    ensures
        walk(w, s, base, false, k).2 == base + interleaved_bytes(w, s, k).len(),
    decreases k,
{
    if k > 0 {
        lemma_walk_cursor(w, s, base, k - 1);
    }
}

/// Entry `k`'s bytes lie in the interleaved payload right after those of
/// the entries before it.
pub proof fn lemma_interleaved_slice(w: WriterState, s: Seq<Entry>, k: int, n: int)
    requires
        0 <= k < n,
    ensures
        interleaved_bytes(w, s, k + 1).len() == interleaved_bytes(w, s, k).len() + entry_data(
            w,
            s[k],
        ).len(),
        interleaved_bytes(w, s, k + 1).len() <= interleaved_bytes(w, s, n).len(),
        interleaved_bytes(w, s, n).subrange(
            interleaved_bytes(w, s, k).len() as int,
            interleaved_bytes(w, s, k + 1).len() as int,
        ) == entry_data(w, s[k]),
    decreases n,
{
    if n == k + 1 {
        assert(interleaved_bytes(w, s, n).subrange(
            interleaved_bytes(w, s, k).len() as int,
            interleaved_bytes(w, s, k + 1).len() as int,
        ) =~= entry_data(w, s[k]));
    } else {
        lemma_interleaved_slice(w, s, k, n - 1);
        assert(interleaved_bytes(w, s, n).subrange(
            interleaved_bytes(w, s, k).len() as int,
            interleaved_bytes(w, s, k + 1).len() as int,
        ) =~= interleaved_bytes(w, s, n - 1).subrange(
            interleaved_bytes(w, s, k).len() as int,
            interleaved_bytes(w, s, k + 1).len() as int,
        ));
    }
}

/// The entries of one track and then of the other name each sample once.
pub proof fn lemma_schedule_no_duplicates(w: WriterState)
    requires
        w.video_samples.len() <= u32::MAX,
        w.audio_samples.len() <= u32::MAX,
    ensures
        schedule(w).no_duplicates(),
        schedule_entries(w).no_duplicates(),
{
    let e = schedule_entries(w);
    let s = schedule(w);
    let nv = w.video_samples.len() as int;
    assert forall|i: int, j: int| 0 <= i < e.len() && 0 <= j < e.len() && i != j implies e[i] != e[j] by {
        if i < nv && j < nv {
            assert(e[i].2 == i as usize && e[j].2 == j as usize);
        } else if i >= nv && j >= nv {
            assert(e[i].2 == (i - nv) as usize && e[j].2 == (j - nv) as usize);
        } else {
            assert(e[i].1 != e[j].1);
        }
    }
    lemma_sched_leq_total();
    e.lemma_sort_by_ensures(|a: Entry, b: Entry| sched_leq(a, b));
    e.lemma_multiset_has_no_duplicates();
    s.lemma_multiset_has_no_duplicates_conv();
}

/// The entry of sample `m` of track `t` occurs in the schedule, and no other
/// entry of that track names sample `m`.
pub proof fn lemma_schedule_entry_unique(w: WriterState, t: u8, m: int) -> (k: int)
    requires
        t == 0 || t == 1,
        w.video_samples.len() <= u32::MAX,
        w.audio_samples.len() <= u32::MAX,
        0 <= m < track_samples(w, t).len(),
    ensures
        0 <= k < schedule(w).len(),
        schedule(w)[k] == track_entries(w, t)[m],
        forall|j: int|
            0 <= j < schedule(w).len() && j != k && is_kind(#[trigger] schedule(w)[j], t) ==> schedule(
                w,
            )[j].2 as int != m,
{
    broadcast use vstd::seq_lib::group_to_multiset_ensures;

    let e = schedule_entries(w);
    let s = schedule(w);
    let nv = w.video_samples.len() as int;
    lemma_sched_leq_total();
    e.lemma_sort_by_ensures(|a: Entry, b: Entry| sched_leq(a, b));
    lemma_schedule_no_duplicates(w);
    let x = track_entries(w, t)[m];
    let pos: int = if t == 0 { m } else { nv + m };
    assert(e[pos] == x);
    assert(e.contains(x));
    assert(e.to_multiset().count(x) > 0);
    assert(s.contains(x));
    let k = choose|k: int| 0 <= k < s.len() && s[k] == x;
    assert forall|j: int| 0 <= j < s.len() && j != k && is_kind(#[trigger] s[j], t) implies s[j].2 as int
        != m by {
        assert(s.to_multiset().count(s[j]) > 0);
        assert(e.contains(s[j]));
        let q = choose|q: int| 0 <= q < e.len() && e[q] == s[j];
        if s[j].2 as int == m {
            if q < nv {
                assert(e[q] == (w.video_samples[q].pts, 0u8, q as usize));
                assert(q == m);
            } else {
                assert(e[q] == (w.audio_samples[q - nv].pts, 1u8, (q - nv) as usize));
                assert(q - nv == m);
            }
            assert(s[j] == s[k]);
        }
    }
    k
}

/// Once the entry of sample `m` is walked, its offset stays recorded as the
/// walk goes on past entries that name other samples.
pub proof fn lemma_walk_offset_final(
    w: WriterState,
    s: Seq<Entry>,
    base: nat,
    unit: bool,
    t: u8,
    m: int,
    km: int,
    n: int,
)
    requires
        entries_valid(w, s),
        0 <= km < n <= s.len(),
        is_kind(s[km], t),
        s[km].2 as int == m,
        forall|j: int| km < j < n && is_kind(#[trigger] s[j], t) ==> s[j].2 as int != m,
    ensures
        0 <= m < walk_offsets_of(w, s, base, unit, n, t).len(),
        walk_offsets_of(w, s, base, unit, n, t)[m] == walk(w, s, base, unit, km).2 as u32,
    decreases n,
{
    lemma_walk_lens(w, s, base, unit, n);
    lemma_walk_lens(w, s, base, unit, n - 1);
    assert(entries_valid(w, s));
    let e = s[n - 1];
    assert((e.1 == 0 && (e.2 as int) < w.video_samples.len()) || (e.1 == 1 && (e.2 as int)
        < w.audio_samples.len()));
    if n > km + 1 {
        lemma_walk_offset_final(w, s, base, unit, t, m, km, n - 1);
    }
}

} // verus!
