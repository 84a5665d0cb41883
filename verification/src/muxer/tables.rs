//! Sample tables: per-sample durations, sizes, sync samples, chunk offsets
//! and composition offsets, and the boxes that store them.

use vstd::prelude::*;

use super::fourcc::{CTTS, STCO, STSC, STSS, STSZ, STTS};
use crate::wire::{be32, build_box, push_u32, spec_box};

verus! {

/// A queued sample.
pub struct SampleInfo {
    /// Presentation time, in media ticks.
    pub pts: u64,
    /// Decode time, in media ticks.
    pub dts: u64,
    /// Sample bytes as stored in `mdat`.
    pub data: Vec<u8>,
    /// Sync (key) sample.
    pub is_keyframe: bool,
    /// Distance to the next sample's decode time, once that sample arrived.
    pub duration: Option<u32>,
}

/// The value of a queued sample.
pub struct SampleView {
    pub pts: u64,
    pub dts: u64,
    pub data: Seq<u8>,
    pub is_keyframe: bool,
    pub duration: Option<u32>,
}

impl View for SampleInfo {
    type V = SampleView;

    open spec fn view(&self) -> SampleView {
        SampleView {
            pts: self.pts,
            dts: self.dts,
            data: self.data@,
            is_keyframe: self.is_keyframe,
            duration: self.duration,
        }
    }
}

/// The tables of one track.
pub struct SampleTables {
    pub durations: Vec<u32>,
    pub sizes: Vec<u32>,
    pub keyframes: Vec<u32>,
    pub chunk_offsets: Vec<u32>,
    pub samples_per_chunk: u32,
    /// Composition time offsets (pts - dts) for the `ctts` box.
    pub cts_offsets: Vec<i32>,
    /// True if any sample has pts != dts.
    pub has_bframes: bool,
}

/// The value of a track's tables.
pub struct TablesView {
    pub durations: Seq<u32>,
    pub sizes: Seq<u32>,
    pub keyframes: Seq<u32>,
    pub chunk_offsets: Seq<u32>,
    pub samples_per_chunk: u32,
    pub cts_offsets: Seq<i32>,
    pub has_bframes: bool,
}

impl View for SampleTables {
    type V = TablesView;

    open spec fn view(&self) -> TablesView {
        TablesView {
            durations: self.durations@,
            sizes: self.sizes@,
            keyframes: self.keyframes@,
            chunk_offsets: self.chunk_offsets@,
            samples_per_chunk: self.samples_per_chunk,
            cts_offsets: self.cts_offsets@,
            has_bframes: self.has_bframes,
        }
    }
}

/// Duration of sample `i` of `n`: its recorded delta, else the fallback
/// (default 1) for the last sample and 1 for any other.
pub open spec fn sample_duration(s: SampleView, i: int, n: int, fallback: Option<u32>) -> u32 {
    match s.duration {
        Some(d) => d,
        None => if i == n - 1 {
            match fallback {
                Some(f) => f,
                None => 1,
            }
        } else {
            1
        },
    }
}

/// Composition offset pts - dts of a sample, both read as signed 64-bit
/// values, with 64-bit wrap-around, truncated to 32 bits.
pub open spec fn cts_offset(s: SampleView) -> i32 {
    (((s.pts as i64) as int - (s.dts as i64) as int) as i64) as i32
}

/// A sample's composition offset is its presentation time minus its decode
/// time, whenever both times and their difference fit the signed fields.
pub proof fn lemma_cts_offset_is_pts_minus_dts(s: SampleView)
    requires
        s.pts <= i64::MAX,
        s.dts <= i64::MAX,
        i32::MIN <= s.pts - s.dts <= i32::MAX,
    ensures
        cts_offset(s) == s.pts - s.dts,
{
    assert((s.pts as i64) as int == s.pts);
    assert((s.dts as i64) as int == s.dts);
}

/// The 1-based numbers of the sync samples among the first `k` samples.
pub open spec fn keyframe_numbers(samples: Seq<SampleView>, k: int) -> Seq<u32>
    decreases k,
{
    if k <= 0 {
        Seq::empty()
    } else if samples[k - 1].is_keyframe {
        keyframe_numbers(samples, k - 1).push(((k - 1) + 1) as u32)
    } else {
        keyframe_numbers(samples, k - 1)
    }
}

/// The tables of a track whose samples are `samples`, stored at the given
/// chunk offsets with `samples_per_chunk` samples per chunk.
pub open spec fn spec_tables(
    samples: Seq<SampleView>,
    chunk_offsets: Seq<u32>,
    samples_per_chunk: u32,
    fallback: Option<u32>,
) -> TablesView {
    let n = samples.len() as int;
    TablesView {
        durations: Seq::new(samples.len(), |i: int| sample_duration(samples[i], i, n, fallback)),
        sizes: Seq::new(samples.len(), |i: int| samples[i].data.len() as u32),
        keyframes: keyframe_numbers(samples, n),
        chunk_offsets,
        samples_per_chunk,
        cts_offsets: Seq::new(samples.len(), |i: int| cts_offset(samples[i])),
        has_bframes: exists|i: int| 0 <= i < n && cts_offset(#[trigger] samples[i]) != 0,
    }
}

impl SampleTables {
    /// Computes the tables of a track from its samples.
    pub fn from_samples(
        samples: &Vec<SampleInfo>,
        chunk_offsets: Vec<u32>,
        samples_per_chunk: u32,
        fallback_duration: Option<u32>,
    ) -> (r: Self)
        requires
            samples@.len() <= u32::MAX,
        ensures
            r@ == spec_tables(
                samples@.map_values(|s: SampleInfo| s@),
                chunk_offsets@,
                samples_per_chunk,
                fallback_duration,
            ),
    {
        let ghost sv = samples@.map_values(|s: SampleInfo| s@);
        let n = samples.len();
        let mut durations: Vec<u32> = Vec::with_capacity(n);
        let mut sizes: Vec<u32> = Vec::with_capacity(n);
        let mut keyframes: Vec<u32> = Vec::new();
        let mut cts_offsets: Vec<i32> = Vec::with_capacity(n);
        let mut has_bframes = false;
        let mut idx: usize = 0;
        while idx < n
            invariant
                idx <= n,
                n == samples@.len(),
                n <= u32::MAX,
                sv == samples@.map_values(|s: SampleInfo| s@),
                durations@ == Seq::new(
                    idx as nat,
                    |i: int| sample_duration(sv[i], i, n as int, fallback_duration),
                ),
                sizes@ == Seq::new(idx as nat, |i: int| sv[i].data.len() as u32),
                keyframes@ == keyframe_numbers(sv, idx as int),
                cts_offsets@ == Seq::new(idx as nat, |i: int| cts_offset(sv[i])),
                has_bframes == exists|i: int| 0 <= i < idx && cts_offset(#[trigger] sv[i]) != 0,
            decreases n - idx,
        {
            let sample = &samples[idx];
            assert(sv[idx as int] == sample@);
            let duration = match sample.duration {
                Some(d) => d,
                None => {
                    if idx == n - 1 {
                        match fallback_duration {
                            Some(f) => f,
                            None => 1,
                        }
                    } else {
                        1
                    }
                },
            };
            durations.push(duration);
            sizes.push(sample.data.len() as u32);
            if sample.is_keyframe {
                keyframes.push(idx as u32 + 1);
            }
            let diff: i128 = (sample.pts as i64) as i128 - (sample.dts as i64) as i128;
            let offset: i32 = (diff as i64) as i32;
            cts_offsets.push(offset);
            if offset != 0 {
                has_bframes = true;
            }
            proof {
                assert(offset == cts_offset(sv[idx as int]));
                if offset != 0 {
                    assert(cts_offset(sv[idx as int]) != 0);
                }
            }
            idx = idx + 1;
            assert(durations@ =~= Seq::new(
                idx as nat,
                |i: int| sample_duration(sv[i], i, n as int, fallback_duration),
            ));
            assert(sizes@ =~= Seq::new(idx as nat, |i: int| sv[i].data.len() as u32));
            assert(cts_offsets@ =~= Seq::new(idx as nat, |i: int| cts_offset(sv[i])));
        }
        SampleTables {
            durations,
            sizes,
            keyframes,
            chunk_offsets,
            samples_per_chunk,
            cts_offsets,
            has_bframes,
        }
    }
}

/// Run-length encoding: maximal runs of equal values as (count, value).
pub open spec fn rle<T>(s: Seq<T>) -> Seq<(nat, T)>
    decreases s.len(),
{
    if s.len() == 0 {
        Seq::empty()
    } else {
        let prev = rle(s.drop_last());
        if prev.len() > 0 && prev.last().1 == s.last() {
            prev.update(prev.len() - 1, (prev.last().0 + 1, s.last()))
        } else {
            prev.push((1nat, s.last()))
        }
    }
}

/// The sequence that a run-length encoding stands for.
pub open spec fn expand<T>(runs: Seq<(nat, T)>) -> Seq<T>
    decreases runs.len(),
{
    if runs.len() == 0 {
        Seq::empty()
    } else {
        expand(runs.drop_last()) + Seq::new(runs.last().0, |_i: int| runs.last().1)
    }
}

/// Every run is non-empty, no longer than the input, and neighbouring runs
/// hold different values.
pub open spec fn runs_canonical<T>(runs: Seq<(nat, T)>, bound: nat) -> bool {
    &&& forall|k: int| 0 <= k < runs.len() ==> 1 <= (#[trigger] runs[k]).0 <= bound
    &&& forall|k: int| 0 < k < runs.len() ==> (#[trigger] runs[k]).1 != runs[k - 1].1
}

/// Run-length encoding loses nothing: the runs expand back to the input, are
/// non-empty, and adjacent runs differ.
pub proof fn lemma_rle_roundtrip<T>(s: Seq<T>)
    ensures
        expand(rle(s)) == s,
        runs_canonical(rle(s), s.len()),
        rle(s).len() <= s.len(),
    decreases s.len(),
{
    if s.len() > 0 {
        let init = s.drop_last();
        lemma_rle_roundtrip(init);
        let prev = rle(init);
        if prev.len() > 0 && prev.last().1 == s.last() {
            let runs = rle(s);
            let last = prev.last();
            assert(runs.drop_last() =~= prev.drop_last());
            assert(expand(prev) == expand(prev.drop_last()) + Seq::new(last.0, |_i: int| last.1));
            assert(expand(runs) =~= s) by {
                assert(expand(runs) == expand(prev.drop_last()) + Seq::new(
                    last.0 + 1,
                    |_i: int| s.last(),
                ));
                assert(s =~= init.push(s.last()));
            }
        } else {
            let runs = rle(s);
            assert(runs.drop_last() =~= prev);
            assert(expand(runs) =~= s) by {
                assert(s =~= init.push(s.last()));
            }
        }
    }
}

/// The (count, value) pairs of a `u32` table as 32-bit counts.
pub open spec fn runs_u32(runs: Seq<(nat, u32)>) -> Seq<u8>
    decreases runs.len(),
{
    if runs.len() == 0 {
        Seq::empty()
    } else {
        runs_u32(runs.drop_last()) + be32(runs.last().0 as u32) + be32(runs.last().1)
    }
}

/// The (count, value) pairs of an `i32` table; values as two's complement.
pub open spec fn runs_i32(runs: Seq<(nat, i32)>) -> Seq<u8>
    decreases runs.len(),
{
    if runs.len() == 0 {
        Seq::empty()
    } else {
        runs_i32(runs.drop_last()) + be32(runs.last().0 as u32) + be32(runs.last().1 as u32)
    }
}

/// A table of 32-bit values.
pub open spec fn words(s: Seq<u32>) -> Seq<u8>
    decreases s.len(),
{
    if s.len() == 0 {
        Seq::empty()
    } else {
        words(s.drop_last()) + be32(s.last())
    }
}

/// Each 32-bit word takes four bytes.
pub proof fn lemma_words_len(s: Seq<u32>)
    ensures
        words(s).len() == 4 * s.len(),
    decreases s.len(),
{
    if s.len() > 0 {
        lemma_words_len(s.drop_last());
    }
}

/// `stts`: decoding time deltas, run-length encoded.
pub open spec fn spec_stts(durations: Seq<u32>) -> Seq<u8> {
    let runs = rle(durations);
    spec_box(STTS, be32(0) + be32(runs.len() as u32) + runs_u32(runs))
}

/// `ctts` (version 1, signed offsets): composition offsets, run-length
/// encoded.
pub open spec fn spec_ctts(offsets: Seq<i32>) -> Seq<u8> {
    let runs = rle(offsets);
    spec_box(CTTS, be32(0x0100_0000) + be32(runs.len() as u32) + runs_i32(runs))
}

/// `stsc`: one entry (first chunk 1, `samples_per_chunk`, description 1), or
/// none when there is no chunk or no sample per chunk.
pub open spec fn spec_stsc(samples_per_chunk: u32, chunk_count: u32) -> Seq<u8> {
    if chunk_count == 0 || samples_per_chunk == 0 {
        spec_box(STSC, be32(0) + be32(0))
    } else {
        spec_box(STSC, be32(0) + be32(1) + be32(1) + be32(samples_per_chunk) + be32(1))
    }
}

/// `stsz`: no uniform size, then every sample's size.
pub open spec fn spec_stsz(sizes: Seq<u32>) -> Seq<u8> {
    spec_box(STSZ, be32(0) + be32(0) + be32(sizes.len() as u32) + words(sizes))
}

/// `stco`: the 32-bit offsets of the chunks.
pub open spec fn spec_stco(offsets: Seq<u32>) -> Seq<u8> {
    spec_box(STCO, be32(0) + be32(offsets.len() as u32) + words(offsets))
}

/// `stss`: the numbers of the sync samples.
pub open spec fn spec_stss(keyframes: Seq<u32>) -> Seq<u8> {
    spec_box(STSS, be32(0) + be32(keyframes.len() as u32) + words(keyframes))
}

fn push_words(p: &mut Vec<u8>, s: &Vec<u32>)
    ensures
        final(p)@ == old(p)@ + words(s@),
{
    let mut i: usize = 0;
    while i < s.len()
        invariant
            i <= s@.len(),
            p@ == old(p)@ + words(s@.take(i as int)),
        decreases s@.len() - i,
    {
        push_u32(p, s[i]);
        i = i + 1;
        assert(s@.take(i as int).drop_last() =~= s@.take(i - 1));
        assert(p@ =~= old(p)@ + words(s@.take(i as int)));
    }
    assert(s@.take(s@.len() as int) =~= s@);
}

/// Run-length encodes a `u32` table; requires fewer than 2^32 entries so
/// that counts fit.
fn rle_u32_exec(s: &Vec<u32>) -> (r: Vec<(u32, u32)>)
    requires
        s@.len() <= u32::MAX,
    ensures
        r@.len() == rle(s@).len(),
        forall|k: int|
            0 <= k < r@.len() ==> (#[trigger] r@[k]).0 == rle(s@)[k].0 && r@[k].1 == rle(s@)[k].1,
{
    let mut entries: Vec<(u32, u32)> = Vec::new();
    let mut i: usize = 0;
    while i < s.len()
        invariant
            i <= s@.len() <= u32::MAX,
            entries@.len() == rle(s@.take(i as int)).len(),
            forall|k: int|
                0 <= k < entries@.len() ==> (#[trigger] entries@[k]).0 == rle(s@.take(i as int))[k].0
                    && entries@[k].1 == rle(s@.take(i as int))[k].1,
        decreases s@.len() - i,
    {
        let d = s[i];
        proof {
            lemma_rle_roundtrip(s@.take(i as int));
            assert(s@.take(i + 1).drop_last() =~= s@.take(i as int));
        }
        let n = entries.len();
        if n > 0 && entries[n - 1].1 == d {
            let (c, v) = entries[n - 1];
            assert(c <= i);
            entries.set(n - 1, (c + 1, v));
        } else {
            entries.push((1u32, d));
        }
        i = i + 1;
        assert forall|k: int| 0 <= k < entries@.len() implies (#[trigger] entries@[k]).0 == rle(
            s@.take(i as int),
        )[k].0 && entries@[k].1 == rle(s@.take(i as int))[k].1 by {}
    }
    assert(s@.take(s@.len() as int) =~= s@);
    entries
}

fn rle_i32_exec(s: &Vec<i32>) -> (r: Vec<(u32, i32)>)
    requires
        s@.len() <= u32::MAX,
    ensures
        r@.len() == rle(s@).len(),
        forall|k: int|
            0 <= k < r@.len() ==> (#[trigger] r@[k]).0 == rle(s@)[k].0 && r@[k].1 == rle(s@)[k].1,
{
    let mut entries: Vec<(u32, i32)> = Vec::new();
    let mut i: usize = 0;
    while i < s.len()
        invariant
            i <= s@.len() <= u32::MAX,
            entries@.len() == rle(s@.take(i as int)).len(),
            forall|k: int|
                0 <= k < entries@.len() ==> (#[trigger] entries@[k]).0 == rle(s@.take(i as int))[k].0
                    && entries@[k].1 == rle(s@.take(i as int))[k].1,
        decreases s@.len() - i,
    {
        let d = s[i];
        proof {
            lemma_rle_roundtrip(s@.take(i as int));
            assert(s@.take(i + 1).drop_last() =~= s@.take(i as int));
        }
        let n = entries.len();
        if n > 0 && entries[n - 1].1 == d {
            let (c, v) = entries[n - 1];
            assert(c <= i);
            entries.set(n - 1, (c + 1, v));
        } else {
            entries.push((1u32, d));
        }
        i = i + 1;
        assert forall|k: int| 0 <= k < entries@.len() implies (#[trigger] entries@[k]).0 == rle(
            s@.take(i as int),
        )[k].0 && entries@[k].1 == rle(s@.take(i as int))[k].1 by {}
    }
    assert(s@.take(s@.len() as int) =~= s@);
    entries
}

/// Writes the `stts` box, merging equal consecutive durations.
pub fn build_stts_box(durations: &Vec<u32>) -> (r: Vec<u8>)
    requires
        durations@.len() <= u32::MAX,
    ensures
        r@ == spec_stts(durations@),
{
    let entries = rle_u32_exec(durations);
    let ghost runs = rle(durations@);
    let mut p: Vec<u8> = Vec::new();
    push_u32(&mut p, 0);
    push_u32(&mut p, entries.len() as u32);
    let ghost head = p@;
    let mut k: usize = 0;
    while k < entries.len()
        invariant
            k <= entries@.len() == runs.len(),
            forall|j: int|
                0 <= j < entries@.len() ==> (#[trigger] entries@[j]).0 == runs[j].0 && entries@[j].1
                    == runs[j].1,
            p@ == head + runs_u32(runs.take(k as int)),
        decreases entries@.len() - k,
    {
        let (c, v) = entries[k];
        push_u32(&mut p, c);
        push_u32(&mut p, v);
        k = k + 1;
        assert(runs.take(k as int).drop_last() =~= runs.take(k - 1));
        assert(p@ =~= head + runs_u32(runs.take(k as int)));
    }
    assert(runs.take(runs.len() as int) =~= runs);
    assert(p@ =~= be32(0) + be32(runs.len() as u32) + runs_u32(runs));
    build_box(STTS, p.as_slice())
}

/// Writes the `ctts` box, merging equal consecutive offsets.
pub fn build_ctts_box(cts_offsets: &Vec<i32>) -> (r: Vec<u8>)
    requires
        cts_offsets@.len() <= u32::MAX,
    ensures
        r@ == spec_ctts(cts_offsets@),
{
    let entries = rle_i32_exec(cts_offsets);
    let ghost runs = rle(cts_offsets@);
    let mut p: Vec<u8> = Vec::new();
    push_u32(&mut p, 0x0100_0000);
    push_u32(&mut p, entries.len() as u32);
    let ghost head = p@;
    let mut k: usize = 0;
    while k < entries.len()
        invariant
            k <= entries@.len() == runs.len(),
            forall|j: int|
                0 <= j < entries@.len() ==> (#[trigger] entries@[j]).0 == runs[j].0 && entries@[j].1
                    == runs[j].1,
            p@ == head + runs_i32(runs.take(k as int)),
        decreases entries@.len() - k,
    {
        let (c, v) = entries[k];
        push_u32(&mut p, c);
        push_u32(&mut p, v as u32);
        k = k + 1;
        assert(runs.take(k as int).drop_last() =~= runs.take(k - 1));
        assert(p@ =~= head + runs_i32(runs.take(k as int)));
    }
    assert(runs.take(runs.len() as int) =~= runs);
    assert(p@ =~= be32(0x0100_0000) + be32(runs.len() as u32) + runs_i32(runs));
    build_box(CTTS, p.as_slice())
}

/// Writes the `stsc` box.
pub fn build_stsc_box(samples_per_chunk: u32, chunk_count: u32) -> (r: Vec<u8>)
    ensures
        r@ == spec_stsc(samples_per_chunk, chunk_count),
{
    let mut p: Vec<u8> = Vec::new();
    push_u32(&mut p, 0);
    if chunk_count == 0 || samples_per_chunk == 0 {
        push_u32(&mut p, 0);
        assert(p@ =~= be32(0) + be32(0));
        return build_box(STSC, p.as_slice());
    }
    push_u32(&mut p, 1);
    push_u32(&mut p, 1);
    push_u32(&mut p, samples_per_chunk);
    push_u32(&mut p, 1);
    assert(p@ =~= be32(0) + be32(1) + be32(1) + be32(samples_per_chunk) + be32(1));
    build_box(STSC, p.as_slice())
}

/// Writes the `stsz` box.
pub fn build_stsz_box(sizes: &Vec<u32>) -> (r: Vec<u8>)
    ensures
        r@ == spec_stsz(sizes@),
{
    let mut p: Vec<u8> = Vec::new();
    push_u32(&mut p, 0);
    push_u32(&mut p, 0);
    push_u32(&mut p, sizes.len() as u32);
    push_words(&mut p, sizes);
    assert(p@ =~= be32(0) + be32(0) + be32(sizes@.len() as u32) + words(sizes@));
    build_box(STSZ, p.as_slice())
}

/// Writes the `stco` box.
pub fn build_stco_box(chunk_offsets: &Vec<u32>) -> (r: Vec<u8>)
    ensures
        r@ == spec_stco(chunk_offsets@),
{
    let mut p: Vec<u8> = Vec::new();
    push_u32(&mut p, 0);
    push_u32(&mut p, chunk_offsets.len() as u32);
    push_words(&mut p, chunk_offsets);
    assert(p@ =~= be32(0) + be32(chunk_offsets@.len() as u32) + words(chunk_offsets@));
    build_box(STCO, p.as_slice())
}

/// Writes the `stss` box.
pub fn build_stss_box(keyframes: &Vec<u32>) -> (r: Vec<u8>)
    ensures
        r@ == spec_stss(keyframes@),
{
    let mut p: Vec<u8> = Vec::new();
    push_u32(&mut p, 0);
    push_u32(&mut p, keyframes.len() as u32);
    push_words(&mut p, keyframes);
    assert(p@ =~= be32(0) + be32(keyframes@.len() as u32) + words(keyframes@));
    build_box(STSS, p.as_slice())
}

} // verus!
