//! What a reader of the boxes gets back: each law decodes the fields of a
//! box as the ISO base media file format lays them out, and finds the
//! values the box was built from. This module holds the helpers and the
//! sample tables; `readback_codec` and `readback_headers` the rest.

use vstd::prelude::*;

use super::fourcc::{CTTS, STCO, STSC, STSS, STSZ, STTS};
use super::tables::{
    expand, lemma_rle_roundtrip, lemma_words_len, rle, runs_i32, runs_u32, spec_ctts, spec_stco, spec_stsc,
    spec_stss, spec_stsz, spec_stts, words,
};
use crate::wire::{be32, box_payload, lemma_be32_roundtrip, lemma_box_parts, read_be16, read_be32};

verus! {

/// The 32-bit big-endian field at byte `k`.
pub open spec fn u32_at(p: Seq<u8>, k: int) -> int {
    read_be32(p.subrange(k, k + 4))
}

/// The 16-bit big-endian field at byte `k`.
pub open spec fn u16_at(p: Seq<u8>, k: int) -> int {
    read_be16(p.subrange(k, k + 2))
}

/// The type field of a box.
pub open spec fn box_type(b: Seq<u8>) -> int {
    read_be32(b.subrange(4, 8))
}

/// A reader of `stsc` finds one entry that maps every chunk, from chunk 1
/// on, to `samples_per_chunk` samples of sample description 1; with no
/// chunk, or no sample per chunk, it finds no entry.
#[verifier::rlimit(30)]
pub proof fn lemma_stsc_reads_back(samples_per_chunk: u32, chunk_count: u32)
    ensures
        ({
            let b = spec_stsc(samples_per_chunk, chunk_count);
            let p = box_payload(b);
            &&& box_type(b) == STSC
            &&& p.len() >= 8
            &&& u32_at(p, 0) == 0
            &&& if chunk_count > 0 && samples_per_chunk > 0 {
                &&& p.len() == 20
                &&& u32_at(p, 4) == 1
                &&& u32_at(p, 8) == 1
                &&& u32_at(p, 12) == samples_per_chunk
                &&& u32_at(p, 16) == 1
            } else {
                &&& p.len() == 8
                &&& u32_at(p, 4) == 0
            }
        }),
{
    lemma_be32_roundtrip(0);
    lemma_be32_roundtrip(1);
    lemma_be32_roundtrip(samples_per_chunk);
    if chunk_count > 0 && samples_per_chunk > 0 {
        let p = be32(0) + be32(1) + be32(1) + be32(samples_per_chunk) + be32(1);
        lemma_box_parts(STSC, p);
        assert(p.subrange(0, 4) =~= be32(0));
        assert(p.subrange(4, 8) =~= be32(1));
        assert(p.subrange(8, 12) =~= be32(1));
        assert(p.subrange(12, 16) =~= be32(samples_per_chunk));
        assert(p.subrange(16, 20) =~= be32(1));
    } else {
        let p = be32(0) + be32(0);
        lemma_box_parts(STSC, p);
        assert(p.subrange(0, 4) =~= be32(0));
        assert(p.subrange(4, 8) =~= be32(0));
    }
}

/// Word `i` of a table of 32-bit values reads back as value `i`.
pub proof fn lemma_words_at(s: Seq<u32>)
    ensures
        words(s).len() == 4 * s.len(),
        forall|i: int| 0 <= i < s.len() ==> read_be32(#[trigger] words(s).subrange(4 * i, 4 * i + 4)) == s[i],
    decreases s.len(),
{
    lemma_words_len(s);
    if s.len() > 0 {
        let init = s.drop_last();
        lemma_words_at(init);
        lemma_words_len(init);
        let w = words(s);
        assert forall|i: int| 0 <= i < s.len() implies read_be32(
            #[trigger] words(s).subrange(4 * i, 4 * i + 4),
        ) == s[i] by {
            if i < s.len() - 1 {
                assert(w.subrange(4 * i, 4 * i + 4) =~= words(init).subrange(4 * i, 4 * i + 4));
                assert(init[i] == s[i]);
            } else {
                assert(w.subrange(4 * i, 4 * i + 4) =~= be32(s.last()));
                lemma_be32_roundtrip(s.last());
            }
        }
    }
}

/// A table box of the form version/flags, header words, then 32-bit values:
/// the values read back in order after the header words.
proof fn lemma_table_payload(head: Seq<u8>, vals: Seq<u32>, p: Seq<u8>)
    requires
        p == head + words(vals),
    ensures
        p.len() == head.len() + 4 * vals.len(),
        forall|i: int| 0 <= i < vals.len() ==> #[trigger] u32_at(p, head.len() + 4 * i) == vals[i],
{
    lemma_words_at(vals);
    assert forall|i: int| 0 <= i < vals.len() implies #[trigger] u32_at(p, head.len() + 4 * i) == vals[i] by {
        assert(p.subrange(head.len() + 4 * i, head.len() + 4 * i + 4) =~= words(vals).subrange(
            4 * i,
            4 * i + 4,
        ));
    }
}

/// A reader of `stsz` finds no common size, the sample count, and then
/// each sample's size in order.
#[verifier::rlimit(30)]
pub proof fn lemma_stsz_reads_back(sizes: Seq<u32>)
    requires
        sizes.len() <= u32::MAX,
    ensures
        ({
            let b = spec_stsz(sizes);
            let p = box_payload(b);
            &&& box_type(b) == STSZ
            &&& p.len() == 12 + 4 * sizes.len()
            &&& u32_at(p, 0) == 0
            &&& u32_at(p, 4) == 0
            &&& u32_at(p, 8) == sizes.len()
            &&& forall|i: int| 0 <= i < sizes.len() ==> #[trigger] u32_at(p, 12 + 4 * i) == sizes[i]
        }),
{
    let head = be32(0) + be32(0) + be32(sizes.len() as u32);
    let p = head + words(sizes);
    lemma_box_parts(STSZ, p);
    lemma_table_payload(head, sizes, p);
    assert(p.subrange(0, 4) =~= be32(0));
    assert(p.subrange(4, 8) =~= be32(0));
    assert(p.subrange(8, 12) =~= be32(sizes.len() as u32));
    lemma_be32_roundtrip(0);
    lemma_be32_roundtrip(sizes.len() as u32);
}

/// A reader of `stco` finds the chunk count and then each chunk's offset in
/// order.
pub proof fn lemma_stco_reads_back(offsets: Seq<u32>)
    requires
        offsets.len() <= u32::MAX,
    ensures
        ({
            let b = spec_stco(offsets);
            let p = box_payload(b);
            &&& box_type(b) == STCO
            &&& p.len() == 8 + 4 * offsets.len()
            &&& u32_at(p, 0) == 0
            &&& u32_at(p, 4) == offsets.len()
            &&& forall|i: int| 0 <= i < offsets.len() ==> #[trigger] u32_at(p, 8 + 4 * i) == offsets[i]
        }),
{
    let head = be32(0) + be32(offsets.len() as u32);
    let p = head + words(offsets);
    lemma_box_parts(STCO, p);
    lemma_table_payload(head, offsets, p);
    assert(p.subrange(0, 4) =~= be32(0));
    assert(p.subrange(4, 8) =~= be32(offsets.len() as u32));
    lemma_be32_roundtrip(0);
    lemma_be32_roundtrip(offsets.len() as u32);
}

/// A reader of `stss` finds the number of sync samples and then each one's
/// number in order.
pub proof fn lemma_stss_reads_back(keyframes: Seq<u32>)
    requires
        keyframes.len() <= u32::MAX,
    ensures
        ({
            let b = spec_stss(keyframes);
            let p = box_payload(b);
            &&& box_type(b) == STSS
            &&& p.len() == 8 + 4 * keyframes.len()
            &&& u32_at(p, 0) == 0
            &&& u32_at(p, 4) == keyframes.len()
            &&& forall|i: int| 0 <= i < keyframes.len() ==> #[trigger] u32_at(p, 8 + 4 * i) == keyframes[i]
        }),
{
    let head = be32(0) + be32(keyframes.len() as u32);
    let p = head + words(keyframes);
    lemma_box_parts(STSS, p);
    lemma_table_payload(head, keyframes, p);
    assert(p.subrange(0, 4) =~= be32(0));
    assert(p.subrange(4, 8) =~= be32(keyframes.len() as u32));
    lemma_be32_roundtrip(0);
    lemma_be32_roundtrip(keyframes.len() as u32);
}

proof fn lemma_runs_u32_at(runs: Seq<(nat, u32)>)
    ensures
        runs_u32(runs).len() == 8 * runs.len(),
        forall|k: int|
            0 <= k < runs.len() ==> read_be32(#[trigger] runs_u32(runs).subrange(8 * k, 8 * k + 4))
                == runs[k].0 as u32 && read_be32(runs_u32(runs).subrange(8 * k + 4, 8 * k + 8))
                == runs[k].1,
    decreases runs.len(),
{
    if runs.len() > 0 {
        let init = runs.drop_last();
        lemma_runs_u32_at(init);
        let w = runs_u32(runs);
        let last = runs.last();
        lemma_be32_roundtrip(last.0 as u32);
        lemma_be32_roundtrip(last.1);
        assert forall|k: int| 0 <= k < runs.len() implies read_be32(
            #[trigger] runs_u32(runs).subrange(8 * k, 8 * k + 4),
        ) == runs[k].0 as u32 && read_be32(runs_u32(runs).subrange(8 * k + 4, 8 * k + 8)) == runs[k].1 by {
            if k < runs.len() - 1 {
                assert(w.subrange(8 * k, 8 * k + 4) =~= runs_u32(init).subrange(8 * k, 8 * k + 4));
                assert(w.subrange(8 * k + 4, 8 * k + 8) =~= runs_u32(init).subrange(8 * k + 4, 8 * k + 8));
                assert(init[k] == runs[k]);
            } else {
                assert(w.subrange(8 * k, 8 * k + 4) =~= be32(last.0 as u32));
                assert(w.subrange(8 * k + 4, 8 * k + 8) =~= be32(last.1));
            }
        }
    }
}

proof fn lemma_runs_i32_at(runs: Seq<(nat, i32)>)
    ensures
        runs_i32(runs).len() == 8 * runs.len(),
        forall|k: int|
            0 <= k < runs.len() ==> read_be32(#[trigger] runs_i32(runs).subrange(8 * k, 8 * k + 4))
                == runs[k].0 as u32 && read_be32(runs_i32(runs).subrange(8 * k + 4, 8 * k + 8))
                == runs[k].1 as u32,
    decreases runs.len(),
{
    if runs.len() > 0 {
        let init = runs.drop_last();
        lemma_runs_i32_at(init);
        let w = runs_i32(runs);
        let last = runs.last();
        lemma_be32_roundtrip(last.0 as u32);
        lemma_be32_roundtrip(last.1 as u32);
        assert forall|k: int| 0 <= k < runs.len() implies read_be32(
            #[trigger] runs_i32(runs).subrange(8 * k, 8 * k + 4),
        ) == runs[k].0 as u32 && read_be32(runs_i32(runs).subrange(8 * k + 4, 8 * k + 8)) == runs[k].1
            as u32 by {
            if k < runs.len() - 1 {
                assert(w.subrange(8 * k, 8 * k + 4) =~= runs_i32(init).subrange(8 * k, 8 * k + 4));
                assert(w.subrange(8 * k + 4, 8 * k + 8) =~= runs_i32(init).subrange(8 * k + 4, 8 * k + 8));
                assert(init[k] == runs[k]);
            } else {
                assert(w.subrange(8 * k, 8 * k + 4) =~= be32(last.0 as u32));
                assert(w.subrange(8 * k + 4, 8 * k + 8) =~= be32(last.1 as u32));
            }
        }
    }
}

proof fn lemma_i32_roundtrip(v: i32)
    ensures
        (v as u32) as i32 == v,
{
    assert((v as u32) as i32 == v) by (bit_vector);
}

/// The (sample count, value) entries a reader finds: `m` pairs of 32-bit
/// fields from byte `start` on.
pub open spec fn read_entries(p: Seq<u8>, start: int, m: nat) -> Seq<(nat, u32)> {
    Seq::new(m, |k: int| (u32_at(p, start + 8 * k) as nat, u32_at(p, start + 8 * k + 4) as u32))
}

/// The (sample count, signed value) entries a reader finds: `m` pairs of
/// 32-bit fields from byte `start` on, the value in two's complement.
pub open spec fn read_signed_entries(p: Seq<u8>, start: int, m: nat) -> Seq<(nat, i32)> {
    Seq::new(m, |k: int| (u32_at(p, start + 8 * k) as nat, (u32_at(p, start + 8 * k + 4) as u32) as i32))
}

/// A reader of `stts` finds entries of a positive count of samples and
/// their duration which, expanded, give every sample's duration in order.
#[verifier::rlimit(30)]
pub proof fn lemma_stts_reads_back(durations: Seq<u32>)
    requires
        durations.len() <= u32::MAX,
    ensures
        ({
            let b = spec_stts(durations);
            let p = box_payload(b);
            let m = u32_at(p, 4);
            let e = read_entries(p, 8, m as nat);
            &&& box_type(b) == STTS
            &&& u32_at(p, 0) == 0
            &&& p.len() == 8 + 8 * m
            &&& forall|k: int| 0 <= k < e.len() ==> (#[trigger] e[k]).0 >= 1
            &&& expand(e) == durations
        }),
{
    let runs = rle(durations);
    lemma_rle_roundtrip(durations);
    let head = be32(0) + be32(runs.len() as u32);
    let p = head + runs_u32(runs);
    lemma_box_parts(STTS, p);
    lemma_runs_u32_at(runs);
    assert(p.subrange(0, 4) =~= be32(0));
    assert(p.subrange(4, 8) =~= be32(runs.len() as u32));
    lemma_be32_roundtrip(0);
    lemma_be32_roundtrip(runs.len() as u32);
    let e = read_entries(p, 8, runs.len());
    assert forall|k: int| 0 <= k < runs.len() implies #[trigger] e[k] == runs[k] by {
        assert(p.subrange(8 + 8 * k, 8 + 8 * k + 4) =~= runs_u32(runs).subrange(8 * k, 8 * k + 4));
        assert(p.subrange(8 + 8 * k + 4, 8 + 8 * k + 8) =~= runs_u32(runs).subrange(8 * k + 4, 8 * k + 8));
        assert(1 <= runs[k].0 <= durations.len());
    }
    assert(e =~= runs);
}

/// A reader of `ctts` finds version 1 (signed offsets) and entries of a
/// positive count of samples and their offset which, expanded, give every
/// sample's composition offset in order.
#[verifier::rlimit(30)]
pub proof fn lemma_ctts_reads_back(offsets: Seq<i32>)
    requires
        offsets.len() <= u32::MAX,
    ensures
        ({
            let b = spec_ctts(offsets);
            let p = box_payload(b);
            let m = u32_at(p, 4);
            let e = read_signed_entries(p, 8, m as nat);
            &&& box_type(b) == CTTS
            &&& p[0] == 1
            &&& u32_at(p, 0) == 0x0100_0000
            &&& p.len() == 8 + 8 * m
            &&& forall|k: int| 0 <= k < e.len() ==> (#[trigger] e[k]).0 >= 1
            &&& expand(e) == offsets
        }),
{
    let runs = rle(offsets);
    lemma_rle_roundtrip(offsets);
    let head = be32(0x0100_0000) + be32(runs.len() as u32);
    let p = head + runs_i32(runs);
    lemma_box_parts(CTTS, p);
    lemma_runs_i32_at(runs);
    assert(p.subrange(0, 4) =~= be32(0x0100_0000));
    assert(p.subrange(4, 8) =~= be32(runs.len() as u32));
    lemma_be32_roundtrip(0x0100_0000);
    lemma_be32_roundtrip(runs.len() as u32);
    let e = read_signed_entries(p, 8, runs.len());
    assert forall|k: int| 0 <= k < runs.len() implies #[trigger] e[k] == runs[k] by {
        assert(p.subrange(8 + 8 * k, 8 + 8 * k + 4) =~= runs_i32(runs).subrange(8 * k, 8 * k + 4));
        assert(p.subrange(8 + 8 * k + 4, 8 + 8 * k + 8) =~= runs_i32(runs).subrange(8 * k + 4, 8 * k + 8));
        assert(1 <= runs[k].0 <= offsets.len());
        lemma_i32_roundtrip(runs[k].1);
    }
    assert(e =~= runs);
}


} // verus!
