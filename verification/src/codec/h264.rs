//! H.264/AVC configuration extraction and Annex B to length-prefixed
//! conversion.

use vstd::prelude::*;

use super::annexb::{copy_range, lemma_nal_ranges_bounds, nal_ranges, nal_unit_ranges};
use crate::wire::{be32, lemma_be32_roundtrip, push_u32, read_be32};

verus! {

/// H.264/AVC codec configuration: the SPS and PPS NAL units (without start
/// codes) that the `avcC` box carries.
#[derive(Debug, Clone, PartialEq, Eq)]
pub struct AvcConfig {
    /// Sequence Parameter Set NAL unit
    pub sps: Vec<u8>,
    /// Picture Parameter Set NAL unit
    pub pps: Vec<u8>,
}

/// NAL unit type of a Sequence Parameter Set.
pub const NAL_TYPE_SPS: u8 = 7;

/// NAL unit type of a Picture Parameter Set.
pub const NAL_TYPE_PPS: u8 = 8;

/// NAL unit type of an IDR slice.
pub const NAL_TYPE_IDR: u8 = 5;

/// The bytes of the `k`-th NAL unit of the stream.
pub open spec fn nal_at(data: Seq<u8>, k: int) -> Seq<u8> {
    data.subrange(nal_ranges(data, 0)[k].0, nal_ranges(data, 0)[k].1)
}

/// Whether a NAL unit is non-empty and has H.264 type `t` (low five bits of
/// its header byte).
pub open spec fn nal_has_type(nal: Seq<u8>, t: u8) -> bool {
    nal.len() > 0 && (nal[0] & 0x1fu8) == t
}

/// The first NAL unit of type `t` among the units numbered `k` and up.
pub open spec fn find_nal_of_type(data: Seq<u8>, t: u8, k: int) -> Option<Seq<u8>>
    decreases nal_ranges(data, 0).len() - k,
{
    if k < 0 || k >= nal_ranges(data, 0).len() {
        None
    } else if nal_has_type(nal_at(data, k), t) {
        Some(nal_at(data, k))
    } else {
        find_nal_of_type(data, t, k + 1)
    }
}

/// The configuration an Annex B access unit carries: its first SPS and its
/// first PPS, if it has both.
pub open spec fn spec_extract_avc_config(data: Seq<u8>) -> Option<(Seq<u8>, Seq<u8>)> {
    match (find_nal_of_type(data, NAL_TYPE_SPS, 0), find_nal_of_type(data, NAL_TYPE_PPS, 0)) {
        (Some(sps), Some(pps)) => Some((sps, pps)),
        _ => None,
    }
}

/// The length-prefixed form of NAL unit `k`: a 32-bit big-endian length and
/// the unit; empty units are dropped.
pub open spec fn avcc_piece(data: Seq<u8>, k: int) -> Seq<u8> {
    let nal = nal_at(data, k);
    if nal.len() > 0 {
        be32(nal.len() as u32) + nal
    } else {
        Seq::empty()
    }
}

/// The length-prefixed form of the first `k` NAL units.
pub open spec fn avcc_prefix(data: Seq<u8>, k: int) -> Seq<u8>
    decreases k,
{
    if k <= 0 {
        Seq::empty()
    } else {
        avcc_prefix(data, k - 1) + avcc_piece(data, k - 1)
    }
}

/// The AVCC (length-prefixed) form of an Annex B stream.
pub open spec fn spec_annexb_to_avcc(data: Seq<u8>) -> Seq<u8> {
    avcc_prefix(data, nal_ranges(data, 0).len() as int)
}

/// Whether some NAL unit of the stream is an IDR slice.
pub open spec fn spec_is_h264_keyframe(data: Seq<u8>) -> bool {
    exists|k: int|
        0 <= k < nal_ranges(data, 0).len() && nal_has_type(#[trigger] nal_at(data, k), NAL_TYPE_IDR)
}

/// Index of the first NAL unit with type `t`, with its bytes.
fn first_nal_of_type(data: &[u8], ranges: &Vec<(usize, usize)>, t: u8) -> (r: Option<Vec<u8>>)
    requires
        ranges@.len() == nal_ranges(data@, 0).len(),
        forall|j: int|
            0 <= j < ranges@.len() ==> ranges@[j].0 == nal_ranges(data@, 0)[j].0 && ranges@[j].1
                == nal_ranges(data@, 0)[j].1,
        forall|j: int| 0 <= j < ranges@.len() ==> (#[trigger] ranges@[j]).0 <= ranges@[j].1 <= data@.len(),
    ensures
        match (r, find_nal_of_type(data@, t, 0)) {
            (Some(v), Some(n)) => v@ == n,
            (None, None) => true,
            _ => false,
        },
{
    let mut k: usize = 0;
    while k < ranges.len()
        invariant
            k <= ranges@.len(),
            ranges@.len() == nal_ranges(data@, 0).len(),
            forall|j: int|
                0 <= j < ranges@.len() ==> ranges@[j].0 == nal_ranges(data@, 0)[j].0 && ranges@[j].1
                    == nal_ranges(data@, 0)[j].1,
            forall|j: int| 0 <= j < ranges@.len() ==> (#[trigger] ranges@[j]).0 <= ranges@[j].1 <= data@.len(),
            find_nal_of_type(data@, t, 0) == find_nal_of_type(data@, t, k as int),
        decreases ranges@.len() - k,
    {
        let (b, e) = ranges[k];
        if b < e && (data[b] & 0x1fu8) == t {
            let v = copy_range(data, b, e);
            assert(nal_at(data@, k as int)[0] == data@[b as int]);
            return Some(v);
        }
        proof {
            if b < e {
                assert(nal_at(data@, k as int)[0] == data@[b as int]);
            }
        }
        k = k + 1;
    }
    None
}

/// Extracts the SPS and PPS from an Annex B access unit.
pub fn extract_avc_config(data: &[u8]) -> (r: Option<AvcConfig>)
    ensures
        match (r, spec_extract_avc_config(data@)) {
            (Some(c), Some((sps, pps))) => c.sps@ == sps && c.pps@ == pps,
            (None, None) => true,
            _ => false,
        },
{
    let ranges = nal_unit_ranges(data);
    let sps = first_nal_of_type(data, &ranges, NAL_TYPE_SPS);
    let pps = first_nal_of_type(data, &ranges, NAL_TYPE_PPS);
    match (sps, pps) {
        (Some(sps), Some(pps)) => Some(AvcConfig { sps, pps }),
        _ => None,
    }
}

/// A Baseline-profile SPS (level 3.0) and PPS, used for files that hold no
/// video frame.
pub open spec fn spec_default_avc_config() -> (Seq<u8>, Seq<u8>) {
    (
        seq![0x67u8, 0x42u8, 0x00u8, 0x1eu8, 0x95u8, 0xa8u8, 0x28u8, 0x28u8, 0x28u8],
        seq![0x68u8, 0xceu8, 0x3cu8, 0x80u8],
    )
}

/// The configuration used when no keyframe supplied one.
pub fn default_avc_config() -> (r: AvcConfig)
    ensures
        r.sps@ == spec_default_avc_config().0,
        r.pps@ == spec_default_avc_config().1,
{
    let sps = vec![0x67u8, 0x42u8, 0x00u8, 0x1eu8, 0x95u8, 0xa8u8, 0x28u8, 0x28u8, 0x28u8];
    let pps = vec![0x68u8, 0xceu8, 0x3cu8, 0x80u8];
    assert(sps@ =~= spec_default_avc_config().0);
    assert(pps@ =~= spec_default_avc_config().1);
    AvcConfig { sps, pps }
}

/// Converts an Annex B stream to the length-prefixed form MP4 stores: each
/// non-empty NAL unit preceded by its 32-bit big-endian length.
pub fn annexb_to_avcc(data: &[u8]) -> (r: Vec<u8>)
    ensures
        r@ == spec_annexb_to_avcc(data@),
{
    let ranges = nal_unit_ranges(data);
    let mut out: Vec<u8> = Vec::with_capacity(data.len());
    let mut k: usize = 0;
    while k < ranges.len()
        invariant
            k <= ranges@.len(),
            ranges@.len() == nal_ranges(data@, 0).len(),
            forall|j: int|
                0 <= j < ranges@.len() ==> ranges@[j].0 == nal_ranges(data@, 0)[j].0 && ranges@[j].1
                    == nal_ranges(data@, 0)[j].1,
            forall|j: int| 0 <= j < ranges@.len() ==> (#[trigger] ranges@[j]).0 <= ranges@[j].1 <= data@.len(),
            out@ == avcc_prefix(data@, k as int),
        decreases ranges@.len() - k,
    {
        let (b, e) = ranges[k];
        if b < e {
            push_u32(&mut out, (e - b) as u32);
            let mut i = b;
            while i < e
                invariant
                    b <= i <= e,
                    e <= data@.len(),
                    out@ == avcc_prefix(data@, k as int) + be32((e - b) as u32) + data@.subrange(
                        b as int,
                        i as int,
                    ),
                decreases e - i,
            {
                out.push(data[i]);
                i = i + 1;
                assert(out@ =~= avcc_prefix(data@, k as int) + be32((e - b) as u32)
                    + data@.subrange(b as int, i as int));
            }
            assert(out@ =~= avcc_prefix(data@, k as int) + avcc_piece(data@, k as int));
        } else {
            assert(avcc_piece(data@, k as int) =~= Seq::<u8>::empty());
            assert(out@ =~= avcc_prefix(data@, k as int) + avcc_piece(data@, k as int));
        }
        k = k + 1;
    }
    out
}

/// Checks if an Annex B access unit contains an IDR slice.
pub fn is_h264_keyframe(data: &[u8]) -> (r: bool)
    ensures
        r == spec_is_h264_keyframe(data@),
{
    let ranges = nal_unit_ranges(data);
    let mut k: usize = 0;
    while k < ranges.len()
        invariant
            k <= ranges@.len(),
            ranges@.len() == nal_ranges(data@, 0).len(),
            forall|j: int|
                0 <= j < ranges@.len() ==> ranges@[j].0 == nal_ranges(data@, 0)[j].0 && ranges@[j].1
                    == nal_ranges(data@, 0)[j].1,
            forall|j: int| 0 <= j < ranges@.len() ==> (#[trigger] ranges@[j]).0 <= ranges@[j].1 <= data@.len(),
            forall|j: int| 0 <= j < k ==> !nal_has_type(#[trigger] nal_at(data@, j), NAL_TYPE_IDR),
        decreases ranges@.len() - k,
    {
        let (b, e) = ranges[k];
        if b < e {
            assert(nal_at(data@, k as int)[0] == data@[b as int]);
            if (data[b] & 0x1fu8) == NAL_TYPE_IDR {
                return true;
            }
        }
        k = k + 1;
    }
    false
}


/// Reads a stream of length-prefixed units (a 32-bit big-endian length,
/// then that many bytes) to its end; `None` when a length runs past it.
pub open spec fn length_prefixed_units(s: Seq<u8>) -> Option<Seq<Seq<u8>>>
    decreases s.len(),
{
    if s.len() == 0 {
        Some(Seq::empty())
    } else if s.len() < 4 {
        None
    } else {
        let n = read_be32(s.subrange(0, 4));
        if n < 0 || 4 + n > s.len() {
            None
        } else {
            match length_prefixed_units(s.subrange(4 + n, s.len() as int)) {
                Some(rest) => Some(seq![s.subrange(4, 4 + n)] + rest),
                None => None,
            }
        }
    }
}

/// The non-empty NAL units among the first `k` of the stream, in order.
pub open spec fn nonempty_nals(data: Seq<u8>, k: int) -> Seq<Seq<u8>>
    decreases k,
{
    if k <= 0 {
        Seq::empty()
    } else if nal_at(data, k - 1).len() > 0 {
        nonempty_nals(data, k - 1).push(nal_at(data, k - 1))
    } else {
        nonempty_nals(data, k - 1)
    }
}

proof fn lemma_units_append(a: Seq<u8>, b: Seq<u8>)
    requires
        length_prefixed_units(a) is Some,
        length_prefixed_units(b) is Some,
    ensures
        length_prefixed_units(a + b) == Some(length_prefixed_units(a)->0 + length_prefixed_units(b)->0),
    decreases a.len(),
{
    if a.len() == 0 {
        assert(a + b =~= b);
        assert(length_prefixed_units(a)->0 + length_prefixed_units(b)->0 =~= length_prefixed_units(b)->0);
    } else {
        let ab = a + b;
        let n = read_be32(a.subrange(0, 4));
        assert(ab.subrange(0, 4) =~= a.subrange(0, 4));
        let rest_a = a.subrange(4 + n, a.len() as int);
        lemma_units_append(rest_a, b);
        assert(ab.subrange(4 + n, ab.len() as int) =~= rest_a + b);
        assert(ab.subrange(4, 4 + n) =~= a.subrange(4, 4 + n));
        assert(seq![a.subrange(4, 4 + n)] + (length_prefixed_units(rest_a)->0 + length_prefixed_units(b)->0)
            =~= (seq![a.subrange(4, 4 + n)] + length_prefixed_units(rest_a)->0) + length_prefixed_units(b)->0);
    }
}

proof fn lemma_unit_alone(nal: Seq<u8>)
    requires
        nal.len() <= u32::MAX,
    ensures
        length_prefixed_units(be32(nal.len() as u32) + nal) == Some(seq![nal]),
{
    let s = be32(nal.len() as u32) + nal;
    assert(s.subrange(0, 4) =~= be32(nal.len() as u32));
    lemma_be32_roundtrip(nal.len() as u32);
    assert(s.subrange(4 + nal.len() as int, s.len() as int) =~= Seq::<u8>::empty());
    assert(s.subrange(4, 4 + nal.len() as int) =~= nal);
    assert(seq![nal] + Seq::<Seq<u8>>::empty() =~= seq![nal]);
    assert(length_prefixed_units(Seq::<u8>::empty()) == Some(Seq::<Seq<u8>>::empty()));
    let n = read_be32(s.subrange(0, 4));
    assert(n == nal.len());
    assert(length_prefixed_units(s) == match length_prefixed_units(s.subrange(4 + n, s.len() as int)) {
        Some(rest) => Some(seq![s.subrange(4, 4 + n)] + rest),
        None => None,
    });
}

proof fn lemma_avcc_prefix_units(data: Seq<u8>, k: int)
    requires
        0 <= k <= nal_ranges(data, 0).len(),
        data.len() <= u32::MAX,
    ensures
        length_prefixed_units(avcc_prefix(data, k)) == Some(nonempty_nals(data, k)),
    decreases k,
{
    if k == 0 {
        assert(length_prefixed_units(Seq::<u8>::empty()) == Some(Seq::<Seq<u8>>::empty()));
    } else {
        lemma_avcc_prefix_units(data, k - 1);
        lemma_nal_ranges_bounds(data, 0);
        let r = nal_ranges(data, 0)[k - 1];
        let nal = nal_at(data, k - 1);
        assert(nal.len() <= data.len());
        if nal.len() > 0 {
            lemma_unit_alone(nal);
            lemma_units_append(avcc_prefix(data, k - 1), avcc_piece(data, k - 1));
            assert(seq![nal] =~= Seq::<Seq<u8>>::empty().push(nal));
            assert(nonempty_nals(data, k - 1) + seq![nal] =~= nonempty_nals(data, k - 1).push(nal));
        } else {
            assert(avcc_piece(data, k - 1) =~= Seq::<u8>::empty());
            assert(avcc_prefix(data, k) =~= avcc_prefix(data, k - 1));
        }
    }
}

/// Reading the length-prefixed form unit by unit gives back the non-empty
/// NAL units of the Annex B stream, in order: each length says exactly
/// how many bytes of its unit follow.
pub proof fn lemma_avcc_reads_back_units(data: Seq<u8>)
    requires
        data.len() <= u32::MAX,
    ensures
        length_prefixed_units(spec_annexb_to_avcc(data)) == Some(
            nonempty_nals(data, nal_ranges(data, 0).len() as int),
        ),
{
    lemma_avcc_prefix_units(data, nal_ranges(data, 0).len() as int);
}


proof fn lemma_find_nal_of_type(data: Seq<u8>, t: u8, k: int)
    ensures
        find_nal_of_type(data, t, k) matches Some(n) ==> nal_has_type(n, t) && exists|j: int|
            k <= j < nal_ranges(data, 0).len() && n == #[trigger] nal_at(data, j),
    decreases nal_ranges(data, 0).len() - k,
{
    if !(k < 0 || k >= nal_ranges(data, 0).len()) && !nal_has_type(nal_at(data, k), t) {
        lemma_find_nal_of_type(data, t, k + 1);
    }
}

/// The configuration taken from an access unit is made of its own NAL
/// units: an SPS (type 7) and a PPS (type 8), each one of the stream's
/// units.
pub proof fn lemma_avc_config_units(data: Seq<u8>)
    ensures
        spec_extract_avc_config(data) matches Some((sps, pps)) ==> {
            &&& nal_has_type(sps, NAL_TYPE_SPS)
            &&& nal_has_type(pps, NAL_TYPE_PPS)
            &&& exists|j: int| 0 <= j < nal_ranges(data, 0).len() && sps == #[trigger] nal_at(data, j)
            &&& exists|j: int| 0 <= j < nal_ranges(data, 0).len() && pps == #[trigger] nal_at(data, j)
        },
{
    lemma_find_nal_of_type(data, NAL_TYPE_SPS, 0);
    lemma_find_nal_of_type(data, NAL_TYPE_PPS, 0);
}

} // verus!
