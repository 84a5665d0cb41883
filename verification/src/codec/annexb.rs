//! Annex B byte streams: NAL units delimited by `00 00 01` or
//! `00 00 00 01` start codes.

use vstd::prelude::*;

verus! {

/// Length of the start code that begins at `i` (4, 3), or 0 if none does.
pub open spec fn start_code_len(s: Seq<u8>, i: int) -> int {
    if 0 <= i && i + 4 <= s.len() && s[i] == 0 && s[i + 1] == 0 && s[i + 2] == 0 && s[i + 3] == 1 {
        4
    } else if 0 <= i && i + 3 <= s.len() && s[i] == 0 && s[i + 1] == 0 && s[i + 2] == 1 {
        3
    } else {
        0
    }
}

/// The first start code at or after `from`: its position and its length.
pub open spec fn next_start_code(s: Seq<u8>, from: int) -> Option<(int, int)>
    decreases s.len() - from,
{
    if from < 0 || from + 3 > s.len() {
        None
    } else if start_code_len(s, from) > 0 {
        Some((from, start_code_len(s, from)))
    } else {
        next_start_code(s, from + 1)
    }
}

/// Where the next start code lies, and that none comes before it.
pub proof fn lemma_next_start_code_bounds(s: Seq<u8>, from: int)
    ensures
        next_start_code(s, from) matches Some((i, l)) ==> {
            &&& from <= i
            &&& (l == 3 || l == 4)
            &&& i + l <= s.len()
            &&& start_code_len(s, i) == l
            &&& forall|k: int| from <= k < i ==> start_code_len(s, k) == 0
        },
        next_start_code(s, from) is None && from >= 0 ==> forall|k: int|
            from <= k < s.len() ==> start_code_len(s, k) == 0,
    decreases s.len() - from,
{
    if from < 0 || from + 3 > s.len() {
    } else if start_code_len(s, from) > 0 {
    } else {
        lemma_next_start_code_bounds(s, from + 1);
    }
}

/// Where the NAL unit that starts at `begin` ends: at the next start code, or
/// at the end of the stream.
pub open spec fn nal_end(s: Seq<u8>, begin: int) -> int {
    match next_start_code(s, begin) {
        Some((j, _)) => j,
        None => s.len() as int,
    }
}

/// The `[begin, end)` ranges of the NAL units found from position `from` on.
/// Bytes before the first start code belong to no NAL unit.
pub open spec fn nal_ranges(s: Seq<u8>, from: int) -> Seq<(int, int)>
    decreases s.len() - from,
{
    match next_start_code(s, from) {
        None => Seq::empty(),
        Some((i, l)) => {
            let b = i + l;
            let e = nal_end(s, b);
            proof {
                lemma_next_start_code_bounds(s, from);
                lemma_next_start_code_bounds(s, b);
            }
            if e <= from {
                Seq::empty()
            } else {
                seq![(b, e)] + nal_ranges(s, e)
            }
        },
    }
}

/// Every NAL unit range lies within the stream, from `from` on.
pub proof fn lemma_nal_ranges_bounds(s: Seq<u8>, from: int)
    requires
        0 <= from,
    ensures
        forall|k: int|
            0 <= k < nal_ranges(s, from).len() ==> from <= #[trigger] nal_ranges(s, from)[k].0
                <= nal_ranges(s, from)[k].1 <= s.len(),
    decreases s.len() - from,
{
    lemma_next_start_code_bounds(s, from);
    if let Some((i, l)) = next_start_code(s, from) {
        let b = i + l;
        lemma_next_start_code_bounds(s, b);
        let e = nal_end(s, b);
        if e > from {
            lemma_nal_ranges_bounds(s, e);
            let rest = nal_ranges(s, e);
            assert forall|k: int| 0 <= k < nal_ranges(s, from).len() implies from
                <= #[trigger] nal_ranges(s, from)[k].0 <= nal_ranges(s, from)[k].1 <= s.len() by {
                if k > 0 {
                    assert(nal_ranges(s, from)[k] == rest[k - 1]);
                }
            }
        }
    }
}

fn start_code_len_at(data: &[u8], i: usize) -> (r: usize)
    ensures
        r == start_code_len(data@, i as int),
{
    let n = data.len();
    if i <= n && n - i >= 4 && data[i] == 0 && data[i + 1] == 0 && data[i + 2] == 0 && data[i + 3]
        == 1 {
        4
    } else if i <= n && n - i >= 3 && data[i] == 0 && data[i + 1] == 0 && data[i + 2] == 1 {
        3
    } else {
        0
    }
}

/// Finds the first start code at or after `from`, returning its position and
/// its length (3 or 4 bytes).
pub fn find_start_code(data: &[u8], from: usize) -> (r: Option<(usize, usize)>)
    ensures
        match (r, next_start_code(data@, from as int)) {
            (Some((i, l)), Some((si, sl))) => i == si && l == sl,
            (None, None) => true,
            _ => false,
        },
{
    let n = data.len();
    let mut i = from;
    while i < n && n - i >= 3
        invariant
            from <= i,
            n == data.len(),
            next_start_code(data@, from as int) == next_start_code(data@, i as int),
        decreases n - i,
    {
        let l = start_code_len_at(data, i);
        if l > 0 {
            return Some((i, l));
        }
        i = i + 1;
    }
    None
}

/// The `[begin, end)` byte ranges of the NAL units of an Annex B stream, in
/// stream order.
pub fn nal_unit_ranges(data: &[u8]) -> (r: Vec<(usize, usize)>)
    ensures
        r@.len() == nal_ranges(data@, 0).len(),
        forall|k: int|
            0 <= k < r@.len() ==> r@[k].0 == nal_ranges(data@, 0)[k].0 && r@[k].1 == nal_ranges(
                data@,
                0,
            )[k].1,
        forall|k: int| 0 <= k < r@.len() ==> (#[trigger] r@[k]).0 <= r@[k].1 <= data@.len(),
{
    let mut out: Vec<(usize, usize)> = Vec::new();
    let mut from: usize = 0;
    let ghost s = data@;
    proof {
        lemma_nal_ranges_bounds(s, 0);
    }
    loop
        invariant
            from <= data.len(),
            s == data@,
            out@.len() + nal_ranges(s, from as int).len() == nal_ranges(s, 0).len(),
            forall|k: int|
                0 <= k < out@.len() ==> out@[k].0 == nal_ranges(s, 0)[k].0 && out@[k].1
                    == nal_ranges(s, 0)[k].1,
            forall|k: int|
                0 <= k < nal_ranges(s, from as int).len() ==> nal_ranges(s, 0)[out@.len() + k]
                    == nal_ranges(s, from as int)[k],
            forall|k: int| 0 <= k < out@.len() ==> (#[trigger] out@[k]).0 <= out@[k].1 <= data@.len(),
        decreases data.len() - from,
    {
        proof {
            lemma_next_start_code_bounds(s, from as int);
            lemma_nal_ranges_bounds(s, from as int);
        }
        match find_start_code(data, from) {
            None => {
                return out;
            },
            Some((i, l)) => {
                let b = i + l;
                proof {
                    lemma_next_start_code_bounds(s, b as int);
                }
                let e = match find_start_code(data, b) {
                    Some((j, _)) => j,
                    None => data.len(),
                };
                if e <= from {
                    return out;
                }
                let ghost rest = nal_ranges(s, e as int);
                assert(nal_ranges(s, from as int) == seq![(b as int, e as int)] + rest);
                assert(nal_ranges(s, from as int)[0] == (b as int, e as int));
                assert(nal_ranges(s, 0)[out@.len() + 0int] == nal_ranges(s, from as int)[0]);
                out.push((b, e));
                proof {
                    assert forall|k: int| 0 <= k < rest.len() implies nal_ranges(s, 0)[out@.len() + k]
                        == rest[k] by {
                        assert(nal_ranges(s, from as int)[k + 1] == rest[k]);
                    }
                }
                from = e;
            },
        }
    }
}

/// Copies `data[begin..end)` into a fresh vector.
pub fn copy_range(data: &[u8], begin: usize, end: usize) -> (r: Vec<u8>)
    requires
        begin <= end <= data@.len(),
    ensures
        r@ == data@.subrange(begin as int, end as int),
{
    let mut out: Vec<u8> = Vec::with_capacity(end - begin);
    let mut i = begin;
    while i < end
        invariant
            begin <= i <= end,
            end <= data@.len(),
            out@ == data@.subrange(begin as int, i as int),
        decreases end - i,
    {
        out.push(data[i]);
        i = i + 1;
        assert(out@ =~= data@.subrange(begin as int, i as int));
    }
    out
}

} // verus!
