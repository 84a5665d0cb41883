//! AV1 codec configuration extraction.
//!
//! AV1 uses OBU (Open Bitstream Unit) framing instead of NAL units; its
//! configuration is carried by the Sequence Header OBU in an `av1C` box.

pub mod obu_type;

use vstd::prelude::*;

use super::annexb::copy_range;
use super::bits::{bits_available, bits_value, BitReader};

verus! {

/// AV1 codec configuration: the fields of the `av1C` box and the raw
/// Sequence Header OBU that follows them.
#[derive(Debug, Clone, PartialEq, Eq)]
pub struct Av1Config {
    /// Raw Sequence Header OBU bytes
    pub sequence_header: Vec<u8>,
    /// `seq_profile` (3 bits)
    pub seq_profile: u8,
    /// `seq_level_idx_0` (5 bits)
    pub seq_level_idx: u8,
    /// `seq_tier_0` (1 bit)
    pub seq_tier: u8,
    /// `high_bitdepth`
    pub high_bitdepth: bool,
    /// `twelve_bit`
    pub twelve_bit: bool,
    /// `mono_chrome`
    pub monochrome: bool,
    /// `chroma_subsampling_x`
    pub chroma_subsampling_x: bool,
    /// `chroma_subsampling_y`
    pub chroma_subsampling_y: bool,
    /// `chroma_sample_position` (2 bits)
    pub chroma_sample_position: u8,
}

/// Extracts the OBU type from an OBU header byte: bits 3-6.
pub fn obu_type(header_byte: u8) -> (r: u8)
    ensures
        r == (header_byte >> 3u8) & 0x0fu8,
{
    (header_byte >> 3u8) & 0x0fu8
}

/// Checks if the OBU header has an extension byte (bit 2).
pub fn obu_has_extension(header_byte: u8) -> (r: bool)
    ensures
        r == ((header_byte & 0x04u8) != 0),
{
    (header_byte & 0x04u8) != 0
}

/// Checks if the OBU has a size field (bit 1).
pub fn obu_has_size(header_byte: u8) -> (r: bool)
    ensures
        r == ((header_byte & 0x02u8) != 0),
{
    (header_byte & 0x02u8) != 0
}

/// The fields of a sequence header that the `av1C` box repeats.
#[derive(Clone, Copy, Debug, PartialEq, Eq)]
pub struct Av1Fields {
    /// `seq_profile`
    pub seq_profile: u8,
    /// `seq_level_idx[0]`
    pub seq_level_idx: u8,
    /// `seq_tier[0]`
    pub seq_tier: u8,
    /// `high_bitdepth`
    pub high_bitdepth: bool,
    /// `twelve_bit`
    pub twelve_bit: bool,
    /// `mono_chrome`
    pub monochrome: bool,
    /// `subsampling_x`
    pub chroma_subsampling_x: bool,
    /// `subsampling_y`
    pub chroma_subsampling_y: bool,
    /// `chroma_sample_position`
    pub chroma_sample_position: u8,
}

/// The `av1C` fields a configuration holds.
pub open spec fn config_fields(c: Av1Config) -> Av1Fields {
    Av1Fields {
        seq_profile: c.seq_profile,
        seq_level_idx: c.seq_level_idx,
        seq_tier: c.seq_tier,
        high_bitdepth: c.high_bitdepth,
        twelve_bit: c.twelve_bit,
        monochrome: c.monochrome,
        chroma_subsampling_x: c.chroma_subsampling_x,
        chroma_subsampling_y: c.chroma_subsampling_y,
        chroma_sample_position: c.chroma_sample_position,
    }
}

/// 128 to the power `k`.
pub open spec fn pow128(k: nat) -> nat
    decreases k,
{
    if k == 0 {
        1
    } else {
        128 * pow128((k - 1) as nat)
    }
}

/// Bytes of the `leb128` field at byte `pos`, looking from its byte `i` on:
/// up to the first byte without its top bit, at most eight bytes.
pub open spec fn leb128_len(s: Seq<u8>, pos: int, i: nat) -> Option<nat>
    decreases 8 - i,
{
    if pos < 0 || pos + i >= s.len() || i >= 8 {
        None
    } else if (s[pos + i] & 0x80u8) == 0 || i == 7 {
        Some(i + 1)
    } else {
        leb128_len(s, pos, i + 1)
    }
}

/// Value of bytes `i` to `n` of the `leb128` field at `pos`: seven bits per
/// byte, least significant group first.
pub open spec fn leb128_value(s: Seq<u8>, pos: int, i: int, n: int) -> nat
    decreases n - i,
{
    if i >= n {
        0
    } else {
        (s[pos + i] & 0x7fu8) as nat + 128 * leb128_value(s, pos, i + 1, n)
    }
}

/// The OBU that starts at byte `pos`: its type, its start, where its payload
/// starts and where it ends. Without a size field the OBU runs to the end
/// of the data; `None` when the header or the announced payload does not
/// fit.
pub open spec fn obu_at(s: Seq<u8>, pos: int) -> Option<(u8, int, int, int)> {
    if pos < 0 || pos >= s.len() {
        None
    } else {
        let h = s[pos];
        let t = (h >> 3u8) & 0x0fu8;
        let hdr_end: int = if (h & 0x04u8) != 0 { pos + 2 } else { pos + 1 };
        if hdr_end > s.len() {
            None
        } else if (h & 0x02u8) == 0 {
            Some((t, pos, hdr_end, s.len() as int))
        } else {
            match leb128_len(s, hdr_end, 0) {
                None => None,
                Some(n) => {
                    let size = leb128_value(s, hdr_end, 0, n as int);
                    if hdr_end + n + size > s.len() {
                        None
                    } else {
                        Some((t, pos, hdr_end + n, hdr_end + n + size))
                    }
                },
            }
        }
    }
}

/// The first OBU of type `t` among those laid end to end from byte `pos`.
pub open spec fn find_obu(s: Seq<u8>, pos: int, t: u8) -> Option<(u8, int, int, int)>
    decreases s.len() - pos,
{
    if pos < 0 || pos >= s.len() {
        None
    } else {
        match obu_at(s, pos) {
            None => None,
            Some(o) => if o.0 == t {
                Some(o)
            } else if o.3 <= pos || o.3 > s.len() {
                None
            } else {
                find_obu(s, o.3, t)
            },
        }
    }
}

/// Whether an OBU is a frame (or frame header) of a shown key frame: its
/// payload starts with `show_existing_frame` 0 and `frame_type` 0.
pub open spec fn is_key_frame_obu(s: Seq<u8>, o: (u8, int, int, int)) -> bool {
    &&& o.0 == obu_type::FRAME_HEADER || o.0 == obu_type::FRAME
    &&& 0 <= o.2 < o.3 <= s.len()
    &&& (s[o.2] >> 5u8) == 0
}

/// Whether some OBU from byte `pos` on is a key frame's.
pub open spec fn has_key_frame_obu(s: Seq<u8>, pos: int) -> bool
    decreases s.len() - pos,
{
    if pos < 0 || pos >= s.len() {
        false
    } else {
        match obu_at(s, pos) {
            None => false,
            Some(o) => is_key_frame_obu(s, o) || (pos < o.3 <= s.len() && has_key_frame_obu(s, o.3)),
        }
    }
}

proof fn lemma_pow128_le(k: nat)
    requires
        k <= 8,
    ensures
        1 <= pow128(k) <= 0x100_0000_0000_0000,
    decreases k,
{
    reveal_with_fuel(pow128, 9);
    if k > 0 {
        lemma_pow128_le((k - 1) as nat);
        if k < 8 {
            assert(pow128(k) <= pow128(8)) by {
                lemma_pow128_mono(k, 8);
            }
        }
    }
}

proof fn lemma_pow128_mono(a: nat, b: nat)
    requires
        a <= b,
    ensures
        pow128(a) <= pow128(b),
    decreases b - a,
{
    if a < b {
        lemma_pow128_mono(a, (b - 1) as nat);
        lemma_pow128_pos((b - 1) as nat);
    }
}

proof fn lemma_pow128_pos(k: nat)
    ensures
        pow128(k) >= 1,
    decreases k,
{
    if k > 0 {
        lemma_pow128_pos((k - 1) as nat);
    }
}

proof fn lemma_leb128_len_bounds(s: Seq<u8>, pos: int, i: nat)
    ensures
        leb128_len(s, pos, i) matches Some(n) ==> i < n <= 8 && pos + n <= s.len() && 0 <= pos,
    decreases 8 - i,
{
    if !(pos < 0 || pos + i >= s.len() || i >= 8) && !((s[pos + i] & 0x80u8) == 0 || i == 7) {
        lemma_leb128_len_bounds(s, pos, i + 1);
    }
}

/// Reads the `leb128` field at byte `pos`: its value and its length.
fn read_leb128(data: &[u8], pos: usize) -> (r: Option<(u64, usize)>)
    ensures
        match (r, leb128_len(data@, pos as int, 0)) {
            (Some((v, n)), Some(m)) => n == m && v == leb128_value(data@, pos as int, 0, m as int),
            (None, None) => true,
            _ => false,
        },
{
    let mut i: usize = 0;
    let mut n: usize = 0;
    while i < 8
        invariant_except_break
            n == 0,
            leb128_len(data@, pos as int, 0) == leb128_len(data@, pos as int, i as nat),
        invariant
            i <= 7,
        ensures
            n >= 1,
            leb128_len(data@, pos as int, 0) == Some(n as nat),
        decreases 8 - i,
    {
        if pos >= data.len() || i >= data.len() - pos {
            return None;
        }
        if (data[pos + i] & 0x80u8) == 0 || i == 7 {
            n = i + 1;
            break;
        }
        i = i + 1;
    }
    proof {
        lemma_leb128_len_bounds(data@, pos as int, 0);
        lemma_pow128_le(0);
    }
    let mut val: u64 = 0;
    let mut j: usize = n;
    let len = data.len();
    while j > 0
        invariant
            len == data@.len(),
            j <= n <= 8,
            pos + n <= data@.len(),
            val == leb128_value(data@, pos as int, j as int, n as int),
            val < pow128((n - j) as nat),
        decreases j,
    {
        j = j - 1;
        let b = data[pos + j];
        let low: u8 = b & 0x7fu8;
        assert(low < 128) by (bit_vector)
            requires
                low == b & 0x7fu8,
        ;
        proof {
            lemma_pow128_le((n - j - 1) as nat);
            lemma_pow128_le((n - j) as nat);
            assert(pow128((n - j) as nat) == 128 * pow128((n - j - 1) as nat));
            assert(val * 128 + low < 128 * pow128((n - j - 1) as nat)) by (nonlinear_arith)
                requires
                    val < pow128((n - j - 1) as nat),
                    low < 128,
            ;
        }
        val = val * 128 + low as u64;
    }
    Some((val, n))
}

/// Reads the OBU that starts at byte `pos`.
fn read_obu(data: &[u8], pos: usize) -> (r: Option<(u8, usize, usize, usize)>)
    ensures
        match (r, obu_at(data@, pos as int)) {
            (Some(x), Some(o)) => x.0 == o.0 && x.1 == o.1 && x.2 == o.2 && x.3 == o.3,
            (None, None) => true,
            _ => false,
        },
{
    if pos >= data.len() {
        return None;
    }
    let h = data[pos];
    let t = (h >> 3u8) & 0x0fu8;
    let hdr_end: usize = if (h & 0x04u8) != 0 {
        if data.len() - pos < 2 {
            return None;
        }
        pos + 2
    } else {
        pos + 1
    };
    if (h & 0x02u8) == 0 {
        return Some((t, pos, hdr_end, data.len()));
    }
    match read_leb128(data, hdr_end) {
        None => None,
        Some((size, n)) => {
            proof {
                lemma_leb128_len_bounds(data@, hdr_end as int, 0);
            }
            let left = data.len() - hdr_end - n;
            if size > left as u64 {
                None
            } else {
                let end = hdr_end + n + size as usize;
                Some((t, pos, hdr_end + n, end))
            }
        },
    }
}

/// Finds the first OBU of type `t`.
fn find_obu_exec(data: &[u8], t: u8) -> (r: Option<(u8, usize, usize, usize)>)
    ensures
        match (r, find_obu(data@, 0, t)) {
            (Some(x), Some(o)) => x.0 == o.0 && x.1 == o.1 && x.2 == o.2 && x.3 == o.3,
            (None, None) => true,
            _ => false,
        },
{
    let mut pos: usize = 0;
    while pos < data.len()
        invariant
            pos <= data@.len(),
            find_obu(data@, 0, t) == find_obu(data@, pos as int, t),
        decreases data@.len() - pos,
    {
        match read_obu(data, pos) {
            None => {
                return None;
            },
            Some(o) => {
                if o.0 == t {
                    return Some(o);
                }
                if o.3 <= pos || o.3 > data.len() {
                    return None;
                }
                pos = o.3;
            },
        }
    }
    None
}

/// Checks if the given data holds an AV1 key frame: some frame or frame
/// header OBU whose header starts with `show_existing_frame` 0 and
/// `frame_type` 0 (`KEY_FRAME`), as frame headers do outside reduced
/// still-picture streams.
pub fn is_av1_keyframe(data: &[u8]) -> (r: bool)
    ensures
        r == has_key_frame_obu(data@, 0),
{
    let mut pos: usize = 0;
    while pos < data.len()
        invariant
            pos <= data@.len(),
            has_key_frame_obu(data@, 0) == has_key_frame_obu(data@, pos as int),
        decreases data@.len() - pos,
    {
        match read_obu(data, pos) {
            None => {
                return false;
            },
            Some(o) => {
                if (o.0 == obu_type::FRAME_HEADER || o.0 == obu_type::FRAME) && o.2 < o.3 && o.3 <= data.len()
                    && (data[o.2] >> 5u8) == 0 {
                    return true;
                }
                if o.3 <= pos || o.3 > data.len() {
                    return false;
                }
                pos = o.3;
            },
        }
    }
    false
}


/// The `n` bits at bit `p`, when they lie inside the data.
pub open spec fn rd(b: Seq<u8>, p: int, n: nat) -> Option<nat> {
    if bits_available(b, p, n) {
        Some(bits_value(b, p, n))
    } else {
        None
    }
}

/// How many zero bits come from bit `p` up to the next one bit.
pub open spec fn zero_run(b: Seq<u8>, p: int) -> Option<nat>
    decreases b.len() * 8 - p,
{
    if !bits_available(b, p, 1) {
        None
    } else if bits_value(b, p, 1) == 1 {
        Some(0)
    } else {
        match zero_run(b, p + 1) {
            Some(n) => Some(n + 1),
            None => None,
        }
    }
}

/// The position after a `uvlc()` value that starts at bit `p`.
pub open spec fn uvlc_end(b: Seq<u8>, p: int) -> Option<int> {
    match zero_run(b, p) {
        None => None,
        Some(lz) => {
            let q = p + lz + 1;
            if lz >= 32 {
                Some(q)
            } else if bits_available(b, q, lz) {
                Some(q + lz)
            } else {
                None
            }
        },
    }
}

/// `timing_info_present_flag` at bit `p` and what it governs (the timing
/// and decoder model information): the position after them,
/// `decoder_model_info_present_flag` and `buffer_delay_length_minus_1`.
pub open spec fn timing_end(b: Seq<u8>, p: int) -> Option<(int, bool, nat)> {
    match rd(b, p, 1) {
        None => None,
        Some(t) => if t == 0 {
            Some((p + 1, false, 0))
        } else if !bits_available(b, p + 1, 64) {
            None
        } else {
            match rd(b, p + 65, 1) {
                None => None,
                Some(eq) => {
                    let q = if eq == 1 {
                        uvlc_end(b, p + 66)
                    } else {
                        Some(p + 66)
                    };
                    match q {
                        None => None,
                        Some(q) => match rd(b, q, 1) {
                            None => None,
                            Some(dmi) => if dmi == 0 {
                                Some((q + 1, false, 0))
                            } else {
                                match rd(b, q + 1, 5) {
                                    None => None,
                                    Some(bdl) => if bits_available(b, q + 6, 42) {
                                        Some((q + 48, true, bdl))
                                    } else {
                                        None
                                    },
                                }
                            },
                        },
                    }
                },
            }
        },
    }
}

/// The position after one operating point that starts at bit `p`.
pub open spec fn op_point_end(b: Seq<u8>, p: int, dmi: bool, bdl: nat, idd: bool) -> Option<int> {
    if !bits_available(b, p, 17) {
        None
    } else {
        let level = bits_value(b, p + 12, 5);
        let q: Option<int> = if level > 7 {
            if bits_available(b, p + 17, 1) {
                Some(p + 18)
            } else {
                None
            }
        } else {
            Some(p + 17)
        };
        let q2: Option<int> = match q {
            None => None,
            Some(q) => if dmi {
                match rd(b, q, 1) {
                    None => None,
                    Some(f) => if f == 1 {
                        if bits_available(b, q + 1, 2 * (bdl + 1) + 1) {
                            Some(q + 2 * (bdl + 1) + 2)
                        } else {
                            None
                        }
                    } else {
                        Some(q + 1)
                    },
                }
            } else {
                Some(q)
            },
        };
        match q2 {
            None => None,
            Some(q2) => if idd {
                match rd(b, q2, 1) {
                    None => None,
                    Some(f) => if f == 1 {
                        if bits_available(b, q2 + 1, 4) {
                            Some(q2 + 5)
                        } else {
                            None
                        }
                    } else {
                        Some(q2 + 1)
                    },
                }
            } else {
                Some(q2)
            },
        }
    }
}

/// The position after `n` operating points from bit `p`.
pub open spec fn op_points_end(b: Seq<u8>, p: int, n: nat, dmi: bool, bdl: nat, idd: bool) -> Option<int>
    decreases n,
{
    if n == 0 {
        Some(p)
    } else {
        match op_point_end(b, p, dmi, bdl, idd) {
            None => None,
            Some(q) => op_points_end(b, q, (n - 1) as nat, dmi, bdl, idd),
        }
    }
}

/// The position after the frame size fields and the frame id numbers.
pub open spec fn frame_size_end(b: Seq<u8>, p: int, reduced: bool) -> Option<int> {
    match rd(b, p, 4) {
        None => None,
        Some(wb) => match rd(b, p + 4, 4) {
            None => None,
            Some(hb) => {
                let q = p + 8 + wb + 1 + hb + 1;
                if !bits_available(b, p + 8, (wb + 1 + hb + 1) as nat) {
                    None
                } else if reduced {
                    Some(q)
                } else {
                    match rd(b, q, 1) {
                        None => None,
                        Some(f) => if f == 1 {
                            if bits_available(b, q + 1, 7) {
                                Some(q + 8)
                            } else {
                                None
                            }
                        } else {
                            Some(q + 1)
                        },
                    }
                }
            },
        },
    }
}

/// The position after the coding tool flags, up to `enable_restoration`.
pub open spec fn tools_end(b: Seq<u8>, p: int, reduced: bool) -> Option<int> {
    if !bits_available(b, p, 3) {
        None
    } else if reduced {
        if bits_available(b, p + 3, 3) {
            Some(p + 6)
        } else {
            None
        }
    } else if !bits_available(b, p + 3, 4) {
        None
    } else {
        match rd(b, p + 7, 1) {
            None => None,
            Some(oh) => {
                let q: Option<int> = if oh == 1 {
                    if bits_available(b, p + 8, 2) {
                        Some(p + 10)
                    } else {
                        None
                    }
                } else {
                    Some(p + 8)
                };
                match q {
                    None => None,
                    Some(q) => match rd(b, q, 1) {
                        None => None,
                        Some(choose) => {
                            let fq: Option<(int, nat)> = if choose == 1 {
                                Some((q + 1, 2))
                            } else {
                                match rd(b, q + 1, 1) {
                                    None => None,
                                    Some(f) => Some((q + 2, f)),
                                }
                            };
                            match fq {
                                None => None,
                                Some((q3, force)) => {
                                    let q4: Option<int> = if force > 0 {
                                        match rd(b, q3, 1) {
                                            None => None,
                                            Some(ci) => if ci == 1 {
                                                Some(q3 + 1)
                                            } else if bits_available(b, q3 + 1, 1) {
                                                Some(q3 + 2)
                                            } else {
                                                None
                                            },
                                        }
                                    } else {
                                        Some(q3)
                                    };
                                    match q4 {
                                        None => None,
                                        Some(q4) => {
                                            let q5: Option<int> = if oh == 1 {
                                                if bits_available(b, q4, 3) {
                                                    Some(q4 + 3)
                                                } else {
                                                    None
                                                }
                                            } else {
                                                Some(q4)
                                            };
                                            match q5 {
                                                None => None,
                                                Some(q5) => if bits_available(b, q5, 3) {
                                                    Some(q5 + 3)
                                                } else {
                                                    None
                                                },
                                            }
                                        },
                                    }
                                },
                            }
                        },
                    },
                }
            },
        }
    }
}

/// Chroma subsampling (x, y) and the bits it takes, after `color_range`.
pub open spec fn subsampling(b: Seq<u8>, q: int, profile: nat, twelve: bool) -> Option<(int, bool, bool)> {
    if profile == 0 {
        Some((q, true, true))
    } else if profile == 1 {
        Some((q, false, false))
    } else if twelve {
        match rd(b, q, 1) {
            None => None,
            Some(sx) => if sx == 1 {
                match rd(b, q + 1, 1) {
                    None => None,
                    Some(sy) => Some((q + 2, true, sy == 1)),
                }
            } else {
                Some((q + 1, false, false))
            },
        }
    } else {
        Some((q, true, false))
    }
}

/// What `color_config()` at bit `q` (after the colour description) gives
/// for the chroma layout: monochrome, subsampling x and y, sample position.
pub open spec fn chroma_layout(b: Seq<u8>, q: int, profile: nat, twelve: bool, mono: bool, cp: nat, tc: nat, mc: nat) -> Option<(bool, bool, bool, u8)> {
    if mono {
        if bits_available(b, q, 1) {
            Some((true, true, true, 0u8))
        } else {
            None
        }
    } else if cp == 1 && tc == 13 && mc == 0 {
        if bits_available(b, q, 1) {
            Some((false, false, false, 0u8))
        } else {
            None
        }
    } else if !bits_available(b, q, 1) {
        None
    } else {
        match subsampling(b, q + 1, profile, twelve) {
            None => None,
            Some((q2, sx, sy)) => {
                let cs: Option<(int, u8)> = if sx && sy {
                    match rd(b, q2, 2) {
                        None => None,
                        Some(v) => Some((q2 + 2, v as u8)),
                    }
                } else {
                    Some((q2, 0u8))
                };
                match cs {
                    None => None,
                    Some((q3, csp)) => if bits_available(b, q3, 1) {
                        Some((false, sx, sy, csp))
                    } else {
                        None
                    },
                }
            },
        }
    }
}

/// `color_description_present_flag` at bit `q` and the colour primaries,
/// transfer characteristics and matrix coefficients (2, unspecified, when
/// absent), with the position after them.
pub open spec fn color_description(b: Seq<u8>, q: int) -> Option<(int, nat, nat, nat)> {
    match rd(b, q, 1) {
        None => None,
        Some(cdp) => if cdp == 1 {
            if bits_available(b, q + 1, 24) {
                Some((q + 25, bits_value(b, q + 1, 8), bits_value(b, q + 9, 8), bits_value(b, q + 17, 8)))
            } else {
                None
            }
        } else {
            Some((q + 1, 2, 2, 2))
        },
    }
}

/// `color_config()` at bit `p`: high bit depth, twelve bit, monochrome,
/// subsampling x and y, chroma sample position.
pub open spec fn color_fields(b: Seq<u8>, p: int, profile: nat) -> Option<(bool, bool, bool, bool, bool, u8)> {
    match rd(b, p, 1) {
        None => None,
        Some(hb) => {
            let tw: Option<(int, bool)> = if profile == 2 && hb == 1 {
                match rd(b, p + 1, 1) {
                    None => None,
                    Some(t) => Some((p + 2, t == 1)),
                }
            } else {
                Some((p + 1, false))
            };
            match tw {
                None => None,
                Some((q, twelve)) => {
                    let mo: Option<(int, bool)> = if profile == 1 {
                        Some((q, false))
                    } else {
                        match rd(b, q, 1) {
                            None => None,
                            Some(m) => Some((q + 1, m == 1)),
                        }
                    };
                    match mo {
                        None => None,
                        Some((q2, mono)) => match color_description(b, q2) {
                            None => None,
                            Some((q3, cp, tc, mc)) => match chroma_layout(b, q3, profile, twelve, mono, cp, tc, mc) {
                                None => None,
                                Some(l) => Some((hb == 1, twelve, l.0, l.1, l.2, l.3)),
                            },
                        },
                    }
                },
            }
        },
    }
}

/// Position after the operating points, with `seq_level_idx[0]` and
/// `seq_tier[0]`.
pub open spec fn operating_points(b: Seq<u8>, reduced: bool) -> Option<(int, nat, nat)> {
    if reduced {
        match rd(b, 5, 5) {
            None => None,
            Some(l) => Some((10, l, 0)),
        }
    } else {
        match timing_end(b, 5) {
            None => None,
            Some((p, dmi, bdl)) => match rd(b, p, 1) {
                None => None,
                Some(idd) => match rd(b, p + 1, 5) {
                    None => None,
                    Some(cnt) => {
                        let q = p + 6;
                        match op_points_end(b, q, cnt + 1, dmi, bdl, idd == 1) {
                            None => None,
                            Some(e) => {
                                let l = bits_value(b, q + 12, 5);
                                Some((e, l, if l > 7 { bits_value(b, q + 17, 1) } else { 0 }))
                            },
                        }
                    },
                },
            },
        }
    }
}

/// The `av1C` fields that a sequence header OBU's payload describes, read
/// as the AV1 bitstream lays them out; `None` when the payload ends first.
pub open spec fn spec_sequence_header_fields(b: Seq<u8>) -> Option<Av1Fields> {
    match rd(b, 0, 3) {
        None => None,
        Some(profile) => match rd(b, 3, 1) {
            None => None,
            Some(_) => match rd(b, 4, 1) {
                None => None,
                Some(red) => match operating_points(b, red == 1) {
                    None => None,
                    Some((p, level, tier)) => match frame_size_end(b, p, red == 1) {
                        None => None,
                        Some(p2) => match tools_end(b, p2, red == 1) {
                            None => None,
                            Some(p3) => match color_fields(b, p3, profile) {
                                None => None,
                                Some(c) => Some(
                                    Av1Fields {
                                        seq_profile: profile as u8,
                                        seq_level_idx: level as u8,
                                        seq_tier: tier as u8,
                                        high_bitdepth: c.0,
                                        twelve_bit: c.1,
                                        monochrome: c.2,
                                        chroma_subsampling_x: c.3,
                                        chroma_subsampling_y: c.4,
                                        chroma_sample_position: c.5,
                                    },
                                ),
                            },
                        },
                    },
                },
            },
        },
    }
}

/// The configuration a temporal unit carries: its first sequence header
/// OBU, whole, and the fields its payload describes.
pub open spec fn spec_extract_av1_config(data: Seq<u8>) -> Option<(Seq<u8>, Av1Fields)> {
    match find_obu(data, 0, obu_type::SEQUENCE_HEADER) {
        None => None,
        Some(o) => match spec_sequence_header_fields(data.subrange(o.2, o.3)) {
            None => None,
            Some(f) => Some((data.subrange(o.1, o.3), f)),
        },
    }
}

proof fn lemma_find_obu_bounds(s: Seq<u8>, pos: int, t: u8)
    ensures
        find_obu(s, pos, t) matches Some(o) ==> 0 <= o.1 <= o.2 <= o.3 <= s.len(),
    decreases s.len() - pos,
{
    if !(pos < 0 || pos >= s.len()) {
        if let Some(o) = obu_at(s, pos) {
            if o.0 != t && !(o.3 <= pos || o.3 > s.len()) {
                lemma_find_obu_bounds(s, o.3, t);
            }
        }
    }
}

/// Skips a `uvlc()` value.
fn skip_uvlc(r: &mut BitReader) -> (res: Option<()>)
    requires
        old(r).wf(),
    ensures
        final(r).wf(),
        final(r).data@ == old(r).data@,
        match (res, uvlc_end(old(r).data@, old(r).pos())) {
            (Some(_), Some(q)) => final(r).pos() == q,
            (None, None) => true,
            _ => false,
        },
{
    let ghost s = r.data@;
    let ghost start = r.pos();
    let len = r.data.len();
    let mut lz: u128 = 0;
    loop
        invariant_except_break
            r.pos() == start + lz,
            zero_run(s, start) == match zero_run(s, r.pos()) {
                Some(n) => Some((n + lz) as nat),
                None => None,
            },
        invariant
            r.wf(),
            r.data@ == s,
            s == old(r).data@,
            start == old(r).pos(),
            s.len() == len,
            start >= 0,
            lz <= s.len() * 8,
        ensures
            r.wf(),
            r.data@ == s,
            zero_run(s, start) == Some(lz as nat),
            r.pos() == start + lz + 1,
        decreases s.len() * 8 - r.pos(),
    {
        match r.read_bits(1) {
            None => {
                return None;
            },
            Some(bit) => {
                if bit == 1 {
                    break;
                }
                lz = lz + 1;
            },
        }
    }
    if lz >= 32 {
        return Some(());
    }
    r.skip_bits(lz as u64)
}

/// Reads the timing and decoder model information.
fn read_timing(r: &mut BitReader) -> (res: Option<(bool, u32)>)
    requires
        old(r).wf(),
    ensures
        final(r).wf(),
        final(r).data@ == old(r).data@,
        match (res, timing_end(old(r).data@, old(r).pos())) {
            (Some((dmi, bdl)), Some((q, d, l))) => final(r).pos() == q && dmi == d && bdl == l,
            (None, None) => true,
            _ => false,
        },
{
    let t = match r.read_bits(1) {
        Some(v) => v,
        None => {
            return None;
        },
    };
    if t == 0 {
        return Some((false, 0));
    }
    if r.skip_bits(64).is_none() {
        return None;
    }
    let eq = match r.read_bits(1) {
        Some(v) => v,
        None => {
            return None;
        },
    };
    if eq == 1 {
        if skip_uvlc(r).is_none() {
            return None;
        }
    }
    let dmi = match r.read_bits(1) {
        Some(v) => v,
        None => {
            return None;
        },
    };
    if dmi == 0 {
        return Some((false, 0));
    }
    let bdl = match r.read_bits(5) {
        Some(v) => v,
        None => {
            return None;
        },
    };
    if r.skip_bits(42).is_none() {
        return None;
    }
    Some((true, bdl))
}

/// Reads one operating point: its `seq_level_idx` and `seq_tier`.
fn read_op_point(r: &mut BitReader, dmi: bool, bdl: u32, idd: bool) -> (res: Option<(u32, u32)>)
    requires
        old(r).wf(),
    ensures
        final(r).wf(),
        final(r).data@ == old(r).data@,
        match (res, op_point_end(old(r).data@, old(r).pos(), dmi, bdl as nat, idd)) {
            (Some((l, t)), Some(q)) => {
                &&& final(r).pos() == q
                &&& l == bits_value(old(r).data@, old(r).pos() + 12, 5)
                &&& t == (if l > 7 { bits_value(old(r).data@, old(r).pos() + 17, 1) } else { 0 })
            },
            (None, None) => true,
            _ => false,
        },
{
    if r.read_bits(12).is_none() {
        return None;
    }
    let level = match r.read_bits(5) {
        Some(v) => v,
        None => {
            return None;
        },
    };
    let tier: u32 = if level > 7 {
        match r.read_bits(1) {
            Some(v) => v,
            None => {
                return None;
            },
        }
    } else {
        0
    };
    if dmi {
        let f = match r.read_bits(1) {
            Some(v) => v,
            None => {
                return None;
            },
        };
        if f == 1 {
            if r.skip_bits(2 * (bdl as u64 + 1) + 1).is_none() {
                return None;
            }
        }
    }
    if idd {
        let f = match r.read_bits(1) {
            Some(v) => v,
            None => {
                return None;
            },
        };
        if f == 1 {
            if r.skip_bits(4).is_none() {
                return None;
            }
        }
    }
    Some((level, tier))
}

/// Reads `cnt + 1` operating points; gives the first one's level and tier.
fn read_op_points(r: &mut BitReader, cnt: u32, dmi: bool, bdl: u32, idd: bool) -> (res: Option<(u32, u32)>)
    requires
        old(r).wf(),
    ensures
        final(r).wf(),
        final(r).data@ == old(r).data@,
        match (res, op_points_end(old(r).data@, old(r).pos(), cnt as nat + 1, dmi, bdl as nat, idd)) {
            (Some((l, t)), Some(q)) => {
                &&& final(r).pos() == q
                &&& l == bits_value(old(r).data@, old(r).pos() + 12, 5)
                &&& t == (if l > 7 { bits_value(old(r).data@, old(r).pos() + 17, 1) } else { 0 })
            },
            (None, None) => true,
            _ => false,
        },
{
    let ghost s = r.data@;
    let ghost p = r.pos();
    let first = match read_op_point(r, dmi, bdl, idd) {
        Some(x) => x,
        None => {
            return None;
        },
    };
    let mut i: u32 = 0;
    while i < cnt
        invariant
            r.wf(),
            r.data@ == s,
            s == old(r).data@,
            p == old(r).pos(),
            i <= cnt,
            op_points_end(s, p, cnt as nat + 1, dmi, bdl as nat, idd) == op_points_end(
                s,
                r.pos(),
                (cnt - i) as nat,
                dmi,
                bdl as nat,
                idd,
            ),
        decreases cnt - i,
    {
        if read_op_point(r, dmi, bdl, idd).is_none() {
            return None;
        }
        i = i + 1;
    }
    Some(first)
}

/// Skips the frame size fields and the frame id numbers.
fn skip_frame_size(r: &mut BitReader, reduced: bool) -> (res: Option<()>)
    requires
        old(r).wf(),
    ensures
        final(r).wf(),
        final(r).data@ == old(r).data@,
        match (res, frame_size_end(old(r).data@, old(r).pos(), reduced)) {
            (Some(_), Some(q)) => final(r).pos() == q,
            (None, None) => true,
            _ => false,
        },
{
    let wb = match r.read_bits(4) {
        Some(v) => v,
        None => {
            return None;
        },
    };
    let hb = match r.read_bits(4) {
        Some(v) => v,
        None => {
            return None;
        },
    };
    if r.skip_bits(wb as u64 + 1).is_none() {
        return None;
    }
    if r.skip_bits(hb as u64 + 1).is_none() {
        return None;
    }
    if !reduced {
        let f = match r.read_bits(1) {
            Some(v) => v,
            None => {
                return None;
            },
        };
        if f == 1 {
            if r.skip_bits(7).is_none() {
                return None;
            }
        }
    }
    Some(())
}

/// Skips the coding tool flags.
fn skip_tools(r: &mut BitReader, reduced: bool) -> (res: Option<()>)
    requires
        old(r).wf(),
    ensures
        final(r).wf(),
        final(r).data@ == old(r).data@,
        match (res, tools_end(old(r).data@, old(r).pos(), reduced)) {
            (Some(_), Some(q)) => final(r).pos() == q,
            (None, None) => true,
            _ => false,
        },
{
    if r.skip_bits(3).is_none() {
        return None;
    }
    if reduced {
        if r.skip_bits(3).is_none() {
            return None;
        }
        return Some(());
    }
    if r.skip_bits(4).is_none() {
        return None;
    }
    let oh = match r.read_bits(1) {
        Some(v) => v,
        None => {
            return None;
        },
    };
    if oh == 1 {
        if r.skip_bits(2).is_none() {
            return None;
        }
    }
    let choose = match r.read_bits(1) {
        Some(v) => v,
        None => {
            return None;
        },
    };
    let force: u32 = if choose == 1 {
        2
    } else {
        match r.read_bits(1) {
            Some(v) => v,
            None => {
                return None;
            },
        }
    };
    if force > 0 {
        let ci = match r.read_bits(1) {
            Some(v) => v,
            None => {
                return None;
            },
        };
        if ci != 1 {
            if r.skip_bits(1).is_none() {
                return None;
            }
        }
    }
    if oh == 1 {
        if r.skip_bits(3).is_none() {
            return None;
        }
    }
    if r.skip_bits(3).is_none() {
        return None;
    }
    Some(())
}

/// Reads the chroma layout of `color_config()`.
fn read_chroma_layout(
    r: &mut BitReader,
    profile: u32,
    twelve: bool,
    mono: bool,
    cp: u32,
    tc: u32,
    mc: u32,
) -> (res: Option<(bool, bool, bool, u8)>)
    requires
        old(r).wf(),
    ensures
        final(r).wf(),
        final(r).data@ == old(r).data@,
        match (
            res,
            chroma_layout(
                old(r).data@,
                old(r).pos(),
                profile as nat,
                twelve,
                mono,
                cp as nat,
                tc as nat,
                mc as nat,
            ),
        ) {
            (Some(x), Some(y)) => x == y,
            (None, None) => true,
            _ => false,
        },
{
    if mono {
        if r.read_bits(1).is_none() {
            return None;
        }
        return Some((true, true, true, 0));
    }
    if cp == 1 && tc == 13 && mc == 0 {
        if r.read_bits(1).is_none() {
            return None;
        }
        return Some((false, false, false, 0));
    }
    if r.read_bits(1).is_none() {
        return None;
    }
    let ghost q = r.pos();
    let sx: bool;
    let sy: bool;
    if profile == 0 {
        sx = true;
        sy = true;
    } else if profile == 1 {
        sx = false;
        sy = false;
    } else if twelve {
        let x = match r.read_bits(1) {
            Some(v) => v,
            None => {
                return None;
            },
        };
        if x == 1 {
            let y = match r.read_bits(1) {
                Some(v) => v,
                None => {
                    return None;
                },
            };
            sx = true;
            sy = y == 1;
        } else {
            sx = false;
            sy = false;
        }
    } else {
        sx = true;
        sy = false;
    }
    assert(subsampling(r.data@, q, profile as nat, twelve) == Some((r.pos(), sx, sy)));
    let csp: u8 = if sx && sy {
        let v = match r.read_bits(2) {
            Some(v) => v,
            None => {
                return None;
            },
        };
        v as u8
    } else {
        0
    };
    if r.read_bits(1).is_none() {
        return None;
    }
    Some((false, sx, sy, csp))
}

/// Reads the colour description.
fn read_color_description(r: &mut BitReader) -> (res: Option<(u32, u32, u32)>)
    requires
        old(r).wf(),
    ensures
        final(r).wf(),
        final(r).data@ == old(r).data@,
        match (res, color_description(old(r).data@, old(r).pos())) {
            (Some((a, b, c)), Some((q, x, y, z))) => final(r).pos() == q && a == x && b == y && c == z,
            (None, None) => true,
            _ => false,
        },
{
    let cdp = match r.read_bits(1) {
        Some(v) => v,
        None => {
            return None;
        },
    };
    if cdp != 1 {
        return Some((2, 2, 2));
    }
    let cp = match r.read_bits(8) {
        Some(v) => v,
        None => {
            return None;
        },
    };
    let tc = match r.read_bits(8) {
        Some(v) => v,
        None => {
            return None;
        },
    };
    let mc = match r.read_bits(8) {
        Some(v) => v,
        None => {
            return None;
        },
    };
    Some((cp, tc, mc))
}

/// Reads `color_config()`.
fn read_color(r: &mut BitReader, profile: u32) -> (res: Option<(bool, bool, bool, bool, bool, u8)>)
    requires
        old(r).wf(),
    ensures
        final(r).wf(),
        final(r).data@ == old(r).data@,
        match (res, color_fields(old(r).data@, old(r).pos(), profile as nat)) {
            (Some(x), Some(y)) => x == y,
            (None, None) => true,
            _ => false,
        },
{
    let hb = match r.read_bits(1) {
        Some(v) => v,
        None => {
            return None;
        },
    };
    let twelve: bool = if profile == 2 && hb == 1 {
        let t = match r.read_bits(1) {
            Some(v) => v,
            None => {
                return None;
            },
        };
        t == 1
    } else {
        false
    };
    let mono: bool = if profile == 1 {
        false
    } else {
        let m = match r.read_bits(1) {
            Some(v) => v,
            None => {
                return None;
            },
        };
        m == 1
    };
    let (cp, tc, mc) = match read_color_description(r) {
        Some(x) => x,
        None => {
            return None;
        },
    };
    match read_chroma_layout(r, profile, twelve, mono, cp, tc, mc) {
        None => None,
        Some(l) => Some((hb == 1, twelve, l.0, l.1, l.2, l.3)),
    }
}

/// Reads the operating points part of a sequence header: the position
/// after it, `seq_level_idx[0]` and `seq_tier[0]`.
fn read_operating_points(r: &mut BitReader, reduced: bool) -> (res: Option<(u32, u32)>)
    requires
        old(r).wf(),
        old(r).pos() == 5,
    ensures
        final(r).wf(),
        final(r).data@ == old(r).data@,
        match (res, operating_points(old(r).data@, reduced)) {
            (Some((l, t)), Some((q, l2, t2))) => final(r).pos() == q && l == l2 && t == t2,
            (None, None) => true,
            _ => false,
        },
{
    if reduced {
        let l = match r.read_bits(5) {
            Some(v) => v,
            None => {
                return None;
            },
        };
        return Some((l, 0));
    }
    let (dmi, bdl) = match read_timing(r) {
        Some(x) => x,
        None => {
            return None;
        },
    };
    let idd = match r.read_bits(1) {
        Some(v) => v,
        None => {
            return None;
        },
    };
    let cnt = match r.read_bits(5) {
        Some(v) => v,
        None => {
            return None;
        },
    };
    read_op_points(r, cnt, dmi, bdl, idd == 1)
}

/// Reads the `av1C` fields from a sequence header OBU's payload.
pub fn parse_sequence_header(payload: &[u8]) -> (res: Option<Av1Fields>)
    ensures
        res == spec_sequence_header_fields(payload@),
{
    let mut r = BitReader::new(payload);
    let profile = match r.read_bits(3) {
        Some(v) => v,
        None => {
            return None;
        },
    };
    if r.read_bits(1).is_none() {
        return None;
    }
    let red = match r.read_bits(1) {
        Some(v) => v,
        None => {
            return None;
        },
    };
    let reduced = red == 1;
    let (level, tier) = match read_operating_points(&mut r, reduced) {
        Some(x) => x,
        None => {
            return None;
        },
    };
    if skip_frame_size(&mut r, reduced).is_none() {
        return None;
    }
    if skip_tools(&mut r, reduced).is_none() {
        return None;
    }
    let c = match read_color(&mut r, profile) {
        Some(c) => c,
        None => {
            return None;
        },
    };
    Some(
        Av1Fields {
            seq_profile: profile as u8,
            seq_level_idx: level as u8,
            seq_tier: tier as u8,
            high_bitdepth: c.0,
            twelve_bit: c.1,
            monochrome: c.2,
            chroma_subsampling_x: c.3,
            chroma_subsampling_y: c.4,
            chroma_sample_position: c.5,
        },
    )
}

/// Extracts the AV1 configuration from a temporal unit: its first sequence
/// header OBU and the `av1C` fields that it describes; `None` when there is
/// no such OBU or it ends before its colour configuration.
pub fn extract_av1_config(data: &[u8]) -> (r: Option<Av1Config>)
    ensures
        match (r, spec_extract_av1_config(data@)) {
            (Some(c), Some((sh, f))) => c.sequence_header@ == sh && config_fields(c) == f,
            (None, None) => true,
            _ => false,
        },
{
    let o = match find_obu_exec(data, obu_type::SEQUENCE_HEADER) {
        Some(o) => o,
        None => {
            return None;
        },
    };
    proof {
        lemma_find_obu_bounds(data@, 0, obu_type::SEQUENCE_HEADER);
    }
    let payload = copy_range(data, o.2, o.3);
    let f = match parse_sequence_header(payload.as_slice()) {
        Some(f) => f,
        None => {
            return None;
        },
    };
    let sequence_header = copy_range(data, o.1, o.3);
    Some(
        Av1Config {
            sequence_header,
            seq_profile: f.seq_profile,
            seq_level_idx: f.seq_level_idx,
            seq_tier: f.seq_tier,
            high_bitdepth: f.high_bitdepth,
            twelve_bit: f.twelve_bit,
            monochrome: f.monochrome,
            chroma_subsampling_x: f.chroma_subsampling_x,
            chroma_subsampling_y: f.chroma_subsampling_y,
            chroma_sample_position: f.chroma_sample_position,
        },
    )
}


proof fn lemma_find_obu_type(s: Seq<u8>, pos: int, t: u8)
    ensures
        find_obu(s, pos, t) matches Some(o) ==> 0 <= o.1 < o.2 <= o.3 <= s.len() && o.0 == t && (s[o.1]
            >> 3u8) & 0x0fu8 == t,
    decreases s.len() - pos,
{
    if !(pos < 0 || pos >= s.len()) {
        if let Some(o) = obu_at(s, pos) {
            if o.0 != t && !(o.3 <= pos || o.3 > s.len()) {
                lemma_find_obu_type(s, o.3, t);
            }
        }
    }
}

/// The configuration carries a whole OBU of the temporal unit whose header
/// names it a sequence header (type 1), and its fields are those of that
/// OBU's payload.
pub proof fn lemma_av1_config_is_sequence_header(data: Seq<u8>)
    ensures
        spec_extract_av1_config(data) matches Some((sh, f)) ==> {
            &&& sh.len() > 0
            &&& (sh[0] >> 3u8) & 0x0fu8 == obu_type::SEQUENCE_HEADER
            &&& exists|a: int, b: int| 0 <= a < b <= data.len() && sh == data.subrange(a, b)
        },
{
    lemma_find_obu_type(data, 0, obu_type::SEQUENCE_HEADER);
    if let Some((sh, f)) = spec_extract_av1_config(data) {
        let o = find_obu(data, 0, obu_type::SEQUENCE_HEADER)->0;
        assert(sh == data.subrange(o.1, o.3));
        assert(sh[0] == data[o.1]);
    }
}

} // verus!
