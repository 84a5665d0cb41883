//! A quick look inside an MP4 file: its top-level boxes and the sample
//! entry codes that tell which codecs it carries.

use vstd::prelude::*;

use crate::muxer::fourcc::{AV01, AVC1, FTYP, HVC1, MOOV, MP4A, VP09};
use crate::wire::{be32, push_u32, read_be32};

verus! {

/// A top-level box: its type, its size field, where it starts, and whether
/// it ends within the file.
#[derive(Debug, Clone, Copy, PartialEq, Eq, Structural)]
pub struct TopBox {
    pub fourcc: u32,
    pub size: usize,
    pub offset: usize,
    pub within_file: bool,
}

/// The top-level boxes from `offset` on: each one's size field says where
/// the next starts; the walk stops at a zero size, at fewer than 8 bytes
/// left, or after a box that runs past the end of the file.
pub open spec fn spec_scan_boxes(b: Seq<u8>, offset: nat) -> Seq<TopBox>
    decreases b.len() - offset,
{
    if offset + 8 > b.len() {
        Seq::empty()
    } else {
        let at = offset as int;
        let size = read_be32(b.subrange(at, at + 4));
        let fourcc = read_be32(b.subrange(at + 4, at + 8)) as u32;
        if size <= 0 {
            Seq::empty()
        } else if offset + size > b.len() {
            seq![TopBox { fourcc, size: size as usize, offset: offset as usize, within_file: false }]
        } else {
            seq![TopBox { fourcc, size: size as usize, offset: offset as usize, within_file: true }]
                + spec_scan_boxes(b, (offset + size) as nat)
        }
    }
}

/// Whether the four bytes of `tag` occur anywhere in the file.
pub open spec fn has_fourcc(b: Seq<u8>, tag: u32) -> bool {
    exists|i: int| 0 <= i && i + 4 <= b.len() && #[trigger] b.subrange(i, i + 4) == be32(tag)
}

/// Whether a box of type `tag` that ends within the file is among `boxes`.
pub open spec fn has_top_box(boxes: Seq<TopBox>, tag: u32) -> bool {
    exists|i: int| 0 <= i < boxes.len() && (#[trigger] boxes[i]).within_file && boxes[i].fourcc == tag
}

/// The video codec a file's sample entry codes point to.
#[derive(Debug, Clone, Copy, PartialEq, Eq, Structural)]
pub enum DetectedCodec {
    Avc,
    Hevc,
    Vp9,
    Av1,
    Unknown,
}

/// `avc1` wins over `hvc1`, which wins over `vp09`, which wins over `av01`.
pub open spec fn spec_detect_codec(b: Seq<u8>) -> DetectedCodec {
    if has_fourcc(b, AVC1) {
        DetectedCodec::Avc
    } else if has_fourcc(b, HVC1) {
        DetectedCodec::Hevc
    } else if has_fourcc(b, VP09) {
        DetectedCodec::Vp9
    } else if has_fourcc(b, AV01) {
        DetectedCodec::Av1
    } else {
        DetectedCodec::Unknown
    }
}

/// What a look at a file finds.
#[derive(Debug, Clone)]
pub struct Mp4Info {
    pub boxes: Vec<TopBox>,
    /// An `ftyp` and a `moov` are among the top-level boxes.
    pub is_valid_mp4: bool,
    pub video_codec: DetectedCodec,
    /// An `mp4a` sample entry code occurs in the file.
    pub has_audio: bool,
}

/// Why a file could not be looked at.
#[derive(Debug, Clone, Copy, PartialEq, Eq, Structural)]
pub enum InspectError {
    /// Fewer than 8 bytes: not even one box header.
    TooSmall,
}

/// The big-endian value of the four bytes at `at`.
fn read_u32_at(b: &[u8], at: usize) -> (r: u32)
    requires
        at + 4 <= b@.len(),
    ensures
        r == read_be32(b@.subrange(at as int, at + 4)),
{
    let ghost s = b@.subrange(at as int, at + 4);
    assert(s[0] == b@[at as int] && s[1] == b@[at + 1] && s[2] == b@[at + 2] && s[3] == b@[at + 3]);
    (b[at] as u32) * 0x100_0000 + (b[at + 1] as u32) * 0x1_0000 + (b[at + 2] as u32) * 0x100 + (b[at
        + 3] as u32)
}

/// Lists the top-level boxes of a file.
pub fn scan_top_level_boxes(buffer: &[u8]) -> (r: Vec<TopBox>)
    ensures
        r@ == spec_scan_boxes(buffer@, 0),
{
    let ghost b = buffer@;
    let mut out: Vec<TopBox> = Vec::new();
    let mut offset: usize = 0;
    assert(out@ + spec_scan_boxes(b, 0) =~= spec_scan_boxes(b, 0));
    while buffer.len() - offset >= 8
        invariant
            b == buffer@,
            offset <= b.len(),
            spec_scan_boxes(b, 0) == out@ + spec_scan_boxes(b, offset as nat),
        decreases b.len() - offset,
    {
        let size = read_u32_at(buffer, offset);
        let fourcc = read_u32_at(buffer, offset + 4);
        if size == 0 {
            assert(out@ + Seq::<TopBox>::empty() =~= out@);
            return out;
        }
        let item_fits = size as usize <= buffer.len() - offset;
        let item = TopBox { fourcc, size: size as usize, offset, within_file: item_fits };
        let ghost before = out@;
        out.push(item);
        if !item_fits {
            assert(before + seq![item] =~= out@);
            return out;
        }
        assert(before + (seq![item] + spec_scan_boxes(b, (offset + size) as nat)) =~= out@
            + spec_scan_boxes(b, (offset + size) as nat));
        offset = offset + size as usize;
    }
    assert(out@ + Seq::<TopBox>::empty() =~= out@);
    out
}

/// Whether the four bytes of `tag` occur anywhere in the buffer.
pub fn contains_fourcc(buffer: &[u8], tag: u32) -> (r: bool)
    ensures
        r == has_fourcc(buffer@, tag),
{
    let mut t: Vec<u8> = Vec::new();
    push_u32(&mut t, tag);
    assert(t@ =~= be32(tag));
    if buffer.len() < 4 {
        return false;
    }
    let last = buffer.len() - 4;
    let mut i: usize = 0;
    while i <= last
        invariant
            last + 4 == buffer@.len(),
            i <= last + 1,
            t@ == be32(tag),
            t@.len() == 4,
            forall|j: int| 0 <= j < i ==> #[trigger] buffer@.subrange(j, j + 4) != be32(tag),
        decreases last + 1 - i,
    {
        if buffer[i] == t[0] && buffer[i + 1] == t[1] && buffer[i + 2] == t[2] && buffer[i + 3] == t[3] {
            assert(buffer@.subrange(i as int, i + 4) =~= be32(tag));
            return true;
        }
        assert(buffer@.subrange(i as int, i + 4)[0] == buffer@[i as int]);
        assert(buffer@.subrange(i as int, i + 4)[1] == buffer@[i + 1]);
        assert(buffer@.subrange(i as int, i + 4)[2] == buffer@[i + 2]);
        assert(buffer@.subrange(i as int, i + 4)[3] == buffer@[i + 3]);
        i = i + 1;
    }
    false
}

/// The video codec a file's sample entry codes point to.
pub fn detect_video_codec(buffer: &[u8]) -> (r: DetectedCodec)
    ensures
        r == spec_detect_codec(buffer@),
{
    if contains_fourcc(buffer, AVC1) {
        DetectedCodec::Avc
    } else if contains_fourcc(buffer, HVC1) {
        DetectedCodec::Hevc
    } else if contains_fourcc(buffer, VP09) {
        DetectedCodec::Vp9
    } else if contains_fourcc(buffer, AV01) {
        DetectedCodec::Av1
    } else {
        DetectedCodec::Unknown
    }
}

fn find_top_box(boxes: &Vec<TopBox>, tag: u32) -> (r: bool)
    ensures
        r == has_top_box(boxes@, tag),
{
    let mut i: usize = 0;
    while i < boxes.len()
        invariant
            i <= boxes@.len(),
            forall|j: int| 0 <= j < i ==> !((#[trigger] boxes@[j]).within_file && boxes@[j].fourcc == tag),
        decreases boxes@.len() - i,
    {
        if boxes[i].within_file && boxes[i].fourcc == tag {
            return true;
        }
        i = i + 1;
    }
    false
}

/// Looks at a file: refused when it is shorter than one box header;
/// otherwise its top-level boxes, whether they include `ftyp` and `moov`,
/// the video codec its sample entry codes point to, and whether an `mp4a`
/// entry code occurs.
pub fn inspect_mp4(buffer: &[u8]) -> (r: Result<Mp4Info, InspectError>)
    ensures
        buffer@.len() < 8 ==> r == Err::<Mp4Info, InspectError>(InspectError::TooSmall),
        buffer@.len() >= 8 ==> (r matches Ok(info) && {
            &&& info.boxes@ == spec_scan_boxes(buffer@, 0)
            &&& info.is_valid_mp4 == (has_top_box(info.boxes@, FTYP) && has_top_box(info.boxes@, MOOV))
            &&& info.video_codec == spec_detect_codec(buffer@)
            &&& info.has_audio == has_fourcc(buffer@, MP4A)
        }),
{
    if buffer.len() < 8 {
        return Err(InspectError::TooSmall);
    }
    let boxes = scan_top_level_boxes(buffer);
    let is_valid_mp4 = find_top_box(&boxes, FTYP) && find_top_box(&boxes, MOOV);
    let video_codec = detect_video_codec(buffer);
    let has_audio = contains_fourcc(buffer, MP4A);
    Ok(Mp4Info { boxes, is_valid_mp4, video_codec, has_audio })
}

} // verus!
