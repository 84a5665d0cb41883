//! What a reader of the metadata boxes gets back: the title and the
//! creation date as UTF-8 `ilst` items under `udta`/`meta`.

use vstd::prelude::*;

use super::fourcc::{APPL, DATA, DAY_ITEM, HDLR, ILST, MDIR, META, NAME_ITEM, UDTA};
use super::headers::zeros;
use super::meta::{spec_format_unix_timestamp, spec_ilst_item, spec_ilst_payload, spec_meta_hdlr, spec_udta, title_bytes};
use super::readback::{box_type, u32_at};
use crate::api::Metadata;
use crate::wire::{be32, box_payload, lemma_be32_roundtrip, lemma_box_parts, spec_box};

verus! {

/// A reader of an `ilst` item finds the item's type and a `data` box of
/// type indicator 1 (UTF-8) and locale 0 holding the value.
pub proof fn lemma_ilst_item_reads_back(atom: u32, value: Seq<u8>)
    ensures
        ({
            let item = spec_ilst_item(atom, value);
            let d = box_payload(item);
            let dp = box_payload(d);
            &&& box_type(item) == atom
            &&& box_type(d) == DATA
            &&& item.len() == 16 + dp.len()
            &&& dp.len() == 8 + value.len()
            &&& u32_at(dp, 0) == 1
            &&& u32_at(dp, 4) == 0
            &&& dp.subrange(8, dp.len() as int) == value
        }),
{
    let dp = seq![0u8, 0u8, 0u8, 1u8] + seq![0u8, 0u8, 0u8, 0u8] + value;
    let d = spec_box(DATA, dp);
    lemma_box_parts(DATA, dp);
    lemma_box_parts(atom, d);
    assert(dp.subrange(0, 4) =~= seq![0u8, 0u8, 0u8, 1u8]);
    assert(dp.subrange(4, 8) =~= seq![0u8, 0u8, 0u8, 0u8]);
    assert(dp.subrange(8, dp.len() as int) =~= value);
}

/// The `udta` around a non-empty `ilst` payload: a `meta` full box with
/// the `mdir` handler, then the `ilst` box.
proof fn lemma_udta_frame(ilst: Seq<u8>)
    ensures
        ({
            let u = spec_box(UDTA, spec_box(META, zeros(4) + spec_meta_hdlr() + spec_box(ILST, ilst)));
            let meta = box_payload(u);
            let mp = box_payload(meta);
            let h = mp.subrange(4, 37);
            let ib = mp.subrange(37, mp.len() as int);
            &&& box_type(u) == UDTA
            &&& box_type(meta) == META
            &&& u32_at(mp, 0) == 0
            &&& h == spec_meta_hdlr()
            &&& box_type(h) == HDLR
            &&& u32_at(box_payload(h), 8) == MDIR
            &&& box_type(ib) == ILST
            &&& box_payload(ib) == ilst
        }),
{
    let hd = spec_meta_hdlr();
    let hp = zeros(4) + seq![0u8, 0u8, 0u8, 0u8] + be32(MDIR) + be32(APPL) + seq![0u8, 0u8, 0u8, 0u8]
        + seq![0u8, 0u8, 0u8, 0u8] + seq![0u8];
    lemma_box_parts(HDLR, hp);
    assert(hp.subrange(8, 12) =~= be32(MDIR));
    lemma_be32_roundtrip(MDIR);
    let ib = spec_box(ILST, ilst);
    lemma_box_parts(ILST, ilst);
    let mp = zeros(4) + hd + ib;
    lemma_box_parts(META, mp);
    let meta = spec_box(META, mp);
    lemma_box_parts(UDTA, meta);
    assert(hd.len() == 33);
    assert(mp.subrange(0, 4) =~= seq![0u8, 0u8, 0u8, 0u8]);
    assert(mp.subrange(4, 37) =~= hd);
    assert(mp.subrange(37, mp.len() as int) =~= ib);
}

/// A reader of `udta` finds a `meta` full box with an `mdir` handler and an
/// `ilst` whose items are, in order, the title (`©nam`, its UTF-8 text),
/// when there is one, and the creation date (`©day`, the rendered
/// timestamp), when there is one; with neither, no `udta` at all.
pub proof fn lemma_udta_reads_back(m: Metadata)
    ensures
        m.title is None && m.creation_time is None ==> spec_udta(m).len() == 0,
        !(m.title is None && m.creation_time is None) ==> ({
            let u = spec_udta(m);
            let meta = box_payload(u);
            let mp = box_payload(meta);
            let h = mp.subrange(4, 37);
            let ilst = mp.subrange(37, mp.len() as int);
            let items = box_payload(ilst);
            let title_len: int = match title_bytes(m) {
                Some(t) => spec_ilst_item(NAME_ITEM, t).len() as int,
                None => 0,
            };
            &&& box_type(u) == UDTA
            &&& box_type(meta) == META
            &&& u32_at(mp, 0) == 0
            &&& h == spec_meta_hdlr()
            &&& box_type(h) == HDLR
            &&& u32_at(box_payload(h), 8) == MDIR
            &&& box_type(ilst) == ILST
            &&& (match title_bytes(m) {
                Some(t) => items.subrange(0, title_len) == spec_ilst_item(NAME_ITEM, t),
                None => true,
            })
            &&& (match m.creation_time {
                Some(ct) => items.subrange(title_len, items.len() as int) == spec_ilst_item(
                    DAY_ITEM,
                    spec_format_unix_timestamp(ct as nat),
                ),
                None => items.len() == title_len,
            })
        }),
{
    let ilst = spec_ilst_payload(m);
    let title_item = match title_bytes(m) {
        Some(t) => spec_ilst_item(NAME_ITEM, t),
        None => Seq::empty(),
    };
    let day_item = match m.creation_time {
        Some(ct) => spec_ilst_item(DAY_ITEM, spec_format_unix_timestamp(ct as nat)),
        None => Seq::empty(),
    };
    assert(ilst == title_item + day_item);
    match title_bytes(m) {
        Some(t) => {
            lemma_ilst_item_reads_back(NAME_ITEM, t);
        },
        None => {},
    }
    match m.creation_time {
        Some(ct) => {
            lemma_ilst_item_reads_back(DAY_ITEM, spec_format_unix_timestamp(ct as nat));
        },
        None => {},
    }
    if !(m.title is None && m.creation_time is None) {
        assert(ilst.len() > 0);
        lemma_udta_frame(ilst);
        assert(ilst.subrange(0, title_item.len() as int) =~= title_item);
        assert(ilst.subrange(title_item.len() as int, ilst.len() as int) =~= day_item);
    }
}

} // verus!
