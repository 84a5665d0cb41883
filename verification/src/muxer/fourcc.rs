//! Four-character codes of the boxes and brands this muxer writes or looks
//! for, as the big-endian `u32` values they occupy on the wire.

use vstd::prelude::*;

verus! {

pub const FTYP: u32 = 0x6674_7970;
pub const MOOV: u32 = 0x6d6f_6f76;
pub const MVHD: u32 = 0x6d76_6864;
pub const TRAK: u32 = 0x7472_616b;
pub const TKHD: u32 = 0x746b_6864;
pub const MDIA: u32 = 0x6d64_6961;
pub const MDHD: u32 = 0x6d64_6864;
pub const HDLR: u32 = 0x6864_6c72;
pub const MINF: u32 = 0x6d69_6e66;
pub const VMHD: u32 = 0x766d_6864;
pub const SMHD: u32 = 0x736d_6864;
pub const DINF: u32 = 0x6469_6e66;
pub const DREF: u32 = 0x6472_6566;
pub const URL: u32 = 0x7572_6c20;
pub const STBL: u32 = 0x7374_626c;
pub const STSD: u32 = 0x7374_7364;
pub const STTS: u32 = 0x7374_7473;
pub const STSC: u32 = 0x7374_7363;
pub const STSZ: u32 = 0x7374_737a;
pub const STCO: u32 = 0x7374_636f;
pub const STSS: u32 = 0x7374_7373;
pub const CTTS: u32 = 0x6374_7473;
pub const AVC1: u32 = 0x6176_6331;
pub const AVCC: u32 = 0x6176_6343;
pub const HVC1: u32 = 0x6876_6331;
pub const HVCC: u32 = 0x6876_6343;
pub const AV01: u32 = 0x6176_3031;
pub const AV1C: u32 = 0x6176_3143;
pub const MP4A: u32 = 0x6d70_3461;
pub const VP09: u32 = 0x7670_3039;
pub const ESDS: u32 = 0x6573_6473;
pub const OPUS: u32 = 0x4f70_7573;
pub const DOPS: u32 = 0x644f_7073;
pub const UDTA: u32 = 0x7564_7461;
pub const META: u32 = 0x6d65_7461;
pub const ILST: u32 = 0x696c_7374;
pub const DATA: u32 = 0x6461_7461;
pub const NAME_ITEM: u32 = 0xa96e_616d;
pub const DAY_ITEM: u32 = 0xa964_6179;
pub const MDAT: u32 = 0x6d64_6174;
pub const ISOM: u32 = 0x6973_6f6d;
pub const MP41: u32 = 0x6d70_3431;
pub const VIDE: u32 = 0x7669_6465;
pub const SOUN: u32 = 0x736f_756e;
pub const MDIR: u32 = 0x6d64_6972;
pub const APPL: u32 = 0x6170_706c;

} // verus!
