//! ADTS framing of AAC audio.

use vstd::prelude::*;

use crate::codec::bits::{bits_value, lemma_bits_value_bound, lemma_bits_value_byte, lemma_bits_value_split};

verus! {

/// The ADTS header length: 7 bytes without CRC (protection absent), 9 with.
pub open spec fn adts_header_len(frame: Seq<u8>) -> int {
    if (frame[1] & 0x01u8) != 0 {
        7
    } else {
        9
    }
}

/// `aac_frame_length`: 13 bits across header bytes 3 to 5; it includes the
/// header.
pub open spec fn adts_frame_length(frame: Seq<u8>) -> usize {
    (((frame[3] & 0x03u8) as usize) << 11usize) | ((frame[4] as usize) << 3usize) | (((frame[5]
        & 0xe0u8) as usize) >> 5usize)
}

/// The raw AAC payload of an ADTS frame: the bytes after the header up to
/// `aac_frame_length`; `None` when the frame is shorter than a header, lacks
/// the `0xFFF` sync word, or declares a length below its header or beyond the
/// data.
pub open spec fn spec_adts_to_raw(frame: Seq<u8>) -> Option<Seq<u8>> {
    if frame.len() < 7 {
        None
    } else if frame[0] != 0xff || (frame[1] & 0xf0u8) != 0xf0 {
        None
    } else if frame.len() < adts_header_len(frame) {
        None
    } else if adts_frame_length(frame) < adts_header_len(frame) || adts_frame_length(frame)
        > frame.len() {
        None
    } else {
        Some(frame.subrange(adts_header_len(frame), adts_frame_length(frame) as int))
    }
}

/// Strips the ADTS header of an AAC frame.
pub fn adts_to_raw(frame: &[u8]) -> (r: Option<Vec<u8>>)
    ensures
        match (r, spec_adts_to_raw(frame@)) {
            (Some(v), Some(s)) => v@ == s,
            (None, None) => true,
            _ => false,
        },
{
    if frame.len() < 7 {
        return None;
    }
    if frame[0] != 0xff || (frame[1] & 0xf0u8) != 0xf0 {
        return None;
    }
    let protection_absent = (frame[1] & 0x01u8) != 0;
    let header_len: usize = if protection_absent {
        7
    } else {
        9
    };
    if frame.len() < header_len {
        return None;
    }
    let aac_frame_length: usize = (((frame[3] & 0x03u8) as usize) << 11usize) | ((frame[4] as usize)
        << 3usize) | (((frame[5] & 0xe0u8) as usize) >> 5usize);
    if aac_frame_length < header_len || aac_frame_length > frame.len() {
        return None;
    }
    Some(crate::codec::annexb::copy_range(frame, header_len, aac_frame_length))
}


/// Read as the ADTS bitstream lays its header out (a 12-bit sync word,
/// `protection_absent` at bit 15, the 13-bit `aac_frame_length` at bit 30),
/// a frame gives up the bytes after its header (7 bytes without CRC, 9
/// with) up to its declared length, exactly when the sync word is all ones
/// and that length covers the header and stays within the data.
pub proof fn lemma_adts_reads_back(frame: Seq<u8>)
    ensures
        frame.len() < 7 ==> spec_adts_to_raw(frame) is None,
        frame.len() >= 7 ==> ({
            let sync = bits_value(frame, 0, 12);
            let hlen: int = if bits_value(frame, 15, 1) == 1 { 7 } else { 9 };
            let flen = bits_value(frame, 30, 13) as int;
            spec_adts_to_raw(frame) == if sync == 0xfff && hlen <= flen <= frame.len() {
                Some(frame.subrange(hlen, flen))
            } else {
                None
            }
        }),
{
    if frame.len() >= 7 {
        vstd::arithmetic::power2::lemma2_to64();
        let f0 = frame[0];
        let f1 = frame[1];
        let f3 = frame[3];
        let f4 = frame[4];
        let f5 = frame[5];
        lemma_bits_value_byte(frame, 0);
        lemma_bits_value_byte(frame, 1);
        lemma_bits_value_byte(frame, 3);
        lemma_bits_value_byte(frame, 4);
        lemma_bits_value_byte(frame, 5);
        lemma_bits_value_split(frame, 0, 8, 4);
        lemma_bits_value_split(frame, 8, 4, 4);
        lemma_bits_value_bound(frame, 12, 4);
        lemma_bits_value_split(frame, 8, 7, 1);
        lemma_bits_value_bound(frame, 15, 1);
        lemma_bits_value_split(frame, 24, 6, 2);
        lemma_bits_value_bound(frame, 30, 2);
        lemma_bits_value_split(frame, 30, 2, 8);
        lemma_bits_value_split(frame, 30, 10, 3);
        lemma_bits_value_split(frame, 40, 3, 5);
        lemma_bits_value_bound(frame, 43, 5);
        let hi = bits_value(frame, 8, 4);
        assert(hi == f1 / 16);
        assert(bits_value(frame, 0, 12) == f0 * 16 + f1 / 16);
        assert(bits_value(frame, 15, 1) == f1 % 2);
        assert(bits_value(frame, 30, 2) == f3 % 4);
        assert(bits_value(frame, 40, 3) == f5 / 32);
        assert(bits_value(frame, 30, 13) == (f3 % 4) * 2048 + f4 * 8 + f5 / 32);
        assert(((((f3 & 0x03u8) as usize) << 11usize) | ((f4 as usize) << 3usize) | (((f5 & 0xe0u8) as usize)
            >> 5usize)) == (f3 % 4) as usize * 2048 + f4 as usize * 8 + (f5 / 32) as usize) by (bit_vector);
        assert((f0 * 16 + f1 / 16 == 0xfff) == (f0 == 0xff && (f1 & 0xf0u8) == 0xf0)) by {
            assert((f1 & 0xf0u8) == 0xf0 <==> f1 / 16 == 15) by (bit_vector);
        }
        assert(((f1 & 0x01u8) != 0) == (f1 % 2 == 1)) by (bit_vector);
    }
}

} // verus!
