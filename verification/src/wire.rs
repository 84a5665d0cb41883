//! Big-endian field encoding and the generic ISO-BMFF box frame.

use vstd::prelude::*;

verus! {

/// Two bytes, most significant first.
pub open spec fn be16(x: u16) -> Seq<u8> {
    seq![(x >> 8u16) as u8, (x & 0xffu16) as u8]
}

/// Four bytes, most significant first.
pub open spec fn be32(x: u32) -> Seq<u8> {
    seq![
        (x >> 24u32) as u8,
        ((x >> 16u32) & 0xffu32) as u8,
        ((x >> 8u32) & 0xffu32) as u8,
        (x & 0xffu32) as u8,
    ]
}

/// Eight bytes, most significant first.
pub open spec fn be64(x: u64) -> Seq<u8> {
    be32((x >> 32u64) as u32) + be32((x & 0xffff_ffffu64) as u32)
}

/// The value that four big-endian bytes denote.
pub open spec fn read_be32(s: Seq<u8>) -> int {
    s[0] * 0x100_0000 + s[1] * 0x1_0000 + s[2] * 0x100 + s[3]
}

/// Decoding the four bytes of `be32(x)` gives `x` back.
pub proof fn lemma_be32_roundtrip(x: u32)
    ensures
        read_be32(be32(x)) == x,
{
    let b0 = (x >> 24u32) as u8;
    let b1 = ((x >> 16u32) & 0xffu32) as u8;
    let b2 = ((x >> 8u32) & 0xffu32) as u8;
    let b3 = (x & 0xffu32) as u8;
    assert(b0 as u32 * 0x100_0000u32 + b1 as u32 * 0x1_0000u32 + b2 as u32 * 0x100u32 + b3 as u32
        == x) by (bit_vector)
        requires
            b0 == (x >> 24u32) as u8,
            b1 == ((x >> 16u32) & 0xffu32) as u8,
            b2 == ((x >> 8u32) & 0xffu32) as u8,
            b3 == (x & 0xffu32) as u8,
    ;
}

/// The value of two bytes read most significant first.
pub open spec fn read_be16(s: Seq<u8>) -> int {
    s[0] * 0x100 + s[1]
}

/// Decoding the two bytes of `be16(x)` gives `x` back.
pub proof fn lemma_be16_roundtrip(x: u16)
    ensures
        read_be16(be16(x)) == x,
{
    let b0 = (x >> 8u16) as u8;
    let b1 = (x & 0xffu16) as u8;
    assert(b0 as u16 * 0x100u16 + b1 as u16 == x) by (bit_vector)
        requires
            b0 == (x >> 8u16) as u8,
            b1 == (x & 0xffu16) as u8,
    ;
}

/// What a reader finds after a box's eight header bytes.
pub open spec fn box_payload(b: Seq<u8>) -> Seq<u8> {
    b.subrange(8, b.len() as int)
}

/// A box's type field and payload read back as written.
pub proof fn lemma_box_parts(fourcc: u32, payload: Seq<u8>)
    ensures
        read_be32(spec_box(fourcc, payload).subrange(4, 8)) == fourcc,
        box_payload(spec_box(fourcc, payload)) == payload,
{
    let b = spec_box(fourcc, payload);
    assert(b.subrange(4, 8) =~= be32(fourcc));
    lemma_be32_roundtrip(fourcc);
    assert(box_payload(b) =~= payload);
}

/// The 32-bit size field of a box whose payload has `payload_len` bytes:
/// the header (8 bytes) plus the payload, reduced modulo 2^32 as a `u32`
/// cast does.
pub open spec fn box_size_field(payload_len: nat) -> u32 {
    ((payload_len + 8) % 0x1_0000_0000) as u32
}

/// A box: its size, its four-character type, then its payload.
pub open spec fn spec_box(fourcc: u32, payload: Seq<u8>) -> Seq<u8> {
    be32(box_size_field(payload.len())) + be32(fourcc) + payload
}

/// Appends `x` in big-endian order.
pub fn push_u16(out: &mut Vec<u8>, x: u16)
    ensures
        final(out)@ == old(out)@ + be16(x),
{
    out.push((x >> 8u16) as u8);
    out.push((x & 0xffu16) as u8);
    assert(out@ =~= old(out)@ + be16(x));
}

/// Appends `x` in big-endian order.
pub fn push_u32(out: &mut Vec<u8>, x: u32)
    ensures
        final(out)@ == old(out)@ + be32(x),
{
    out.push((x >> 24u32) as u8);
    out.push(((x >> 16u32) & 0xffu32) as u8);
    out.push(((x >> 8u32) & 0xffu32) as u8);
    out.push((x & 0xffu32) as u8);
    assert(out@ =~= old(out)@ + be32(x));
}

/// Appends `x` in big-endian order.
pub fn push_u64(out: &mut Vec<u8>, x: u64)
    ensures
        final(out)@ == old(out)@ + be64(x),
{
    push_u32(out, (x >> 32u64) as u32);
    push_u32(out, (x & 0xffff_ffffu64) as u32);
    assert(out@ =~= old(out)@ + be64(x));
}

/// Appends `n` zero bytes.
pub fn push_zeros(out: &mut Vec<u8>, n: usize)
    ensures
        final(out)@ == old(out)@ + Seq::new(n as nat, |_i: int| 0u8),
{
    let mut i: usize = 0;
    while i < n
        invariant
            i <= n,
            out@ == old(out)@ + Seq::new(i as nat, |_i: int| 0u8),
        decreases n - i,
    {
        out.push(0u8);
        i = i + 1;
        assert(out@ =~= old(out)@ + Seq::new(i as nat, |_i: int| 0u8));
    }
}

/// Appends a copy of `bytes`.
pub fn push_bytes(out: &mut Vec<u8>, bytes: &[u8])
    ensures
        final(out)@ == old(out)@ + bytes@,
{
    let mut i: usize = 0;
    while i < bytes.len()
        invariant
            i <= bytes.len(),
            out@ == old(out)@ + bytes@.subrange(0, i as int),
        decreases bytes.len() - i,
    {
        out.push(bytes[i]);
        i = i + 1;
        assert(out@ =~= old(out)@ + bytes@.subrange(0, i as int));
    }
    assert(bytes@.subrange(0, bytes.len() as int) =~= bytes@);
}

/// The size field for a payload of `len` bytes, computed without overflow.
pub fn size_field(len: usize) -> (r: u32)
    ensures
        r == box_size_field(len as nat),
{
    let low: u64 = (len as u64) % 0x1_0000_0000u64;
    let total: u64 = (low + 8) % 0x1_0000_0000u64;
    assert(total == (len as nat + 8) % 0x1_0000_0000) by (nonlinear_arith)
        requires
            low == (len as int) % 0x1_0000_0000,
            total == (low + 8) % 0x1_0000_0000,
    ;
    total as u32
}

/// Frames `payload` as a box of type `fourcc`.
pub fn build_box(fourcc: u32, payload: &[u8]) -> (r: Vec<u8>)
    ensures
        r@ == spec_box(fourcc, payload@),
{
    let mut buffer: Vec<u8> = Vec::with_capacity(payload.len());
    push_u32(&mut buffer, size_field(payload.len()));
    push_u32(&mut buffer, fourcc);
    push_bytes(&mut buffer, payload);
    assert(buffer@ =~= spec_box(fourcc, payload@));
    buffer
}

/// The size field of every box equals its header plus payload, whenever that
/// total fits the 32-bit field.
pub proof fn lemma_box_size_field(fourcc: u32, payload: Seq<u8>)
    requires
        payload.len() + 8 <= u32::MAX,
    ensures
        spec_box(fourcc, payload).len() == payload.len() + 8,
        read_be32(spec_box(fourcc, payload).subrange(0, 4)) == spec_box(fourcc, payload).len(),
        spec_box(fourcc, payload).subrange(4, 8) == be32(fourcc),
        spec_box(fourcc, payload).subrange(8, payload.len() + 8int) == payload,
{
    let b = spec_box(fourcc, payload);
    let n = box_size_field(payload.len());
    assert(n == payload.len() + 8);
    lemma_be32_roundtrip(n);
    assert(b.subrange(0, 4) =~= be32(n));
    assert(b.subrange(4, 8) =~= be32(fourcc));
    assert(b.subrange(8, payload.len() + 8int) =~= payload);
}

} // verus!
