//! Reading a byte stream bit by bit, most significant bit first, as the
//! VP9 and AV1 headers are laid out.

use vstd::prelude::*;

verus! {

/// Bit `k` of the stream, counting from the most significant bit of byte 0.
pub open spec fn bit_at(s: Seq<u8>, k: int) -> u8 {
    (s[k / 8] >> ((7 - k % 8) as u8)) & 1u8
}

/// The unsigned value of the `count` bits starting at bit `start`, most
/// significant first.
pub open spec fn bits_value(s: Seq<u8>, start: int, count: nat) -> nat
    decreases count,
{
    if count == 0 {
        0
    } else {
        bits_value(s, start, (count - 1) as nat) * 2 + bit_at(s, start + count - 1) as nat
    }
}

/// Whether `count` bits starting at `start` lie inside the stream.
pub open spec fn bits_available(s: Seq<u8>, start: int, count: nat) -> bool {
    0 <= start && start + count <= s.len() * 8
}

/// A value read from `count` bits is below 2^count.
pub proof fn lemma_bits_value_bound(s: Seq<u8>, start: int, count: nat)
    ensures
        bits_value(s, start, count) < vstd::arithmetic::power2::pow2(count),
    decreases count,
{
    if count > 0 {
        lemma_bits_value_bound(s, start, (count - 1) as nat);
        vstd::arithmetic::power2::lemma_pow2_unfold(count);
        let k = start + count - 1;
        lemma_low_bit(s[k / 8], (7 - k % 8) as u8);
    } else {
        vstd::arithmetic::power2::lemma2_to64();
    }
}

/// Reading `a + b` bits is reading `a` bits, then `b` more below them.
pub proof fn lemma_bits_value_split(s: Seq<u8>, start: int, a: nat, b: nat)
    ensures
        bits_value(s, start, a + b) == bits_value(s, start, a) * vstd::arithmetic::power2::pow2(b)
            + bits_value(s, start + a, b),
    decreases b,
{
    vstd::arithmetic::power2::lemma2_to64();
    if b > 0 {
        lemma_bits_value_split(s, start, a, (b - 1) as nat);
        vstd::arithmetic::power2::lemma_pow2_unfold(b);
        let x = bits_value(s, start, a);
        let y = bits_value(s, start + a, (b - 1) as nat);
        let p = vstd::arithmetic::power2::pow2((b - 1) as nat);
        let c = bit_at(s, start + a + b - 1) as nat;
        assert(bits_value(s, start, a + b) == bits_value(s, start, (a + b - 1) as nat) * 2 + c);
        assert(bits_value(s, start + a, b) == y * 2 + c);
        assert((x * p + y) * 2 + c == x * (2 * p) + (y * 2 + c)) by (nonlinear_arith);
        assert(vstd::arithmetic::power2::pow2(b) == 2 * p);
        assert((a + b - 1) as nat == a + (b - 1) as nat);
        assert(bits_value(s, start, (a + b - 1) as nat) == x * p + y);
    } else {
        assert(vstd::arithmetic::power2::pow2(0) == 1);
        assert(bits_value(s, start + a, 0) == 0);
        assert(a + b == a);
    }
}

/// The eight bits of byte `i` read as that byte.
pub proof fn lemma_bits_value_byte(s: Seq<u8>, i: int)
    requires
        0 <= i < s.len(),
    ensures
        bits_value(s, 8 * i, 8) == s[i],
{
    reveal_with_fuel(bits_value, 9);
    let x = s[i];
    assert((8 * i) / 8 == i && (8 * i) % 8 == 0);
    assert((8 * i + 1) / 8 == i && (8 * i + 1) % 8 == 1);
    assert((8 * i + 2) / 8 == i && (8 * i + 2) % 8 == 2);
    assert((8 * i + 3) / 8 == i && (8 * i + 3) % 8 == 3);
    assert((8 * i + 4) / 8 == i && (8 * i + 4) % 8 == 4);
    assert((8 * i + 5) / 8 == i && (8 * i + 5) % 8 == 5);
    assert((8 * i + 6) / 8 == i && (8 * i + 6) % 8 == 6);
    assert((8 * i + 7) / 8 == i && (8 * i + 7) % 8 == 7);
    assert(bit_at(s, 8 * i) == (x >> 7u8) & 1u8);
    assert(bit_at(s, 8 * i + 1) == (x >> 6u8) & 1u8);
    assert(bit_at(s, 8 * i + 2) == (x >> 5u8) & 1u8);
    assert(bit_at(s, 8 * i + 3) == (x >> 4u8) & 1u8);
    assert(bit_at(s, 8 * i + 4) == (x >> 3u8) & 1u8);
    assert(bit_at(s, 8 * i + 5) == (x >> 2u8) & 1u8);
    assert(bit_at(s, 8 * i + 6) == (x >> 1u8) & 1u8);
    assert(bit_at(s, 8 * i + 7) == (x >> 0u8) & 1u8);
    assert(((((((((x >> 7u8) & 1u8) as u32 * 2 + ((x >> 6u8) & 1u8) as u32) * 2 + ((x >> 5u8) & 1u8) as u32)
        * 2 + ((x >> 4u8) & 1u8) as u32) * 2 + ((x >> 3u8) & 1u8) as u32) * 2 + ((x >> 2u8) & 1u8) as u32)
        * 2 + ((x >> 1u8) & 1u8) as u32) * 2 + ((x >> 0u8) & 1u8) as u32 == x as u32) by (bit_vector);
}

proof fn lemma_low_bit(x: u8, sh: u8)
    ensures
        (x >> sh) & 1u8 <= 1,
{
    assert((x >> sh) & 1u8 <= 1) by (bit_vector);
}

/// A reader of a byte stream's bits, one at a time from the most
/// significant bit of each byte.
pub(crate) struct BitReader<'a> {
    pub(crate) data: &'a [u8],
    pub(crate) byte_pos: usize,
    pub(crate) bit_pos: u8,
}

impl<'a> BitReader<'a> {
    pub(crate) open spec fn wf(&self) -> bool {
        &&& self.bit_pos < 8
        &&& self.byte_pos <= self.data@.len()
        &&& self.byte_pos == self.data@.len() ==> self.bit_pos == 0
    }

    /// The index of the next bit to read.
    pub(crate) open spec fn pos(&self) -> int {
        self.byte_pos * 8 + self.bit_pos
    }

    pub(crate) fn new(data: &'a [u8]) -> (r: Self)
        ensures
            r.wf(),
            r.pos() == 0,
            r.data@ == data@,
    {
        Self { data, byte_pos: 0, bit_pos: 0 }
    }

    pub(crate) fn read_bit(&mut self) -> (r: Option<u8>)
        requires
            old(self).wf(),
        ensures
            final(self).wf(),
            final(self).data@ == old(self).data@,
            match r {
                Some(b) => bits_available(old(self).data@, old(self).pos(), 1) && b == bit_at(
                    old(self).data@,
                    old(self).pos(),
                ) && b <= 1 && final(self).pos() == old(self).pos() + 1,
                None => !bits_available(old(self).data@, old(self).pos(), 1) && final(self).pos()
                    == old(self).pos(),
            },
    {
        if self.byte_pos >= self.data.len() {
            return None;
        }
        let byte = self.data[self.byte_pos];
        let sh = 7 - self.bit_pos;
        let bit = (byte >> sh) & 1u8;
        proof {
            let k = self.pos();
            assert(k / 8 == self.byte_pos as int);
            assert(k % 8 == self.bit_pos as int);
            assert(bit <= 1) by (bit_vector)
                requires
                    bit == (byte >> sh) & 1u8,
            ;
        }
        self.bit_pos = self.bit_pos + 1;
        if self.bit_pos == 8 {
            self.bit_pos = 0;
            self.byte_pos = self.byte_pos + 1;
        }
        Some(bit)
    }

    pub(crate) fn read_bits(&mut self, count: usize) -> (r: Option<u32>)
        requires
            old(self).wf(),
            count <= 31,
        ensures
            final(self).wf(),
            final(self).data@ == old(self).data@,
            match r {
                Some(v) => bits_available(old(self).data@, old(self).pos(), count as nat) && v
                    == bits_value(old(self).data@, old(self).pos(), count as nat) && final(self).pos()
                    == old(self).pos() + count,
                None => !bits_available(old(self).data@, old(self).pos(), count as nat),
            },
    {
        let ghost start = self.pos();
        let ghost s = self.data@;
        let mut val: u32 = 0;
        let mut i: usize = 0;
        while i < count
            invariant
                self.wf(),
                self.data@ == s,
                s == old(self).data@,
                start == old(self).pos(),
                i <= count <= 31,
                self.pos() == start + i,
                bits_available(s, start, i as nat),
                val == bits_value(s, start, i as nat),
                start >= 0,
            decreases count - i,
        {
            proof {
                lemma_bits_value_bound(s, start, i as nat);
                vstd::arithmetic::power2::lemma_pow2_strictly_increases(i as nat, 31);
                vstd::arithmetic::power2::lemma2_to64();
            }
            let b = self.read_bit();
            match b {
                None => {
                    return None;
                },
                Some(bit) => {
                    assert(val < 0x8000_0000);
                    assert((val << 1u32) | (bit as u32) == val * 2 + bit as u32) by (bit_vector)
                        requires
                            val < 0x8000_0000,
                            bit <= 1,
                    ;
                    val = (val << 1u32) | (bit as u32);
                    i = i + 1;
                },
            }
        }
        Some(val)
    }

    /// Skips `count` bits; `None` (having read what there was) when fewer
    /// are left.
    pub(crate) fn skip_bits(&mut self, count: u64) -> (r: Option<()>)
        requires
            old(self).wf(),
        ensures
            final(self).wf(),
            final(self).data@ == old(self).data@,
            r is Some <==> bits_available(old(self).data@, old(self).pos(), count as nat),
            r is Some ==> final(self).pos() == old(self).pos() + count,
    {
        let ghost start = self.pos();
        let ghost s = self.data@;
        let mut i: u64 = 0;
        while i < count
            invariant
                self.wf(),
                self.data@ == s,
                s == old(self).data@,
                start == old(self).pos(),
                start >= 0,
                i <= count,
                self.pos() == start + i,
                bits_available(s, start, i as nat),
            decreases count - i,
        {
            match self.read_bit() {
                None => {
                    return None;
                },
                Some(_) => {
                    i = i + 1;
                },
            }
        }
        Some(())
    }
}

} // verus!
