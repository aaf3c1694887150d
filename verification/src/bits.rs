//! Byte sequences read as streams of bits, most significant bit first, and
//! a cursor that reads numbers of any width up to sixteen bits from one.

use vstd::arithmetic::power2::{lemma2_to64, lemma_pow2_unfold, pow2};
use vstd::prelude::*;

verus! {

/// Bit `k` of the stream: the bits of each byte follow those of the byte
/// before it, and within a byte the most significant bit comes first.
pub open spec fn bit_at(bytes: Seq<u8>, k: int) -> bool {
    (bytes[k / 8] >> ((7 - k % 8) as u8)) & 1 == 1
}

/// All bits of `bytes`, in stream order.
pub open spec fn bits_of(bytes: Seq<u8>) -> Seq<bool> {
    Seq::new(8 * bytes.len(), |k: int| bit_at(bytes, k))
}

/// The number that `bits` spell, the first bit being the most significant.
pub open spec fn bits_value(bits: Seq<bool>) -> nat
    decreases bits.len(),
{
    if bits.len() == 0 {
        0
    } else {
        2 * bits_value(bits.drop_last()) + if bits.last() {
            1nat
        } else {
            0nat
        }
    }
}

/// The `width` low bits of `value`, the most significant of them first.
pub open spec fn value_bits(value: nat, width: nat) -> Seq<bool>
    decreases width,
{
    if width == 0 {
        Seq::empty()
    } else {
        value_bits(value / 2, (width - 1) as nat).push(value % 2 == 1)
    }
}

/// A number spelled by `n` bits is below 2^n.
pub proof fn lemma_bits_value_bound(bits: Seq<bool>)
    ensures
        bits_value(bits) < pow2(bits.len()),
    decreases bits.len(),
{
    if bits.len() == 0 {
        lemma2_to64();
    } else {
        lemma_bits_value_bound(bits.drop_last());
        lemma_pow2_unfold(bits.len());
    }
}

/// `value_bits` gives as many bits as it is asked for.
pub proof fn lemma_value_bits_len(value: nat, width: nat)
    ensures
        value_bits(value, width).len() == width,
    decreases width,
{
    if width > 0 {
        lemma_value_bits_len(value / 2, (width - 1) as nat);
    }
}

/// Spelling the number that some bits spell gives those bits back.
pub proof fn lemma_bits_of_value_of_bits(bits: Seq<bool>)
    ensures
        value_bits(bits_value(bits), bits.len()) == bits,
    decreases bits.len(),
{
    if bits.len() > 0 {
        let front = bits.drop_last();
        lemma_bits_of_value_of_bits(front);
        assert(bits_value(bits) / 2 == bits_value(front));
        assert((bits_value(bits) % 2 == 1) == bits.last());
        assert(front.push(bits.last()) =~= bits);
    } else {
        assert(value_bits(0, 0) =~= bits);
    }
}

/// Reading back the `width` bits of a number below 2^width gives the number.
pub proof fn lemma_value_of_bits_of_value(value: nat, width: nat)
    requires
        value < pow2(width),
    ensures
        bits_value(value_bits(value, width)) == value,
    decreases width,
{
    if width == 0 {
        lemma2_to64();
    } else {
        lemma_pow2_unfold(width);
        let front = value_bits(value / 2, (width - 1) as nat);
        lemma_value_of_bits_of_value(value / 2, (width - 1) as nat);
        let all = front.push(value % 2 == 1);
        assert(all.drop_last() =~= front);
    }
}

/// A position in a stream of bits: the byte that is read next and the
/// number of its bits that have been read already.
pub struct BitCursor<'a> {
    data: &'a [u8],
    byte_index: usize,
    bit_offset: u8,
}

impl<'a> BitCursor<'a> {
    /// The invariant of the cursor: it stands inside the stream or at its
    /// end, and the offset counts bits of one byte.
    pub closed spec fn wf(&self) -> bool {
        &&& self.bit_offset < 8
        &&& self.byte_index <= self.data@.len()
        &&& self.byte_index == self.data@.len() ==> self.bit_offset == 0
    }

    /// The bytes that the cursor reads from.
    pub closed spec fn stream(&self) -> Seq<u8> {
        self.data@
    }

    /// How many bits have been read.
    pub closed spec fn position(&self) -> nat {
        (8 * self.byte_index + self.bit_offset) as nat
    }

    /// How many bits are left to read.
    pub open spec fn remaining(&self) -> nat {
        (8 * self.stream().len() - self.position()) as nat
    }

    /// A cursor at the first bit of `data`.
    pub fn new(data: &'a [u8]) -> (cursor: Self)
        ensures
            cursor.wf(),
            cursor.stream() == data@,
            cursor.position() == 0,
    {
        BitCursor { data, byte_index: 0, bit_offset: 0 }
    }

    /// Whether at least `count` bits are left to read.
    fn has_bits(&self, count: u8) -> (enough: bool)
        requires
            self.wf(),
            count <= 16,
        ensures
            enough == (count <= self.remaining()),
    {
        let bytes_left = self.data.len() - self.byte_index;
        if bytes_left >= 3 {
            true
        } else {
            count as usize <= bytes_left * 8 - self.bit_offset as usize
        }
    }

    /// Reads the next bit.
    fn read_bit(&mut self) -> (bit: bool)
        requires
            old(self).wf(),
            old(self).remaining() > 0,
        ensures
            final(self).wf(),
            final(self).stream() == old(self).stream(),
            final(self).position() == old(self).position() + 1,
            bit == bits_of(old(self).stream())[old(self).position() as int],
    {
        let byte = self.data[self.byte_index];
        let bit = (byte >> (7 - self.bit_offset)) & 1 == 1;
        if self.bit_offset == 7 {
            self.bit_offset = 0;
            self.byte_index += 1;
        } else {
            self.bit_offset += 1;
        }
        bit
    }

    /// Reads the next `count` bits as one number, the first bit being the
    /// most significant. Where fewer than `count` bits are left, or `count`
    /// is more than sixteen, nothing is read.
    pub fn read_bits(&mut self, count: u8) -> (read: Option<u16>)
        requires
            old(self).wf(),
        ensures
            final(self).wf(),
            final(self).stream() == old(self).stream(),
            count <= 16 && count <= old(self).remaining() ==> {
                let start = old(self).position() as int;
                &&& final(self).position() == start + count
                &&& read == Some(
                    bits_value(bits_of(old(self).stream()).subrange(start, start + count)) as u16,
                )
                &&& bits_value(bits_of(old(self).stream()).subrange(start, start + count)) < pow2(
                    count as nat,
                )
            },
            !(count <= 16 && count <= old(self).remaining()) ==> {
                &&& read is None
                &&& final(self).position() == old(self).position()
            },
    {
        if count > 16 || !self.has_bits(count) {
            return None;
        }
        let ghost bits = bits_of(self.data@);
        let ghost start = self.position() as int;
        let mut value: u16 = 0;
        let mut taken: u8 = 0;
        assert(bits.subrange(start, start) =~= Seq::<bool>::empty());
        while taken < count
            invariant
                self.wf(),
                self.stream() == old(self).stream(),
                bits == bits_of(self.stream()),
                count <= 16,
                taken <= count,
                0 <= start,
                start + count <= bits.len(),
                self.position() == start + taken,
                value == bits_value(bits.subrange(start, start + taken)),
            decreases count - taken,
        {
            let ghost seen = bits.subrange(start, start + taken);
            let ghost next = bits.subrange(start, start + taken + 1);
            let bit = self.read_bit();
            proof {
                lemma_bits_value_bound(seen);
                lemma2_to64();
                assert(pow2(seen.len()) <= pow2(15)) by {
                    if seen.len() < 15 {
                        vstd::arithmetic::power2::lemma_pow2_strictly_increases(seen.len(), 15);
                    }
                }
                assert(next.drop_last() =~= seen);
                assert(next.last() == bit);
            }
            value = value * 2 + if bit {
                1
            } else {
                0
            };
            taken += 1;
        }
        proof {
            lemma_bits_value_bound(bits.subrange(start, start + count));
        }
        Some(value)
    }
}

} // verus!
