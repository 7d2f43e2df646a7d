//! Bit-level reading for AVC slice headers, and the AAC sample-rate table.

use vstd::prelude::*;

verus! {

/// The bit of `d` at bit position `pos`, MSB-first; 0 past the end.
pub open spec fn bit_at(d: Seq<u8>, pos: int) -> u32 {
    if 0 <= pos && pos < d.len() * 8 {
        ((d[pos / 8] >> (7 - (pos % 8)) as u8) & 1) as u32
    } else {
        0
    }
}

/// The number of consecutive zero bits of `d` starting at `pos`, counting
/// at most `cap` bits.
pub open spec fn zero_run(d: Seq<u8>, pos: int, cap: int) -> int
    decreases cap,
{
    if cap <= 0 {
        0
    } else if bit_at(d, pos) == 1 {
        0
    } else {
        1 + zero_run(d, pos + 1, cap - 1)
    }
}

/// The value of `n` bits of `d` starting at `pos`, MSB-first.
pub open spec fn bits_value(d: Seq<u8>, pos: int, n: int) -> int
    decreases n,
{
    if n <= 0 {
        0
    } else {
        bits_value(d, pos, n - 1) * 2 + bit_at(d, pos + n - 1)
    }
}

/// Two to the power `n`.
pub open spec fn pow2(n: int) -> int
    decreases n,
{
    if n <= 0 {
        1
    } else {
        2 * pow2(n - 1)
    }
}

/// The unsigned Exp-Golomb value read from `d` at bit position `pos` with a
/// safety cap of `cap` leading zeros: 0 when the cap is reached or when the
/// first bit is 1; otherwise `2^z + suffix - 1` for `z` leading zeros.
pub open spec fn ue_value(d: Seq<u8>, pos: int, cap: int) -> u32 {
    let z = zero_run(d, pos, cap);
    if z >= cap {
        0
    } else if z == 0 {
        0
    } else {
        ((pow2(z) + bits_value(d, pos + z + 1, z) - 1) as u32)
    }
}

/// The number of bits the reader consumes for one Exp-Golomb read.
pub open spec fn ue_bits_read(d: Seq<u8>, pos: int, cap: int) -> int {
    let z = zero_run(d, pos, cap);
    if z >= cap {
        cap
    } else {
        2 * z + 1
    }
}

/// The cursor position after reading `n` logical bits from `pos`: the cursor
/// never moves past the end of the data.
pub open spec fn advanced(d: Seq<u8>, pos: int, n: int) -> int {
    if pos + n <= d.len() * 8 {
        pos + n
    } else {
        d.len() * 8 as int
    }
}

/// Reads individual bits and unsigned Exp-Golomb codes from a byte slice,
/// MSB-first.
pub struct BitReader<'a> {
    data: &'a [u8],
    pos: usize,
}

impl<'a> BitReader<'a> {
    /// The bytes the reader walks over.
    pub closed spec fn data_spec(&self) -> Seq<u8> {
        self.data@
    }

    /// The current bit position.
    pub closed spec fn pos_spec(&self) -> int {
        self.pos as int
    }

    /// The cursor stays within the bit length of the data.
    pub closed spec fn wf(&self) -> bool {
        self.pos <= self.data@.len() * 8
    }

    /// A fresh reader positioned at the first bit.
    pub fn new(data: &'a [u8]) -> (r: Self)
        requires
            data@.len() * 8 <= usize::MAX,
        ensures
            r.data_spec() == data@,
            r.pos_spec() == 0,
            r.wf(),
    {
        Self { data, pos: 0 }
    }

    /// Returns the next bit and advances, or 0 without advancing past the end.
    fn get_bit(&mut self) -> (b: u32)
        requires
            old(self).wf(),
            old(self).data_spec().len() * 8 <= usize::MAX,
        ensures
            final(self).wf(),
            final(self).data_spec() == old(self).data_spec(),
            b == bit_at(old(self).data_spec(), old(self).pos_spec()),
            final(self).pos_spec() == advanced(old(self).data_spec(), old(self).pos_spec(), 1),
    {
        if self.pos >= self.data.len() * 8 {
            return 0;
        }
        let byte_index: usize = self.pos / 8;
        let bit_index: usize = 7 - (self.pos % 8);
        let byte: u8 = *vstd::slice::slice_index_get(self.data, byte_index);
        let bit: u8 = (byte >> (bit_index as u8)) & 1;
        self.pos = self.pos + 1;
        assert((bit & 1) < 2) by (bit_vector);
        bit as u32
    }

    /// Decodes one unsigned Exp-Golomb value, counting at most `bits`
    /// leading zeros before giving up and returning 0.
    pub fn ue_bits(&mut self, bits: usize) -> (v: u32)
        requires
            old(self).wf(),
            old(self).data_spec().len() * 8 <= usize::MAX,
            1 <= bits <= 32,
        ensures
            final(self).wf(),
            final(self).data_spec() == old(self).data_spec(),
            v == ue_value(old(self).data_spec(), old(self).pos_spec(), bits as int),
            final(self).pos_spec() == advanced(
                old(self).data_spec(),
                old(self).pos_spec(),
                ue_bits_read(old(self).data_spec(), old(self).pos_spec(), bits as int),
            ),
    {
        let ghost d = old(self).data_spec();
        let ghost p0 = old(self).pos_spec();
        let mut leading_zeros: usize = 0;
        let mut capped: bool = false;
        loop
            invariant_except_break
                self.pos_spec() == advanced(d, p0, leading_zeros as int),
                leading_zeros < bits,
                !capped,
            invariant
                self.wf(),
                self.data_spec() == d,
                p0 >= 0,
                d.len() * 8 <= usize::MAX,
                1 <= bits <= 32,
                forall|k: int| 0 <= k < leading_zeros ==> #[trigger] bit_at(d, p0 + k) == 0,
            ensures
                self.wf(),
                self.data_spec() == d,
                capped ==> leading_zeros == bits && zero_run(d, p0, bits as int) >= bits
                    && self.pos_spec() == advanced(d, p0, bits as int),
                !capped ==> leading_zeros < bits && zero_run(d, p0, bits as int) == leading_zeros
                    && bit_at(d, p0 + leading_zeros as int) == 1
                    && self.pos_spec() == advanced(d, p0, leading_zeros as int + 1),
            decreases bits - leading_zeros,
        {
            proof {
                lemma_advanced_bit(d, p0, leading_zeros as int);
            }
            let b = self.get_bit();
            if b != 0 {
                proof {
                    lemma_bit_at_bound(d, p0 + leading_zeros as int);
                    lemma_zero_run_stops(d, p0, bits as int, leading_zeros as int);
                }
                break;
            }
            leading_zeros = leading_zeros + 1;
            if leading_zeros >= bits {
                proof {
                    lemma_zero_run_lower(d, p0, bits as int, leading_zeros as int);
                }
                capped = true;
                break;
            }
        }
        if capped {
            return 0;
        }
        let ghost z = leading_zeros as int;
        if leading_zeros == 0 {
            return 0;
        }
        let mut value: u32 = 1;
        let mut i: usize = 0;
        while i < leading_zeros
            invariant
                self.wf(),
                self.data_spec() == d,
                p0 >= 0,
                d.len() * 8 <= usize::MAX,
                0 < z < 32,
                i <= leading_zeros,
                leading_zeros == z,
                value == pow2(i as int) + bits_value(d, p0 + z + 1, i as int),
                0 <= bits_value(d, p0 + z + 1, i as int) < pow2(i as int),
                self.pos_spec() == advanced(d, p0, z + 1 + i),
            decreases leading_zeros - i,
        {
            proof {
                lemma_pow2_bounds(i as int);
                lemma_pow2_bounds(z);
                lemma_advanced_bit(d, p0, z + 1 + i);
                lemma_bit_at_bound(d, p0 + z + 1 + i);
            }
            let b = self.get_bit();
            proof {
                let w = value;
                assert(w < 0x80000000u32 && b < 2u32 ==> ((w << 1u32) | b) == w * 2 + b)
                    by (bit_vector);
            }
            value = (value << 1u32) | b;
            i = i + 1;
        }
        proof {
            lemma_pow2_bounds(z);
        }
        value - 1
    }
}

/// Every bit is 0 or 1.
proof fn lemma_bit_at_bound(d: Seq<u8>, pos: int)
    ensures
        bit_at(d, pos) <= 1,
{
    if 0 <= pos && pos < d.len() * 8 {
        let byte = d[pos / 8];
        let sh = (7 - (pos % 8)) as u8;
        assert(((byte >> sh) & 1) <= 1) by (bit_vector);
    }
}

/// The zero run is never negative.
proof fn lemma_zero_run_nonneg(d: Seq<u8>, p0: int, cap: int)
    ensures
        zero_run(d, p0, cap) >= 0,
    decreases cap,
{
    if cap > 0 && bit_at(d, p0) != 1 {
        lemma_zero_run_nonneg(d, p0 + 1, cap - 1);
    }
}

/// When the first `k` bits are zero, the zero run reaches at least `k`.
proof fn lemma_zero_run_lower(d: Seq<u8>, p0: int, cap: int, k: int)
    requires
        0 <= k <= cap,
        forall|j: int| 0 <= j < k ==> #[trigger] bit_at(d, p0 + j) == 0,
    ensures
        zero_run(d, p0, cap) >= k,
    decreases k,
{
    lemma_zero_run_nonneg(d, p0, cap);
    if k > 0 {
        assert(bit_at(d, p0 + 0) == 0);
        assert forall|j: int| 0 <= j < k - 1 implies #[trigger] bit_at(d, (p0 + 1) + j) == 0 by {
            assert(bit_at(d, p0 + (j + 1)) == 0);
        }
        lemma_zero_run_lower(d, p0 + 1, cap - 1, k - 1);
    }
}

/// A one bit after `k` zeros pins the zero run at `k`.
proof fn lemma_zero_run_stops(d: Seq<u8>, p0: int, cap: int, k: int)
    requires
        0 <= k < cap,
        forall|j: int| 0 <= j < k ==> #[trigger] bit_at(d, p0 + j) == 0,
        bit_at(d, p0 + k) == 1,
    ensures
        zero_run(d, p0, cap) == k,
    decreases k,
{
    if k > 0 {
        assert(bit_at(d, p0 + 0) == 0);
        assert forall|j: int| 0 <= j < k - 1 implies #[trigger] bit_at(d, (p0 + 1) + j) == 0 by {
            assert(bit_at(d, p0 + (j + 1)) == 0);
        }
        lemma_zero_run_stops(d, p0 + 1, cap - 1, k - 1);
    }
}

/// `pow2` is positive.
proof fn lemma_pow2_pos(n: int)
    ensures
        pow2(n) >= 1,
    decreases n,
{
    if n > 0 {
        lemma_pow2_pos(n - 1);
    }
}

/// `pow2` grows with its exponent.
proof fn lemma_pow2_mono(a: int, b: int)
    requires
        a <= b,
    ensures
        pow2(a) <= pow2(b),
    decreases b - a,
{
    if a < b {
        lemma_pow2_mono(a, b - 1);
        lemma_pow2_pos(b - 1);
    }
}

/// Exponents up to 31 stay within `u32` range.
proof fn lemma_pow2_bounds(n: int)
    requires
        n <= 31,
    ensures
        pow2(n) >= 1,
        pow2(n) <= 0x80000000,
        n <= 30 ==> pow2(n) <= 0x40000000,
    decreases n,
{
    lemma_pow2_pos(n);
    lemma_pow2_mono(n, 31);
    if n <= 30 {
        lemma_pow2_mono(n, 30);
    }
    reveal_with_fuel(pow2, 33);
    assert(pow2(31) == 0x80000000);
    assert(pow2(30) == 0x40000000);
}

/// Reading a bit at the cursor given by `advanced` sees the same bit as the
/// logical position, because every position past the end reads as 0.
proof fn lemma_advanced_bit(d: Seq<u8>, p0: int, n: int)
    requires
        n >= 0,
        p0 >= 0,
    ensures
        bit_at(d, advanced(d, p0, n)) == bit_at(d, p0 + n),
{
}

/// The index of `sample_rate` in the fixed AAC sample-rate table, or 11 when
/// the rate is not listed.
pub open spec fn sample_rate_idx(sample_rate: u32) -> u32 {
    if sample_rate == 96000 {
        0
    } else if sample_rate == 88200 {
        1
    } else if sample_rate == 64000 {
        2
    } else if sample_rate == 48000 {
        3
    } else if sample_rate == 44100 {
        4
    } else if sample_rate == 32000 {
        5
    } else if sample_rate == 24000 {
        6
    } else if sample_rate == 22050 {
        7
    } else if sample_rate == 16000 {
        8
    } else if sample_rate == 12000 {
        9
    } else if sample_rate == 11025 {
        10
    } else if sample_rate == 8000 {
        11
    } else if sample_rate == 7350 {
        12
    } else {
        0x0b
    }
}

/// Looks up `sample_rate` in the standard AAC sample-rate table.
pub fn get_sample_rate_idx(sample_rate: u32) -> (idx: u32)
    ensures
        idx == sample_rate_idx(sample_rate),
{
    if sample_rate == 96000 {
        0
    } else if sample_rate == 88200 {
        1
    } else if sample_rate == 64000 {
        2
    } else if sample_rate == 48000 {
        3
    } else if sample_rate == 44100 {
        4
    } else if sample_rate == 32000 {
        5
    } else if sample_rate == 24000 {
        6
    } else if sample_rate == 22050 {
        7
    } else if sample_rate == 16000 {
        8
    } else if sample_rate == 12000 {
        9
    } else if sample_rate == 11025 {
        10
    } else if sample_rate == 8000 {
        11
    } else if sample_rate == 7350 {
        12
    } else {
        0x0b
    }
}

} // verus!
