//! Bitstream reader for AC-3/E-AC-3 frame parsing.

use vstd::arithmetic::power2::{lemma_pow2_adds, lemma_pow2_pos, lemma_pow2_strictly_increases, lemma2_to64, pow2};
use vstd::bits::{lemma_u32_shl_is_mul};
use vstd::prelude::*;

verus! {

/// The abstract reader: the bytes and the position of the next bit, counted
/// from the start of the data, most significant bit first.
#[verifier::ext_equal]
pub struct Cursor {
    pub data: Seq<u8>,
    pub pos: int,
}

/// The bit at `pos`; every bit behind the end of the data is zero.
pub open spec fn bit_at(data: Seq<u8>, pos: int) -> int {
    if 0 <= pos < 8 * data.len() {
        ((data[pos / 8] >> ((7 - pos % 8) as u8)) & 1) as int
    } else {
        0
    }
}

/// The `n` bits from `pos` on, as an unsigned number.
pub open spec fn bits_from(data: Seq<u8>, pos: int, n: nat) -> int
    decreases n,
{
    if n == 0 {
        0
    } else {
        2 * bits_from(data, pos, (n - 1) as nat) + bit_at(data, pos + n - 1)
    }
}

/// The furthest position that a reader can stand at.
pub open spec fn max_position() -> int {
    8 * usize::MAX + 7
}

impl Cursor {
    /// The value of the next `n` bits.
    pub open spec fn value(self, n: nat) -> int {
        bits_from(self.data, self.pos, n)
    }

    /// The value of the next `n` bits in two's complement.
    pub open spec fn signed_value(self, n: nat) -> int {
        let v = self.value(n);
        if v >= pow2((n - 1) as nat) {
            v - 2 * pow2((n - 1) as nat)
        } else {
            v
        }
    }

    /// Whether the next bit is set.
    pub open spec fn flag(self) -> bool {
        self.value(1) != 0
    }

    /// The cursor once `n` bits have been read: reading stops at the end of the
    /// data.
    pub open spec fn after(self, n: nat) -> Cursor {
        let end = 8 * self.data.len();
        Cursor {
            data: self.data,
            pos: if self.pos >= end {
                self.pos
            } else if self.pos + n > end {
                end as int
            } else {
                self.pos + n
            },
        }
    }

    /// The cursor once `n` bits have been skipped, which may lead behind the end
    /// of the data.
    pub open spec fn skipped(self, n: nat) -> Cursor {
        Cursor {
            data: self.data,
            pos: if self.pos + n > max_position() {
                max_position()
            } else {
                self.pos + n
            },
        }
    }

    /// The cursor behind a flag that, when set, is followed by `n` ignored bits.
    pub open spec fn past_optional(self, n: nat) -> Cursor {
        if self.flag() {
            self.after(1).skipped(n)
        } else {
            self.after(1)
        }
    }

    /// The cursor once every remaining bit of the current byte has been skipped.
    pub open spec fn aligned(self) -> Cursor {
        Cursor {
            data: self.data,
            pos: if self.pos % 8 == 0 || self.pos + 8 - self.pos % 8 > max_position() {
                self.pos
            } else {
                self.pos + 8 - self.pos % 8
            },
        }
    }
}

/// `n` bits make a number below two to the `n`.
pub proof fn lemma_bits_bound(data: Seq<u8>, pos: int, n: nat)
    ensures
        0 <= bits_from(data, pos, n) < pow2(n),
    decreases n,
{
    lemma2_to64();
    if n > 0 {
        lemma_bits_bound(data, pos, (n - 1) as nat);
        lemma_pow2_adds((n - 1) as nat, 1);
        lemma_bit_range(data, pos + n - 1);
    }
}

/// A bit is zero or one.
pub proof fn lemma_bit_range(data: Seq<u8>, pos: int)
    ensures
        0 <= bit_at(data, pos) <= 1,
{
    if 0 <= pos < 8 * data.len() {
        let b = data[pos / 8];
        let s = (7 - pos % 8) as u8;
        assert((b >> s) & 1 <= 1) by (bit_vector);
    }
}

/// Reading `n + m` bits at once gives what reading `n` bits and then `m` bits
/// gives.
pub proof fn lemma_bits_split(data: Seq<u8>, pos: int, n: nat, m: nat)
    ensures
        bits_from(data, pos, n + m) == bits_from(data, pos, n) * pow2(m) + bits_from(data, pos + n, m),
    decreases m,
{
    lemma2_to64();
    if m > 0 {
        lemma_bits_split(data, pos, n, (m - 1) as nat);
        lemma_pow2_adds((m - 1) as nat, 1);
        let hi = bits_from(data, pos, n);
        let p = pow2((m - 1) as nat);
        assert((n + m - 1) as nat == n + (m - 1) as nat);
        assert(pos + (n + m) - 1 == (pos + n) + m - 1);
        assert(2 * (hi * p) == hi * (p * 2)) by (nonlinear_arith);
        assert(pow2(m) == p * 2);
    } else {
        let hi = bits_from(data, pos, n);
        assert(hi * pow2(0) == hi) by (nonlinear_arith)
            requires
                pow2(0) == 1,
        ;
    }
}

/// Behind the end of the data every bit is zero.
pub proof fn lemma_bits_past_end(data: Seq<u8>, pos: int, n: nat)
    requires
        pos >= 8 * data.len(),
    ensures
        bits_from(data, pos, n) == 0,
    decreases n,
{
    if n > 0 {
        lemma_bits_past_end(data, pos, (n - 1) as nat);
    }
}

/// `take` bits inside one byte, cut out by shift and mask.
pub proof fn lemma_chunk(data: Seq<u8>, byte_pos: int, bit_pos: u32, take: u32)
    requires
        0 <= byte_pos < data.len(),
        bit_pos + take <= 8,
    ensures
        bits_from(data, 8 * byte_pos + bit_pos, take as nat) == (((data[byte_pos] as u32) >> ((8
            - bit_pos - take) as u32)) & (((1u32 << take) - 1) as u32)) as int,
    decreases take,
{
    let b = data[byte_pos];
    let w = b as u32;
    if take == 0 {
        assert((w >> ((8 - bit_pos) as u32)) & (((1u32 << 0u32) - 1) as u32) == 0) by (bit_vector);
    } else {
        let t1 = (take - 1) as u32;
        lemma_chunk(data, byte_pos, bit_pos, t1);
        let p = 8 * byte_pos + bit_pos + take - 1;
        assert(p / 8 == byte_pos && p % 8 == bit_pos + take - 1);
        let s8 = (7 - p % 8) as u8;
        let s = (8 - bit_pos - take) as u32;
        assert(s8 as u32 == s);
        assert((w >> s) & (((1u32 << take) - 1) as u32) == 2 * ((w >> ((s + 1) as u32)) & (((1u32
            << t1) - 1) as u32)) + ((b >> s8) & 1) as u32) by (bit_vector)
            requires
                w == b as u32,
                s8 as u32 == s,
                s < 8,
                take >= 1,
                take <= 8,
                t1 == (take - 1) as u32,
        ;
    }
}

/// Bitstream reader for AC-3/E-AC-3 frame parsing.
pub struct BitReader<'a> {
    data: &'a [u8],
    byte_pos: usize,
    bit_pos: u8,
}

impl<'a> View for BitReader<'a> {
    type V = Cursor;

    closed spec fn view(&self) -> Cursor {
        Cursor { data: self.data@, pos: 8 * self.byte_pos + self.bit_pos }
    }
}

impl<'a> BitReader<'a> {
    /// The bit position inside the current byte is below eight.
    pub closed spec fn wf(&self) -> bool {
        self.bit_pos < 8
    }

    /// A reader at the first bit of `data`.
    pub fn new(data: &'a [u8]) -> (r: Self)
        ensures
            r.wf(),
            r@ == (Cursor { data: data@, pos: 0 }),
    {
        Self { data, byte_pos: 0, bit_pos: 0 }
    }

    /// Read up to 25 bits (returns u32); bits behind the end of the data are zero.
    pub fn read(&mut self, n: u8) -> (val: u32)
        requires
            old(self).wf(),
            n <= 25,
        ensures
            final(self).wf(),
            val == old(self)@.value(n as nat),
            val < pow2(n as nat),
            final(self)@ == old(self)@.after(n as nat),
    {
        let ghost data = self.data@;
        let ghost start = 8 * self.byte_pos + self.bit_pos;
        let mut val: u32 = 0;
        let mut bits_left: u8 = n;
        proof {
            lemma2_to64();
            lemma_bits_bound(data, start, n as nat);
        }
        while bits_left > 0
            invariant
                n <= 25,
                bits_left <= n,
                self.bit_pos < 8,
                self.data@ == data,
                self.data@ == old(self).data@,
                start == 8 * old(self).byte_pos + old(self).bit_pos,
                val == bits_from(data, start, (n - bits_left) as nat),
                bits_left < n ==> 8 * self.byte_pos + self.bit_pos <= 8 * data.len(),
                8 * self.byte_pos + self.bit_pos == start + (n - bits_left),
                bits_from(data, start, n as nat) < pow2(n as nat),
            decreases bits_left,
        {
            let ghost done = (n - bits_left) as nat;
            proof {
                lemma_bits_bound(data, start, done);
                lemma_bits_split(data, start, done, bits_left as nat);
                lemma_pow2_pos(done);
                lemma_pow2_adds(done, bits_left as nat);
                lemma2_to64();
                if n < 25 {
                    lemma_pow2_strictly_increases(n as nat, 25);
                }
            }
            if self.byte_pos >= self.data.len() {
                proof {
                    lemma_bits_past_end(data, start + done, bits_left as nat);
                    assert(val * pow2(bits_left as nat) <= u32::MAX);
                    lemma_u32_shl_is_mul(val, bits_left as u32);
                }
                return val << bits_left;
            }
            let available: u8 = 8 - self.bit_pos;
            let take: u8 = if bits_left < available { bits_left } else { available };
            let byte: u32 = self.data[self.byte_pos] as u32;
            let shift: u8 = available - take;
            proof {
                let t32 = take as u32;
                assert(1u32 <= (1u32 << t32) && (1u32 << t32) <= 256) by (bit_vector)
                    requires
                        t32 <= 8,
                ;
                let s32 = shift as u32;
                let m32 = ((1u32 << t32) - 1) as u32;
                assert(m32 < 256 && s32 <= 8 ==> (byte & (m32 << s32)) >> s32 == (byte >> s32) & m32)
                    by (bit_vector);
                lemma_chunk(data, self.byte_pos as int, self.bit_pos as u32, t32);
                lemma_bits_bound(data, 8 * self.byte_pos + self.bit_pos, take as nat);
            }
            let mask: u32 = ((1u32 << take) - 1) << shift;
            let bits: u32 = (byte & mask) >> shift;
            proof {
                assert(bits == bits_from(data, start + done, take as nat));
                lemma_bits_split(data, start, done, take as nat);
                lemma_bits_bound(data, start, done + take as nat);
                lemma_pow2_adds(done, take as nat);
                if done + take < 25 {
                    lemma_pow2_strictly_increases(done + take as nat, 25);
                }
                assert(val * pow2(take as nat) <= bits_from(data, start, done + take as nat));
                lemma_u32_shl_is_mul(val, take as u32);
                lemma_u32_shl_is_mul(1, take as u32);
                let t32 = take as u32;
                assert(bits < (1u32 << t32));
                assert((val << t32) | bits == (val << t32) + bits) by (bit_vector)
                    requires
                        bits < (1u32 << t32),
                        t32 <= 8,
                ;
            }
            val = (val << take) | bits;
            bits_left = bits_left - take;
            self.bit_pos = self.bit_pos + take;
            if self.bit_pos >= 8 {
                self.bit_pos = 0;
                self.byte_pos = self.byte_pos + 1;
            }
        }
        val
    }

    /// Read n bits as a signed two's complement integer.
    /// Used for mantissa values (BAP 6-15).
    pub fn read_signed(&mut self, n: u8) -> (val: i32)
        requires
            old(self).wf(),
            1 <= n <= 25,
        ensures
            final(self).wf(),
            val == old(self)@.signed_value(n as nat),
            -0x100_0000 <= val < 0x100_0000,
            final(self)@ == old(self)@.after(n as nat),
    {
        let val: u32 = self.read(n);
        proof {
            lemma2_to64();
            lemma_pow2_adds((n - 1) as nat, 1);
            if n < 25 {
                lemma_pow2_strictly_increases(n as nat, 25);
            }
            lemma_u32_shl_is_mul(1, (n - 1) as u32);
        }
        let sign_bit: u32 = 1u32 << (n - 1);
        if val >= sign_bit {
            val as i32 - (sign_bit as i32) * 2
        } else {
            val as i32
        }
    }

    /// Read a single bit as bool.
    pub fn read_bool(&mut self) -> (b: bool)
        requires
            old(self).wf(),
        ensures
            final(self).wf(),
            b == old(self)@.flag(),
            final(self)@ == old(self)@.after(1),
    {
        self.read(1) != 0
    }

    /// Skip n bits.
    pub fn skip(&mut self, n: usize)
        requires
            old(self).wf(),
        ensures
            final(self).wf(),
            final(self)@ == old(self)@.skipped(n as nat),
    {
        let rest: u8 = self.bit_pos + (n % 8) as u8;
        let whole: usize = n / 8 + (rest / 8) as usize;
        if whole <= usize::MAX - self.byte_pos {
            self.byte_pos = self.byte_pos + whole;
            self.bit_pos = rest % 8;
        } else {
            self.byte_pos = usize::MAX;
            self.bit_pos = 7;
        }
    }

    /// Current bit position from start of data.
    pub fn position(&self) -> (p: usize)
        requires
            self.wf(),
            self@.pos <= usize::MAX,
        ensures
            p == self@.pos,
    {
        self.byte_pos * 8 + self.bit_pos as usize
    }

    /// Remaining bits.
    pub fn remaining(&self) -> (n: usize)
        requires
            self.wf(),
            8 * self@.data.len() <= usize::MAX,
        ensures
            n == if self@.pos >= 8 * self@.data.len() {
                0
            } else {
                8 * self@.data.len() - self@.pos
            },
    {
        if self.byte_pos >= self.data.len() {
            return 0;
        }
        self.data.len() * 8 - self.position()
    }

    /// Align to next byte boundary.
    pub fn align(&mut self)
        requires
            old(self).wf(),
        ensures
            final(self).wf(),
            final(self)@ == old(self)@.aligned(),
    {
        if self.bit_pos != 0 && self.byte_pos < usize::MAX {
            self.byte_pos = self.byte_pos + 1;
            self.bit_pos = 0;
        }
    }
}

/// Bits are read from the most significant one of a byte on: eight bits from its start
/// are the byte, and bits that follow others are less significant.
pub proof fn law_bytes_are_bits(data: Seq<u8>, i: int, pos: int, n: nat, m: nat)
    requires
        0 <= i < data.len(),
    ensures
        bits_from(data, 8 * i, 8) == data[i],
        bits_from(data, pos, n + m) == bits_from(data, pos, n) * pow2(m) + bits_from(data, pos + n, m),
{
    lemma_chunk(data, i, 0, 8);
    let w = data[i] as u32;
    assert((w >> 0u32) & (((1u32 << 8u32) - 1) as u32) == w) by (bit_vector)
        requires
            w < 256,
    ;
    lemma_bits_split(data, pos, n, m);
}

} // verus!
