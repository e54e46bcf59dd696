//! Quantised mantissas, dither and transform coefficients.

use vstd::arithmetic::power2::{lemma2_to64, pow2};
use vstd::prelude::*;

use crate::ac3::bitstream::{lemma_bits_bound, BitReader, Cursor};
use crate::ac3::tables::NUM_BINS;

verus! {

/// A mantissa value as the fraction `num / den`.
#[derive(Clone, Copy, Debug, PartialEq, Eq, Structural)]
pub struct Level {
    pub num: i32,
    pub den: i32,
}

/// A coupling coordinate: `num` divided by two to the `shift`.
#[derive(Clone, Copy, Debug, PartialEq, Eq, Structural)]
pub struct CplCoord {
    pub num: u32,
    pub shift: u32,
}

/// Where the mantissa of a coefficient comes from.
#[derive(Clone, Copy, Debug, PartialEq, Eq, Structural)]
pub enum Mantissa {
    /// Read from the bitstream.
    Quantised(Level),
    /// Pseudo-random noise, as a fraction of 32768, to be attenuated by 3 dB.
    Dither(i16),
}

/// A transform coefficient: the mantissa divided by two to the `exp`, times eight
/// times the coupling coordinate where there is one.
#[derive(Clone, Copy, Debug, PartialEq, Eq, Structural)]
pub struct Coefficient {
    pub mantissa: Mantissa,
    pub exp: u8,
    pub coord: Option<CplCoord>,
}

/// The mantissa zero.
pub open spec fn zero_level() -> Level {
    Level { num: 0, den: 1 }
}

/// The coefficient zero.
pub open spec fn zero_coefficient() -> Coefficient {
    Coefficient { mantissa: Mantissa::Quantised(zero_level()), exp: 0, coord: None }
}

/// The symmetric level of `code` among `2 * half + 1` levels.
pub open spec fn symmetric_level(code: int, half: int) -> Level {
    Level { num: (2 * code - 2 * half) as i32, den: (2 * half + 1) as i32 }
}

/// The three levels of a group of 3-level mantissas.
pub open spec fn triple3(group: int) -> Seq<Level> {
    seq![symmetric_level(group / 9, 1), symmetric_level((group % 9) / 3, 1), symmetric_level(group % 3, 1)]
}

/// The three levels of a group of 5-level mantissas.
pub open spec fn triple5(group: int) -> Seq<Level> {
    seq![symmetric_level(group / 25, 2), symmetric_level((group % 25) / 5, 2), symmetric_level(group % 5, 2)]
}

/// The two levels of a group of 11-level mantissas.
pub open spec fn pair11(group: int) -> Seq<Level> {
    seq![symmetric_level(group / 11, 5), symmetric_level(group % 11, 5)]
}

fn level(code: u32, half: u32) -> (l: Level)
    requires
        code < 0x2000_0000,
        half < 0x100,
    ensures
        l == symmetric_level(code as int, half as int),
{
    Level { num: 2 * code as i32 - 2 * half as i32, den: 2 * half as i32 + 1 }
}

/// BAP 1: three 3-level mantissas in 5 bits.
pub fn bap1_lookup(group: u32) -> (r: [Level; 3])
    ensures
        r@ == triple3(group as int),
{
    let r: [Level; 3] = [level(group / 9, 1), level((group % 9) / 3, 1), level(group % 3, 1)];
    assert(r@ =~= triple3(group as int));
    r
}

/// BAP 2: three 5-level mantissas in 7 bits.
pub fn bap2_lookup(group: u32) -> (r: [Level; 3])
    ensures
        r@ == triple5(group as int),
{
    let r: [Level; 3] = [level(group / 25, 2), level((group % 25) / 5, 2), level(group % 5, 2)];
    assert(r@ =~= triple5(group as int));
    r
}

/// BAP 3: one 7-level mantissa in 3 bits.
pub fn bap3_lookup(code: u32) -> (r: Level)
    requires
        code < 0x2000_0000,
    ensures
        r == symmetric_level(code as int, 3),
{
    level(code, 3)
}

/// BAP 4: two 11-level mantissas in 7 bits.
pub fn bap4_lookup(group: u32) -> (r: [Level; 2])
    ensures
        r@ == pair11(group as int),
{
    let r: [Level; 2] = [level(group / 11, 5), level(group % 11, 5)];
    assert(r@ =~= pair11(group as int));
    r
}

/// BAP 5: one 15-level mantissa in 4 bits.
pub fn bap5_lookup(code: u32) -> (r: Level)
    requires
        code < 0x2000_0000,
    ensures
        r == symmetric_level(code as int, 7),
{
    level(code, 7)
}

// ---------------------------------------------------------------------------
// Reading mantissas
// ---------------------------------------------------------------------------

/// The grouped mantissas that have been read and not yet handed out.
#[verifier::ext_equal]
pub struct Pending {
    pub g3: Seq<Level>,
    pub g5: Seq<Level>,
    pub g11: Seq<Level>,
}

/// No grouped mantissas.
pub open spec fn no_pending() -> Pending {
    Pending { g3: Seq::empty(), g5: Seq::empty(), g11: Seq::empty() }
}

/// The number of bits of an asymmetric mantissa.
pub open spec fn asymmetric_bits(bap: u8) -> nat {
    if bap == 15 {
        16
    } else if bap == 14 {
        14
    } else {
        (bap - 1) as nat
    }
}

/// The denominator of an asymmetric mantissa: two to one less than its bits.
pub open spec fn asymmetric_den(bap: u8) -> int {
    if bap == 6 { 16 } else if bap == 7 { 32 } else if bap == 8 { 64 } else if bap == 9 { 128 }
    else if bap == 10 { 256 } else if bap == 11 { 512 } else if bap == 12 { 1024 }
    else if bap == 13 { 2048 } else if bap == 14 { 8192 } else { 32768 }
}

/// The next mantissa with allocation pointer `bap`, what is pending after it and
/// the cursor behind it.
pub open spec fn next_level(bap: u8, p: Pending, c: Cursor) -> (Level, Pending, Cursor) {
    if bap == 1 {
        let (g, c1) = if p.g3.len() == 0 { (triple3(c.value(5)), c.after(5)) } else { (p.g3, c) };
        (g[0], Pending { g3: g.skip(1), ..p }, c1)
    } else if bap == 2 {
        let (g, c1) = if p.g5.len() == 0 { (triple5(c.value(7)), c.after(7)) } else { (p.g5, c) };
        (g[0], Pending { g5: g.skip(1), ..p }, c1)
    } else if bap == 3 {
        (symmetric_level(c.value(3), 3), p, c.after(3))
    } else if bap == 4 {
        let (g, c1) = if p.g11.len() == 0 { (pair11(c.value(7)), c.after(7)) } else { (p.g11, c) };
        (g[0], Pending { g11: g.skip(1), ..p }, c1)
    } else if bap == 5 {
        (symmetric_level(c.value(4), 7), p, c.after(4))
    } else if 6 <= bap <= 15 {
        (
            Level { num: c.signed_value(asymmetric_bits(bap)) as i32, den: asymmetric_den(bap) as i32 },
            p,
            c.after(asymmetric_bits(bap)),
        )
    } else {
        (zero_level(), p, c)
    }
}

/// Reads mantissas one by one, unpacking the grouped ones.
pub struct MantissaReader {
    bap1_ptr: usize,
    bap1_vals: [Level; 3],
    bap2_ptr: usize,
    bap2_vals: [Level; 3],
    bap4_ptr: usize,
    bap4_vals: [Level; 2],
}

impl View for MantissaReader {
    type V = Pending;

    closed spec fn view(&self) -> Pending {
        Pending {
            g3: self.bap1_vals@.skip(self.bap1_ptr as int),
            g5: self.bap2_vals@.skip(self.bap2_ptr as int),
            g11: self.bap4_vals@.skip(self.bap4_ptr as int),
        }
    }
}

impl MantissaReader {
    /// Each pointer stays inside its group.
    pub closed spec fn wf(&self) -> bool {
        self.bap1_ptr <= 3 && self.bap2_ptr <= 3 && self.bap4_ptr <= 2
    }

    /// A reader without pending mantissas.
    pub fn new() -> (r: Self)
        ensures
            r.wf(),
            r@ == no_pending(),
    {
        let zero: Level = Level { num: 0, den: 1 };
        let r: MantissaReader = MantissaReader {
            bap1_ptr: 3,
            bap1_vals: [zero; 3],
            bap2_ptr: 3,
            bap2_vals: [zero; 3],
            bap4_ptr: 2,
            bap4_vals: [zero; 2],
        };
        assert(r@ =~= no_pending());
        r
    }

    /// The next mantissa with allocation pointer `bap`.
    pub fn get(&mut self, bap: u8, br: &mut BitReader) -> (l: Level)
        requires
            old(self).wf(),
            old(br).wf(),
        ensures
            final(self).wf(),
            final(br).wf(),
            (l, final(self)@, final(br)@) == next_level(bap, old(self)@, old(br)@),
    {
        let ghost p = self@;
        let ghost c = br@;
        proof {
            lemma2_to64();
        }
        match bap {
            1 => {
                if self.bap1_ptr > 2 {
                    let group: u32 = br.read(5);
                    self.bap1_vals = bap1_lookup(group);
                    self.bap1_ptr = 0;
                }
                let val: Level = self.bap1_vals[self.bap1_ptr];
                self.bap1_ptr = self.bap1_ptr + 1;
                assert(self@ =~= next_level(bap, p, c).1);
                val
            },
            2 => {
                if self.bap2_ptr > 2 {
                    let group: u32 = br.read(7);
                    self.bap2_vals = bap2_lookup(group);
                    self.bap2_ptr = 0;
                }
                let val: Level = self.bap2_vals[self.bap2_ptr];
                self.bap2_ptr = self.bap2_ptr + 1;
                assert(self@ =~= next_level(bap, p, c).1);
                val
            },
            3 => bap3_lookup(br.read(3)),
            4 => {
                if self.bap4_ptr > 1 {
                    let group: u32 = br.read(7);
                    self.bap4_vals = bap4_lookup(group);
                    self.bap4_ptr = 0;
                }
                let val: Level = self.bap4_vals[self.bap4_ptr];
                self.bap4_ptr = self.bap4_ptr + 1;
                assert(self@ =~= next_level(bap, p, c).1);
                val
            },
            5 => bap5_lookup(br.read(4)),
            6 => Level { num: br.read_signed(5), den: 16 },
            7 => Level { num: br.read_signed(6), den: 32 },
            8 => Level { num: br.read_signed(7), den: 64 },
            9 => Level { num: br.read_signed(8), den: 128 },
            10 => Level { num: br.read_signed(9), den: 256 },
            11 => Level { num: br.read_signed(10), den: 512 },
            12 => Level { num: br.read_signed(11), den: 1024 },
            13 => Level { num: br.read_signed(12), den: 2048 },
            14 => Level { num: br.read_signed(14), den: 8192 },
            15 => Level { num: br.read_signed(16), den: 32768 },
            _ => Level { num: 0, den: 1 },
        }
    }
}

// ---------------------------------------------------------------------------
// Dither
// ---------------------------------------------------------------------------

/// The dither state that follows `state`.
pub open spec fn dither_next(state: u32) -> u32 {
    state.wrapping_mul(1103515245).wrapping_add(12345)
}

/// The noise sample of a dither state: its upper half as a signed number.
pub open spec fn dither_sample(state: u32) -> i16 {
    let h = state as int / 65536;
    if h >= 32768 {
        (h - 65536) as i16
    } else {
        h as i16
    }
}

/// Generate a dither value for bap=0 coefficients.
pub fn dither(state: &mut u32) -> (v: i16)
    ensures
        *final(state) == dither_next(*old(state)),
        v == dither_sample(*final(state)),
{
    *state = state.wrapping_mul(1103515245).wrapping_add(12345);
    let h: u32 = *state / 65536;
    if h >= 32768 {
        (h as i32 - 65536) as i16
    } else {
        h as i16
    }
}

// ---------------------------------------------------------------------------
// Channels
// ---------------------------------------------------------------------------

/// What reading mantissas goes by and changes.
#[verifier::ext_equal]
pub struct MantState {
    pub cur: Cursor,
    pub pending: Pending,
    pub dither: u32,
}

/// The coefficients of the bins below `n`: read from the bitstream, or dithered
/// where nothing was allocated and the channel asks for dither.
pub open spec fn channel_coefficients(baps: Seq<u8>, exps: Seq<u8>, dithflag: bool, n: nat, s: MantState) -> (Seq<Coefficient>, MantState)
    decreases n,
{
    if n == 0 {
        (Seq::empty(), s)
    } else {
        let (q, t) = channel_coefficients(baps, exps, dithflag, (n - 1) as nat, s);
        let bap = baps[n - 1];
        let exp = exps[n - 1];
        if bap != 0 || !dithflag {
            let (l, p, c) = next_level(bap, t.pending, t.cur);
            (
                q.push(Coefficient { mantissa: Mantissa::Quantised(l), exp, coord: None }),
                MantState { cur: c, pending: p, dither: t.dither },
            )
        } else {
            let d = dither_next(t.dither);
            (
                q.push(Coefficient { mantissa: Mantissa::Dither(dither_sample(d)), exp, coord: None }),
                MantState { cur: t.cur, pending: t.pending, dither: d },
            )
        }
    }
}

/// Read the coefficients of the bins below `n`.
pub fn read_channel(
    br: &mut BitReader,
    reader: &mut MantissaReader,
    state: &mut u32,
    baps: &[u8; 256],
    exps: &[u8; 256],
    dithflag: bool,
    n: usize,
) -> (r: Vec<Coefficient>)
    requires
        old(br).wf(),
        old(reader).wf(),
        n <= 256,
    ensures
        final(br).wf(),
        final(reader).wf(),
        r.len() == n,
        (r@, (MantState { cur: final(br)@, pending: final(reader)@, dither: *final(state) }))
            == channel_coefficients(
            baps@,
            exps@,
            dithflag,
            n as nat,
            (MantState { cur: old(br)@, pending: old(reader)@, dither: *old(state) }),
        ),
{
    let ghost s = MantState { cur: br@, pending: reader@, dither: *state };
    let mut r: Vec<Coefficient> = Vec::new();
    let mut bin: usize = 0;
    while bin < n
        invariant
            bin <= n <= 256,
            r.len() == bin,
            br.wf(),
            reader.wf(),
            (r@, (MantState { cur: br@, pending: reader@, dither: *state })) == channel_coefficients(
                baps@,
                exps@,
                dithflag,
                bin as nat,
                s,
            ),
        decreases n - bin,
    {
        let bap: u8 = baps[bin];
        let exp: u8 = exps[bin];
        let mantissa: Mantissa = if bap != 0 || !dithflag {
            Mantissa::Quantised(reader.get(bap, br))
        } else {
            Mantissa::Dither(dither(state))
        };
        r.push(Coefficient { mantissa, exp, coord: None });
        bin = bin + 1;
    }
    r
}

/// `q` followed by zero coefficients up to 256.
pub open spec fn padded(q: Seq<Coefficient>) -> Seq<Coefficient> {
    Seq::new(256, |i: int| if i < q.len() { q[i] } else { zero_coefficient() })
}

/// Fill a channel up to 256 coefficients with zeros.
pub fn pad_channel(q: &mut Vec<Coefficient>)
    requires
        old(q).len() <= 256,
    ensures
        final(q)@ == padded(old(q)@),
{
    let ghost before = q@;
    let zero: Coefficient = Coefficient {
        mantissa: Mantissa::Quantised(Level { num: 0, den: 1 }),
        exp: 0,
        coord: None,
    };
    while q.len() < NUM_BINS
        invariant
            before.len() <= q.len() <= 256,
            zero == zero_coefficient(),
            forall|i: int| 0 <= i < q.len() ==> #[trigger] q[i] == padded(before)[i],
        decreases 256 - q.len(),
    {
        q.push(zero);
    }
    assert(q@ =~= padded(before));
}

/// Whether a coupling mantissa is zero.
pub open spec fn is_zero(m: Mantissa) -> bool {
    m matches Mantissa::Quantised(l) && l.num == 0
}

/// A channel once the first `n` coupling coefficients have been spread into it,
/// and the dither state after that: each one scaled by the coordinate of its
/// sub-band, or replaced by dither where it is zero and the channel asks for it.
pub open spec fn decoupled(
    ch: Seq<Coefficient>,
    cpl: Seq<Coefficient>,
    co: Seq<CplCoord>,
    begf: int,
    dithflag: bool,
    n: nat,
    d: u32,
) -> (Seq<Coefficient>, u32)
    decreases n,
{
    if n == 0 {
        (ch, d)
    } else {
        let (q, e) = decoupled(ch, cpl, co, begf, dithflag, (n - 1) as nat, d);
        let src = cpl[n - 1];
        let bin = n - 1 + 12 * begf + 37;
        let (mantissa, f) = if is_zero(src.mantissa) && dithflag {
            (Mantissa::Dither(dither_sample(dither_next(e))), dither_next(e))
        } else {
            (src.mantissa, e)
        };
        (
            if bin < 256 {
                q.update(bin, Coefficient { mantissa, exp: src.exp, coord: Some(co[(n - 1) / 12]) })
            } else {
                q
            },
            f,
        )
    }
}

/// Spread the coupling coefficients into a coupled channel.
pub fn decouple(
    ch: &mut Vec<Coefficient>,
    cpl: &Vec<Coefficient>,
    co: &Vec<CplCoord>,
    begf: usize,
    dithflag: bool,
    state: &mut u32,
)
    requires
        old(ch).len() == 256,
        co.len() == 18,
        cpl.len() <= 216,
        begf <= 15,
    ensures
        final(ch).len() == 256,
        (final(ch)@, *final(state)) == decoupled(old(ch)@, cpl@, co@, begf as int, dithflag, cpl.len() as nat, *old(state)),
{
    let ghost ch0 = ch@;
    let ghost d0 = *state;
    let mut i: usize = 0;
    while i < cpl.len()
        invariant
            i <= cpl.len() <= 216,
            ch.len() == 256,
            co.len() == 18,
            begf <= 15,
            (ch@, *state) == decoupled(ch0, cpl@, co@, begf as int, dithflag, i as nat, d0),
        decreases cpl.len() - i,
    {
        let src: Coefficient = cpl[i];
        let silent: bool = match src.mantissa {
            Mantissa::Quantised(l) => l.num == 0,
            Mantissa::Dither(_) => false,
        };
        let mantissa: Mantissa = if silent && dithflag {
            Mantissa::Dither(dither(state))
        } else {
            src.mantissa
        };
        let bin: usize = i + 12 * begf + 37;
        if bin < NUM_BINS {
            ch.set(bin, Coefficient { mantissa, exp: src.exp, coord: Some(co[i / 12]) });
        }
        i = i + 1;
    }
}

// ---------------------------------------------------------------------------
// Laws
// ---------------------------------------------------------------------------

/// A group of mantissas is a number whose digits are their codes, the first one the
/// most significant: three digits below three, three below five, or two below eleven.
/// The levels lie evenly around zero, two apart over their number.
pub proof fn law_groups_come_back(a: int, b: int, c: int)
    requires
        0 <= a,
        0 <= b,
        0 <= c,
    ensures
        a < 3 && b < 3 && c < 3 ==> {
            let g = triple3(9 * a + 3 * b + c);
            &&& g.len() == 3
            &&& g[0].num == 2 * (a - 1) && g[1].num == 2 * (b - 1) && g[2].num == 2 * (c - 1)
            &&& g[0].den == 3 && g[1].den == 3 && g[2].den == 3
        },
        a < 5 && b < 5 && c < 5 ==> {
            let g = triple5(25 * a + 5 * b + c);
            &&& g.len() == 3
            &&& g[0].num == 2 * (a - 2) && g[1].num == 2 * (b - 2) && g[2].num == 2 * (c - 2)
            &&& g[0].den == 5 && g[1].den == 5 && g[2].den == 5
        },
        a < 11 && b < 11 ==> {
            let g = pair11(11 * a + b);
            &&& g.len() == 2
            &&& g[0].num == 2 * (a - 5) && g[1].num == 2 * (b - 5)
            &&& g[0].den == 11 && g[1].den == 11
        },
{
}

/// The mantissas of a group come one by one in their order, and the bits of the group
/// are read once, with the first of them.
pub proof fn law_groups_are_handed_out(p: Pending, c: Cursor, x: int, y: int, z: int)
    requires
        0 <= x,
        0 <= y,
        0 <= z,
    ensures
        p.g3.len() == 0 && x < 3 && y < 3 && z < 3 && c.value(5) == 9 * x + 3 * y + z ==> {
            let (l1, p1, c1) = next_level(1, p, c);
            let (l2, p2, c2) = next_level(1, p1, c1);
            let (l3, p3, c3) = next_level(1, p2, c2);
            &&& l1.num == 2 * (x - 1) && l2.num == 2 * (y - 1) && l3.num == 2 * (z - 1)
            &&& c1 == c.after(5) && c2 == c1 && c3 == c1
            &&& p3.g3.len() == 0 && p3.g5 == p.g5 && p3.g11 == p.g11
        },
        p.g5.len() == 0 && x < 5 && y < 5 && z < 5 && c.value(7) == 25 * x + 5 * y + z ==> {
            let (l1, p1, c1) = next_level(2, p, c);
            let (l2, p2, c2) = next_level(2, p1, c1);
            let (l3, p3, c3) = next_level(2, p2, c2);
            &&& l1.num == 2 * (x - 2) && l2.num == 2 * (y - 2) && l3.num == 2 * (z - 2)
            &&& c1 == c.after(7) && c2 == c1 && c3 == c1
            &&& p3.g5.len() == 0 && p3.g3 == p.g3 && p3.g11 == p.g11
        },
        p.g11.len() == 0 && x < 11 && y < 11 && c.value(7) == 11 * x + y ==> {
            let (l1, p1, c1) = next_level(4, p, c);
            let (l2, p2, c2) = next_level(4, p1, c1);
            &&& l1.num == 2 * (x - 5) && l2.num == 2 * (y - 5)
            &&& c1 == c.after(7) && c2 == c1
            &&& p2.g11.len() == 0 && p2.g3 == p.g3 && p2.g5 == p.g5
        },
{
    law_groups_come_back(x, y, z);
}

/// A mantissa that is not grouped takes three, four, or from the sixth pointer on
/// five to twelve, fourteen and sixteen bits. The first two stand for seven and
/// fifteen levels around zero; the others are fractions in two's complement.
pub proof fn law_single_mantissas(bap: u8, p: Pending, c: Cursor)
    requires
        bap == 3 || 5 <= bap <= 15,
    ensures
        ({
            let bits: nat = if bap == 3 { 3 } else if bap == 15 { 16 } else if bap == 14 { 14 } else { (bap - 1) as nat };
            let v = c.value(bits);
            let (l, q, d) = next_level(bap, p, c);
            &&& q == p
            &&& d == c.after(bits)
            &&& bap == 3 ==> l.num == 2 * (v - 3) && l.den == 7
            &&& bap == 5 ==> bits == 4 && l.num == 2 * (v - 7) && l.den == 15
            &&& bap >= 6 ==> l.den == pow2((bits - 1) as nat) && l.num == if 2 * v < 2 * l.den { v } else { v - 2 * l.den }
        }),
{
    lemma2_to64();
    let bits: nat = if bap == 3 { 3 } else if bap == 15 { 16 } else if bap == 14 { 14 } else { (bap - 1) as nat };
    lemma_bits_bound(c.data, c.pos, bits);
}

/// A coefficient keeps the exponent of its bin. It is noise where the bin has no bits
/// and noise is asked for, and zero where the bin has no bits and it is not.
pub proof fn law_coefficients_by_bin(baps: Seq<u8>, exps: Seq<u8>, dithflag: bool, n: nat, s: MantState, i: int)
    requires
        0 <= i < n,
    ensures
        ({
            let q = channel_coefficients(baps, exps, dithflag, n, s).0;
            &&& q.len() == n
            &&& q[i].exp == exps[i]
            &&& q[i].coord is None
            &&& q[i].mantissa is Dither <==> baps[i] == 0 && dithflag
            &&& baps[i] == 0 && !dithflag ==> (q[i].mantissa matches Mantissa::Quantised(l) && l.num == 0)
        }),
    decreases n,
{
    let m = (n - 1) as nat;
    let (q, t) = channel_coefficients(baps, exps, dithflag, m, s);
    let last = channel_coefficients(baps, exps, dithflag, n, s).0.last();
    if m > 0 {
        law_coefficients_by_bin(baps, exps, dithflag, m, s, if i < m { i } else { 0 });
    }
    assert(q.len() == m);
    lemma_last_coefficient(baps, exps, dithflag, n, s);
}

proof fn lemma_last_coefficient(baps: Seq<u8>, exps: Seq<u8>, dithflag: bool, n: nat, s: MantState)
    requires
        n > 0,
    ensures
        ({
            let q = channel_coefficients(baps, exps, dithflag, n, s).0;
            let x = q.last();
            &&& q == channel_coefficients(baps, exps, dithflag, (n - 1) as nat, s).0.push(x)
            &&& x.exp == exps[n - 1]
            &&& x.coord is None
            &&& x.mantissa is Dither <==> baps[n - 1] == 0 && dithflag
            &&& baps[n - 1] == 0 && !dithflag ==> (x.mantissa matches Mantissa::Quantised(l) && l.num == 0)
        }),
{
    let (q, t) = channel_coefficients(baps, exps, dithflag, (n - 1) as nat, s);
    let r = channel_coefficients(baps, exps, dithflag, n, s).0;
    let l = next_level(baps[n - 1], t.pending, t.cur).0;
    assert(baps[n - 1] == 0 ==> l.num == 0);
    if baps[n - 1] != 0 || !dithflag {
        assert(r == q.push(Coefficient { mantissa: Mantissa::Quantised(l), exp: exps[n - 1], coord: None }));
    } else {
        assert(r == q.push(Coefficient { mantissa: Mantissa::Dither(dither_sample(dither_next(t.dither))), exp: exps[n - 1], coord: None }));
    }
    assert(r.drop_last() =~= q);
    assert(r =~= q.push(r.last()));
}

/// A coupled channel takes the coefficients of the coupling channel from bin
/// `37 + 12 * begf` on, twelve to a coordinate; noise takes the place of a zero where it
/// is asked for. Its own coefficients below stay.
pub proof fn law_coupled_bins(ch: Seq<Coefficient>, cpl: Seq<Coefficient>, co: Seq<CplCoord>, begf: int, dithflag: bool, n: nat, d: u32, bin: int)
    requires
        ch.len() == 256,
        0 <= begf,
        0 <= bin < 256,
    ensures
        ({
            let q = decoupled(ch, cpl, co, begf, dithflag, n, d).0;
            let i = bin - 37 - 12 * begf;
            &&& q.len() == 256
            &&& i < 0 || i >= n ==> q[bin] == ch[bin]
            &&& 0 <= i < n ==> {
                let zero = cpl[i].mantissa matches Mantissa::Quantised(l) && l.num == 0;
                &&& q[bin].exp == cpl[i].exp
                &&& q[bin].coord == Some(co[i / 12])
                &&& !(zero && dithflag) ==> q[bin].mantissa == cpl[i].mantissa
                &&& zero && dithflag ==> q[bin].mantissa is Dither
            }
        }),
    decreases n,
{
    if n > 0 {
        law_coupled_bins(ch, cpl, co, begf, dithflag, (n - 1) as nat, d, bin);
    }
}

/// Noise is the upper half of a state of 32 bits in two's complement.
pub proof fn law_noise(state: u32)
    ensures
        ({
            let v = dither_sample(state) as int;
            let upper = if v >= 0 { v } else { v + 65536 };
            65536 * upper <= state < 65536 * (upper + 1)
        }),
{
}

/// The next state of the noise is a linear function of the last one, cut to 32 bits.
pub proof fn law_noise_goes_on(state: u32)
    ensures
        dither_next(state) == (1103515245 * state + 12345) % 0x1_0000_0000,
{
    let n = 0x1_0000_0000int;
    let p = state as int * 1103515245;
    let w = state.wrapping_mul(1103515245);
    assert(w as int == p % n);
    vstd::arithmetic::div_mod::lemma_add_mod_noop(p, 12345, n);
    assert(12345int % n == 12345);
    assert(dither_next(state) as int == (w + 12345) % n);
}

} // verus!
