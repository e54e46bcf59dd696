//! Channel bandwidths and exponents over the blocks of a frame.

use vstd::arithmetic::power2::lemma2_to64;
use vstd::prelude::*;

use crate::ac3::bitstream::{lemma_bits_bound, BitReader, Cursor};
use crate::ac3::coupling::{Strategy, StrategyView};
use crate::ac3::exponents::{
    differentials, groups_end, law_packed_steps_come_back, spread_exponents, sum_of, unpack_exponents,
};
use crate::ac3::tables::EXPONENT_GROUP_SIZE;

verus! {

/// The next `n` fields of `width` bits each.
pub open spec fn codes(c: Cursor, n: nat, width: nat) -> Seq<u8>
    decreases n,
{
    if n == 0 {
        Seq::empty()
    } else {
        codes(c, (n - 1) as nat, width).push(codes_end(c, (n - 1) as nat, width).value(width) as u8)
    }
}

/// The cursor behind `n` fields of `width` bits each.
pub open spec fn codes_end(c: Cursor, n: nat, width: nat) -> Cursor
    decreases n,
{
    if n == 0 {
        c
    } else {
        codes_end(c, (n - 1) as nat, width).after(width)
    }
}

/// Read `n` fields of two bits each.
pub fn read_codes2(br: &mut BitReader, n: usize) -> (r: Vec<u8>)
    requires
        old(br).wf(),
    ensures
        final(br).wf(),
        r.len() == n,
        r@ == codes(old(br)@, n as nat, 2),
        final(br)@ == codes_end(old(br)@, n as nat, 2),
        forall|i: int| 0 <= i < n ==> #[trigger] r[i] < 4,
{
    let ghost c = br@;
    let mut r: Vec<u8> = Vec::new();
    let mut i: usize = 0;
    while i < n
        invariant
            i <= n,
            br.wf(),
            r.len() == i,
            r@ == codes(c, i as nat, 2),
            br@ == codes_end(c, i as nat, 2),
            forall|k: int| 0 <= k < i ==> #[trigger] r[k] < 4,
        decreases n - i,
    {
        proof {
            lemma2_to64();
        }
        r.push(br.read(2) as u8);
        i = i + 1;
    }
    r
}

/// Bandwidths and exponents, kept from block to block.
pub struct Spectrum {
    pub chbwcod: Vec<usize>,
    pub endmant: Vec<usize>,
    pub exps: Vec<[u8; 256]>,
    pub cplexps: [u8; 256],
    pub lfeexps: [u8; 256],
}

/// Bandwidths and exponents as sequences.
#[verifier::ext_equal]
pub struct SpectrumView {
    pub chbwcod: Seq<usize>,
    pub endmant: Seq<usize>,
    pub exps: Seq<Seq<u8>>,
    pub cplexps: Seq<u8>,
    pub lfeexps: Seq<u8>,
}

/// The rows of a table of bins.
pub open spec fn bin_rows(v: Seq<[u8; 256]>) -> Seq<Seq<u8>> {
    Seq::new(v.len(), |i: int| v[i]@)
}

impl View for Spectrum {
    type V = SpectrumView;

    open spec fn view(&self) -> SpectrumView {
        SpectrumView {
            chbwcod: self.chbwcod@,
            endmant: self.endmant@,
            exps: bin_rows(self.exps@),
            cplexps: self.cplexps@,
            lfeexps: self.lfeexps@,
        }
    }
}

impl SpectrumView {
    /// One entry per channel, every end inside the coded bins.
    pub open spec fn wf(self, nfchans: int) -> bool {
        &&& self.chbwcod.len() == nfchans
        &&& self.endmant.len() == nfchans
        &&& self.exps.len() == nfchans
        &&& self.cplexps.len() == 256
        &&& self.lfeexps.len() == 256
        &&& forall|i: int| 0 <= i < nfchans ==> #[trigger] self.chbwcod[i] <= 60
        &&& forall|i: int| 0 <= i < nfchans ==> 37 <= #[trigger] self.endmant[i] <= 253
    }
}

/// 256 zero bins.
pub open spec fn zero_bins() -> Seq<u8> {
    Seq::new(256, |i: int| 0u8)
}

/// The state before the first block.
pub open spec fn initial_spectrum(nfchans: nat) -> SpectrumView {
    SpectrumView {
        chbwcod: Seq::new(nfchans, |i: int| 0usize),
        endmant: Seq::new(nfchans, |i: int| 253usize),
        exps: Seq::new(nfchans, |i: int| zero_bins()),
        cplexps: zero_bins(),
        lfeexps: zero_bins(),
    }
}

/// The bandwidth codes of the first `n` channels: read for every channel that
/// brings new exponents and is not coupled, and limited to 60.
pub open spec fn bandwidth_codes(c: Cursor, prev: Seq<usize>, expstr: Seq<u8>, chincpl: Seq<bool>, n: nat) -> (Seq<usize>, Cursor)
    decreases n,
{
    if n == 0 {
        (prev, c)
    } else {
        let (s, d) = bandwidth_codes(c, prev, expstr, chincpl, (n - 1) as nat);
        if expstr[n - 1] != 0 && !chincpl[n - 1] {
            let v = d.value(6);
            (s.update(n - 1, (if v < 60 { v } else { 60 }) as usize), d.after(6))
        } else {
            (s, d)
        }
    }
}

/// The number of exponent groups of the coupling channel.
pub open spec fn coupling_groups(expstr: u8, nsubnd: int) -> nat {
    if expstr == 1 {
        (4 * nsubnd) as nat
    } else if expstr == 2 {
        (2 * nsubnd) as nat
    } else {
        nsubnd as nat
    }
}

/// The coupling exponents of a block in which coupling is in use.
pub open spec fn coupling_exponents(c: Cursor, prev: Seq<u8>, nsubnd: int, expstr: u8) -> (Seq<u8>, Cursor) {
    if expstr == 0 {
        (prev, c)
    } else {
        let n = coupling_groups(expstr, nsubnd);
        let d = c.after(4);
        (
            spread_exponents(prev, 2 * c.value(4), differentials(d, n), EXPONENT_GROUP_SIZE[expstr as int] as int, 0),
            groups_end(d, n),
        )
    }
}

/// The end of the bins of a channel that brings new exponents.
pub open spec fn channel_end(coupled: bool, begf: int, chbwcod: int) -> int {
    if coupled {
        37 + 12 * begf
    } else {
        37 + 3 * (chbwcod + 12)
    }
}

/// The number of exponent groups of a channel that ends at `endmant`.
pub open spec fn channel_groups(expstr: u8, endmant: int) -> nat {
    (if expstr == 1 {
        (endmant - 1) / 3
    } else if expstr == 2 {
        (endmant + 2) / 6
    } else {
        (endmant + 8) / 12
    }) as nat
}

/// Ends and exponents of the first `n` channels.
pub open spec fn channel_exponents(c: Cursor, v: SpectrumView, s: StrategyView, expstr: Seq<u8>, n: nat) -> (SpectrumView, Cursor)
    decreases n,
{
    if n == 0 {
        (v, c)
    } else {
        let (w, d) = channel_exponents(c, v, s, expstr, (n - 1) as nat);
        let ch = n - 1;
        if expstr[ch] == 0 {
            (w, d)
        } else {
            let end = channel_end(s.chincpl[ch], s.begf, v.chbwcod[ch] as int);
            let g = channel_groups(expstr[ch], end);
            let e = d.after(4);
            (
                SpectrumView {
                    endmant: w.endmant.update(ch, end as usize),
                    exps: w.exps.update(
                        ch,
                        spread_exponents(
                            w.exps[ch],
                            d.value(4),
                            differentials(e, g),
                            EXPONENT_GROUP_SIZE[expstr[ch] as int] as int,
                            1,
                        ),
                    ),
                    ..w
                },
                groups_end(e, g).after(2),
            )
        }
    }
}

/// The LFE exponents of a block of a stream with an LFE channel.
pub open spec fn lfe_exponents(c: Cursor, prev: Seq<u8>, expstr: u8) -> (Seq<u8>, Cursor) {
    if expstr == 0 {
        (prev, c)
    } else {
        let d = c.after(4);
        (
            spread_exponents(prev, c.value(4), differentials(d, 2), EXPONENT_GROUP_SIZE[expstr as int] as int, 1),
            groups_end(d, 2),
        )
    }
}

/// Everything between the exponent strategies and the bit allocation
/// information: bandwidths, then coupling, channel and LFE exponents.
#[verifier::opaque]
pub open spec fn block_spectrum(c: Cursor, v: SpectrumView, s: StrategyView, cplexpstr: u8, expstr: Seq<u8>, lfeon: bool, lfeexpstr: u8) -> (SpectrumView, Cursor) {
    let n = s.chincpl.len();
    let (chbwcod, c1) = bandwidth_codes(c, v.chbwcod, expstr, s.chincpl, n);
    let (cplexps, c2) = if s.in_use {
        coupling_exponents(c1, v.cplexps, s.endf + 3 - s.begf, cplexpstr)
    } else {
        (v.cplexps, c1)
    };
    let (w, c3) = channel_exponents(c2, SpectrumView { chbwcod, cplexps, ..v }, s, expstr, n);
    let (lfeexps, c4) = if lfeon { lfe_exponents(c3, w.lfeexps, lfeexpstr) } else { (w.lfeexps, c3) };
    (SpectrumView { lfeexps, ..w }, c4)
}

impl Spectrum {
    /// The state before the first block.
    pub fn new(nfchans: usize) -> (r: Self)
        ensures
            r@ == initial_spectrum(nfchans as nat),
            r@.wf(nfchans as int),
    {
        let mut chbwcod: Vec<usize> = Vec::new();
        let mut endmant: Vec<usize> = Vec::new();
        let mut exps: Vec<[u8; 256]> = Vec::new();
        let zero: [u8; 256] = [0; 256];
        assert(zero@ =~= zero_bins());
        let mut i: usize = 0;
        while i < nfchans
            invariant
                i <= nfchans,
                chbwcod@ == Seq::new(i as nat, |k: int| 0usize),
                endmant@ == Seq::new(i as nat, |k: int| 253usize),
                exps.len() == i,
                zero@ == zero_bins(),
                forall|k: int| 0 <= k < i ==> (#[trigger] exps[k])@ == zero_bins(),
            decreases nfchans - i,
        {
            chbwcod.push(0);
            endmant.push(253);
            exps.push(zero);
            i = i + 1;
            assert(chbwcod@ =~= Seq::new(i as nat, |k: int| 0usize));
            assert(endmant@ =~= Seq::new(i as nat, |k: int| 253usize));
        }
        let r: Spectrum = Spectrum { chbwcod, endmant, exps, cplexps: zero, lfeexps: zero };
        assert(r@.exps =~= initial_spectrum(nfchans as nat).exps);
        assert(r@ =~= initial_spectrum(nfchans as nat));
        r
    }

    fn read_bandwidths(&mut self, br: &mut BitReader, expstr: &Vec<u8>, chincpl: &Vec<bool>)
        requires
            old(br).wf(),
            expstr.len() == chincpl.len(),
            old(self)@.wf(chincpl.len() as int),
        ensures
            final(br).wf(),
            final(self)@.wf(chincpl.len() as int),
            final(self)@ == (SpectrumView {
                chbwcod: bandwidth_codes(old(br)@, old(self)@.chbwcod, expstr@, chincpl@, chincpl.len() as nat).0,
                ..old(self)@
            }),
            final(br)@ == bandwidth_codes(old(br)@, old(self)@.chbwcod, expstr@, chincpl@, chincpl.len() as nat).1,
    {
        let ghost c = br@;
        let ghost before = self@;
        let mut ch: usize = 0;
        while ch < chincpl.len()
            invariant
                ch <= chincpl.len(),
                expstr.len() == chincpl.len(),
                br.wf(),
                self@.wf(chincpl.len() as int),
                self.endmant@ == before.endmant,
                bin_rows(self.exps@) == before.exps,
                self.cplexps@ == before.cplexps,
                self.lfeexps@ == before.lfeexps,
                (self.chbwcod@, br@) == bandwidth_codes(c, before.chbwcod, expstr@, chincpl@, ch as nat),
            decreases chincpl.len() - ch,
        {
            if expstr[ch] != 0 && !chincpl[ch] {
                proof {
                    lemma2_to64();
                }
                let v: usize = br.read(6) as usize;
                self.chbwcod.set(ch, if v < 60 { v } else { 60 });
            }
            ch = ch + 1;
        }
    }

    fn read_coupling(&mut self, br: &mut BitReader, nsubnd: usize, expstr: u8, Ghost(nfchans): Ghost<int>)
        requires
            old(br).wf(),
            nsubnd <= 18,
            expstr < 4,
            old(self)@.wf(nfchans),
        ensures
            final(br).wf(),
            final(self)@.wf(nfchans),
            final(self)@ == (SpectrumView {
                cplexps: coupling_exponents(old(br)@, old(self)@.cplexps, nsubnd as int, expstr).0,
                ..old(self)@
            }),
            final(br)@ == coupling_exponents(old(br)@, old(self)@.cplexps, nsubnd as int, expstr).1,
    {
        if expstr != 0 {
            proof {
                lemma2_to64();
            }
            let grpsize: usize = EXPONENT_GROUP_SIZE[expstr as usize];
            let n: usize = if expstr == 1 {
                4 * nsubnd
            } else if expstr == 2 {
                2 * nsubnd
            } else {
                nsubnd
            };
            let absexp: i32 = 2 * br.read(4) as i32;
            unpack_exponents(br, &mut self.cplexps, absexp, n, grpsize, 0);
        }
    }

    fn read_channels(&mut self, br: &mut BitReader, s: &Strategy, expstr: &Vec<u8>)
        requires
            old(br).wf(),
            s@.wf(s@.chincpl.len() as int),
            expstr.len() == s@.chincpl.len(),
            forall|i: int| 0 <= i < expstr.len() ==> #[trigger] expstr[i] < 4,
            old(self)@.wf(s@.chincpl.len() as int),
        ensures
            final(br).wf(),
            final(self)@.wf(s@.chincpl.len() as int),
            (final(self)@, final(br)@) == channel_exponents(old(br)@, old(self)@, s@, expstr@, expstr.len() as nat),
    {
        let ghost c = br@;
        let ghost before = self@;
        let mut ch: usize = 0;
        while ch < expstr.len()
            invariant
                ch <= expstr.len(),
                s@.wf(s@.chincpl.len() as int),
                expstr.len() == s@.chincpl.len(),
                forall|i: int| 0 <= i < expstr.len() ==> #[trigger] expstr[i] < 4,
                br.wf(),
                self@.wf(expstr.len() as int),
                self.chbwcod@ == before.chbwcod,
                (self@, br@) == channel_exponents(c, before, s@, expstr@, ch as nat),
            decreases expstr.len() - ch,
        {
            let strategy: u8 = expstr[ch];
            let ghost w = self@;
            let ghost d = br@;
            if strategy != 0 {
                proof {
                    lemma2_to64();
                }
                let code: usize = self.chbwcod[ch];
                assert(self@.chbwcod[ch as int] <= 60);
                let end: usize = if s.chincpl[ch] {
                    37 + 12 * s.begf
                } else {
                    37 + 3 * (code + 12)
                };
                self.endmant.set(ch, end);
                let grpsize: usize = EXPONENT_GROUP_SIZE[strategy as usize];
                let n: usize = match strategy {
                    1 => (end - 1) / 3,
                    2 => (end + 2) / 6,
                    _ => (end + 8) / 12,
                };
                let absexp: i32 = br.read(4) as i32;
                let ghost row = self.exps@[ch as int]@;
                unpack_exponents(br, &mut self.exps[ch], absexp, n, grpsize, 1);
                br.read(2);
                assert(self@.exps =~= w.exps.update(
                    ch as int,
                    spread_exponents(row, absexp as int, differentials(d.after(4), n as nat), grpsize as int, 1),
                ));
                assert(self@ =~= channel_exponents(c, before, s@, expstr@, (ch + 1) as nat).0);
            }
            ch = ch + 1;
        }
    }

    fn read_lfe(&mut self, br: &mut BitReader, expstr: u8, Ghost(nfchans): Ghost<int>)
        requires
            old(br).wf(),
            expstr < 4,
            old(self)@.wf(nfchans),
        ensures
            final(br).wf(),
            final(self)@.wf(nfchans),
            final(self)@ == (SpectrumView { lfeexps: lfe_exponents(old(br)@, old(self)@.lfeexps, expstr).0, ..old(self)@ }),
            final(br)@ == lfe_exponents(old(br)@, old(self)@.lfeexps, expstr).1,
    {
        if expstr != 0 {
            proof {
                lemma2_to64();
            }
            let absexp: i32 = br.read(4) as i32;
            let grpsize: usize = EXPONENT_GROUP_SIZE[expstr as usize];
            unpack_exponents(br, &mut self.lfeexps, absexp, 2, grpsize, 1);
        }
    }

    /// Read bandwidths and exponents of a block.
    pub fn read(
        &mut self,
        br: &mut BitReader,
        s: &Strategy,
        cplexpstr: u8,
        expstr: &Vec<u8>,
        lfeon: bool,
        lfeexpstr: u8,
    )
        requires
            old(br).wf(),
            s@.wf(s@.chincpl.len() as int),
            expstr.len() == s@.chincpl.len(),
            forall|i: int| 0 <= i < expstr.len() ==> #[trigger] expstr[i] < 4,
            cplexpstr < 4,
            lfeexpstr < 4,
            old(self)@.wf(s@.chincpl.len() as int),
        ensures
            final(br).wf(),
            final(self)@.wf(s@.chincpl.len() as int),
            (final(self)@, final(br)@) == block_spectrum(old(br)@, old(self)@, s@, cplexpstr, expstr@, lfeon, lfeexpstr),
    {
        proof {
            reveal(block_spectrum);
        }
        self.read_bandwidths(br, expstr, &s.chincpl);
        if s.in_use {
            self.read_coupling(br, s.endf + 3 - s.begf, cplexpstr, Ghost(s@.chincpl.len() as int));
        }
        self.read_channels(br, s, expstr);
        if lfeon {
            self.read_lfe(br, lfeexpstr, Ghost(s@.chincpl.len() as int));
        }
    }
}

// ---------------------------------------------------------------------------
// Laws
// ---------------------------------------------------------------------------

/// The exponents of a channel reach to its end and not further than they must: behind
/// the absolute one stand as many groups of three as it takes to cover all bins, where
/// each covers one, two or four bins. The groups of the coupling channel cover exactly
/// the twelve bins of each of its sub-bands.
pub proof fn law_groups_cover_channel(expstr: u8, coupled: bool, begf: int, chbwcod: int, nsubnd: int)
    requires
        1 <= expstr <= 3,
        0 <= begf <= 15,
        0 <= chbwcod <= 60,
        0 <= nsubnd,
    ensures
        ({
            let size = EXPONENT_GROUP_SIZE[expstr as int] as int;
            let end = channel_end(coupled, begf, chbwcod);
            let g = channel_groups(expstr, end);
            &&& (expstr == 1 ==> size == 1) && (expstr == 2 ==> size == 2) && (expstr == 3 ==> size == 4)
            &&& coupled ==> end == 37 + 12 * begf
            &&& !coupled ==> end == 73 + 3 * chbwcod
            &&& 1 + 3 * (g - 1) * size < end <= 1 + 3 * g * size
            &&& 3 * coupling_groups(expstr, nsubnd) * size == 12 * nsubnd
        }),
{
}

/// Absolute exponents have four bits. That of the LFE channel is the exponent of its
/// first bin; that of the coupling channel counts twice, and its steps begin with its
/// first bin.
pub proof fn law_absolute_exponents(c: Cursor, prev: Seq<u8>, nsubnd: int, expstr: u8, digits: Seq<int>)
    requires
        prev.len() == 256,
        1 <= expstr <= 3,
        0 < nsubnd <= 18,
        0 <= c.pos,
        digits.len() == 3 * coupling_groups(expstr, nsubnd),
        c.pos + 4 + 7 * coupling_groups(expstr, nsubnd) <= 8 * c.data.len(),
        forall|i: int| 0 <= i < digits.len() ==> 0 <= #[trigger] digits[i] < 5,
        forall|g: int|
            0 <= g < digits.len() / 3 ==> (#[trigger] (Cursor { pos: c.pos + 4 + 7 * g, ..c }).value(7)) == 25 * digits[3 * g] + 5 * digits[3 * g + 1]
                + digits[3 * g + 2],
    ensures
        ({
            let e = coupling_exponents(c, prev, nsubnd, expstr).0[0] as int;
            let wanted = 2 * c.value(4) + digits[0] - 2;
            &&& 0 <= wanted <= 24 ==> e == wanted
            &&& lfe_exponents(c, prev, expstr).0[0] == c.value(4)
        }),
{
    lemma2_to64();
    lemma_bits_bound(c.data, c.pos, 4);
    let d = c.after(4);
    assert(d == (Cursor { pos: c.pos + 4, ..c }));
    assert forall|g: int| 0 <= g < digits.len() / 3 implies (#[trigger] (Cursor { pos: d.pos + 7 * g, ..d }).value(7)) == 25 * digits[3 * g] + 5 * digits[3 * g
        + 1] + digits[3 * g + 2] by {
        assert((Cursor { pos: d.pos + 7 * g, ..d }) == (Cursor { pos: c.pos + 4 + 7 * g, ..c }));
    }
    let size = EXPONENT_GROUP_SIZE[expstr as int] as int;
    law_packed_steps_come_back(d, digits, prev, 2 * c.value(4), size, 0, 0, 0);
    assert(sum_of(digits, 1) == digits[0]) by {
        reveal_with_fuel(sum_of, 2);
    }
}

} // verus!
