//! Parametric bit allocation.

use vstd::prelude::*;

use crate::ac3::tables::{BAPTAB, HTH, LATAB, NUM_BANDS};

verus! {

/// Extracted bit allocation parameters.
#[derive(Clone, Copy)]
pub struct BaParams {
    pub sdecay: i32,
    pub fdecay: i32,
    pub sgain: i32,
    pub dbknee: i32,
    pub floor: i32,
}

/// One segment of a delta bit allocation: `offset` bands behind the previous
/// segment, `len` bands long, shifted by the code `ba`.
#[derive(Clone, Copy)]
pub struct DeltaSegment {
    pub offset: u8,
    pub len: u8,
    pub ba: u8,
}

/// A level that the bit allocation can work with, far beyond any level that a
/// bitstream can express.
pub open spec fn level_ok(x: int) -> bool {
    -0x10_0000 <= x <= 0x10_0000
}

impl BaParams {
    /// Every parameter is within the level bound.
    pub open spec fn wf(self) -> bool {
        &&& level_ok(self.sdecay as int)
        &&& level_ok(self.fdecay as int)
        &&& level_ok(self.sgain as int)
        &&& level_ok(self.dbknee as int)
        &&& level_ok(self.floor as int)
    }
}

// ---------------------------------------------------------------------------
// Bands
// ---------------------------------------------------------------------------

/// The first bin of band `k`: 28 bands of one bin, then bands of 3, 6, 12 and 24
/// bins. Band 50 stands for the end of the last band.
pub open spec fn band_start(k: int) -> int {
    if k <= 28 {
        k
    } else if k <= 35 {
        28 + 3 * (k - 28)
    } else if k <= 41 {
        49 + 6 * (k - 35)
    } else if k <= 45 {
        85 + 12 * (k - 41)
    } else {
        133 + 24 * (k - 45)
    }
}

/// The band that holds `bin`.
pub open spec fn bin_band(bin: int) -> int {
    if bin < 28 {
        bin
    } else if bin < 49 {
        28 + (bin - 28) / 3
    } else if bin < 85 {
        35 + (bin - 49) / 6
    } else if bin < 133 {
        41 + (bin - 85) / 12
    } else {
        45 + (bin - 133) / 24
    }
}

/// A bin lies between the start of its band and that of the next band.
pub proof fn lemma_bin_band(bin: int)
    requires
        0 <= bin < 253,
    ensures
        0 <= bin_band(bin) < NUM_BANDS,
        band_start(bin_band(bin)) <= bin < band_start(bin_band(bin) + 1),
{
}

/// The first bin of band `k`.
fn band_start_of(k: usize) -> (r: usize)
    requires
        k <= 50,
    ensures
        r == band_start(k as int),
        r <= 253,
{
    if k <= 28 {
        k
    } else if k <= 35 {
        28 + 3 * (k - 28)
    } else if k <= 41 {
        49 + 6 * (k - 35)
    } else if k <= 45 {
        85 + 12 * (k - 41)
    } else {
        133 + 24 * (k - 45)
    }
}

/// The band that holds `bin`.
fn bin_band_of(bin: usize) -> (r: usize)
    requires
        bin < 253,
    ensures
        r == bin_band(bin as int),
        r < 50,
{
    if bin < 28 {
        bin
    } else if bin < 49 {
        28 + (bin - 28) / 3
    } else if bin < 85 {
        35 + (bin - 49) / 6
    } else if bin < 133 {
        41 + (bin - 85) / 12
    } else {
        45 + (bin - 133) / 24
    }
}

// ---------------------------------------------------------------------------
// Power spectral density
// ---------------------------------------------------------------------------

/// The log-sum of two levels: the larger one plus a correction by distance.
pub open spec fn log_sum(a: int, b: int) -> int {
    let c = if a >= b { a - b } else { b - a };
    let address = if c / 2 < 255 { c / 2 } else { 255 };
    (if a >= b { a } else { b }) + LATAB[address]
}

/// A log-sum does not depend on the order of its operands and is not below either.
pub proof fn law_log_sum(a: int, b: int)
    ensures
        log_sum(a, b) == log_sum(b, a),
        log_sum(a, b) >= a,
        log_sum(a, b) >= b,
{
}

/// Log-addition for banded PSD computation.
pub fn logadd(a: i32, b: i32) -> (r: i32)
    requires
        i32::MIN < a - b <= i32::MAX,
        log_sum(a as int, b as int) <= i32::MAX,
    ensures
        r == log_sum(a as int, b as int),
{
    let c: i32 = a - b;
    let distance: i32 = if c >= 0 { c } else { -c };
    let address: usize = if distance / 2 < 255 { (distance / 2) as usize } else { 255 };
    if c >= 0 {
        a + LATAB[address] as i32
    } else {
        b + LATAB[address] as i32
    }
}

/// The level of a bin with exponent `e`.
pub open spec fn bin_psd(e: u8) -> int {
    3072 - 128 * e
}

/// The log-sum of the levels of the bins from `lo` up to `hi`.
pub open spec fn psd_sum(exp: Seq<u8>, lo: int, hi: int) -> int
    decreases hi - lo,
{
    if hi <= lo + 1 {
        bin_psd(exp[lo])
    } else {
        log_sum(psd_sum(exp, lo, hi - 1), bin_psd(exp[hi - 1]))
    }
}

/// The level of band `k` over the bins of `start..end` in it; zero where there
/// are none.
pub open spec fn band_psd(exp: Seq<u8>, start: int, end: int, k: int) -> int {
    let lo = if band_start(k) < start { start } else { band_start(k) };
    let hi = if band_start(k + 1) < end { band_start(k + 1) } else { end };
    if 0 <= k < NUM_BANDS && lo < hi {
        psd_sum(exp, lo, hi)
    } else {
        0
    }
}

/// The levels of all bands, with zeros behind the last one.
pub open spec fn band_levels(exp: Seq<u8>, start: int, end: int) -> Seq<int> {
    Seq::new(64, |k: int| band_psd(exp, start, end, k))
}

proof fn lemma_psd_sum_bound(exp: Seq<u8>, lo: int, hi: int)
    requires
        lo < hi,
    ensures
        -30000 <= psd_sum(exp, lo, hi) <= 3072 + 255 * (hi - lo),
    decreases hi - lo,
{
    if hi > lo + 1 {
        lemma_psd_sum_bound(exp, lo, hi - 1);
    }
}

/// The level of every band, by log-addition over its bins.
fn banded_psd(exp: &[u8; 256], start: usize, end: usize) -> (bndpsd: [i32; 64])
    requires
        start < end <= 253,
    ensures
        forall|k: int| #![trigger bndpsd[k]] 0 <= k < 64 ==> bndpsd[k] == band_levels(
            exp@,
            start as int,
            end as int,
        )[k] && -30000 <= bndpsd[k] <= 70000,
{
    let mut bndpsd: [i32; 64] = [0; 64];
    let mut k: usize = bin_band_of(start);
    let last: usize = bin_band_of(end - 1);
    let mut j: usize = start;
    proof {
        lemma_bin_band(start as int);
        lemma_bin_band(end - 1);
        assert forall|m: int| 0 <= m < 64 && m < k implies band_psd(exp@, start as int, end as int, m) == 0 by {}
    }
    while j < end
        invariant
            start <= j <= end <= 253,
            k <= 50,
            last == bin_band(end - 1),
            last < 50,
            band_start(last as int) < end <= band_start(last + 1),
            j < end ==> k < 50,
            j < end ==> band_start(k as int) <= j < band_start(k + 1),
            j < end ==> (j == start || j == band_start(k as int)),
            j == end ==> k == last + 1,
            forall|m: int| #![trigger bndpsd[m]] 0 <= m < 64 ==> bndpsd[m] == (if m < k {
                band_psd(exp@, start as int, end as int, m)
            } else {
                0
            }) && -30000 <= bndpsd[m] <= 70000,
        decreases end - j,
    {
        let band_end: usize = band_start_of(k + 1);
        let lastbin: usize = if band_end < end { band_end } else { end };
        let ghost first = j as int;
        let mut level: i32 = 3072 - (exp[j] as i32) * 128;
        j = j + 1;
        while j < lastbin
            invariant
                first < j <= lastbin <= 253,
                lastbin - first <= 253,
                level == psd_sum(exp@, first, j as int),
                -30000 <= level <= 3072 + 255 * (j - first),
            decreases lastbin - j,
        {
            let p: i32 = 3072 - (exp[j] as i32) * 128;
            level = logadd(level, p);
            j = j + 1;
            proof {
                lemma_psd_sum_bound(exp@, first, j as int);
            }
        }
        bndpsd[k] = level;
        k = k + 1;
    }
    proof {
        assert forall|m: int| #![trigger bndpsd[m]] 0 <= m < 64 implies bndpsd[m] == band_levels(
            exp@,
            start as int,
            end as int,
        )[m] by {
            if m >= k && m < 50 {
                assert(band_start(m) >= end);
            }
        }
    }
    bndpsd
}

// ---------------------------------------------------------------------------
// Excitation
// ---------------------------------------------------------------------------

/// The low-frequency compensation of a band.
pub open spec fn low_compensation(a: int, b0: int, b1: int, bin: int) -> int {
    if bin < 20 && b0 + 256 == b1 {
        if bin < 7 {
            384
        } else {
            320
        }
    } else if bin < 20 && b0 <= b1 {
        a
    } else {
        let drop = if bin < 20 { 64int } else { 128int };
        if a > drop {
            a - drop
        } else {
            0
        }
    }
}

/// Calculate low-frequency compensation.
pub fn calc_lowcomp(a: i32, b0: i32, b1: i32, bin: usize) -> (r: i32)
    requires
        b0 <= i32::MAX - 256,
        i32::MIN + 128 <= a,
    ensures
        r == low_compensation(a as int, b0 as int, b1 as int, bin as int),
{
    if bin < 7 {
        if b0 + 256 == b1 {
            384
        } else if b0 > b1 {
            if a > 64 { a - 64 } else { 0 }
        } else {
            a
        }
    } else if bin < 20 {
        if b0 + 256 == b1 {
            320
        } else if b0 > b1 {
            if a > 64 { a - 64 } else { 0 }
        } else {
            a
        }
    } else {
        if a > 128 { a - 128 } else { 0 }
    }
}

/// The running state of the excitation: the two leaks, the low-frequency
/// compensation and the excitation of the bands so far.
#[verifier::ext_equal]
pub struct Excitation {
    pub fast: int,
    pub slow: int,
    pub low: int,
    pub excite: Seq<int>,
}

/// The larger of two numbers.
pub open spec fn larger(a: int, b: int) -> int {
    if a >= b {
        a
    } else {
        b
    }
}

/// The compensation at band `bin`; the last of seven bands keeps the previous one.
pub open spec fn band_compensation(s: Excitation, p: Seq<int>, bndend: int, bin: int) -> int {
    if bndend == 7 && bin == 6 {
        s.low
    } else {
        low_compensation(s.low, p[bin], p[bin + 1], bin)
    }
}

/// The state before band 2, from the two lowest bands.
pub open spec fn excite_lowest(s: Excitation, p: Seq<int>, fgain: int) -> Excitation {
    let low0 = low_compensation(0, p[0], p[1], 0);
    let low1 = low_compensation(low0, p[1], p[2], 1);
    Excitation {
        fast: s.fast,
        slow: s.slow,
        low: low1,
        excite: s.excite.update(0, p[0] - fgain - low0).update(1, p[1] - fgain - low1),
    }
}

/// One band of the rising low-frequency part.
pub open spec fn excite_rise_step(s: Excitation, p: Seq<int>, ba: BaParams, fgain: int, bndend: int, bin: int) -> Excitation {
    let low = band_compensation(s, p, bndend, bin);
    Excitation {
        fast: p[bin] - fgain,
        slow: p[bin] - ba.sgain,
        low,
        excite: s.excite.update(bin, p[bin] - fgain - low),
    }
}

/// The rising low-frequency part from band `bin` on: it ends behind the first
/// band that is not above the next one, or at band 7. Also gives the band at
/// which the decaying part begins.
pub open spec fn excite_rise(s: Excitation, p: Seq<int>, ba: BaParams, fgain: int, bndend: int, bin: int) -> (Excitation, int)
    decreases 7 - bin,
{
    if bin >= 7 || bin >= bndend {
        (s, 7)
    } else {
        let t = excite_rise_step(s, p, ba, fgain, bndend, bin);
        if !(bndend == 7 && bin == 6) && p[bin] <= p[bin + 1] {
            (t, bin + 1)
        } else {
            excite_rise(t, p, ba, fgain, bndend, bin + 1)
        }
    }
}

/// One band of the decaying part; `low_part` says whether the low-frequency
/// compensation applies.
pub open spec fn excite_decay_step(s: Excitation, p: Seq<int>, ba: BaParams, fgain: int, bndend: int, low_part: bool, bin: int) -> Excitation {
    let low = if low_part { band_compensation(s, p, bndend, bin) } else { s.low };
    let fast = larger(s.fast - ba.fdecay, p[bin] - fgain);
    let slow = larger(s.slow - ba.sdecay, p[bin] - ba.sgain);
    Excitation {
        fast,
        slow,
        low,
        excite: s.excite.update(bin, larger(if low_part { fast - low } else { fast }, slow)),
    }
}

/// The decaying part over the bands from `bin` up to `to`.
pub open spec fn excite_decay(s: Excitation, p: Seq<int>, ba: BaParams, fgain: int, bndend: int, low_part: bool, bin: int, to: int) -> Excitation
    decreases to - bin,
{
    if bin >= to {
        s
    } else {
        excite_decay(excite_decay_step(s, p, ba, fgain, bndend, low_part, bin), p, ba, fgain, bndend, low_part, bin + 1, to)
    }
}

/// The excitation of the bands from `bndstrt` up to `bndend`.
pub open spec fn excitation(p: Seq<int>, ba: BaParams, fgain: int, fastleak: int, slowleak: int, bndstrt: int, bndend: int) -> Seq<int> {
    let s0 = Excitation { fast: fastleak, slow: slowleak, low: 0, excite: Seq::new(64, |k: int| 0) };
    if bndstrt == 0 {
        let (s1, begin) = excite_rise(excite_lowest(s0, p, fgain), p, ba, fgain, bndend, 2);
        let s2 = excite_decay(s1, p, ba, fgain, bndend, true, begin, if bndend < 22 { bndend } else { 22 });
        excite_decay(s2, p, ba, fgain, bndend, false, 22, bndend).excite
    } else {
        excite_decay(s0, p, ba, fgain, bndend, false, bndstrt, bndend).excite
    }
}

/// The numbers in a sequence of machine integers.
pub open spec fn ints(a: Seq<i32>) -> Seq<int> {
    Seq::new(a.len(), |k: int| a[k] as int)
}

/// The running excitation state.
struct Leaks {
    fast: i32,
    slow: i32,
    low: i32,
    excite: [i32; 64],
}

impl View for Leaks {
    type V = Excitation;

    closed spec fn view(&self) -> Excitation {
        Excitation {
            fast: self.fast as int,
            slow: self.slow as int,
            low: self.low as int,
            excite: ints(self.excite@),
        }
    }
}

/// The band levels stay within what the banded PSD can give.
spec fn levels_ok(bndpsd: Seq<i32>) -> bool {
    &&& bndpsd.len() == 64
    &&& forall|k: int| #![trigger bndpsd[k]] 0 <= k < 64 ==> -30000 <= bndpsd[k] <= 70000
}

impl Leaks {
    /// Bounds that hold after `n` bands.
    spec fn bounded(&self, n: int) -> bool {
        let b = 0x20_0000 * (n + 1);
        &&& -b <= self.fast <= b
        &&& -b <= self.slow <= b
        &&& 0 <= self.low <= 384
        &&& forall|k: int| #![trigger self.excite[k]] 0 <= k < 64 ==> -0x20_0000 * 64 <= self.excite[k] <= 0x20_0000 * 64
    }

    /// The compensation at a band; the last of seven bands keeps the previous one.
    fn compensate(&mut self, bndpsd: &[i32; 64], bndend: usize, bin: usize)
        requires
            bin < 63,
            levels_ok(bndpsd@),
            0 <= old(self).low <= 384,
        ensures
            final(self).low == band_compensation(old(self)@, ints(bndpsd@), bndend as int, bin as int),
            0 <= final(self).low <= 384,
            final(self).fast == old(self).fast,
            final(self).slow == old(self).slow,
            final(self).excite == old(self).excite,
    {
        if bndend != 7 || bin != 6 {
            self.low = calc_lowcomp(self.low, bndpsd[bin], bndpsd[bin + 1], bin);
        }
    }

    /// One band of the rising low-frequency part.
    fn rise(&mut self, bndpsd: &[i32; 64], ba: &BaParams, fgain: i32, bndend: usize, bin: usize)
        requires
            bin < 50,
            levels_ok(bndpsd@),
            ba.wf(),
            level_ok(fgain as int),
            old(self).bounded(bin as int),
        ensures
            final(self)@ == excite_rise_step(old(self)@, ints(bndpsd@), *ba, fgain as int, bndend as int, bin as int),
            final(self).bounded(bin + 1),
    {
        let ghost before = self@;
        self.compensate(bndpsd, bndend, bin);
        self.fast = bndpsd[bin] - fgain;
        self.slow = bndpsd[bin] - ba.sgain;
        self.excite[bin] = self.fast - self.low;
        assert(self@ =~= excite_rise_step(before, ints(bndpsd@), *ba, fgain as int, bndend as int, bin as int));
    }

    /// One band of the decaying part.
    fn decay(&mut self, bndpsd: &[i32; 64], ba: &BaParams, fgain: i32, bndend: usize, low_part: bool, bin: usize)
        requires
            bin < 50,
            levels_ok(bndpsd@),
            ba.wf(),
            level_ok(fgain as int),
            old(self).bounded(bin as int),
        ensures
            final(self)@ == excite_decay_step(old(self)@, ints(bndpsd@), *ba, fgain as int, bndend as int, low_part, bin as int),
            final(self).bounded(bin + 1),
    {
        let ghost before = self@;
        if low_part {
            self.compensate(bndpsd, bndend, bin);
        }
        let fast: i32 = self.fast - ba.fdecay;
        let near: i32 = bndpsd[bin] - fgain;
        self.fast = if fast >= near { fast } else { near };
        let slow: i32 = self.slow - ba.sdecay;
        let far: i32 = bndpsd[bin] - ba.sgain;
        self.slow = if slow >= far { slow } else { far };
        let lead: i32 = if low_part { self.fast - self.low } else { self.fast };
        self.excite[bin] = if lead >= self.slow { lead } else { self.slow };
        assert(self@ =~= excite_decay_step(before, ints(bndpsd@), *ba, fgain as int, bndend as int, low_part, bin as int));
    }

    /// The decaying part over the bands from `from` up to `to`.
    fn decay_all(&mut self, bndpsd: &[i32; 64], ba: &BaParams, fgain: i32, bndend: usize, low_part: bool, from: usize, to: usize)
        requires
            to <= 50,
            levels_ok(bndpsd@),
            ba.wf(),
            level_ok(fgain as int),
            old(self).bounded(from as int),
        ensures
            final(self)@ == excite_decay(old(self)@, ints(bndpsd@), *ba, fgain as int, bndend as int, low_part, from as int, to as int),
            final(self).bounded(if from < to { to as int } else { from as int }),
    {
        let ghost p = ints(bndpsd@);
        let ghost goal = excite_decay(self@, p, *ba, fgain as int, bndend as int, low_part, from as int, to as int);
        let mut bin: usize = from;
        while bin < to
            invariant
                from <= bin,
                from < to ==> bin <= to,
                from >= to ==> bin == from,
                to <= 50,
                levels_ok(bndpsd@),
                ba.wf(),
                level_ok(fgain as int),
                p == ints(bndpsd@),
                self.bounded(bin as int),
                goal == excite_decay(self@, p, *ba, fgain as int, bndend as int, low_part, bin as int, to as int),
            decreases to - bin,
        {
            self.decay(bndpsd, ba, fgain, bndend, low_part, bin);
            bin = bin + 1;
        }
    }
}

/// The excitation of the bands.
fn excite_bands(bndpsd: &[i32; 64], ba: &BaParams, fgain: i32, fastleak: i32, slowleak: i32, bndstrt: usize, bndend: usize) -> (r: [i32; 64])
    requires
        bndend <= 50,
        levels_ok(bndpsd@),
        ba.wf(),
        level_ok(fgain as int),
        level_ok(fastleak as int),
        level_ok(slowleak as int),
    ensures
        ints(r@) == excitation(ints(bndpsd@), *ba, fgain as int, fastleak as int, slowleak as int, bndstrt as int, bndend as int),
        forall|k: int| #![trigger r[k]] 0 <= k < 64 ==> -0x20_0000 * 64 <= r[k] <= 0x20_0000 * 64,
{
    let ghost p = ints(bndpsd@);
    let mut s: Leaks = Leaks { fast: fastleak, slow: slowleak, low: 0, excite: [0; 64] };
    let ghost s0 = s@;
    assert(s0.excite =~= Seq::new(64, |k: int| 0));
    if bndstrt == 0 {
        s.low = calc_lowcomp(s.low, bndpsd[0], bndpsd[1], 0);
        s.excite[0] = bndpsd[0] - fgain - s.low;
        s.low = calc_lowcomp(s.low, bndpsd[1], bndpsd[2], 1);
        s.excite[1] = bndpsd[1] - fgain - s.low;
        assert(s@ =~= excite_lowest(s0, p, fgain as int));
        let ghost (s1, first) = excite_rise(s@, p, *ba, fgain as int, bndend as int, 2);
        let mut begin: usize = 7;
        let mut bin: usize = 2;
        let mut rising: bool = true;
        while rising && bin < 7 && bin < bndend
            invariant
                2 <= bin <= 7,
                bndend <= 50,
                levels_ok(bndpsd@),
                ba.wf(),
                level_ok(fgain as int),
                p == ints(bndpsd@),
                s.bounded(bin as int),
                rising ==> begin == 7 && (s1, first) == excite_rise(s@, p, *ba, fgain as int, bndend as int, bin as int),
                !rising ==> begin == bin && s1 == s@ && first == begin,
            decreases 7 - bin,
        {
            s.rise(bndpsd, ba, fgain, bndend, bin);
            if (bndend != 7 || bin != 6) && bndpsd[bin] <= bndpsd[bin + 1] {
                begin = bin + 1;
                rising = false;
            }
            bin = bin + 1;
        }
        let mid: usize = if bndend < 22 { bndend } else { 22 };
        s.decay_all(bndpsd, ba, fgain, bndend, true, begin, mid);
        s.decay_all(bndpsd, ba, fgain, bndend, false, 22, bndend);
    } else {
        s.decay_all(bndpsd, ba, fgain, bndend, false, bndstrt, bndend);
    }
    s.excite
}

// ---------------------------------------------------------------------------
// Masking and bit allocation pointers
// ---------------------------------------------------------------------------

/// The masking level of band `k`: its excitation, raised where the band is below
/// the knee, and no lower than the hearing threshold.
pub open spec fn band_mask(excite: int, level: int, dbknee: int, fscod: int, k: int) -> int {
    let raised = if level < dbknee { excite + (dbknee - level) / 4 } else { excite };
    larger(raised, HTH[if fscod < 2 { fscod } else { 2 }][k] as int)
}

/// The masking curve over the bands from `bndstrt` up to `bndend`; zero elsewhere.
pub open spec fn masking_curve(excite: Seq<int>, p: Seq<int>, dbknee: int, fscod: int, bndstrt: int, bndend: int) -> Seq<int> {
    Seq::new(
        64,
        |k: int|
            if bndstrt <= k < bndend {
                band_mask(excite[k], p[k], dbknee, fscod, k)
            } else {
                0
            },
    )
}

/// The shift that a delta code stands for.
pub open spec fn delta_shift(ba: u8) -> int {
    if ba >= 4 {
        (ba - 3) * 128
    } else {
        (ba - 4) * 128
    }
}

/// The band behind the first `n` delta segments.
pub open spec fn delta_band(segs: Seq<DeltaSegment>, n: int) -> int
    decreases n,
{
    if n <= 0 {
        0
    } else {
        delta_band(segs, n - 1) + segs[n - 1].offset + segs[n - 1].len
    }
}

/// The masking curve shifted by the first `n` delta segments.
pub open spec fn with_deltas(mask: Seq<int>, segs: Seq<DeltaSegment>, n: int) -> Seq<int>
    decreases n,
{
    if n <= 0 {
        mask
    } else {
        let m = with_deltas(mask, segs, n - 1);
        let s = segs[n - 1];
        let first = delta_band(segs, n - 1) + s.offset;
        Seq::new(m.len(), |b: int| if first <= b < first + s.len { m[b] + delta_shift(s.ba) } else { m[b] })
    }
}

/// The masking level that the bit allocation pointers are taken from: moved by
/// the SNR offset, cut to bits 5 to 12 above the floor.
pub open spec fn effective_mask(mask: int, snroffset: int, floor: int) -> int {
    let above = mask - snroffset - floor;
    (if above < 0 { 0 } else { (above % 8192) / 32 * 32 }) + floor
}

/// The bit allocation pointer of a bin with exponent `e`.
pub open spec fn bap_of(e: u8, mask: int, snroffset: int, floor: int) -> u8 {
    let d = bin_psd(e) - effective_mask(mask, snroffset, floor);
    BAPTAB[if d < 0 { 0 } else if d / 32 > 63 { 63 } else { d / 32 }]
}

/// The masking curve of a channel, delta segments included.
pub open spec fn channel_mask(
    fscod: int,
    ba: BaParams,
    start: int,
    end: int,
    exp: Seq<u8>,
    fgain: int,
    fastleak: int,
    slowleak: int,
    delt: Option<Seq<DeltaSegment>>,
) -> Seq<int> {
    let p = band_levels(exp, start, end);
    let bndstrt = bin_band(start);
    let bndend = bin_band(end - 1) + 1;
    let curve = masking_curve(
        excitation(p, ba, fgain, fastleak, slowleak, bndstrt, bndend),
        p,
        ba.dbknee as int,
        fscod,
        bndstrt,
        bndend,
    );
    match delt {
        Some(segs) => with_deltas(curve, segs, segs.len() as int),
        None => curve,
    }
}

/// The bit allocation pointers of all bins: those of `start..end` by the masking
/// curve, zero behind `end`, and unchanged before `start`. Nothing changes where
/// the range is empty or too long.
pub open spec fn allocation(
    fscod: int,
    ba: BaParams,
    start: int,
    end: int,
    exp: Seq<u8>,
    fgain: int,
    snroffset: int,
    fastleak: int,
    slowleak: int,
    delt: Option<Seq<DeltaSegment>>,
    bap: Seq<u8>,
) -> Seq<u8> {
    if start >= end || end > 256 {
        bap
    } else {
        let mask = channel_mask(fscod, ba, start, end, exp, fgain, fastleak, slowleak, delt);
        Seq::new(
            256,
            |i: int|
                if i < start {
                    bap[i]
                } else if i < end {
                    bap_of(exp[i], mask[bin_band(i)], snroffset, ba.floor as int)
                } else {
                    0
                },
        )
    }
}

/// The segments of an optional delta allocation.
pub open spec fn delta_view(delt: Option<&Vec<DeltaSegment>>) -> Option<Seq<DeltaSegment>> {
    match delt {
        Some(v) => Some(v@),
        None => None,
    }
}

/// The masking curve over the bands.
fn mask_bands(fscod: usize, ba: &BaParams, bndpsd: &[i32; 64], excite: &[i32; 64], bndstrt: usize, bndend: usize) -> (mask: [i32; 64])
    requires
        bndstrt <= bndend <= 50,
        levels_ok(bndpsd@),
        ba.wf(),
        forall|k: int| #![trigger excite[k]] 0 <= k < 64 ==> -0x20_0000 * 64 <= excite[k] <= 0x20_0000 * 64,
    ensures
        ints(mask@) == masking_curve(ints(excite@), ints(bndpsd@), ba.dbknee as int, fscod as int, bndstrt as int, bndend as int),
        forall|k: int| #![trigger mask[k]] 0 <= k < 64 ==> -0x20_0000 * 65 <= mask[k] <= 0x20_0000 * 65,
{
    let mut mask: [i32; 64] = [0; 64];
    let rate: usize = if fscod < 2 { fscod } else { 2 };
    let mut k: usize = bndstrt;
    while k < bndend
        invariant
            bndstrt <= k <= bndend <= 50,
            levels_ok(bndpsd@),
            ba.wf(),
            rate == if fscod < 2 { fscod as int } else { 2 },
            forall|m: int| #![trigger excite[m]] 0 <= m < 64 ==> -0x20_0000 * 64 <= excite[m] <= 0x20_0000 * 64,
            forall|m: int| #![trigger mask[m]] 0 <= m < 64 ==> mask[m] == (if bndstrt <= m < k {
                band_mask(excite[m] as int, bndpsd[m] as int, ba.dbknee as int, fscod as int, m)
            } else {
                0
            }) && -0x20_0000 * 65 <= mask[m] <= 0x20_0000 * 65,
        decreases bndend - k,
    {
        let mut level: i32 = excite[k];
        if bndpsd[k] < ba.dbknee {
            level = level + (ba.dbknee - bndpsd[k]) / 4;
        }
        let hearing: i32 = HTH[rate][k] as i32;
        mask[k] = if level >= hearing { level } else { hearing };
        k = k + 1;
    }
    assert(ints(mask@) =~= masking_curve(ints(excite@), ints(bndpsd@), ba.dbknee as int, fscod as int, bndstrt as int, bndend as int));
    mask
}

/// Shift the masking curve by the delta segments.
fn apply_deltas(mask: &mut [i32; 64], segs: &Vec<DeltaSegment>)
    requires
        segs.len() <= 8,
        forall|k: int| #![trigger old(mask)[k]] 0 <= k < 64 ==> -0x20_0000 * 65 <= old(mask)[k] <= 0x20_0000 * 65,
    ensures
        ints(final(mask)@) == with_deltas(ints(old(mask)@), segs@, segs.len() as int),
        forall|k: int| #![trigger final(mask)[k]] 0 <= k < 64 ==> -0x20_0000 * 66 <= final(mask)[k] <= 0x20_0000 * 66,
{
    let ghost before = ints(mask@);
    let mut band: usize = 0;
    let mut n: usize = 0;
    while n < segs.len()
        invariant
            n <= segs.len() <= 8,
            band <= 510 * n,
            band == delta_band(segs@, n as int),
            ints(mask@) == with_deltas(before, segs@, n as int),
            forall|k: int| #![trigger mask[k]] 0 <= k < 64 ==> -0x20_0000 * 65 - 0x1_0000 * n <= mask[k] <= 0x20_0000 * 65 + 0x1_0000 * n,
        decreases segs.len() - n,
    {
        let s: DeltaSegment = segs[n];
        let first: usize = band + s.offset as usize;
        let delta: i32 = if s.ba >= 4 { (s.ba as i32 - 3) * 128 } else { (s.ba as i32 - 4) * 128 };
        let ghost m = ints(mask@);
        let mut i: usize = 0;
        while i < s.len as usize
            invariant
                i <= s.len,
                first <= 510 * 9,
                n < 8,
                delta == delta_shift(s.ba),
                m.len() == 64,
                forall|k: int| 0 <= k < 64 ==> -0x20_0000 * 65 - 0x1_0000 * n <= #[trigger] m[k] <= 0x20_0000 * 65 + 0x1_0000 * n,
                forall|k: int| #![trigger mask[k]] 0 <= k < 64 ==> mask[k] == if first <= k < first + i { m[k] + delta } else { m[k] },
            decreases s.len - i,
        {
            if first + i < 64 {
                assert(mask[(first + i) as int] == m[(first + i) as int]);
                mask[first + i] = mask[first + i] + delta;
            }
            i = i + 1;
        }
        band = first + s.len as usize;
        n = n + 1;
        assert(ints(mask@) =~= with_deltas(before, segs@, n as int));
    }
}

/// Full bit allocation algorithm.
pub fn bit_allocation(
    fscod: usize,
    ba: &BaParams,
    start: usize,
    end: usize,
    exp: &[u8; 256],
    fgain: i32,
    snroffset: i32,
    fastleak: i32,
    slowleak: i32,
    delt: Option<&Vec<DeltaSegment>>,
    bap_out: &mut [u8; 256],
)
    requires
        start < end && end <= 256 ==> end <= 253,
        ba.wf(),
        level_ok(fgain as int),
        level_ok(snroffset as int),
        level_ok(fastleak as int),
        level_ok(slowleak as int),
        delt matches Some(v) ==> v.len() <= 8,
    ensures
        final(bap_out)@ == allocation(
            fscod as int,
            *ba,
            start as int,
            end as int,
            exp@,
            fgain as int,
            snroffset as int,
            fastleak as int,
            slowleak as int,
            delta_view(delt),
            old(bap_out)@,
        ),
{
    if start >= end || end > 256 {
        return ;
    }
    let ghost before = bap_out@;
    let bndstrt: usize = bin_band_of(start);
    let bndend: usize = bin_band_of(end - 1) + 1;
    proof {
        lemma_bin_band(start as int);
        lemma_bin_band(end - 1);
    }
    let bndpsd: [i32; 64] = banded_psd(exp, start, end);
    assert(ints(bndpsd@) =~= band_levels(exp@, start as int, end as int));
    let excite: [i32; 64] = excite_bands(&bndpsd, ba, fgain, fastleak, slowleak, bndstrt, bndend);
    let mut mask: [i32; 64] = mask_bands(fscod, ba, &bndpsd, &excite, bndstrt, bndend);
    if let Some(segs) = delt {
        apply_deltas(&mut mask, segs);
    }
    let ghost curve = channel_mask(fscod as int, *ba, start as int, end as int, exp@, fgain as int, fastleak as int, slowleak as int, delta_view(delt));
    assert(ints(mask@) == curve);
    let mut i: usize = start;
    while i < end
        invariant
            start <= i <= end <= 253,
            ba.wf(),
            level_ok(snroffset as int),
            ints(mask@) == curve,
            forall|k: int| #![trigger mask[k]] 0 <= k < 64 ==> -0x20_0000 * 66 <= mask[k] <= 0x20_0000 * 66,
            before.len() == 256,
            forall|j: int| #![trigger bap_out[j]] 0 <= j < 256 ==> bap_out[j] == if start <= j < i {
                bap_of(exp[j], curve[bin_band(j)], snroffset as int, ba.floor as int)
            } else {
                before[j]
            },
        decreases end - i,
    {
        let band: usize = bin_band_of(i);
        let level: i32 = mask[band];
        assert(level == curve[band as int]);
        let above: i32 = level - snroffset - ba.floor;
        let effective: i32 = (if above < 0 { 0 } else { (above % 8192) / 32 * 32 }) + ba.floor;
        let distance: i32 = (3072 - (exp[i] as i32) * 128) - effective;
        let address: usize = if distance < 0 {
            0
        } else if distance / 32 > 63 {
            63
        } else {
            (distance / 32) as usize
        };
        bap_out[i] = BAPTAB[address];
        i = i + 1;
    }
    while i < 256
        invariant
            start <= end <= i <= 256,
            before.len() == 256,
            forall|j: int| #![trigger bap_out[j]] 0 <= j < 256 ==> bap_out[j] == if start <= j < end {
                bap_of(exp[j], curve[bin_band(j)], snroffset as int, ba.floor as int)
            } else if end <= j < i {
                0
            } else {
                before[j]
            },
        decreases 256 - i,
    {
        bap_out[i] = 0;
        i = i + 1;
    }
    assert(bap_out@ =~= allocation(
        fscod as int,
        *ba,
        start as int,
        end as int,
        exp@,
        fgain as int,
        snroffset as int,
        fastleak as int,
        slowleak as int,
        delta_view(delt),
        before,
    ));
}

// ---------------------------------------------------------------------------
// Laws
// ---------------------------------------------------------------------------

/// The bands part the bins: each bin lies in one band, the first begins with bin 0 and
/// the last of the fifty ends with bin 252, and no band is narrower than one before it.
pub proof fn law_bands_part_bins(bin: int, k: int)
    requires
        0 <= bin < 253,
        0 <= k < 50,
    ensures
        band_start(0) == 0,
        band_start(50) == 253,
        0 <= bin_band(bin) < 50,
        band_start(bin_band(bin)) <= bin < band_start(bin_band(bin) + 1),
        band_start(k) < band_start(k + 1),
        k < 49 ==> band_start(k + 1) - band_start(k) <= band_start(k + 2) - band_start(k + 1),
        band_start(28) == 28 && band_start(35) == 49 && band_start(41) == 85 && band_start(45) == 133,
{
    lemma_bin_band(bin);
}

/// The shifts of a delta segment are the eight multiples of 6 dB, which is 128, from
/// four below zero to four above it, but zero itself.
pub proof fn law_delta_shifts(ba: u8)
    requires
        ba < 8,
    ensures
        delta_shift(ba) != 0,
        delta_shift(ba) % 128 == 0,
        delta_shift((7 - ba) as u8) == -delta_shift(ba),
        delta_shift(0) == -512,
        ba < 7 ==> delta_shift(ba) < delta_shift((ba + 1) as u8) <= 512,
{
}

/// Delta segments follow each other, and each shifts the bands it covers, and no
/// others.
pub proof fn law_delta_segments(mask: Seq<int>, first: DeltaSegment, second: DeltaSegment, b: int)
    requires
        0 <= b < mask.len(),
    ensures
        ({
            let m = with_deltas(mask, seq![first, second], 2);
            let start = first.offset as int;
            let next = start + first.len + second.offset;
            &&& m.len() == mask.len()
            &&& start <= b < start + first.len ==> m[b] == mask[b] + delta_shift(first.ba)
            &&& next <= b < next + second.len ==> m[b] == mask[b] + delta_shift(second.ba)
            &&& b < start || start + first.len <= b < next || next + second.len <= b ==> m[b] == mask[b]
        }),
{
    reveal_with_fuel(with_deltas, 3);
    reveal_with_fuel(delta_band, 3);
}

/// One step of an exponent is 128, and an exponent of 24 is silence.
pub proof fn law_exponent_levels(e: u8)
    requires
        e < 24,
    ensures
        bin_psd(e) == bin_psd((e + 1) as u8) + 128,
        bin_psd(24) == 0,
{
}

/// The mask that counts lies not below the floor, and less than 32 below the one that
/// the signal-to-noise ratio leaves.
pub proof fn law_mask_rounding(mask: int, snroffset: int, floor: int)
    requires
        mask - snroffset - floor < 8192,
    ensures
        effective_mask(mask, snroffset, floor) >= floor,
        mask - snroffset >= floor ==> mask - snroffset - 32 < effective_mask(mask, snroffset, floor) <= mask - snroffset,
        mask - snroffset < floor ==> effective_mask(mask, snroffset, floor) == floor,
        (effective_mask(mask, snroffset, floor) - floor) % 32 == 0,
{
}

/// Beyond band 22, and where a channel does not begin with band 0, the excitation of a
/// band is not below its own level less either gain, and not below the excitation of
/// the band before it less the larger decay.
pub proof fn law_excitation_spreads(s: Excitation, p: Seq<int>, ba: BaParams, fgain: int, bndend: int, bin: int)
    requires
        0 <= bin,
        bin + 1 < s.excite.len(),
        ba.fdecay >= ba.sdecay,
    ensures
        ({
            let t = excite_decay_step(s, p, ba, fgain, bndend, false, bin);
            let u = excite_decay_step(t, p, ba, fgain, bndend, false, bin + 1);
            &&& t.excite[bin] >= p[bin] - fgain
            &&& t.excite[bin] >= p[bin] - ba.sgain
            &&& u.excite[bin] == t.excite[bin]
            &&& u.excite[bin + 1] >= t.excite[bin] - ba.fdecay
            &&& u.excite[bin + 1] <= larger(larger(p[bin + 1] - fgain, p[bin + 1] - ba.sgain), t.excite[bin] - ba.sdecay)
        }),
{
}

/// A masking curve is not below the threshold of hearing nor below the excitation, and
/// quiet bands are raised by a quarter of what they lack to the knee.
pub proof fn law_masking(excite: int, level: int, dbknee: int, fscod: int, k: int)
    requires
        0 <= fscod < 3,
        0 <= k < 50,
    ensures
        band_mask(excite, level, dbknee, fscod, k) >= excite,
        band_mask(excite, level, dbknee, fscod, k) >= HTH[fscod][k],
        level >= dbknee ==> band_mask(excite, level, dbknee, fscod, k) == larger(excite, HTH[fscod][k] as int),
        level < dbknee && band_mask(excite, level, dbknee, fscod, k) > HTH[fscod][k] ==> {
            let raised = band_mask(excite, level, dbknee, fscod, k) - excite;
            4 * raised <= dbknee - level < 4 * raised + 4
        },
{
}

/// The compensation at low frequencies: a rise of 256 from one band to the next sets it,
/// to 384 below band 7 and to 320 below band 20; a fall takes 64 off it, and from band 20
/// on every band takes 128, as long as it is more than that. Else it stays.
pub proof fn law_low_compensation(a: int, b0: int, b1: int, bin: int)
    requires
        0 <= a,
        0 <= bin,
    ensures
        ({
            let r = low_compensation(a, b0, b1, bin);
            &&& 0 <= r <= larger(a, 384)
            &&& bin < 7 && b1 - b0 == 256 ==> r == 384
            &&& 7 <= bin < 20 && b1 - b0 == 256 ==> r == 320
            &&& bin < 20 && b0 <= b1 && b1 - b0 != 256 ==> r == a
            &&& bin < 20 && b0 > b1 ==> r == larger(a - 64, 0)
            &&& bin >= 20 ==> r == larger(a - 128, 0)
        }),
{
}

/// The level of a band is not below that of any of its bins, and that of a band of one
/// bin is that of the bin.
pub proof fn law_band_level(exp: Seq<u8>, lo: int, hi: int, i: int)
    requires
        0 <= lo <= i < hi <= exp.len(),
    ensures
        psd_sum(exp, lo, hi) >= 3072 - 128 * exp[i],
        hi == lo + 1 ==> psd_sum(exp, lo, hi) == 3072 - 128 * exp[lo],
    decreases hi - lo,
{
    if hi > lo + 1 {
        if i < hi - 1 {
            law_band_level(exp, lo, hi - 1, i);
        }
        law_log_sum(psd_sum(exp, lo, hi - 1), bin_psd(exp[hi - 1]));
    }
}

} // verus!
