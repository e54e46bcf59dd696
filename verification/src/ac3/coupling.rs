//! Coupling strategy, coupling coordinates and rematrixing flags.

use vstd::arithmetic::power2::{lemma2_to64, lemma_pow2_adds, pow2};
use vstd::prelude::*;
use vstd::string::*;

use crate::ac3::bitstream::{bit_at, bits_from, lemma_bit_range, BitReader, Cursor};
use crate::ac3::error::{DecodeError, DecodeFault};
use crate::ac3::mantissa::CplCoord;
use crate::ac3::tables::REMATRIX_BANDS;
use crate::text::{decimal, push_decimal};

verus! {

// ---------------------------------------------------------------------------
// Runs of flags
// ---------------------------------------------------------------------------

/// The next `n` flags.
pub open spec fn flags(c: Cursor, n: nat) -> Seq<bool>
    decreases n,
{
    if n == 0 {
        Seq::empty()
    } else {
        flags(c, (n - 1) as nat).push(flags_end(c, (n - 1) as nat).flag())
    }
}

/// The cursor behind `n` flags.
pub open spec fn flags_end(c: Cursor, n: nat) -> Cursor
    decreases n,
{
    if n == 0 {
        c
    } else {
        flags_end(c, (n - 1) as nat).after(1)
    }
}

/// There are as many flags as were asked for.
pub proof fn lemma_flags_len(c: Cursor, n: nat)
    ensures
        flags(c, n).len() == n,
    decreases n,
{
    if n > 0 {
        lemma_flags_len(c, (n - 1) as nat);
    }
}

/// Read `n` flags.
pub fn read_flags(br: &mut BitReader, n: usize) -> (r: Vec<bool>)
    requires
        old(br).wf(),
    ensures
        final(br).wf(),
        r.len() == n,
        r@ == flags(old(br)@, n as nat),
        final(br)@ == flags_end(old(br)@, n as nat),
{
    let ghost c = br@;
    let mut r: Vec<bool> = Vec::new();
    let mut i: usize = 0;
    while i < n
        invariant
            i <= n,
            br.wf(),
            r.len() == i,
            r@ == flags(c, i as nat),
            br@ == flags_end(c, i as nat),
        decreases n - i,
    {
        r.push(br.read_bool());
        i = i + 1;
    }
    r
}

/// How many of the flags are set.
pub open spec fn count_set(s: Seq<bool>) -> nat
    decreases s.len(),
{
    if s.len() == 0 {
        0
    } else {
        count_set(s.drop_last()) + (if s.last() { 1nat } else { 0nat })
    }
}

proof fn lemma_count_set_bound(s: Seq<bool>)
    ensures
        count_set(s) <= s.len(),
    decreases s.len(),
{
    if s.len() > 0 {
        lemma_count_set_bound(s.drop_last());
    }
}

/// Count the set flags.
pub fn count_flags(v: &Vec<bool>) -> (n: usize)
    ensures
        n == count_set(v@),
        n <= v.len(),
{
    let mut n: usize = 0;
    let mut i: usize = 0;
    while i < v.len()
        invariant
            i <= v.len(),
            n == count_set(v@.take(i as int)),
            n <= i,
        decreases v.len() - i,
    {
        assert(v@.take(i + 1).drop_last() =~= v@.take(i as int));
        if v[i] {
            n = n + 1;
        }
        i = i + 1;
    }
    assert(v@.take(v.len() as int) =~= v@);
    n
}

// ---------------------------------------------------------------------------
// Coupling strategy
// ---------------------------------------------------------------------------

/// Which channels are coupled, over which sub-bands, and how they are grouped.
pub struct Strategy {
    pub in_use: bool,
    pub chincpl: Vec<bool>,
    pub phsflginu: bool,
    pub begf: usize,
    pub endf: usize,
    pub nsubnd: usize,
    pub nbnd: usize,
    pub bndstrc: Vec<bool>,
}

/// The coupling strategy with its flags as sequences.
#[verifier::ext_equal]
pub struct StrategyView {
    pub in_use: bool,
    pub chincpl: Seq<bool>,
    pub phsflginu: bool,
    pub begf: int,
    pub endf: int,
    pub nsubnd: int,
    pub nbnd: int,
    pub bndstrc: Seq<bool>,
}

impl View for Strategy {
    type V = StrategyView;

    open spec fn view(&self) -> StrategyView {
        StrategyView {
            in_use: self.in_use,
            chincpl: self.chincpl@,
            phsflginu: self.phsflginu,
            begf: self.begf as int,
            endf: self.endf as int,
            nsubnd: self.nsubnd as int,
            nbnd: self.nbnd as int,
            bndstrc: self.bndstrc@,
        }
    }
}

impl StrategyView {
    /// One flag per channel; sub-bands from `begf` to `endf + 3`, and a structure
    /// flag for each that has been read.
    pub open spec fn wf(self, nfchans: int) -> bool {
        &&& self.chincpl.len() == nfchans
        &&& 0 <= self.begf <= 15
        &&& 0 <= self.endf <= 15
        &&& 0 <= self.nsubnd <= 18
        &&& 0 <= self.nbnd <= self.nsubnd
        &&& self.bndstrc.len() >= self.nsubnd
        &&& self.begf <= self.endf + 3
    }
}

/// The strategy of a stream in which nothing has been coupled yet.
pub open spec fn no_coupling(nfchans: nat) -> StrategyView {
    StrategyView {
        in_use: false,
        chincpl: Seq::new(nfchans, |i: int| false),
        phsflginu: false,
        begf: 0,
        endf: 0,
        nsubnd: 0,
        nbnd: 0,
        bndstrc: Seq::empty(),
    }
}

/// `prev` with coupling switched off.
pub open spec fn uncoupled(prev: StrategyView) -> StrategyView {
    StrategyView { in_use: false, chincpl: Seq::new(prev.chincpl.len(), |i: int| false), ..prev }
}

/// What the fields of a coupling strategy in use say, and the cursor behind them.
pub open spec fn strategy_fields(c: Cursor, prev: StrategyView, acmod: u8) -> (StrategyView, Cursor) {
    let n = prev.chincpl.len();
    let c1 = flags_end(c, n);
    let (phsflginu, c2) = if acmod == 2 { (c1.flag(), c1.after(1)) } else { (prev.phsflginu, c1) };
    let begf = c2.value(4);
    let endf = c2.after(4).value(4);
    let c3 = c2.after(4).after(4);
    let nsubnd = 3 + endf - begf;
    let m = (if nsubnd > 1 { nsubnd - 1 } else { 0 }) as nat;
    let merged = flags(c3, m);
    (
        StrategyView {
            in_use: true,
            chincpl: flags(c, n),
            phsflginu,
            begf,
            endf,
            nsubnd,
            nbnd: nsubnd - count_set(merged),
            bndstrc: seq![false] + merged,
        },
        flags_end(c3, m),
    )
}

/// Whether the sub-band range that follows is upside down.
pub open spec fn strategy_inverted(c: Cursor, prev: StrategyView, acmod: u8) -> bool {
    let v = strategy_fields(c, prev, acmod).0;
    v.endf + 3 < v.begf
}

/// The text of an inverted range: a fixed one in AC-3, one with the two
/// frequency codes in E-AC-3.
pub open spec fn inverted_text(begf: int, endf: int, enhanced: bool) -> Seq<char> {
    if enhanced {
        "E-AC-3: cplendf("@ + decimal(endf as nat) + ") < cplbegf("@ + decimal(begf as nat) + ")-3"@
    } else {
        "cplendf < cplbegf"@
    }
}

fn inverted_message(begf: usize, endf: usize, enhanced: bool) -> (s: String)
    ensures
        s@ == inverted_text(begf as int, endf as int, enhanced),
{
    if enhanced {
        let mut s: String = String::from_str("E-AC-3: cplendf(");
        push_decimal(&mut s, endf as u64);
        s.append(") < cplbegf(");
        push_decimal(&mut s, begf as u64);
        s.append(")-3");
        s
    } else {
        String::from_str("cplendf < cplbegf")
    }
}

impl Strategy {
    /// No channel is coupled.
    pub fn new(nfchans: usize) -> (r: Self)
        ensures
            r@ == no_coupling(nfchans as nat),
            r@.wf(nfchans as int),
    {
        let r: Strategy = Strategy {
            in_use: false,
            chincpl: no_flags(nfchans),
            phsflginu: false,
            begf: 0,
            endf: 0,
            nsubnd: 0,
            nbnd: 0,
            bndstrc: Vec::new(),
        };
        assert(r@ =~= no_coupling(nfchans as nat));
        r
    }

    /// Switch coupling off.
    pub fn switch_off(&mut self)
        ensures
            final(self)@ == uncoupled(old(self)@),
    {
        let ghost before = self@;
        self.in_use = false;
        self.chincpl = no_flags(self.chincpl.len());
        assert(self@ =~= uncoupled(before));
    }

    /// Read the fields of a coupling strategy in use.
    pub fn read_fields(&mut self, br: &mut BitReader, acmod: u8, enhanced: bool) -> (r: Result<(), DecodeError>)
        requires
            old(br).wf(),
        ensures
            final(br).wf(),
            match r {
                Ok(()) => {
                    &&& !strategy_inverted(old(br)@, old(self)@, acmod)
                    &&& (final(self)@, final(br)@) == strategy_fields(old(br)@, old(self)@, acmod)
                    &&& final(self)@.wf(old(self)@.chincpl.len() as int)
                },
                Err(e) => {
                    let v = strategy_fields(old(br)@, old(self)@, acmod).0;
                    &&& strategy_inverted(old(br)@, old(self)@, acmod)
                    &&& e@ == DecodeFault::BlockError(inverted_text(v.begf, v.endf, enhanced))
                },
            },
    {
        let ghost c = br@;
        let ghost prev = self@;
        proof {
            lemma2_to64();
        }
        self.in_use = true;
        self.chincpl = read_flags(br, self.chincpl.len());
        if acmod == 2 {
            self.phsflginu = br.read_bool();
        }
        let ghost c2 = br@;
        self.begf = br.read(4) as usize;
        self.endf = br.read(4) as usize;
        if self.endf + 3 < self.begf {
            return Err(DecodeError::BlockError(inverted_message(self.begf, self.endf, enhanced)));
        }
        self.nsubnd = 3 + self.endf - self.begf;
        let m: usize = if self.nsubnd > 1 { self.nsubnd - 1 } else { 0 };
        let merged: Vec<bool> = read_flags(br, m);
        let joined: usize = count_flags(&merged);
        self.nbnd = self.nsubnd - joined;
        let mut bndstrc: Vec<bool> = Vec::new();
        bndstrc.push(false);
        let mut i: usize = 0;
        while i < merged.len()
            invariant
                i <= merged.len(),
                bndstrc@ == seq![false] + merged@.take(i as int),
            decreases merged.len() - i,
        {
            bndstrc.push(merged[i]);
            i = i + 1;
            assert(bndstrc@ =~= seq![false] + merged@.take(i as int));
        }
        assert(merged@.take(merged.len() as int) =~= merged@);
        self.bndstrc = bndstrc;
        assert(self@ =~= strategy_fields(c, prev, acmod).0);
        Ok(())
    }
}

/// `n` cleared flags.
pub fn no_flags(n: usize) -> (r: Vec<bool>)
    ensures
        r@ == Seq::new(n as nat, |i: int| false),
{
    let mut r: Vec<bool> = Vec::new();
    let mut i: usize = 0;
    while i < n
        invariant
            i <= n,
            r@ == Seq::new(i as nat, |j: int| false),
        decreases n - i,
    {
        r.push(false);
        i = i + 1;
        assert(r@ =~= Seq::new(i as nat, |j: int| false));
    }
    assert(r@ =~= Seq::new(n as nat, |i: int| false));
    r
}

// ---------------------------------------------------------------------------
// Coupling coordinates
// ---------------------------------------------------------------------------

/// The coupling coordinates of every channel, and whether the current block
/// brought new ones.
pub struct Coordinates {
    pub coe: Vec<bool>,
    pub co: Vec<Vec<CplCoord>>,
}

/// The coupling coordinates as sequences.
#[verifier::ext_equal]
pub struct CoordinatesView {
    pub coe: Seq<bool>,
    pub co: Seq<Seq<CplCoord>>,
}

/// The rows of a table of coordinates.
pub open spec fn coord_rows(v: Seq<Vec<CplCoord>>) -> Seq<Seq<CplCoord>> {
    Seq::new(v.len(), |i: int| v[i]@)
}

impl View for Coordinates {
    type V = CoordinatesView;

    open spec fn view(&self) -> CoordinatesView {
        CoordinatesView { coe: self.coe@, co: coord_rows(self.co@) }
    }
}

impl CoordinatesView {
    /// One row of 18 coordinates per channel.
    pub open spec fn wf(self, nfchans: int) -> bool {
        &&& self.coe.len() == nfchans
        &&& self.co.len() == nfchans
        &&& forall|i: int| 0 <= i < nfchans ==> (#[trigger] self.co[i]).len() == 18
    }
}

/// The coordinates of a stream in which none have been read yet.
pub open spec fn no_coordinates(nfchans: nat) -> CoordinatesView {
    CoordinatesView {
        coe: Seq::new(nfchans, |i: int| false),
        co: Seq::new(nfchans, |i: int| Seq::new(18, |j: int| CplCoord { num: 0, shift: 0 })),
    }
}

/// The coordinate with exponent `exp` and mantissa `mant` under the master
/// coordinate `master`.
pub open spec fn coordinate(exp: int, mant: int, master: int) -> CplCoord {
    if exp == 15 {
        CplCoord { num: mant as u32, shift: (4 + exp + 3 * master) as u32 }
    } else {
        CplCoord { num: (mant + 16) as u32, shift: (5 + exp + 3 * master) as u32 }
    }
}

/// The row of one channel once its first `n` sub-bands have been read: a
/// sub-band that is merged into its predecessor takes over its coordinate.
pub open spec fn row_coordinates(c: Cursor, row: Seq<CplCoord>, bndstrc: Seq<bool>, master: int, n: nat) -> (Seq<CplCoord>, Cursor)
    decreases n,
{
    if n == 0 {
        (row, c)
    } else {
        let (r, d) = row_coordinates(c, row, bndstrc, master, (n - 1) as nat);
        if n == 1 || !bndstrc[n - 1] {
            (r.update(n - 1, coordinate(d.value(4), d.after(4).value(4), master)), d.after(4).after(4))
        } else {
            (r.update(n - 1, r[n - 2]), d)
        }
    }
}

/// The coordinates once the first `n` channels have been read.
pub open spec fn channel_coordinates(c: Cursor, v: CoordinatesView, s: StrategyView, n: nat) -> (CoordinatesView, Cursor)
    decreases n,
{
    if n == 0 {
        (v, c)
    } else {
        let (w, d) = channel_coordinates(c, v, s, (n - 1) as nat);
        let ch = n - 1;
        if !s.chincpl[ch] {
            (w, d)
        } else if !d.flag() {
            (CoordinatesView { coe: w.coe.update(ch, false), co: w.co }, d.after(1))
        } else {
            let master = d.after(1).value(2);
            let (row, e) = row_coordinates(d.after(1).after(2), w.co[ch], s.bndstrc, master, s.nsubnd as nat);
            (CoordinatesView { coe: w.coe.update(ch, true), co: w.co.update(ch, row) }, e)
        }
    }
}

/// The coordinates of a block in which coupling is in use; phase flags, where
/// there are any, are passed over.
pub open spec fn block_coordinates(c: Cursor, v: CoordinatesView, s: StrategyView, acmod: u8) -> (CoordinatesView, Cursor) {
    let (w, d) = channel_coordinates(c, v, s, s.chincpl.len());
    if acmod == 2 && s.phsflginu && (w.coe[0] || w.coe[1]) {
        (w, d.skipped(s.nbnd as nat))
    } else {
        (w, d)
    }
}

/// Read the coordinates of one channel.
fn read_row(br: &mut BitReader, row: &mut Vec<CplCoord>, bndstrc: &Vec<bool>, master: u32, n: usize)
    requires
        old(br).wf(),
        old(row).len() == 18,
        n <= 18,
        bndstrc.len() >= n,
        master < 4,
    ensures
        final(br).wf(),
        final(row).len() == 18,
        (final(row)@, final(br)@) == row_coordinates(old(br)@, old(row)@, bndstrc@, master as int, n as nat),
{
    let ghost c = br@;
    let ghost before = row@;
    let mut i: usize = 0;
    while i < n
        invariant
            i <= n <= 18,
            bndstrc.len() >= n,
            master < 4,
            br.wf(),
            row.len() == 18,
            (row@, br@) == row_coordinates(c, before, bndstrc@, master as int, i as nat),
        decreases n - i,
    {
        proof {
            lemma2_to64();
        }
        let co: CplCoord = if i == 0 || !bndstrc[i] {
            let exp: u32 = br.read(4);
            let mant: u32 = br.read(4);
            if exp == 15 {
                CplCoord { num: mant, shift: 4 + exp + 3 * master }
            } else {
                CplCoord { num: mant + 16, shift: 5 + exp + 3 * master }
            }
        } else {
            row[i - 1]
        };
        row.set(i, co);
        i = i + 1;
    }
}

impl Coordinates {
    /// No coordinates yet.
    pub fn new(nfchans: usize) -> (r: Self)
        ensures
            r@ == no_coordinates(nfchans as nat),
            r@.wf(nfchans as int),
    {
        let mut co: Vec<Vec<CplCoord>> = Vec::new();
        let zero: CplCoord = CplCoord { num: 0, shift: 0 };
        let mut i: usize = 0;
        while i < nfchans
            invariant
                i <= nfchans,
                co.len() == i,
                zero == (CplCoord { num: 0, shift: 0 }),
                forall|k: int| 0 <= k < i ==> #[trigger] co[k]@ == Seq::new(18, |j: int| CplCoord { num: 0, shift: 0 }),
            decreases nfchans - i,
        {
            let row: Vec<CplCoord> = vec![zero; 18];
            assert(row@ =~= Seq::new(18, |j: int| CplCoord { num: 0, shift: 0 }));
            co.push(row);
            i = i + 1;
        }
        let r: Coordinates = Coordinates { coe: no_flags(nfchans), co };
        assert(r@ =~= no_coordinates(nfchans as nat));
        r
    }

    /// Read the coordinates of a block in which coupling is in use.
    pub fn read(&mut self, br: &mut BitReader, s: &Strategy, acmod: u8)
        requires
            old(br).wf(),
            s@.wf(s@.chincpl.len() as int),
            old(self)@.wf(s@.chincpl.len() as int),
            acmod == 2 ==> s@.chincpl.len() >= 2,
        ensures
            final(br).wf(),
            final(self)@.wf(s@.chincpl.len() as int),
            (final(self)@, final(br)@) == block_coordinates(old(br)@, old(self)@, s@, acmod),
    {
        let ghost c = br@;
        let ghost before = self@;
        let nfchans: usize = s.chincpl.len();
        let mut ch: usize = 0;
        while ch < nfchans
            invariant
                ch <= nfchans,
                nfchans == s@.chincpl.len(),
                br.wf(),
                s@.wf(nfchans as int),
                self@.wf(nfchans as int),
                (self@, br@) == channel_coordinates(c, before, s@, ch as nat),
            decreases nfchans - ch,
        {
            let ghost w = self@;
            let ghost d = br@;
            assert(w.co[ch as int].len() == 18);
            if s.chincpl[ch] {
                let fresh: bool = br.read_bool();
                self.coe.set(ch, fresh);
                if fresh {
                    proof {
                        lemma2_to64();
                    }
                    let master: u32 = br.read(2);
                    read_row(br, &mut self.co[ch], &s.bndstrc, master, s.nsubnd);
                    assert(self@.co =~= w.co.update(
                        ch as int,
                        row_coordinates(d.after(1).after(2), w.co[ch as int], s@.bndstrc, master as int, s@.nsubnd as nat).0,
                    ));
                } else {
                    assert(self@.co =~= w.co);
                }
                assert(self@ =~= channel_coordinates(c, before, s@, (ch + 1) as nat).0);
            }
            ch = ch + 1;
        }
        if acmod == 2 && s.phsflginu && (self.coe[0] || self.coe[1]) {
            br.skip(s.nbnd);
        }
    }
}

// ---------------------------------------------------------------------------
// Rematrixing
// ---------------------------------------------------------------------------

/// The number of rematrixing bands.
pub open spec fn remat_bands(in_use: bool, begf: int) -> nat {
    if !in_use || begf > 2 {
        4
    } else if begf > 0 {
        3
    } else {
        2
    }
}

/// The rematrixing flags of a block of a stereo stream.
pub open spec fn rematrix_flags(c: Cursor, prev: Seq<bool>, in_use: bool, begf: int) -> (Seq<bool>, Cursor) {
    if c.flag() {
        (flags(c.after(1), remat_bands(in_use, begf)), flags_end(c.after(1), remat_bands(in_use, begf)))
    } else {
        (prev, c.after(1))
    }
}

/// Read the rematrixing flags of a block of a stereo stream.
pub fn read_rematrix(br: &mut BitReader, rematflg: &mut Vec<bool>, in_use: bool, begf: usize)
    requires
        old(br).wf(),
        old(rematflg).len() <= 4,
    ensures
        final(br).wf(),
        final(rematflg).len() <= 4,
        (final(rematflg)@, final(br)@) == rematrix_flags(old(br)@, old(rematflg)@, in_use, begf as int),
{
    if br.read_bool() {
        let n: usize = if !in_use || begf > 2 {
            4
        } else if begf > 0 {
            3
        } else {
            2
        };
        *rematflg = read_flags(br, n);
    }
}

/// The bins that band `i` rematrixes, from the first up to the second; coupled
/// bins are left out.
pub open spec fn rematrix_range(i: int, in_use: bool, begf: int) -> (usize, usize) {
    let end = REMATRIX_BANDS[i + 1] as int;
    let limit = 36 + 12 * begf;
    (REMATRIX_BANDS[i], (if in_use && end >= limit { limit } else { end }) as usize)
}

/// The ranges of bins in which left and right are sum and difference.
pub open spec fn rematrix_ranges(rematflg: Seq<bool>, in_use: bool, begf: int, n: nat) -> Seq<(usize, usize)>
    decreases n,
{
    if n == 0 {
        Seq::empty()
    } else if rematflg[n - 1] {
        rematrix_ranges(rematflg, in_use, begf, (n - 1) as nat).push(rematrix_range(n - 1, in_use, begf))
    } else {
        rematrix_ranges(rematflg, in_use, begf, (n - 1) as nat)
    }
}

/// The ranges of bins that are rematrixed.
pub fn rematrix_bins(rematflg: &Vec<bool>, in_use: bool, begf: usize) -> (r: Vec<(usize, usize)>)
    requires
        rematflg.len() <= 4,
        begf <= 15,
    ensures
        r@ == rematrix_ranges(rematflg@, in_use, begf as int, rematflg.len() as nat),
{
    let mut r: Vec<(usize, usize)> = Vec::new();
    let mut i: usize = 0;
    while i < rematflg.len()
        invariant
            i <= rematflg.len() <= 4,
            begf <= 15,
            r@ == rematrix_ranges(rematflg@, in_use, begf as int, i as nat),
        decreases rematflg.len() - i,
    {
        if rematflg[i] {
            let end: usize = REMATRIX_BANDS[i + 1];
            let limit: usize = 36 + 12 * begf;
            r.push((REMATRIX_BANDS[i], if in_use && end >= limit { limit } else { end }));
        }
        i = i + 1;
    }
    r
}

// ---------------------------------------------------------------------------
// Laws
// ---------------------------------------------------------------------------

/// A coupling coordinate is a mantissa between a half and one, divided by two for each
/// step of its exponent and by eight for each step of the master coordinate. With the
/// largest exponent the mantissa lies between zero and one.
pub proof fn law_coordinate_value(exp: int, mant: int, master: int)
    requires
        0 <= exp <= 15,
        0 <= mant < 16,
        0 <= master < 4,
    ensures
        ({
            let k = coordinate(exp, mant, master);
            &&& exp < 15 ==> k.num * 32 * pow2((exp + 3 * master) as nat) == (16 + mant) * pow2(k.shift as nat)
            &&& exp == 15 ==> k.num * 16 * pow2((exp + 3 * master) as nat) == mant * pow2(k.shift as nat)
        }),
{
    lemma2_to64();
    let e = (exp + 3 * master) as nat;
    lemma_pow2_adds(5, e);
    lemma_pow2_adds(4, e);
    let k = coordinate(exp, mant, master);
    assert(k.num * 32 * pow2(e) == k.num * (32 * pow2(e))) by (nonlinear_arith);
    assert(k.num * 16 * pow2(e) == k.num * (16 * pow2(e))) by (nonlinear_arith);
}

/// Flags are single bits, one behind the other.
pub proof fn law_flags_are_bits(c: Cursor, n: nat, i: int)
    requires
        0 <= c.pos,
        c.pos + n <= 8 * c.data.len(),
        0 <= i < n,
    ensures
        flags(c, n).len() == n,
        flags(c, n)[i] == (bit_at(c.data, c.pos + i) == 1),
        flags_end(c, n) == (Cursor { pos: c.pos + n, ..c }),
    decreases n,
{
    lemma_flags_len(c, n);
    lemma_flags_stand(c, (n - 1) as nat);
    lemma_bit_range(c.data, c.pos + n - 1);
    assert(bits_from(c.data, c.pos + n - 1, 1) == 2 * bits_from(c.data, c.pos + n - 1, 0) + bit_at(c.data, c.pos + n - 1)) by {
        reveal_with_fuel(bits_from, 2);
    }
    if n > 1 {
        law_flags_are_bits(c, (n - 1) as nat, if i < n - 1 { i } else { 0 });
    }
}

proof fn lemma_flags_stand(c: Cursor, n: nat)
    requires
        0 <= c.pos,
        c.pos + n <= 8 * c.data.len(),
    ensures
        flags_end(c, n) == (Cursor { pos: c.pos + n, ..c }),
    decreases n,
{
    if n > 0 {
        lemma_flags_stand(c, (n - 1) as nat);
    }
}

/// A sub-band that is joined to the one before it has the same coordinate.
pub proof fn law_joined_bands_share(c: Cursor, row: Seq<CplCoord>, bndstrc: Seq<bool>, master: int, n: nat, j: int)
    requires
        n <= row.len(),
        0 < j < n,
        bndstrc[j],
    ensures
        row_coordinates(c, row, bndstrc, master, n).0.len() == row.len(),
        row_coordinates(c, row, bndstrc, master, n).0[j] == row_coordinates(c, row, bndstrc, master, n).0[j - 1],
    decreases n,
{
    lemma_row_len(c, row, bndstrc, master, (n - 1) as nat);
    lemma_row_len(c, row, bndstrc, master, n);
    if j < n - 1 {
        law_joined_bands_share(c, row, bndstrc, master, (n - 1) as nat, j);
    }
}

proof fn lemma_row_len(c: Cursor, row: Seq<CplCoord>, bndstrc: Seq<bool>, master: int, n: nat)
    requires
        n <= row.len(),
    ensures
        row_coordinates(c, row, bndstrc, master, n).0.len() == row.len(),
    decreases n,
{
    if n > 0 {
        lemma_row_len(c, row, bndstrc, master, (n - 1) as nat);
    }
}

/// How many sub-bands begin a band.
pub open spec fn bands_begun(bndstrc: Seq<bool>, n: nat) -> nat
    decreases n,
{
    if n == 0 {
        0
    } else {
        bands_begun(bndstrc, (n - 1) as nat) + if n == 1 || !bndstrc[n - 1] { 1nat } else { 0 }
    }
}

/// A row of coordinates takes eight bits for each band.
pub proof fn law_coordinates_by_band(c: Cursor, row: Seq<CplCoord>, bndstrc: Seq<bool>, master: int, n: nat)
    requires
        0 <= c.pos,
        c.pos + 8 * bands_begun(bndstrc, n) <= 8 * c.data.len(),
    ensures
        row_coordinates(c, row, bndstrc, master, n).1 == (Cursor { pos: c.pos + 8 * bands_begun(bndstrc, n), ..c }),
    decreases n,
{
    if n > 0 {
        law_coordinates_by_band(c, row, bndstrc, master, (n - 1) as nat);
    }
}

/// Sum and difference are carried in four bands that follow each other from bin 13 to
/// bin 253, of twelve, twelve, twenty-four bins and the rest. With coupling they end
/// where that of the coupling begins, and there are as many bands as lie before it.
pub proof fn law_rematrix_bands(i: int, in_use: bool, begf: int)
    requires
        0 <= i < 4,
        0 <= begf <= 15,
    ensures
        ({
            let r = rematrix_range(i, in_use, begf);
            let whole = rematrix_range(i, false, begf);
            &&& rematrix_range(0, false, begf).0 == 13
            &&& rematrix_range(3, false, begf).1 == 253
            &&& i < 3 ==> whole.1 == rematrix_range(i + 1, false, begf).0
            &&& i < 2 ==> whole.1 - whole.0 == 12
            &&& i == 2 ==> whole.1 - whole.0 == 24
            &&& r.0 == whole.0
            &&& r.1 <= whole.1
            &&& in_use ==> r.1 <= 36 + 12 * begf && (r.1 == whole.1 || r.1 == 36 + 12 * begf)
            &&& !in_use ==> remat_bands(in_use, begf) == 4
            &&& in_use ==> (i < remat_bands(in_use, begf) <==> whole.0 < 36 + 12 * begf || i == 0)
        }),
{
}

/// A coupling strategy has a bit for each channel, in stereo one for the phases, four
/// bits each of its begin and its end, and a bit for each sub-band but the first that
/// says whether it is joined to the one before it. There are as many bands as sub-bands
/// begin one.
pub proof fn law_strategy_bits(c: Cursor, prev: StrategyView, acmod: u8, i: int)
    requires
        0 <= c.pos,
        0 <= i < prev.chincpl.len(),
        c.pos + prev.chincpl.len() + 9 <= 8 * c.data.len(),
    ensures
        ({
            let v = strategy_fields(c, prev, acmod).0;
            let at = c.pos + prev.chincpl.len() + (if acmod == 2 { 1int } else { 0 });
            &&& v.in_use
            &&& v.chincpl.len() == prev.chincpl.len()
            &&& v.chincpl[i] == (bit_at(c.data, c.pos + i) == 1)
            &&& v.begf == bits_from(c.data, at, 4)
            &&& v.endf == bits_from(c.data, at + 4, 4)
            &&& v.nsubnd == v.endf + 3 - v.begf
            &&& v.nsubnd >= 1 ==> v.nbnd == bands_begun(v.bndstrc, v.nsubnd as nat)
        }),
{
    let n = prev.chincpl.len();
    law_flags_are_bits(c, n, i);
    let v = strategy_fields(c, prev, acmod).0;
    if v.nsubnd >= 1 {
        let c1 = flags_end(c, n);
        let c2 = if acmod == 2 { c1.after(1) } else { c1 };
        let c3 = c2.after(4).after(4);
        let m = (if v.nsubnd > 1 { v.nsubnd - 1 } else { 0 }) as nat;
        lemma_flags_len(c3, m);
        let merged = flags(c3, m);
        assert(v.bndstrc == seq![false] + merged);
        lemma_bands_begun(merged, m);
        assert(merged.take(m as int) =~= merged);
    }
}

proof fn lemma_bands_begun(merged: Seq<bool>, m: nat)
    requires
        m <= merged.len(),
    ensures
        bands_begun(seq![false] + merged, m + 1) == 1 + m - count_set(merged.take(m as int)),
    decreases m,
{
    if m > 0 {
        lemma_bands_begun(merged, (m - 1) as nat);
        assert(merged.take(m as int).drop_last() =~= merged.take(m - 1));
        assert((seq![false] + merged)[m as int] == merged[m - 1]);
        assert((m + 1 - 1) as nat == m);
    } else {
        assert(merged.take(0) =~= Seq::empty());
        reveal_with_fuel(bands_begun, 2);
    }
}

/// Sum and difference are undone in the bands whose flag is set, and in no others, from
/// low to high.
pub proof fn law_rematrix_by_flag(rematflg: Seq<bool>, in_use: bool, begf: int, n: nat, i: int)
    requires
        n <= rematflg.len(),
        0 <= i < n,
    ensures
        ({
            let r = rematrix_ranges(rematflg, in_use, begf, n);
            &&& r.len() == count_set(rematflg.take(n as int))
            &&& rematflg[i] ==> r[count_set(rematflg.take(i)) as int] == rematrix_range(i, in_use, begf) && count_set(rematflg.take(i)) < r.len()
        }),
    decreases n,
{
    let m = (n - 1) as nat;
    assert(rematflg.take(n as int).drop_last() =~= rematflg.take(m as int));
    assert(rematflg.take(n as int).last() == rematflg[n - 1]);
    lemma_rematrix_len(rematflg, in_use, begf, m);
    if i < m {
        law_rematrix_by_flag(rematflg, in_use, begf, m, i);
    }
}

proof fn lemma_rematrix_len(rematflg: Seq<bool>, in_use: bool, begf: int, n: nat)
    requires
        n <= rematflg.len(),
    ensures
        rematrix_ranges(rematflg, in_use, begf, n).len() == count_set(rematflg.take(n as int)),
    decreases n,
{
    if n > 0 {
        lemma_rematrix_len(rematflg, in_use, begf, (n - 1) as nat);
        assert(rematflg.take(n as int).drop_last() =~= rematflg.take(n - 1));
        assert(rematflg.take(n as int).last() == rematflg[n - 1]);
    } else {
        assert(rematflg.take(0) =~= Seq::empty());
    }
}

} // verus!
