//! Bit allocation side information and the allocation of a whole block.

use vstd::arithmetic::power2::lemma2_to64;
use vstd::prelude::*;

use crate::ac3::bitalloc::{
    allocation, band_levels, band_start, bap_of, bin_band, bin_psd, bit_allocation, channel_mask, delta_band, effective_mask,
    excitation, excite_decay, excite_decay_step, excite_lowest, excite_rise, excite_rise_step, lemma_bin_band,
    level_ok, masking_curve, psd_sum, with_deltas, BaParams, DeltaSegment, Excitation,
};
use crate::ac3::bitstream::{bits_from, lemma_bits_bound, BitReader, Cursor};
use crate::ac3::coupling::StrategyView;
use crate::ac3::spectrum::{bin_rows, codes, codes_end, read_codes2, zero_bins, Spectrum, SpectrumView};
use crate::ac3::tables::{
    BAPTAB, DB_PER_BIT, FAST_DECAY, FAST_GAIN, FLOOR, HTH, LATAB, LFE_COEFS, SLOW_DECAY, SLOW_GAIN,
};

verus! {

// ---------------------------------------------------------------------------
// Parametric codes
// ---------------------------------------------------------------------------

/// The codes of the bit allocation parameters.
#[derive(Clone, Copy, Debug, PartialEq, Eq, Structural)]
pub struct BaCodes {
    pub sdcycod: usize,
    pub fdcycod: usize,
    pub sgaincod: usize,
    pub dbpbcod: usize,
    pub floorcod: usize,
}

impl BaCodes {
    /// Each code fits its field.
    pub open spec fn wf(self) -> bool {
        self.sdcycod < 4 && self.fdcycod < 4 && self.sgaincod < 4 && self.dbpbcod < 4 && self.floorcod < 8
    }

    /// The parameters that the codes stand for.
    pub open spec fn params(self) -> BaParams {
        BaParams {
            sdecay: SLOW_DECAY[self.sdcycod as int] as i32,
            fdecay: FAST_DECAY[self.fdcycod as int] as i32,
            sgain: SLOW_GAIN[self.sgaincod as int] as i32,
            dbknee: DB_PER_BIT[self.dbpbcod as int] as i32,
            floor: FLOOR[self.floorcod as int] as i32,
        }
    }

    /// The parameters that the codes stand for.
    pub fn derive(&self) -> (r: BaParams)
        requires
            self.wf(),
        ensures
            r == self.params(),
            r.wf(),
    {
        BaParams {
            sdecay: SLOW_DECAY[self.sdcycod] as i32,
            fdecay: FAST_DECAY[self.fdcycod] as i32,
            sgain: SLOW_GAIN[self.sgaincod] as i32,
            dbknee: DB_PER_BIT[self.dbpbcod] as i32,
            floor: FLOOR[self.floorcod] as i32,
        }
    }

    /// Read the five codes.
    pub fn read(br: &mut BitReader) -> (r: Self)
        requires
            old(br).wf(),
        ensures
            final(br).wf(),
            r.wf(),
            (r, final(br)@) == ba_codes(old(br)@),
    {
        proof {
            lemma2_to64();
        }
        let sdcycod: usize = br.read(2) as usize;
        let fdcycod: usize = br.read(2) as usize;
        let sgaincod: usize = br.read(2) as usize;
        let dbpbcod: usize = br.read(2) as usize;
        let floorcod: usize = br.read(3) as usize;
        BaCodes { sdcycod, fdcycod, sgaincod, dbpbcod, floorcod }
    }
}

/// The five codes that follow.
pub open spec fn ba_codes(c: Cursor) -> (BaCodes, Cursor) {
    let c1 = c.after(2);
    let c2 = c1.after(2);
    let c3 = c2.after(2);
    let c4 = c3.after(2);
    (
        BaCodes {
            sdcycod: c.value(2) as usize,
            fdcycod: c1.value(2) as usize,
            sgaincod: c2.value(2) as usize,
            dbpbcod: c3.value(2) as usize,
            floorcod: c4.value(3) as usize,
        },
        c4.after(3),
    )
}

/// The codes of a block behind their presence flag.
pub open spec fn optional_ba_codes(c: Cursor, prev: BaCodes) -> (BaCodes, Cursor) {
    if c.flag() {
        ba_codes(c.after(1))
    } else {
        (prev, c.after(1))
    }
}

// ---------------------------------------------------------------------------
// SNR offsets and fast gains
// ---------------------------------------------------------------------------

/// The fine SNR offset and the fast gain code of one channel.
#[derive(Clone, Copy, Debug, PartialEq, Eq, Structural)]
pub struct FineGain {
    pub fsnroffst: i32,
    pub fgaincod: usize,
}

/// The SNR offsets and fast gains of all channels.
pub struct Snr {
    pub csnroffst: i32,
    pub cpl: FineGain,
    pub ch: Vec<FineGain>,
    pub lfe: FineGain,
}

/// The SNR offsets and fast gains with the channels as a sequence.
#[verifier::ext_equal]
pub struct SnrView {
    pub csnroffst: i32,
    pub cpl: FineGain,
    pub ch: Seq<FineGain>,
    pub lfe: FineGain,
}

impl View for Snr {
    type V = SnrView;

    open spec fn view(&self) -> SnrView {
        SnrView { csnroffst: self.csnroffst, cpl: self.cpl, ch: self.ch@, lfe: self.lfe }
    }
}

impl FineGain {
    /// Each value fits its field.
    pub open spec fn wf(self) -> bool {
        0 <= self.fsnroffst < 16 && self.fgaincod < 8
    }
}

impl SnrView {
    /// Each value fits its field, with one entry per channel.
    pub open spec fn wf(self, nfchans: int) -> bool {
        &&& 0 <= self.csnroffst < 64
        &&& self.cpl.wf()
        &&& self.lfe.wf()
        &&& self.ch.len() == nfchans
        &&& forall|i: int| 0 <= i < nfchans ==> (#[trigger] self.ch[i]).wf()
    }
}

/// The gain zero.
pub open spec fn no_gain() -> FineGain {
    FineGain { fsnroffst: 0, fgaincod: 0 }
}

/// The offsets before any have been read.
pub open spec fn initial_snr(nfchans: nat) -> SnrView {
    SnrView { csnroffst: 0, cpl: no_gain(), ch: Seq::new(nfchans, |i: int| no_gain()), lfe: no_gain() }
}

/// The SNR offset that a coarse and a fine offset make.
pub open spec fn snr_offset(coarse: int, fine: int) -> int {
    (16 * (coarse - 15) + fine) * 4
}

/// The fine gain that follows.
pub open spec fn fine_gain(c: Cursor) -> (FineGain, Cursor) {
    (
        FineGain { fsnroffst: c.value(4) as i32, fgaincod: c.after(4).value(3) as usize },
        c.after(4).after(3),
    )
}

/// The next `n` fine gains.
pub open spec fn fine_gains(c: Cursor, n: nat) -> (Seq<FineGain>, Cursor)
    decreases n,
{
    if n == 0 {
        (Seq::empty(), c)
    } else {
        let (s, d) = fine_gains(c, (n - 1) as nat);
        (s.push(fine_gain(d).0), fine_gain(d).1)
    }
}

/// The offsets of an AC-3 block behind their presence flag.
pub open spec fn optional_snr(c: Cursor, prev: SnrView, in_use: bool, lfeon: bool) -> (SnrView, Cursor) {
    if !c.flag() {
        (prev, c.after(1))
    } else {
        let c1 = c.after(1);
        let (cpl, c2) = if in_use { fine_gain(c1.after(6)) } else { (prev.cpl, c1.after(6)) };
        let (ch, c3) = fine_gains(c2, prev.ch.len());
        let (lfe, c4) = if lfeon { fine_gain(c3) } else { (prev.lfe, c3) };
        (SnrView { csnroffst: c1.value(6) as i32, cpl, ch, lfe }, c4)
    }
}

fn read_fine_gain(br: &mut BitReader) -> (r: FineGain)
    requires
        old(br).wf(),
    ensures
        final(br).wf(),
        r.wf(),
        (r, final(br)@) == fine_gain(old(br)@),
{
    proof {
        lemma2_to64();
    }
    let fsnroffst: i32 = br.read(4) as i32;
    let fgaincod: usize = br.read(3) as usize;
    FineGain { fsnroffst, fgaincod }
}

impl Snr {
    /// No offsets yet.
    pub fn new(nfchans: usize) -> (r: Self)
        ensures
            r@ == initial_snr(nfchans as nat),
            r@.wf(nfchans as int),
    {
        let zero: FineGain = FineGain { fsnroffst: 0, fgaincod: 0 };
        let r: Snr = Snr { csnroffst: 0, cpl: zero, ch: vec![zero; nfchans], lfe: zero };
        assert(r@ =~= initial_snr(nfchans as nat));
        r
    }

    /// Read the offsets of an AC-3 block behind their presence flag.
    pub fn read_optional(&mut self, br: &mut BitReader, in_use: bool, lfeon: bool)
        requires
            old(br).wf(),
            old(self)@.wf(old(self)@.ch.len() as int),
        ensures
            final(br).wf(),
            final(self)@.wf(old(self)@.ch.len() as int),
            (final(self)@, final(br)@) == optional_snr(old(br)@, old(self)@, in_use, lfeon),
    {
        let ghost prev = self@;
        let ghost c = br@;
        if br.read_bool() {
            proof {
                lemma2_to64();
            }
            self.csnroffst = br.read(6) as i32;
            if in_use {
                self.cpl = read_fine_gain(br);
            }
            let nfchans: usize = self.ch.len();
            let ghost c2 = br@;
            let mut ch: Vec<FineGain> = Vec::new();
            let mut i: usize = 0;
            while i < nfchans
                invariant
                    i <= nfchans,
                    br.wf(),
                    ch.len() == i,
                    forall|k: int| 0 <= k < i ==> (#[trigger] ch[k]).wf(),
                    (ch@, br@) == fine_gains(c2, i as nat),
                decreases nfchans - i,
            {
                ch.push(read_fine_gain(br));
                i = i + 1;
            }
            self.ch = ch;
            if lfeon {
                self.lfe = read_fine_gain(br);
            }
        }
    }
}

// ---------------------------------------------------------------------------
// Delta bit allocation
// ---------------------------------------------------------------------------

/// The delta bit allocation of one channel: what to do with it (0 reuse, 1 new,
/// 2 none) and its segments.
pub struct ChannelDelta {
    pub bae: u8,
    pub segs: Vec<DeltaSegment>,
}

/// The delta bit allocation of one channel with its segments as a sequence.
#[verifier::ext_equal]
pub struct DeltaView {
    pub bae: u8,
    pub segs: Seq<DeltaSegment>,
}

impl View for ChannelDelta {
    type V = DeltaView;

    open spec fn view(&self) -> DeltaView {
        DeltaView { bae: self.bae, segs: self.segs@ }
    }
}

/// The delta bit allocations of all channels.
pub open spec fn delta_rows(v: Seq<ChannelDelta>) -> Seq<DeltaView> {
    Seq::new(v.len(), |i: int| v[i]@)
}

/// At most eight segments per channel.
pub open spec fn deltas_wf(v: Seq<DeltaView>) -> bool {
    forall|i: int| 0 <= i < v.len() ==> (#[trigger] v[i]).segs.len() <= 8
}

/// A segment of no bands.
pub open spec fn empty_segment() -> DeltaSegment {
    DeltaSegment { offset: 0, len: 0, ba: 0 }
}

/// The delta bit allocations before any have been read.
pub open spec fn initial_deltas(nfchans: nat) -> Seq<DeltaView> {
    Seq::new(nfchans, |i: int| DeltaView { bae: 2, segs: seq![empty_segment()] })
}

/// The segments that apply to a channel.
pub open spec fn active_delta(d: DeltaView) -> Option<Seq<DeltaSegment>> {
    if d.bae == 0 || d.bae == 1 {
        Some(d.segs)
    } else {
        None
    }
}

/// The next `n` segments.
pub open spec fn segments(c: Cursor, n: nat) -> (Seq<DeltaSegment>, Cursor)
    decreases n,
{
    if n == 0 {
        (Seq::empty(), c)
    } else {
        let (s, d) = segments(c, (n - 1) as nat);
        (
            s.push(DeltaSegment { offset: d.value(5) as u8, len: d.after(5).value(4) as u8, ba: d.after(5).after(4).value(3) as u8 }),
            d.after(5).after(4).after(3),
        )
    }
}

/// The channels once the strategies `bae` apply and the new segments of the
/// first `n` channels have been read.
pub open spec fn channel_deltas(c: Cursor, prev: Seq<DeltaView>, bae: Seq<u8>, n: nat) -> (Seq<DeltaView>, Cursor)
    decreases n,
{
    if n == 0 {
        (Seq::new(prev.len(), |i: int| DeltaView { bae: bae[i], segs: prev[i].segs }), c)
    } else {
        let (s, d) = channel_deltas(c, prev, bae, (n - 1) as nat);
        if bae[n - 1] == 1 {
            let (segs, e) = segments(d.after(3), (d.value(3) + 1) as nat);
            (s.update(n - 1, DeltaView { bae: 1, segs }), e)
        } else {
            (s, d)
        }
    }
}

/// The delta bit allocation of a block behind its presence flag; the first block
/// without one clears it.
pub open spec fn optional_deltas(c: Cursor, prev: Seq<DeltaView>, in_use: bool, first: bool) -> (Seq<DeltaView>, Cursor) {
    if c.flag() {
        let c1 = c.after(1);
        let c2 = if in_use { c1.after(2) } else { c1 };
        let bae = codes(c2, prev.len(), 2);
        let c3 = codes_end(c2, prev.len(), 2);
        let c4 = if in_use && c1.value(2) == 1 { c3.after(3) } else { c3 };
        channel_deltas(c4, prev, bae, prev.len())
    } else {
        (if first { cleared_deltas(prev) } else { prev }, c.after(1))
    }
}

/// No channel has a delta bit allocation.
pub open spec fn cleared_deltas(prev: Seq<DeltaView>) -> Seq<DeltaView> {
    Seq::new(prev.len(), |i: int| DeltaView { bae: 2, segs: prev[i].segs })
}

fn read_segments(br: &mut BitReader, n: usize) -> (r: Vec<DeltaSegment>)
    requires
        old(br).wf(),
    ensures
        final(br).wf(),
        r.len() == n,
        (r@, final(br)@) == segments(old(br)@, n as nat),
{
    let ghost c = br@;
    let mut r: Vec<DeltaSegment> = Vec::new();
    let mut i: usize = 0;
    while i < n
        invariant
            i <= n,
            br.wf(),
            r.len() == i,
            (r@, br@) == segments(c, i as nat),
        decreases n - i,
    {
        proof {
            lemma2_to64();
        }
        let offset: u8 = br.read(5) as u8;
        let len: u8 = br.read(4) as u8;
        let ba: u8 = br.read(3) as u8;
        r.push(DeltaSegment { offset, len, ba });
        i = i + 1;
    }
    r
}

/// No delta bit allocation yet.
pub fn new_deltas(nfchans: usize) -> (r: Vec<ChannelDelta>)
    ensures
        delta_rows(r@) == initial_deltas(nfchans as nat),
        deltas_wf(delta_rows(r@)),
{
    let mut r: Vec<ChannelDelta> = Vec::new();
    let mut i: usize = 0;
    while i < nfchans
        invariant
            i <= nfchans,
            r.len() == i,
            forall|k: int| 0 <= k < i ==> (#[trigger] r[k])@ == (DeltaView { bae: 2, segs: seq![empty_segment()] }),
        decreases nfchans - i,
    {
        let segs: Vec<DeltaSegment> = vec![DeltaSegment { offset: 0, len: 0, ba: 0 }];
        let d: ChannelDelta = ChannelDelta { bae: 2, segs };
        assert(d@ =~= (DeltaView { bae: 2, segs: seq![empty_segment()] }));
        r.push(d);
        i = i + 1;
    }
    assert(delta_rows(r@) =~= initial_deltas(nfchans as nat));
    r
}

/// Clear the delta bit allocation of every channel.
pub fn clear_deltas(v: &mut Vec<ChannelDelta>)
    ensures
        final(v).len() == old(v).len(),
        delta_rows(final(v)@) == cleared_deltas(delta_rows(old(v)@)),
        deltas_wf(delta_rows(old(v)@)) ==> deltas_wf(delta_rows(final(v)@)),
{
    let ghost prev = delta_rows(v@);
    let n: usize = v.len();
    let mut i: usize = 0;
    while i < n
        invariant
            i <= n,
            v.len() == n,
            prev.len() == n,
            forall|k: int| 0 <= k < n ==> (#[trigger] v[k])@ == (DeltaView {
                bae: if k < i { 2 } else { prev[k].bae },
                segs: prev[k].segs,
            }),
        decreases n - i,
    {
        v[i].bae = 2;
        i = i + 1;
    }
    assert(delta_rows(v@) =~= cleared_deltas(prev));
    proof {
        if deltas_wf(prev) {
            assert forall|k: int| 0 <= k < n implies (#[trigger] delta_rows(v@)[k]).segs.len() <= 8 by {
                assert(prev[k].segs.len() <= 8);
            }
        }
    }
}

/// Read the delta bit allocation of a block behind its presence flag.
pub fn read_deltas(br: &mut BitReader, v: &mut Vec<ChannelDelta>, in_use: bool, first: bool)
    requires
        old(br).wf(),
        deltas_wf(delta_rows(old(v)@)),
    ensures
        final(br).wf(),
        final(v).len() == old(v).len(),
        deltas_wf(delta_rows(final(v)@)),
        (delta_rows(final(v)@), final(br)@) == optional_deltas(old(br)@, delta_rows(old(v)@), in_use, first),
{
    let ghost prev = delta_rows(v@);
    let ghost c = br@;
    if br.read_bool() {
        proof {
            lemma2_to64();
        }
        let n: usize = v.len();
        let mut cplbae: u32 = 0;
        if in_use {
            cplbae = br.read(2);
        }
        let bae: Vec<u8> = read_codes2(br, n);
        if in_use && cplbae == 1 {
            br.read(3);
        }
        let ghost c4 = br@;
        let mut i: usize = 0;
        while i < n
            invariant
                i <= n,
                v.len() == n,
                bae.len() == n,
                prev.len() == n,
                forall|k: int| 0 <= k < n ==> (#[trigger] v[k])@ == (DeltaView {
                    bae: if k < i { bae[k] } else { prev[k].bae },
                    segs: prev[k].segs,
                }),
            decreases n - i,
        {
            v[i].bae = bae[i];
            i = i + 1;
        }
        assert(delta_rows(v@) =~= channel_deltas(c4, prev, bae@, 0).0);
        assert(deltas_wf(delta_rows(v@))) by {
            assert forall|k: int| 0 <= k < n implies (#[trigger] delta_rows(v@)[k]).segs.len() <= 8 by {
                assert(prev[k].segs.len() <= 8);
            }
        }
        let mut ch: usize = 0;
        while ch < n
            invariant
                ch <= n,
                v.len() == n,
                bae.len() == n,
                br.wf(),
                deltas_wf(delta_rows(v@)),
                forall|k: int| ch <= k < n ==> (#[trigger] v[k]).bae == bae[k],
                (delta_rows(v@), br@) == channel_deltas(c4, prev, bae@, ch as nat),
            decreases n - ch,
        {
            let ghost s = delta_rows(v@);
            if bae[ch] == 1 {
                proof {
                    lemma2_to64();
                }
                let nseg: usize = br.read(3) as usize;
                v[ch].segs = read_segments(br, nseg + 1);
                assert(delta_rows(v@) =~= channel_deltas(c4, prev, bae@, (ch + 1) as nat).0);
                assert(deltas_wf(delta_rows(v@))) by {
                    assert forall|k: int| 0 <= k < n implies (#[trigger] delta_rows(v@)[k]).segs.len() <= 8 by {
                        assert(s[k].segs.len() <= 8);
                    }
                }
            }
            ch = ch + 1;
        }
    } else if first {
        clear_deltas(v);
    }
}

// ---------------------------------------------------------------------------
// The allocation of a block
// ---------------------------------------------------------------------------

/// The fast gain and the SNR offset of one channel.
#[derive(Clone, Copy, Debug, PartialEq, Eq, Structural)]
pub struct Gain {
    pub fgain: i32,
    pub snroffset: i32,
}

impl Gain {
    /// Both are levels that the bit allocation can work with.
    pub open spec fn wf(self) -> bool {
        level_ok(self.fgain as int) && level_ok(self.snroffset as int)
    }
}

/// The gain that an AC-3 block gives a channel.
pub open spec fn block_gain(csnroffst: int, f: FineGain) -> Gain {
    Gain { fgain: FAST_GAIN[f.fgaincod as int] as i32, snroffset: snr_offset(csnroffst, f.fsnroffst as int) as i32 }
}

/// The gain that an AC-3 block gives a channel.
pub fn gain_of(csnroffst: i32, f: FineGain) -> (g: Gain)
    requires
        0 <= csnroffst < 64,
        f.wf(),
    ensures
        g == block_gain(csnroffst as int, f),
        g.wf(),
{
    Gain { fgain: FAST_GAIN[f.fgaincod] as i32, snroffset: (16 * (csnroffst - 15) + f.fsnroffst) * 4 }
}

/// The allocation pointers of channel `ch`.
pub open spec fn channel_baps(fscod: int, ba: BaParams, v: SpectrumView, gains: Seq<Gain>, deltas: Seq<DeltaView>, ch: int) -> Seq<u8> {
    allocation(
        fscod,
        ba,
        0,
        v.endmant[ch] as int,
        v.exps[ch],
        gains[ch].fgain as int,
        gains[ch].snroffset as int,
        0,
        0,
        active_delta(deltas[ch]),
        zero_bins(),
    )
}

/// The allocation pointers of every channel.
pub open spec fn all_baps(fscod: int, ba: BaParams, v: SpectrumView, gains: Seq<Gain>, deltas: Seq<DeltaView>) -> Seq<Seq<u8>> {
    Seq::new(v.endmant.len(), |ch: int| channel_baps(fscod, ba, v, gains, deltas, ch))
}

/// The allocation pointers of the coupling channel.
pub open spec fn coupling_baps(fscod: int, ba: BaParams, v: SpectrumView, s: StrategyView, gain: Gain, fastleak: int, slowleak: int, prev: Seq<u8>) -> Seq<u8> {
    allocation(
        fscod,
        ba,
        12 * s.begf + 37,
        12 * (s.endf + 3) + 37,
        v.cplexps,
        gain.fgain as int,
        gain.snroffset as int,
        fastleak,
        slowleak,
        None,
        prev,
    )
}

/// The allocation pointers of the LFE channel.
pub open spec fn lfe_baps(fscod: int, ba: BaParams, v: SpectrumView, gain: Gain) -> Seq<u8> {
    allocation(fscod, ba, 0, LFE_COEFS as int, v.lfeexps, gain.fgain as int, gain.snroffset as int, 0, 0, None, zero_bins())
}

/// Allocate every channel.
pub fn allocate_channels(fscod: usize, ba: &BaParams, sp: &Spectrum, gains: &Vec<Gain>, deltas: &Vec<ChannelDelta>) -> (r: Vec<[u8; 256]>)
    requires
        ba.wf(),
        sp@.wf(gains.len() as int),
        deltas.len() == gains.len(),
        deltas_wf(delta_rows(deltas@)),
        forall|i: int| 0 <= i < gains.len() ==> (#[trigger] gains[i]).wf(),
    ensures
        r.len() == gains.len(),
        bin_rows(r@) == all_baps(fscod as int, *ba, sp@, gains@, delta_rows(deltas@)),
{
    let n: usize = gains.len();
    let ghost rows = delta_rows(deltas@);
    let mut r: Vec<[u8; 256]> = Vec::new();
    let mut ch: usize = 0;
    while ch < n
        invariant
            ch <= n,
            n == gains.len(),
            r.len() == ch,
            ba.wf(),
            sp@.wf(n as int),
            deltas.len() == n,
            rows == delta_rows(deltas@),
            deltas_wf(rows),
            forall|i: int| 0 <= i < n ==> (#[trigger] gains[i]).wf(),
            forall|k: int| 0 <= k < ch ==> (#[trigger] r[k])@ == channel_baps(fscod as int, *ba, sp@, gains@, rows, k),
        decreases n - ch,
    {
        assert(rows[ch as int].segs.len() <= 8);
        assert(37 <= sp@.endmant[ch as int] <= 253);
        let mut bap: [u8; 256] = [0; 256];
        assert(bap@ =~= zero_bins());
        let delt: Option<&Vec<DeltaSegment>> = if deltas[ch].bae == 0 || deltas[ch].bae == 1 {
            Some(&deltas[ch].segs)
        } else {
            None
        };
        bit_allocation(fscod, ba, 0, sp.endmant[ch], &sp.exps[ch], gains[ch].fgain, gains[ch].snroffset, 0, 0, delt, &mut bap);
        assert(sp@.exps[ch as int] == sp.exps@[ch as int]@);
        r.push(bap);
        ch = ch + 1;
    }
    assert(bin_rows(r@) =~= all_baps(fscod as int, *ba, sp@, gains@, rows));
    r
}

/// Allocate the LFE channel.
pub fn allocate_lfe(fscod: usize, ba: &BaParams, sp: &Spectrum, gain: Gain) -> (r: [u8; 256])
    requires
        ba.wf(),
        gain.wf(),
    ensures
        r@ == lfe_baps(fscod as int, *ba, sp@, gain),
{
    let mut bap: [u8; 256] = [0; 256];
    assert(bap@ =~= zero_bins());
    bit_allocation(fscod, ba, 0, LFE_COEFS, &sp.lfeexps, gain.fgain, gain.snroffset, 0, 0, None, &mut bap);
    bap
}

// ---------------------------------------------------------------------------
// Laws
// ---------------------------------------------------------------------------

proof fn lemma_correction(k: int)
    requires
        0 <= k < 256,
    ensures
        LATAB[k] <= 64,
        k >= 211 ==> LATAB[k] == 0,
{
}

proof fn lemma_pointer_order(j: int, k: int)
    requires
        0 <= j <= k < 64,
    ensures
        BAPTAB[j] <= BAPTAB[k],
{
}

proof fn lemma_threshold(r: int, k: int)
    requires
        0 <= r < 3,
        0 <= k < 50,
    ensures
        HTH[r][k] <= 2112,
{
}

/// Levels of bands that exponents up to 24 make.
spec fn levels_tame(p: Seq<int>) -> bool {
    p.len() == 64 && forall|k: int| 0 <= k < 64 ==> 0 <= #[trigger] p[k] <= 3648
}

proof fn lemma_psd_sum_tame(exp: Seq<u8>, lo: int, hi: int)
    requires
        0 <= lo < hi <= exp.len(),
        forall|i: int| 0 <= i < exp.len() ==> #[trigger] exp[i] <= 24,
    ensures
        0 <= psd_sum(exp, lo, hi) <= 3648,
    decreases hi - lo,
{
    assert(exp[lo] <= 24);
    if hi > lo + 1 {
        lemma_psd_sum_tame(exp, lo, hi - 1);
        let a = psd_sum(exp, lo, hi - 1);
        assert(exp[hi - 1] <= 24);
        let b = bin_psd(exp[hi - 1]);
        let c = if a >= b { a - b } else { b - a };
        lemma_correction(if c / 2 < 255 { c / 2 } else { 255 });
    }
}

proof fn lemma_levels_tame(exp: Seq<u8>, start: int, end: int)
    requires
        0 <= start < end <= 253,
        exp.len() == 256,
        forall|i: int| 0 <= i < exp.len() ==> #[trigger] exp[i] <= 24,
    ensures
        levels_tame(band_levels(exp, start, end)),
{
    assert forall|k: int| 0 <= k < 64 implies 0 <= #[trigger] band_levels(exp, start, end)[k] <= 3648 by {
        let lo = if band_start(k) < start { start } else { band_start(k) };
        let hi = if band_start(k + 1) < end { band_start(k + 1) } else { end };
        if k < 50 && lo < hi {
            lemma_psd_sum_tame(exp, lo, hi);
        }
    }
}

/// An excitation that stays below the levels that make it.
spec fn excitation_tame(s: Excitation) -> bool {
    &&& s.fast <= 3520
    &&& s.slow <= 3520
    &&& s.low >= 0
    &&& s.excite.len() == 64
    &&& forall|k: int| 0 <= k < 64 ==> #[trigger] s.excite[k] <= 3520
}

/// Gains and decays as the tables have them.
spec fn gains_tame(ba: BaParams, fgain: int) -> bool {
    fgain >= 128 && ba.sgain >= 128 && ba.fdecay >= 0 && ba.sdecay >= 0
}

proof fn lemma_rise_tame(s: Excitation, p: Seq<int>, ba: BaParams, fgain: int, bndend: int, bin: int)
    requires
        excitation_tame(s),
        levels_tame(p),
        gains_tame(ba, fgain),
        2 <= bin <= 7,
    ensures
        excitation_tame(excite_rise(s, p, ba, fgain, bndend, bin).0),
        2 <= excite_rise(s, p, ba, fgain, bndend, bin).1 <= 7,
    decreases 7 - bin,
{
    if bin < 7 && bin < bndend {
        let t = excite_rise_step(s, p, ba, fgain, bndend, bin);
        assert(0 <= p[bin] <= 3648);
        assert(excitation_tame(t));
        if !(!(bndend == 7 && bin == 6) && p[bin] <= p[bin + 1]) {
            lemma_rise_tame(t, p, ba, fgain, bndend, bin + 1);
        }
    }
}

proof fn lemma_decay_tame(s: Excitation, p: Seq<int>, ba: BaParams, fgain: int, bndend: int, low_part: bool, bin: int, to: int)
    requires
        excitation_tame(s),
        levels_tame(p),
        gains_tame(ba, fgain),
        0 <= bin,
        to <= 50,
    ensures
        excitation_tame(excite_decay(s, p, ba, fgain, bndend, low_part, bin, to)),
    decreases to - bin,
{
    if bin < to {
        let t = excite_decay_step(s, p, ba, fgain, bndend, low_part, bin);
        assert(0 <= p[bin] <= 3648);
        assert(excitation_tame(t));
        lemma_decay_tame(t, p, ba, fgain, bndend, low_part, bin + 1, to);
    }
}

proof fn lemma_excitation_tame(p: Seq<int>, ba: BaParams, fgain: int, fastleak: int, slowleak: int, bndstrt: int, bndend: int)
    requires
        levels_tame(p),
        gains_tame(ba, fgain),
        fastleak <= 2560,
        slowleak <= 2560,
        0 <= bndstrt,
        bndend <= 50,
    ensures
        forall|k: int| 0 <= k < 64 ==> #[trigger] excitation(p, ba, fgain, fastleak, slowleak, bndstrt, bndend)[k] <= 3520,
{
    let s0 = Excitation { fast: fastleak, slow: slowleak, low: 0, excite: Seq::new(64, |k: int| 0) };
    assert(excitation_tame(s0));
    if bndstrt == 0 {
        let s = excite_lowest(s0, p, fgain);
        assert(0 <= p[0] <= 3648 && 0 <= p[1] <= 3648);
        assert(excitation_tame(s));
        lemma_rise_tame(s, p, ba, fgain, bndend, 2);
        let (s1, begin) = excite_rise(s, p, ba, fgain, bndend, 2);
        let to = if bndend < 22 { bndend } else { 22 };
        lemma_decay_tame(s1, p, ba, fgain, bndend, true, begin, to);
        lemma_decay_tame(excite_decay(s1, p, ba, fgain, bndend, true, begin, to), p, ba, fgain, bndend, false, 22, bndend);
    } else {
        lemma_decay_tame(s0, p, ba, fgain, bndend, false, bndstrt, bndend);
    }
}

/// Each band is in one delta segment at most.
proof fn lemma_delta_once(mask: Seq<int>, segs: Seq<DeltaSegment>, n: int, b: int)
    requires
        0 <= n <= segs.len(),
        0 <= b < mask.len(),
        forall|i: int| 0 <= i < segs.len() ==> (#[trigger] segs[i]).ba < 8,
    ensures
        with_deltas(mask, segs, n).len() == mask.len(),
        with_deltas(mask, segs, n)[b] <= mask[b] + 512,
        b >= delta_band(segs, n) ==> with_deltas(mask, segs, n)[b] == mask[b],
    decreases n,
{
    if n > 0 {
        lemma_delta_once(mask, segs, n - 1, b);
        assert(segs[n - 1].ba < 8);
    }
}

/// The masking curve of a channel stays below 4736 where exponents, gains and delta
/// segments are such as a bitstream has them.
pub proof fn law_mask_is_bounded(fscod: int, codes: BaCodes, start: int, end: int, exp: Seq<u8>, fgaincod: int, fastleak: int, slowleak: int, delt: Option<Seq<DeltaSegment>>, k: int)
    requires
        0 <= fscod,
        codes.wf(),
        0 <= start < end <= 253,
        exp.len() == 256,
        forall|i: int| 0 <= i < exp.len() ==> #[trigger] exp[i] <= 24,
        0 <= fgaincod < 8,
        fastleak <= 2560,
        slowleak <= 2560,
        delt matches Some(segs) ==> forall|i: int| 0 <= i < segs.len() ==> (#[trigger] segs[i]).ba < 8,
        0 <= k < 64,
    ensures
        channel_mask(fscod, codes.params(), start, end, exp, FAST_GAIN[fgaincod] as int, fastleak, slowleak, delt)[k] <= 4736,
{
    let ba = codes.params();
    let fgain = FAST_GAIN[fgaincod] as int;
    let p = band_levels(exp, start, end);
    let bndstrt = bin_band(start);
    let bndend = bin_band(end - 1) + 1;
    lemma_bin_band(start);
    lemma_bin_band(end - 1);
    lemma_levels_tame(exp, start, end);
    assert(gains_tame(ba, fgain));
    lemma_excitation_tame(p, ba, fgain, fastleak, slowleak, bndstrt, bndend);
    let excite = excitation(p, ba, fgain, fastleak, slowleak, bndstrt, bndend);
    let curve = masking_curve(excite, p, ba.dbknee as int, fscod, bndstrt, bndend);
    assert(ba.dbknee <= 2816);
    if bndstrt <= k < bndend {
        assert(excite[k] <= 3520);
        assert(0 <= p[k] <= 3648);
        lemma_threshold(if fscod < 2 { fscod } else { 2 }, k);
    }
    assert(curve[k] <= 4224);
    if let Some(segs) = delt {
        lemma_delta_once(curve, segs, segs.len() as int, k);
    }
}

proof fn lemma_mask_order(mask: int, low: int, high: int, floor: int)
    requires
        low <= high,
        mask - low - floor < 8192,
    ensures
        effective_mask(mask, high, floor) <= effective_mask(mask, low, floor),
{
    let a = mask - low - floor;
    let b = mask - high - floor;
    if b >= 0 {
        assert(a % 8192 == a && b % 8192 == b);
        assert(b / 32 <= a / 32);
    }
}

proof fn lemma_bap_order(e: u8, mask: int, low: int, high: int, floor: int)
    requires
        low <= high,
        mask - low - floor < 8192,
    ensures
        bap_of(e, mask, low, floor) <= bap_of(e, mask, high, floor),
{
    lemma_mask_order(mask, low, high, floor);
    let da = bin_psd(e) - effective_mask(mask, low, floor);
    let db = bin_psd(e) - effective_mask(mask, high, floor);
    let ia = if da < 0 { 0 } else if da / 32 > 63 { 63 } else { da / 32 };
    let ib = if db < 0 { 0 } else if db / 32 > 63 { 63 } else { db / 32 };
    assert(ia <= ib);
    lemma_pointer_order(ia, ib);
}

proof fn lemma_floor(codes: BaCodes)
    requires
        codes.wf(),
    ensures
        codes.params().floor >= -2048,
{
}

/// A larger SNR offset never takes mantissa bits away.
pub proof fn law_snr_never_takes_bits(
    fscod: int,
    codes: BaCodes,
    start: int,
    end: int,
    exp: Seq<u8>,
    fgaincod: int,
    low: int,
    high: int,
    fastleak: int,
    slowleak: int,
    delt: Option<Seq<DeltaSegment>>,
    bap: Seq<u8>,
    i: int,
)
    requires
        0 <= fscod,
        codes.wf(),
        0 <= start < end <= 253,
        exp.len() == 256,
        forall|j: int| 0 <= j < exp.len() ==> #[trigger] exp[j] <= 24,
        0 <= fgaincod < 8,
        -960 <= low <= high,
        fastleak <= 2560,
        slowleak <= 2560,
        delt matches Some(segs) ==> forall|j: int| 0 <= j < segs.len() ==> (#[trigger] segs[j]).ba < 8,
        start <= i < end,
    ensures
        ({
            let ba = codes.params();
            let fgain = FAST_GAIN[fgaincod] as int;
            allocation(fscod, ba, start, end, exp, fgain, low, fastleak, slowleak, delt, bap)[i] <= allocation(
                fscod,
                ba,
                start,
                end,
                exp,
                fgain,
                high,
                fastleak,
                slowleak,
                delt,
                bap,
            )[i]
        }),
{
    let ba = codes.params();
    let k = bin_band(i);
    lemma_bin_band(i);
    law_mask_is_bounded(fscod, codes, start, end, exp, fgaincod, fastleak, slowleak, delt, k);
    lemma_floor(codes);
    let mask = channel_mask(fscod, ba, start, end, exp, FAST_GAIN[fgaincod] as int, fastleak, slowleak, delt);
    lemma_bap_order(exp[i], mask[k], low, high, ba.floor as int);
}

/// Steps of the signal-to-noise ratio: a fine one is 4, sixteen fine ones are a coarse
/// one, and the coarse offset 15 is none.
pub proof fn law_snr_steps(coarse: int, fine: int)
    ensures
        snr_offset(coarse, fine + 1) == snr_offset(coarse, fine) + 4,
        snr_offset(coarse + 1, fine) == snr_offset(coarse, fine + 16),
        snr_offset(15, 0) == 0,
{
}

/// A louder bin does not get fewer bits than a quieter one under the same mask.
pub proof fn law_louder_bins_get_bits(loud: u8, quiet: u8, mask: int, snroffset: int, floor: int)
    requires
        loud <= quiet,
    ensures
        bap_of(loud, mask, snroffset, floor) >= bap_of(quiet, mask, snroffset, floor),
        bin_psd(loud) <= effective_mask(mask, snroffset, floor) ==> bap_of(loud, mask, snroffset, floor) == 0,
        bap_of(loud, mask, snroffset, floor) <= 15,
{
    let m = effective_mask(mask, snroffset, floor);
    let dl = bin_psd(loud) - m;
    let dq = bin_psd(quiet) - m;
    let il = if dl < 0 { 0 } else if dl / 32 > 63 { 63 } else { dl / 32 };
    let iq = if dq < 0 { 0 } else if dq / 32 > 63 { 63 } else { dq / 32 };
    assert(iq <= il);
    lemma_pointer_order(iq, il);
    lemma_pointer_order(il, 63);
}

/// Five codes of the bit allocation stand behind each other: two bits each of the slow
/// decay, the fast decay, the slow gain and the knee, and three of the floor.
pub proof fn law_allocation_codes(c: Cursor)
    requires
        0 <= c.pos,
        c.pos + 11 <= 8 * c.data.len(),
    ensures
        ({
            let (b, d) = ba_codes(c);
            &&& b.sdcycod == bits_from(c.data, c.pos, 2)
            &&& b.fdcycod == bits_from(c.data, c.pos + 2, 2)
            &&& b.sgaincod == bits_from(c.data, c.pos + 4, 2)
            &&& b.dbpbcod == bits_from(c.data, c.pos + 6, 2)
            &&& b.floorcod == bits_from(c.data, c.pos + 8, 3)
            &&& d == (Cursor { pos: c.pos + 11, ..c })
        }),
{
    lemma2_to64();
    lemma_bits_bound(c.data, c.pos, 2);
    lemma_bits_bound(c.data, c.pos + 2, 2);
    lemma_bits_bound(c.data, c.pos + 4, 2);
    lemma_bits_bound(c.data, c.pos + 6, 2);
    lemma_bits_bound(c.data, c.pos + 8, 3);
}

/// A delta segment has twelve bits: five of its offset, four of its length and three of
/// its shift.
pub proof fn law_delta_segment_bits(c: Cursor)
    requires
        0 <= c.pos,
        c.pos + 12 <= 8 * c.data.len(),
    ensures
        ({
            let (s, d) = segments(c, 1);
            &&& s.len() == 1
            &&& s[0].offset == bits_from(c.data, c.pos, 5)
            &&& s[0].len == bits_from(c.data, c.pos + 5, 4)
            &&& s[0].ba == bits_from(c.data, c.pos + 9, 3)
            &&& d == (Cursor { pos: c.pos + 12, ..c })
        }),
{
    lemma2_to64();
    reveal_with_fuel(segments, 2);
    lemma_bits_bound(c.data, c.pos, 5);
    lemma_bits_bound(c.data, c.pos + 5, 4);
    lemma_bits_bound(c.data, c.pos + 9, 3);
}

/// A fine offset has four bits and a gain three; they stand behind each other.
pub proof fn law_gain_bits(c: Cursor)
    requires
        0 <= c.pos,
        c.pos + 7 <= 8 * c.data.len(),
    ensures
        fine_gain(c).0.fsnroffst == bits_from(c.data, c.pos, 4),
        fine_gain(c).0.fgaincod == bits_from(c.data, c.pos + 4, 3),
        fine_gain(c).1 == (Cursor { pos: c.pos + 7, ..c }),
{
    lemma2_to64();
    lemma_bits_bound(c.data, c.pos, 4);
    lemma_bits_bound(c.data, c.pos + 4, 3);
}

/// Bins behind the end of a channel get no bits, nor do those of the LFE channel from
/// the eighth on.
pub proof fn law_bits_within_channel(fscod: int, ba: BaParams, v: SpectrumView, gains: Seq<Gain>, deltas: Seq<DeltaView>, ch: int, bin: int)
    requires
        0 <= ch < v.endmant.len(),
        0 < v.endmant[ch] <= 256,
        0 <= bin < 256,
    ensures
        channel_baps(fscod, ba, v, gains, deltas, ch).len() == 256,
        bin >= v.endmant[ch] ==> channel_baps(fscod, ba, v, gains, deltas, ch)[bin] == 0,
        bin >= 7 ==> lfe_baps(fscod, ba, v, gains[ch])[bin] == 0,
{
}

/// The steps of the parameters: each code of the decays is 20 more for the fast one and
/// 2 more for the slow one, and each code of the fast gain is 128 more; the slow gain
/// and the floor fall with their codes, and the knee rises.
pub proof fn law_parameter_steps(i: int)
    requires
        0 <= i < 3,
    ensures
        FAST_DECAY[i + 1] == FAST_DECAY[i] + 20,
        SLOW_DECAY[i + 1] == SLOW_DECAY[i] + 2,
        SLOW_GAIN[i + 1] < SLOW_GAIN[i],
        DB_PER_BIT[i + 1] > DB_PER_BIT[i],
        FAST_DECAY[0] == 63 && SLOW_DECAY[0] == 15 && DB_PER_BIT[0] == 0,
        FLOOR[i + 1] < FLOOR[i],
        FAST_GAIN[2 * i + 1] == FAST_GAIN[2 * i] + 128,
        FAST_GAIN[2 * i + 2] == FAST_GAIN[2 * i + 1] + 128,
        FAST_GAIN[0] == 128 && FAST_GAIN[7] == 1024,
{
}

/// The gain of a channel is 128 and 128 more for each step of its code; delta segments
/// count where they are new or used again, and not where there are none.
pub proof fn law_gain_of_code(csnroffst: int, f: FineGain, d: DeltaView)
    requires
        0 <= csnroffst < 64,
        f.wf(),
    ensures
        block_gain(csnroffst, f).fgain == 128 * (f.fgaincod + 1),
        block_gain(csnroffst, f).snroffset == 64 * (csnroffst - 15) + 4 * f.fsnroffst,
        d.bae <= 1 ==> active_delta(d) == Some(d.segs),
        d.bae > 1 ==> active_delta(d) is None,
{
}

} // verus!
