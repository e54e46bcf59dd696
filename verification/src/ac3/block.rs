//! Audio blocks: what they keep from block to block, and how their coefficients
//! are read.

use vstd::prelude::*;

use crate::ac3::allocation::{
    delta_rows, deltas_wf, initial_deltas, initial_snr, new_deltas, BaCodes, ChannelDelta, DeltaView, Snr, SnrView,
};
use crate::ac3::bitstream::BitReader;
use crate::ac3::coupling::{
    no_coordinates, no_coupling, no_flags, rematrix_bins, rematrix_ranges, Coordinates, CoordinatesView, Strategy,
    StrategyView,
};
use crate::ac3::mantissa::{
    channel_coefficients, decouple, decoupled, law_coefficients_by_bin, no_pending, pad_channel, padded, read_channel, zero_coefficient, Coefficient, MantState, MantissaReader,
};
use crate::ac3::spectrum::{bin_rows, initial_spectrum, zero_bins, Spectrum, SpectrumView};
use crate::ac3::tables::LFE_COEFS;

verus! {

/// Audio block state — persists across blocks within a frame.
pub struct AudioBlock {
    pub blksw: Vec<bool>,
    pub dithflag: Vec<bool>,
    pub strategy: Strategy,
    pub coords: Coordinates,
    pub rematflg: Vec<bool>,
    pub spectrum: Spectrum,
    pub codes: BaCodes,
    pub snr: Snr,
    pub cplfleak: i32,
    pub cplsleak: i32,
    pub deltas: Vec<ChannelDelta>,
    pub cplbap: [u8; 256],
}

/// Audio block state as sequences.
#[verifier::ext_equal]
pub struct BlockView {
    pub blksw: Seq<bool>,
    pub dithflag: Seq<bool>,
    pub strategy: StrategyView,
    pub coords: CoordinatesView,
    pub rematflg: Seq<bool>,
    pub spectrum: SpectrumView,
    pub codes: BaCodes,
    pub snr: SnrView,
    pub cplfleak: i32,
    pub cplsleak: i32,
    pub deltas: Seq<DeltaView>,
    pub cplbap: Seq<u8>,
}

impl View for AudioBlock {
    type V = BlockView;

    open spec fn view(&self) -> BlockView {
        BlockView {
            blksw: self.blksw@,
            dithflag: self.dithflag@,
            strategy: self.strategy@,
            coords: self.coords@,
            rematflg: self.rematflg@,
            spectrum: self.spectrum@,
            codes: self.codes,
            snr: self.snr@,
            cplfleak: self.cplfleak,
            cplsleak: self.cplsleak,
            deltas: delta_rows(self.deltas@),
            cplbap: self.cplbap@,
        }
    }
}

impl BlockView {
    /// Every part is well-formed for `nfchans` channels.
    pub open spec fn wf(self, nfchans: int) -> bool {
        &&& self.blksw.len() == nfchans
        &&& self.dithflag.len() == nfchans
        &&& self.strategy.wf(nfchans)
        &&& self.coords.wf(nfchans)
        &&& self.rematflg.len() <= 4
        &&& self.spectrum.wf(nfchans)
        &&& self.codes.wf()
        &&& self.snr.wf(nfchans)
        &&& 0 <= self.cplfleak < 8
        &&& 0 <= self.cplsleak < 8
        &&& self.deltas.len() == nfchans
        &&& deltas_wf(self.deltas)
        &&& self.cplbap.len() == 256
    }
}

/// The state before the first block of a frame.
pub open spec fn initial_block(nfchans: nat) -> BlockView {
    BlockView {
        blksw: Seq::new(nfchans, |i: int| false),
        dithflag: Seq::new(nfchans, |i: int| false),
        strategy: no_coupling(nfchans),
        coords: no_coordinates(nfchans),
        rematflg: Seq::empty(),
        spectrum: initial_spectrum(nfchans),
        codes: BaCodes { sdcycod: 0, fdcycod: 0, sgaincod: 0, dbpbcod: 0, floorcod: 0 },
        snr: initial_snr(nfchans),
        cplfleak: 0,
        cplsleak: 0,
        deltas: initial_deltas(nfchans),
        cplbap: zero_bins(),
    }
}

impl AudioBlock {
    /// The state before the first block of a frame.
    pub fn new(nfchans: usize) -> (r: Self)
        ensures
            r@ == initial_block(nfchans as nat),
            r@.wf(nfchans as int),
    {
        let r: AudioBlock = AudioBlock {
            blksw: no_flags(nfchans),
            dithflag: no_flags(nfchans),
            strategy: Strategy::new(nfchans),
            coords: Coordinates::new(nfchans),
            rematflg: Vec::new(),
            spectrum: Spectrum::new(nfchans),
            codes: BaCodes { sdcycod: 0, fdcycod: 0, sgaincod: 0, dbpbcod: 0, floorcod: 0 },
            snr: Snr::new(nfchans),
            cplfleak: 0,
            cplsleak: 0,
            deltas: new_deltas(nfchans),
            cplbap: [0; 256],
        };
        assert(r@ =~= initial_block(nfchans as nat));
        r
    }
}

// ---------------------------------------------------------------------------
// Coefficients
// ---------------------------------------------------------------------------

/// The coefficients of one audio block: 256 per full-bandwidth channel, seven of
/// the LFE channel, and the ranges of bins in which the first two channels carry
/// sum and difference.
pub struct BlockCoefficients {
    pub channels: Vec<Vec<Coefficient>>,
    pub lfe: Option<Vec<Coefficient>>,
    pub rematrix: Vec<(usize, usize)>,
}

/// The coefficients of one audio block as sequences.
#[verifier::ext_equal]
pub struct CoefficientsView {
    pub channels: Seq<Seq<Coefficient>>,
    pub lfe: Option<Seq<Coefficient>>,
    pub rematrix: Seq<(usize, usize)>,
}

/// The rows of a table of coefficients.
pub open spec fn coefficient_rows(v: Seq<Vec<Coefficient>>) -> Seq<Seq<Coefficient>> {
    Seq::new(v.len(), |i: int| v[i]@)
}

impl View for BlockCoefficients {
    type V = CoefficientsView;

    open spec fn view(&self) -> CoefficientsView {
        CoefficientsView {
            channels: coefficient_rows(self.channels@),
            lfe: match self.lfe {
                Some(v) => Some(v@),
                None => None,
            },
            rematrix: self.rematrix@,
        }
    }
}

/// What has been read of the mantissas of a block: the channels so far, the
/// coupling channel once the first coupled channel has been read, and the state.
#[verifier::ext_equal]
pub struct Mantissas {
    pub channels: Seq<Seq<Coefficient>>,
    pub coupling: Option<Seq<Coefficient>>,
    pub state: MantState,
}

/// The mantissas of the first `n` channels; those of the coupling channel stand
/// right behind the first coupled channel.
pub open spec fn channel_mantissas(baps: Seq<Seq<u8>>, v: BlockView, cplbap: Seq<u8>, n: nat, state: MantState) -> Mantissas
    decreases n,
{
    if n == 0 {
        Mantissas { channels: Seq::empty(), coupling: None, state }
    } else {
        let m = channel_mantissas(baps, v, cplbap, (n - 1) as nat, state);
        let ch = n - 1;
        let (q, s) = channel_coefficients(baps[ch], v.spectrum.exps[ch], v.dithflag[ch], v.spectrum.endmant[ch] as nat, m.state);
        let channels = m.channels.push(padded(q));
        if v.strategy.in_use && v.strategy.chincpl[ch] && m.coupling is None {
            let (cpl, t) = channel_coefficients(cplbap, v.spectrum.cplexps, false, (12 * v.strategy.nsubnd) as nat, s);
            Mantissas { channels, coupling: Some(cpl), state: t }
        } else {
            Mantissas { channels, coupling: m.coupling, state: s }
        }
    }
}

/// The channels once the first `n` of them have been decoupled, and the dither
/// state after that.
pub open spec fn decoupled_channels(channels: Seq<Seq<Coefficient>>, cpl: Seq<Coefficient>, v: BlockView, n: nat, d: u32) -> (Seq<Seq<Coefficient>>, u32)
    decreases n,
{
    if n == 0 {
        (channels, d)
    } else {
        let (s, e) = decoupled_channels(channels, cpl, v, (n - 1) as nat, d);
        let ch = n - 1;
        if v.strategy.chincpl[ch] {
            let (row, f) = decoupled(s[ch], cpl, v.coords.co[ch], v.strategy.begf, v.dithflag[ch], cpl.len(), e);
            (s.update(ch, row), f)
        } else {
            (s, e)
        }
    }
}

/// The coefficients of a block, the cursor behind them and the dither state
/// after them.
#[verifier::opaque]
pub open spec fn block_coefficients(
    baps: Seq<Seq<u8>>,
    lfebap: Option<Seq<u8>>,
    v: BlockView,
    acmod: u8,
    state: MantState,
) -> (CoefficientsView, MantState) {
    let n = v.dithflag.len();
    let m = channel_mantissas(baps, v, v.cplbap, n, state);
    let (lfe, s) = match lfebap {
        Some(b) => {
            let (q, t) = channel_coefficients(b, v.spectrum.lfeexps, false, LFE_COEFS as nat, m.state);
            (Some(q), t)
        },
        None => (None, m.state),
    };
    let (channels, d) = match m.coupling {
        Some(cpl) if v.strategy.in_use => decoupled_channels(m.channels, cpl, v, n, s.dither),
        _ => (m.channels, s.dither),
    };
    let rematrix = if acmod == 2 {
        rematrix_ranges(v.rematflg, v.strategy.in_use, v.strategy.begf, v.rematflg.len())
    } else {
        Seq::empty()
    };
    (CoefficientsView { channels, lfe, rematrix }, MantState { dither: d, ..s })
}

/// Read the coefficients of a block.
pub fn read_coefficients(
    br: &mut BitReader,
    state: &mut u32,
    ab: &AudioBlock,
    baps: &Vec<[u8; 256]>,
    lfebap: Option<[u8; 256]>,
    acmod: u8,
) -> (r: BlockCoefficients)
    requires
        old(br).wf(),
        ab@.wf(baps.len() as int),
    ensures
        final(br).wf(),
        ({
            let start = MantState { cur: old(br)@, pending: no_pending(), dither: *old(state) };
            let lfe = match lfebap {
                Some(b) => Some(b@),
                None => None,
            };
            let (out, end) = block_coefficients(bin_rows(baps@), lfe, ab@, acmod, start);
            r@ == out && final(br)@ == end.cur && *final(state) == end.dither
        }),
        r.channels.len() == baps.len(),
        forall|i: int| 0 <= i < r.channels.len() ==> (#[trigger] r.channels[i]).len() == 256,
{
    proof {
        reveal(block_coefficients);
    }
    let ghost start = MantState { cur: br@, pending: no_pending(), dither: *state };
    let ghost rows = bin_rows(baps@);
    let ghost v = ab@;
    let n: usize = baps.len();
    let mut reader: MantissaReader = MantissaReader::new();
    let mut channels: Vec<Vec<Coefficient>> = Vec::new();
    let mut coupling: Option<Vec<Coefficient>> = None;
    let mut ch: usize = 0;
    while ch < n
        invariant
            ch <= n,
            n == baps.len(),
            rows == bin_rows(baps@),
            v == ab@,
            v.wf(n as int),
            br.wf(),
            reader.wf(),
            channels.len() == ch,
            forall|i: int| 0 <= i < ch ==> (#[trigger] channels[i]).len() == 256,
            coupling matches Some(q) ==> q.len() == 12 * v.strategy.nsubnd,
            ({
                let m = channel_mantissas(rows, v, v.cplbap, ch as nat, start);
                &&& m.channels == coefficient_rows(channels@)
                &&& m.coupling is Some == coupling is Some
                &&& coupling matches Some(q) ==> m.coupling == Some(q@)
                &&& m.state == (MantState { cur: br@, pending: reader@, dither: *state })
            }),
        decreases n - ch,
    {
        let ghost m = channel_mantissas(rows, v, v.cplbap, ch as nat, start);
        assert(v.spectrum.endmant[ch as int] <= 253);
        assert(rows[ch as int] == baps@[ch as int]@);
        assert(v.spectrum.exps[ch as int] == ab.spectrum.exps@[ch as int]@);
        let mut q: Vec<Coefficient> = read_channel(
            br,
            &mut reader,
            state,
            &baps[ch],
            &ab.spectrum.exps[ch],
            ab.dithflag[ch],
            ab.spectrum.endmant[ch],
        );
        let ghost raw = q@;
        pad_channel(&mut q);
        channels.push(q);
        assert(coefficient_rows(channels@) =~= m.channels.push(padded(raw)));
        if ab.strategy.in_use && ab.strategy.chincpl[ch] && coupling.is_none() {
            coupling = Some(
                read_channel(
                    br,
                    &mut reader,
                    state,
                    &ab.cplbap,
                    &ab.spectrum.cplexps,
                    false,
                    12 * ab.strategy.nsubnd,
                ),
            );
        }
        ch = ch + 1;
    }
    let ghost m = channel_mantissas(rows, v, v.cplbap, n as nat, start);
    let lfe: Option<Vec<Coefficient>> = match lfebap {
        Some(b) => Some(read_channel(br, &mut reader, state, &b, &ab.spectrum.lfeexps, false, LFE_COEFS)),
        None => None,
    };
    let ghost d0 = *state;
    let ghost c0 = coefficient_rows(channels@);
    if ab.strategy.in_use {
        if let Some(cpl) = &coupling {
            let mut k: usize = 0;
            while k < n
                invariant
                    k <= n,
                    v == ab@,
                    v.wf(n as int),
                    cpl.len() == 12 * v.strategy.nsubnd,
                    channels.len() == n,
                    forall|i: int| 0 <= i < n ==> (#[trigger] channels[i]).len() == 256,
                    (coefficient_rows(channels@), *state) == decoupled_channels(c0, cpl@, v, k as nat, d0),
                decreases n - k,
            {
                let ghost s = coefficient_rows(channels@);
                if ab.strategy.chincpl[k] {
                    assert(v.coords.co[k as int].len() == 18);
                    assert(v.coords.co[k as int] == ab.coords.co@[k as int]@);
                    decouple(
                        &mut channels[k],
                        cpl,
                        &ab.coords.co[k],
                        ab.strategy.begf,
                        ab.dithflag[k],
                        state,
                    );
                    assert(coefficient_rows(channels@) =~= decoupled_channels(c0, cpl@, v, (k + 1) as nat, d0).0);
                }
                k = k + 1;
            }
        }
    }
    let rematrix: Vec<(usize, usize)> = if acmod == 2 {
        rematrix_bins(&ab.rematflg, ab.strategy.in_use, ab.strategy.begf)
    } else {
        Vec::new()
    };
    BlockCoefficients { channels, lfe, rematrix }
}

// ---------------------------------------------------------------------------
// Laws
// ---------------------------------------------------------------------------

/// The coefficients of a block: 256 of each channel, seven of the LFE channel where
/// there is one, and sum and difference only in stereo. A channel that is not coupled
/// has the exponents of its bins up to its end, and zeros behind it.
pub proof fn law_block_parts(baps: Seq<Seq<u8>>, lfebap: Option<Seq<u8>>, v: BlockView, acmod: u8, state: MantState, ch: int, bin: int)
    requires
        v.wf(v.dithflag.len() as int),
        0 <= ch < v.dithflag.len(),
        0 <= bin < 256,
        !v.strategy.chincpl[ch],
    ensures
        ({
            let out = block_coefficients(baps, lfebap, v, acmod, state).0;
            &&& out.channels.len() == v.dithflag.len()
            &&& out.channels[ch].len() == 256
            &&& bin < v.spectrum.endmant[ch] ==> out.channels[ch][bin].exp == v.spectrum.exps[ch][bin]
            &&& bin >= v.spectrum.endmant[ch] ==> out.channels[ch][bin] == zero_coefficient()
            &&& out.lfe is Some <==> lfebap is Some
            &&& out.lfe matches Some(l) ==> l.len() == 7
            &&& acmod != 2 ==> out.rematrix.len() == 0
        }),
{
    reveal(block_coefficients);
    let n = v.dithflag.len();
    let m = channel_mantissas(baps, v, v.cplbap, n, state);
    lemma_channel_rows(baps, v, v.cplbap, n, state, ch, bin);
    if let Some(cpl) = m.coupling {
        lemma_uncoupled_row(m.channels, cpl, v, n, match lfebap {
            Some(b) => channel_coefficients(b, v.spectrum.lfeexps, false, LFE_COEFS as nat, m.state).1.dither,
            None => m.state.dither,
        }, ch);
    }
    if let Some(b) = lfebap {
        law_coefficients_by_bin(b, v.spectrum.lfeexps, false, LFE_COEFS as nat, m.state, 0);
    }
}

proof fn lemma_channel_rows(baps: Seq<Seq<u8>>, v: BlockView, cplbap: Seq<u8>, n: nat, state: MantState, ch: int, bin: int)
    requires
        0 <= bin < 256,
        forall|i: int| 0 <= i < n ==> 37 <= #[trigger] v.spectrum.endmant[i] <= 253,
    ensures
        channel_mantissas(baps, v, cplbap, n, state).channels.len() == n,
        0 <= ch < n ==> ({
            let row = channel_mantissas(baps, v, cplbap, n, state).channels[ch];
            &&& row.len() == 256
            &&& bin < v.spectrum.endmant[ch] ==> row[bin].exp == v.spectrum.exps[ch][bin]
            &&& bin >= v.spectrum.endmant[ch] ==> row[bin] == zero_coefficient()
        }),
    decreases n,
{
    if n > 0 {
        let m = (n - 1) as nat;
        lemma_channel_rows(baps, v, cplbap, m, state, ch, bin);
        if ch == n - 1 {
            let s = channel_mantissas(baps, v, cplbap, m, state).state;
            let end = v.spectrum.endmant[ch] as nat;
            law_coefficients_by_bin(baps[ch], v.spectrum.exps[ch], v.dithflag[ch], end, s, if bin < end { bin } else { 0 });
        }
    }
}

proof fn lemma_uncoupled_row(channels: Seq<Seq<Coefficient>>, cpl: Seq<Coefficient>, v: BlockView, n: nat, d: u32, ch: int)
    requires
        n <= channels.len(),
        0 <= ch < channels.len(),
        !v.strategy.chincpl[ch],
    ensures
        decoupled_channels(channels, cpl, v, n, d).0.len() == channels.len(),
        decoupled_channels(channels, cpl, v, n, d).0[ch] == channels[ch],
    decreases n,
{
    if n > 0 {
        lemma_uncoupled_row(channels, cpl, v, (n - 1) as nat, d, ch);
    }
}

} // verus!
