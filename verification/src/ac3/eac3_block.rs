//! Audio blocks of E-AC-3.

use vstd::arithmetic::power2::lemma2_to64;
use vstd::prelude::*;

use crate::ac3::allocation::{
    all_baps, allocate_channels, allocate_lfe, ba_codes, clear_deltas, cleared_deltas, coupling_baps, lfe_baps,
    optional_ba_codes, optional_deltas, read_deltas, snr_offset, BaCodes, Gain,
};
use crate::ac3::bitalloc::{bit_allocation, BaParams};
use crate::ac3::bitstream::{bits_from, BitReader, Cursor};
use crate::ac3::block::{
    block_coefficients, read_coefficients, AudioBlock, BlockCoefficients, BlockView, CoefficientsView,
};
use crate::ac3::bsi::{
    block_coupling, dynamic_range_end, pass_skip_field, read_block_coupling, skip_dynamic_range, skip_field_end,
    skip_optional,
};
use crate::ac3::coupling::{
    flags, flags_end, inverted_text, no_flags, read_flags, strategy_fields, strategy_inverted, uncoupled, StrategyView,
};
use crate::ac3::eac3_bsi::{optionals_end, skip_optionals, strategy_rows, BlockHeader, EacBsi, StrategiesView};
use crate::ac3::error::{DecodeError, DecodeFault};
use crate::ac3::mantissa::{no_pending, MantState};
use crate::ac3::spectrum::{block_spectrum, codes_end};
use crate::ac3::tables::{nfchans_of, FAST_GAIN};

verus! {

/// The number of spectral extension bands from `begf` to `endf`, at most 18; a
/// range that ends before it begins counts as the longest one.
pub open spec fn spx_bands(begf: int, endf: int) -> nat {
    if endf + 1 < begf {
        18
    } else {
        (endf + 1 - begf) as nat
    }
}

/// The cursor behind the spectral extension fields of a block.
pub open spec fn spx_end(c: Cursor, acmod: u8, channels: nat, first: bool) -> Cursor {
    let c1 = if first { c } else { c.after(1) };
    if !first && !c.flag() {
        c1
    } else if !c1.flag() {
        c1.after(1)
    } else {
        let c2 = c1.after(1).skipped(if acmod == 1 { 1 } else { channels });
        let begf = 2 * c2.value(2) + (if acmod == 1 { 5int } else { 3 });
        let c3 = c2.after(2);
        let n = spx_bands(begf, c3.value(3) + 1);
        let c4 = c3.after(3).past_optional((if n > 1 { n - 1 } else { 0 }) as nat);
        optionals_end(c4, channels, 7 + 8 * n)
    }
}

/// The coupling strategy of block `blk`.
pub open spec fn eac3_strategy(c: Cursor, prev: StrategyView, acmod: u8, st: StrategiesView, blk: int) -> Result<(StrategyView, Cursor), DecodeFault> {
    if !st.exists[blk] {
        Ok((StrategyView { in_use: prev.in_use || st.cplinu[blk], ..prev }, c))
    } else if !st.cplinu[blk] {
        Ok((uncoupled(prev), c))
    } else if strategy_inverted(c, prev, acmod) {
        let v = strategy_fields(c, prev, acmod).0;
        Err(DecodeFault::BlockError(inverted_text(v.begf, v.endf, true)))
    } else {
        Ok(strategy_fields(c, prev, acmod))
    }
}

/// A block up to its rematrixing flags.
#[verifier::opaque]
pub open spec fn eac3_prelude(c: Cursor, v: BlockView, e: BlockHeader, blk: int) -> Result<(BlockView, Cursor), DecodeFault> {
    let n = v.blksw.len();
    let acmod = e.acmod;
    let (blksw, c1) = if e.block_switch {
        (flags(c, n), flags_end(c, n))
    } else {
        (Seq::new(n, |i: int| false), c)
    };
    let (dithflag, c2) = if e.dither_flag {
        (flags(c1, n), flags_end(c1, n))
    } else {
        (Seq::new(n, |i: int| true), c1)
    };
    let c3 = spx_end(dynamic_range_end(c2, acmod), acmod, n, blk == 0);
    match eac3_strategy(c3, v.strategy, acmod, e.strategies, blk) {
        Err(f) => Err(f),
        Ok((strategy, c4)) => Ok(block_coupling(c4, BlockView { blksw, dithflag, strategy, ..v }, acmod)),
    }
}

/// The exponents of block `blk`; their strategies stand in the header.
#[verifier::opaque]
pub open spec fn eac3_exponents(c: Cursor, v: BlockView, e: BlockHeader, blk: int) -> (BlockView, Cursor) {
    let (spectrum, c1) = block_spectrum(
        c,
        v.spectrum,
        v.strategy,
        e.strategies.cplexpstr[blk],
        e.strategies.chexpstr[blk].take(v.blksw.len() as int),
        e.lfeon,
        e.strategies.lfeexpstr[blk],
    );
    (BlockView { spectrum, ..v }, c1)
}

/// The parameter codes of a stream that does not carry any.
pub open spec fn default_codes() -> BaCodes {
    BaCodes { sdcycod: 2, fdcycod: 1, sgaincod: 1, dbpbcod: 2, floorcod: 7 }
}

/// The parameter codes of a block.
pub open spec fn eac3_codes(c: Cursor, prev: BaCodes, present: bool, first: bool) -> (BaCodes, Cursor) {
    if present {
        if first {
            ba_codes(c)
        } else {
            optional_ba_codes(c, prev)
        }
    } else {
        (if first { default_codes() } else { prev }, c)
    }
}

/// The SNR offset of all channels of a block: that of the first channel, where
/// the block carries any, and else that of the frame.
pub open spec fn eac3_snr(c: Cursor, e: BlockHeader, channels: nat, first: bool) -> (int, Cursor) {
    if e.snr_offset_strategy == 0 {
        (e.snr_offset, c)
    } else {
        let c1 = if first { c } else { c.after(1) };
        if !first && !c.flag() {
            (e.snr_offset, c1)
        } else {
            (
                snr_offset(c1.value(6), c1.after(6).value(4)),
                c1.after(6).after(4).skipped((4 * (channels - 1)) as nat),
            )
        }
    }
}

/// The cursor behind the fast gain codes of a block.
pub open spec fn fast_gain_end(c: Cursor, present: bool, channels: nat, first: bool) -> Cursor {
    if !present {
        c
    } else if first {
        codes_end(c, channels, 3)
    } else if c.flag() {
        codes_end(c.after(1), channels, 3)
    } else {
        c.after(1)
    }
}

/// The cursor behind the coupling leak codes of a block.
pub open spec fn leak_end(c: Cursor, in_use: bool, first: bool) -> Cursor {
    if !in_use {
        c
    } else if first {
        c.skipped(6)
    } else {
        c.past_optional(6)
    }
}

/// The bit allocation side information of a block, with the SNR offset of all
/// its channels.
#[verifier::opaque]
pub open spec fn eac3_side_info(c: Cursor, v: BlockView, e: BlockHeader, first: bool) -> (BlockView, int, Cursor) {
    let n = v.blksw.len();
    let (codes, c1) = eac3_codes(c, v.codes, e.bit_allocation, first);
    let (snr, c2) = eac3_snr(c1, e, n, first);
    let c3 = leak_end(fast_gain_end(c2, e.fast_gain, n, first), v.strategy.in_use, first);
    let (deltas, c4) = if e.dba {
        optional_deltas(c3, v.deltas, v.strategy.in_use, first)
    } else {
        (if first { cleared_deltas(v.deltas) } else { v.deltas }, c3)
    };
    (BlockView { codes, deltas, ..v }, snr, c4)
}

/// The gain of every channel of a block.
pub open spec fn eac3_gain(snr: int) -> Gain {
    Gain { fgain: FAST_GAIN[4] as i32, snroffset: snr as i32 }
}

/// A whole E-AC-3 block: the state after it, its coefficients, the cursor behind
/// it and the dither state after it.
#[verifier::opaque]
pub open spec fn eac3_block(c: Cursor, v: BlockView, e: BlockHeader, blk: int, dither: u32) -> Result<(BlockView, CoefficientsView, Cursor, u32), DecodeFault> {
    match eac3_prelude(c, v, e, blk) {
        Err(f) => Err(f),
        Ok((v1, c1)) => {
            let (v2, c2) = eac3_exponents(c1, v1, e, blk);
            let (v3, snr, c3) = eac3_side_info(c2, v2, e, blk == 0);
            let fscod = e.fscod as int;
            let ba = v3.codes.params();
            let gain = eac3_gain(snr);
            let baps = all_baps(fscod, ba, v3.spectrum, Seq::new(v.blksw.len(), |i: int| gain), v3.deltas);
            let lfebap = if e.lfeon { Some(lfe_baps(fscod, ba, v3.spectrum, gain)) } else { None };
            let cplbap = if v3.strategy.in_use {
                coupling_baps(fscod, ba, v3.spectrum, v3.strategy, gain, 0, 0, v3.cplbap)
            } else {
                v3.cplbap
            };
            let v4 = BlockView { cplbap, ..v3 };
            let c4 = if e.skip { skip_field_end(c3) } else { c3 };
            let start = MantState { cur: c4, pending: no_pending(), dither };
            let (out, end) = block_coefficients(baps, lfebap, v4, e.acmod, start);
            Ok((v4, out, end.cur, end.dither))
        },
    }
}

fn skip_spx(br: &mut BitReader, acmod: u8, channels: usize, first: bool)
    requires
        old(br).wf(),
        channels <= 5,
    ensures
        final(br).wf(),
        final(br)@ == spx_end(old(br)@, acmod, channels as nat, first),
{
    proof {
        lemma2_to64();
    }
    let exists: bool = if first { true } else { br.read_bool() };
    if exists && br.read_bool() {
        br.skip(if acmod == 1 { 1 } else { channels });
        let begf: usize = 2 * br.read(2) as usize + (if acmod == 1 { 5 } else { 3 });
        let endf: usize = br.read(3) as usize + 1;
        let n: usize = if endf + 1 < begf { 18 } else { endf + 1 - begf };
        skip_optional(br, if n > 1 { n - 1 } else { 0 });
        skip_optionals(br, channels, 7 + 8 * n);
    }
}

/// `n` set flags.
fn set_flags(n: usize) -> (r: Vec<bool>)
    ensures
        r@ == Seq::new(n as nat, |i: int| true),
{
    let r: Vec<bool> = vec![true; n];
    assert(r@ =~= Seq::new(n as nat, |i: int| true));
    r
}

fn read_eac3_prelude(br: &mut BitReader, ab: &mut AudioBlock, eac: &EacBsi, blk: usize) -> (r: Result<(), DecodeError>)
    requires
        old(br).wf(),
        eac@.wf(),
        eac.nfchans == nfchans_of(eac.acmod as int),
        blk < 6,
        old(ab)@.wf(eac.nfchans as int),
    ensures
        final(br).wf(),
        match r {
            Ok(()) => {
                &&& final(ab)@.wf(eac.nfchans as int)
                &&& eac3_prelude(old(br)@, old(ab)@, eac@, blk as int) == Ok::<(BlockView, Cursor), DecodeFault>((final(ab)@, final(br)@))
            },
            Err(x) => eac3_prelude(old(br)@, old(ab)@, eac@, blk as int) == Err::<(BlockView, Cursor), DecodeFault>(x@),
        },
{
    proof {
        reveal(eac3_prelude);
    }
    let n: usize = eac.nfchans;
    let first: bool = blk == 0;
    if eac.block_switch_syntax {
        ab.blksw = read_flags(br, n);
    } else {
        ab.blksw = no_flags(n);
    }
    if eac.dither_flag_syntax {
        ab.dithflag = read_flags(br, n);
    } else {
        ab.dithflag = set_flags(n);
    }
    skip_dynamic_range(br, eac.acmod);
    skip_spx(br, eac.acmod, n, first);
    if eac.cpl_strategy_exists[blk] {
        if eac.cplinu[blk] {
            match ab.strategy.read_fields(br, eac.acmod, true) {
                Ok(()) => {},
                Err(x) => {
                    return Err(x);
                },
            }
        } else {
            ab.strategy.switch_off();
        }
    } else if eac.cplinu[blk] {
        ab.strategy.in_use = true;
    }
    read_block_coupling(br, ab, eac.acmod, n);
    Ok(())
}

fn read_eac3_exponents(br: &mut BitReader, ab: &mut AudioBlock, eac: &EacBsi, blk: usize)
    requires
        old(br).wf(),
        eac@.wf(),
        eac.nfchans == nfchans_of(eac.acmod as int),
        blk < 6,
        old(ab)@.wf(eac.nfchans as int),
    ensures
        final(br).wf(),
        final(ab)@.wf(eac.nfchans as int),
        final(ab)@.strategy == old(ab)@.strategy,
        (final(ab)@, final(br)@) == eac3_exponents(old(br)@, old(ab)@, eac@, blk as int),
{
    proof {
        reveal(eac3_exponents);
    }
    let n: usize = eac.nfchans;
    let ghost row = eac@.strategies.chexpstr[blk as int];
    assert(row == eac.chexpstr@[blk as int]@) by {
        assert(strategy_rows(eac.chexpstr@)[blk as int] == eac.chexpstr@[blk as int]@);
    }
    let mut expstr: Vec<u8> = Vec::new();
    let mut ch: usize = 0;
    while ch < n
        invariant
            ch <= n <= 5,
            n == eac.nfchans,
            blk < 6,
            eac@.wf(),
            row == eac@.strategies.chexpstr[blk as int],
            row == eac.chexpstr@[blk as int]@,
            expstr.len() == ch,
            forall|i: int| 0 <= i < ch ==> #[trigger] expstr[i] == row[i] && expstr[i] < 4,
        decreases n - ch,
    {
        assert(eac@.strategies.chexpstr[blk as int][ch as int] < 4);
        expstr.push(eac.chexpstr[blk][ch]);
        ch = ch + 1;
    }
    assert(expstr@ =~= row.take(n as int));
    assert(eac@.strategies.cplexpstr[blk as int] < 4);
    assert(eac@.strategies.lfeexpstr[blk as int] < 4);
    ab.spectrum.read(br, &ab.strategy, eac.cplexpstr[blk], &expstr, eac.lfeon, eac.lfeexpstr[blk]);
}

fn read_eac3_side_info(br: &mut BitReader, ab: &mut AudioBlock, eac: &EacBsi, first: bool) -> (snr: i32)
    requires
        old(br).wf(),
        eac@.wf(),
        eac.nfchans == nfchans_of(eac.acmod as int),
        old(ab)@.wf(eac.nfchans as int),
    ensures
        final(br).wf(),
        final(ab)@.wf(eac.nfchans as int),
        -4000 <= snr <= 4000,
        final(ab)@.strategy == old(ab)@.strategy,
        (final(ab)@, snr as int, final(br)@) == eac3_side_info(old(br)@, old(ab)@, eac@, first),
{
    proof {
        reveal(eac3_side_info);
    }
    proof {
        lemma2_to64();
    }
    let n: usize = eac.nfchans;
    if eac.bit_allocation_syntax {
        let baie: bool = if first { true } else { br.read_bool() };
        if baie {
            ab.codes = BaCodes::read(br);
        }
    } else if first {
        ab.codes = BaCodes { sdcycod: 2, fdcycod: 1, sgaincod: 1, dbpbcod: 2, floorcod: 7 };
    }
    let mut snr: i32 = eac.snr_offset;
    if eac.snr_offset_strategy != 0 {
        let snroffste: bool = if first { true } else { br.read_bool() };
        if snroffste {
            let coarse: i32 = br.read(6) as i32;
            let fine: i32 = br.read(4) as i32;
            snr = (16 * (coarse - 15) + fine) * 4;
            br.skip(4 * (n - 1));
        }
    }
    if eac.fast_gain_syntax {
        let fgaine: bool = if first { true } else { br.read_bool() };
        if fgaine {
            let ghost c = br@;
            let mut ch: usize = 0;
            while ch < n
                invariant
                    ch <= n,
                    br.wf(),
                    br@ == codes_end(c, ch as nat, 3),
                decreases n - ch,
            {
                br.read(3);
                ch = ch + 1;
            }
        }
    }
    if ab.strategy.in_use {
        let cplleake: bool = if first { true } else { br.read_bool() };
        if cplleake {
            br.skip(6);
        }
    }
    if eac.dba_syntax {
        read_deltas(br, &mut ab.deltas, ab.strategy.in_use, first);
    } else if first {
        clear_deltas(&mut ab.deltas);
    }
    snr
}

/// Read and process one E-AC-3 audio block.
/// Block switch, dither, exponent strategies, coupling flags and SNR offsets may
/// stand in the header instead of the block.
pub fn read_eac3_audio_block(
    br: &mut BitReader,
    eac: &EacBsi,
    ab: &mut AudioBlock,
    blk: usize,
    dither: &mut u32,
) -> (r: Result<BlockCoefficients, DecodeError>)
    requires
        old(br).wf(),
        eac@.wf(),
        eac.nfchans == nfchans_of(eac.acmod as int),
        blk < 6,
        old(ab)@.wf(eac.nfchans as int),
    ensures
        final(br).wf(),
        match r {
            Ok(out) => {
                &&& final(ab)@.wf(eac.nfchans as int)
                &&& eac3_block(old(br)@, old(ab)@, eac@, blk as int, *old(dither)) == Ok::<(BlockView, CoefficientsView, Cursor, u32), DecodeFault>(
                    (final(ab)@, out@, final(br)@, *final(dither)),
                )
            },
            Err(x) => {
                &&& eac3_block(old(br)@, old(ab)@, eac@, blk as int, *old(dither)) == Err::<(BlockView, CoefficientsView, Cursor, u32), DecodeFault>(x@)
                &&& *final(dither) == *old(dither)
            },
        },
{
    proof {
        reveal(eac3_block);
    }
    match read_eac3_prelude(br, ab, eac, blk) {
        Ok(()) => {},
        Err(x) => {
            return Err(x);
        },
    }
    read_eac3_exponents(br, ab, eac, blk);
    let snr: i32 = read_eac3_side_info(br, ab, eac, blk == 0);
    let ba: BaParams = ab.codes.derive();
    let gain: Gain = Gain { fgain: FAST_GAIN[4] as i32, snroffset: snr };
    let gains: Vec<Gain> = vec![gain; eac.nfchans];
    assert(gains@ =~= Seq::new(eac.nfchans as nat, |i: int| gain));
    let baps: Vec<[u8; 256]> = allocate_channels(eac.fscod, &ba, &ab.spectrum, &gains, &ab.deltas);
    if ab.strategy.in_use {
        bit_allocation(
            eac.fscod,
            &ba,
            12 * ab.strategy.begf + 37,
            12 * (ab.strategy.endf + 3) + 37,
            &ab.spectrum.cplexps,
            gain.fgain,
            gain.snroffset,
            0,
            0,
            None,
            &mut ab.cplbap,
        );
    }
    let lfebap: Option<[u8; 256]> = if eac.lfeon {
        Some(allocate_lfe(eac.fscod, &ba, &ab.spectrum, gain))
    } else {
        None
    };
    if eac.skip_syntax {
        pass_skip_field(br);
    }
    Ok(read_coefficients(br, dither, ab, &baps, lfebap, eac.acmod))
}

// ---------------------------------------------------------------------------
// Laws
// ---------------------------------------------------------------------------

/// Without spectral extension nothing but its flag is read, in a block that is not the
/// first only the flag that nothing changes. Parameters that are not in the stream are
/// fixed in the first block and stay in the others.
pub proof fn law_absent_fields(c: Cursor, acmod: u8, channels: nat, prev: BaCodes, first: bool)
    requires
        0 <= c.pos,
        c.pos + 8 <= 8 * c.data.len(),
        bits_from(c.data, c.pos, 1) == 0,
    ensures
        spx_end(c, acmod, channels, first) == (Cursor { pos: c.pos + 1, ..c }),
        eac3_codes(c, prev, false, false) == (prev, c),
        eac3_codes(c, prev, true, false) == (prev, Cursor { pos: c.pos + 1, ..c }),
        ({
            let b = eac3_codes(c, prev, false, true).0;
            b.sdcycod == 2 && b.fdcycod == 1 && b.sgaincod == 1 && b.dbpbcod == 2 && b.floorcod == 7
        }),
        fast_gain_end(c, false, channels, first) == c,
        leak_end(c, false, first) == c,
{
}

} // verus!
