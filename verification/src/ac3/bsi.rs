//! Bit stream information and audio blocks of AC-3.

use vstd::arithmetic::power2::lemma2_to64;
use vstd::prelude::*;
use vstd::string::*;

use crate::ac3::allocation::{
    all_baps, allocate_channels, allocate_lfe, block_gain, coupling_baps, gain_of, lfe_baps,
    optional_ba_codes, optional_deltas, optional_snr, read_deltas, BaCodes, Gain, SnrView,
};
use crate::ac3::bitalloc::{bit_allocation, BaParams};
use crate::ac3::bitstream::{bits_from, lemma_bits_bound, BitReader, Cursor};
use crate::ac3::block::{
    block_coefficients, read_coefficients, AudioBlock, BlockCoefficients, BlockView, CoefficientsView,
};
use crate::ac3::coupling::{
    block_coordinates, flags, flags_end, inverted_text, read_flags, read_rematrix, rematrix_flags, strategy_fields,
    strategy_inverted, uncoupled, StrategyView,
};
use crate::ac3::error::{DecodeError, DecodeFault};
use crate::ac3::mantissa::{no_pending, MantState};
use crate::ac3::spectrum::{block_spectrum, codes, codes_end, read_codes2};
use crate::ac3::tables::{nfchans, nfchans_of, BIT_RATES};

verus! {

/// Parsed BSI (Bit Stream Information).
#[derive(Clone, Copy, Debug, PartialEq, Eq, Structural)]
pub struct Bsi {
    pub fscod: usize,
    pub frmsizecod: usize,
    /// Frame size in bytes.
    pub frmsize: usize,
    pub bsid: u8,
    pub bsmod: u8,
    pub acmod: u8,
    pub nfchans: usize,
    pub lfeon: bool,
    pub cmixlev: usize,
    pub surmixlev: usize,
}

impl Bsi {
    /// The codes fit their fields and the channels follow from `acmod`.
    pub open spec fn wf(self) -> bool {
        &&& self.fscod < 3
        &&& self.acmod < 8
        &&& self.nfchans == nfchans_of(self.acmod as int)
    }
}

/// The frame size in bytes by sample rate code and frame size code.
pub open spec fn frame_bytes(fscod: int, frmsizecod: int) -> int {
    let rate = BIT_RATES[frmsizecod / 2] as int;
    2 * (if fscod == 0 {
        2 * rate
    } else if fscod == 1 {
        320 * rate / 147 + frmsizecod % 2
    } else {
        3 * rate
    })
}

/// The cursor behind the production information of one program: dialogue
/// normalisation, compression, language and production flags.
pub open spec fn program_info_end(c: Cursor) -> Cursor {
    c.skipped(5).past_optional(8).past_optional(8).past_optional(7)
}

/// The cursor behind additional bit stream information.
pub open spec fn additional_end(c: Cursor) -> Cursor {
    if c.flag() {
        c.after(1).after(6).skipped(((c.after(1).value(6) + 1) * 8) as nat)
    } else {
        c.after(1)
    }
}

/// The bit stream information that follows, and the cursor behind it.
#[verifier::opaque]
pub open spec fn bsi_syntax(c: Cursor) -> Result<(Bsi, Cursor), DecodeFault> {
    let c1 = c.after(16).skipped(16);
    let fscod = c1.value(2);
    let c2 = c1.after(2);
    let frmsizecod = c2.value(6);
    let c3 = c2.after(6);
    let bsid = c3.value(5);
    let c4 = c3.after(5);
    let bsmod = c4.value(3);
    let c5 = c4.after(3);
    let acmod = c5.value(3);
    let c6 = c5.after(3);
    let (cmixlev, c7) = if acmod % 2 == 1 && acmod != 1 { (c6.value(2), c6.after(2)) } else { (0, c6) };
    let (surmixlev, c8) = if acmod >= 4 { (c7.value(2), c7.after(2)) } else { (0, c7) };
    let c9 = if acmod == 2 { c8.skipped(2) } else { c8 };
    let lfeon = c9.flag();
    let c10 = program_info_end(c9.after(1));
    let c11 = if acmod == 0 { program_info_end(c10) } else { c10 };
    let c12 = c11.skipped(2).past_optional(14).past_optional(14);
    if c.value(16) != 0x0B77 {
        Err(DecodeFault::InvalidSync)
    } else if fscod >= 3 {
        Err(DecodeFault::InvalidHeader("invalid fscod"@))
    } else if frmsizecod / 2 >= 19 {
        Err(DecodeFault::InvalidHeader("invalid frmsizecod"@))
    } else if bsid > 10 {
        Err(DecodeFault::UnsupportedVersion(bsid as u8))
    } else {
        Ok(
            (
                Bsi {
                    fscod: fscod as usize,
                    frmsizecod: frmsizecod as usize,
                    frmsize: frame_bytes(fscod, frmsizecod) as usize,
                    bsid: bsid as u8,
                    bsmod: bsmod as u8,
                    acmod: acmod as u8,
                    nfchans: nfchans_of(acmod) as usize,
                    lfeon,
                    cmixlev: cmixlev as usize,
                    surmixlev: surmixlev as usize,
                },
                additional_end(c12),
            ),
        )
    }
}

/// Skip `n` bits behind a flag that is set.
pub fn skip_optional(br: &mut BitReader, n: usize)
    requires
        old(br).wf(),
    ensures
        final(br).wf(),
        final(br)@ == old(br)@.past_optional(n as nat),
{
    if br.read_bool() {
        br.skip(n);
    }
}

fn skip_program_info(br: &mut BitReader)
    requires
        old(br).wf(),
    ensures
        final(br).wf(),
        final(br)@ == program_info_end(old(br)@),
{
    br.skip(5);
    skip_optional(br, 8);
    skip_optional(br, 8);
    skip_optional(br, 7);
}

/// Skip additional bit stream information.
pub fn skip_additional(br: &mut BitReader)
    requires
        old(br).wf(),
    ensures
        final(br).wf(),
        final(br)@ == additional_end(old(br)@),
{
    if br.read_bool() {
        proof {
            lemma2_to64();
        }
        let addbsil: usize = br.read(6) as usize;
        br.skip((addbsil + 1) * 8);
    }
}

/// Parse BSI.
pub fn parse_bsi(br: &mut BitReader) -> (r: Result<Bsi, DecodeError>)
    requires
        old(br).wf(),
    ensures
        final(br).wf(),
        match r {
            Ok(bsi) => bsi.wf() && bsi_syntax(old(br)@) == Ok::<(Bsi, Cursor), DecodeFault>((bsi, final(br)@)),
            Err(e) => bsi_syntax(old(br)@) == Err::<(Bsi, Cursor), DecodeFault>(e@),
        },
{
    proof {
        reveal(bsi_syntax);
    }
    proof {
        lemma2_to64();
    }
    let sync: u32 = br.read(16);
    if sync != 0x0B77 {
        return Err(DecodeError::InvalidSync);
    }
    br.skip(16);
    let fscod: usize = br.read(2) as usize;
    let frmsizecod: usize = br.read(6) as usize;
    if fscod >= 3 {
        return Err(DecodeError::InvalidHeader(String::from_str("invalid fscod")));
    }
    if frmsizecod / 2 >= 19 {
        return Err(DecodeError::InvalidHeader(String::from_str("invalid frmsizecod")));
    }
    let bitrate: usize = BIT_RATES[frmsizecod / 2] as usize;
    let words: usize = match fscod {
        0 => 2 * bitrate,
        1 => (320 * bitrate) / 147 + frmsizecod % 2,
        _ => 3 * bitrate,
    };
    let frmsize: usize = 2 * words;
    let bsid: u8 = br.read(5) as u8;
    let bsmod: u8 = br.read(3) as u8;
    if bsid > 10 {
        return Err(DecodeError::UnsupportedVersion(bsid));
    }
    let acmod: u8 = br.read(3) as u8;
    let channels: usize = nfchans(acmod);
    let mut cmixlev: usize = 0;
    if acmod % 2 == 1 && acmod != 1 {
        cmixlev = br.read(2) as usize;
    }
    let mut surmixlev: usize = 0;
    if acmod >= 4 {
        surmixlev = br.read(2) as usize;
    }
    if acmod == 2 {
        br.skip(2);
    }
    let lfeon: bool = br.read_bool();
    skip_program_info(br);
    if acmod == 0 {
        skip_program_info(br);
    }
    br.skip(2);
    skip_optional(br, 14);
    skip_optional(br, 14);
    skip_additional(br);
    Ok(Bsi { fscod, frmsizecod, frmsize, bsid, bsmod, acmod, nfchans: channels, lfeon, cmixlev, surmixlev })
}

// ---------------------------------------------------------------------------
// Audio block
// ---------------------------------------------------------------------------

/// The cursor behind the dynamic range words of a block.
pub open spec fn dynamic_range_end(c: Cursor, acmod: u8) -> Cursor {
    let d = c.past_optional(8);
    if acmod == 0 {
        d.past_optional(8)
    } else {
        d
    }
}

/// Skip the dynamic range words of a block.
pub fn skip_dynamic_range(br: &mut BitReader, acmod: u8)
    requires
        old(br).wf(),
    ensures
        final(br).wf(),
        final(br)@ == dynamic_range_end(old(br)@, acmod),
{
    skip_optional(br, 8);
    if acmod == 0 {
        skip_optional(br, 8);
    }
}

/// The coupling strategy of an AC-3 block.
pub open spec fn ac3_strategy(c: Cursor, prev: StrategyView, acmod: u8, first: bool) -> Result<(StrategyView, Cursor), DecodeFault> {
    let c1 = if first { c } else { c.after(1) };
    if !first && !c.flag() {
        Ok((prev, c1))
    } else if !c1.flag() {
        Ok((uncoupled(prev), c1.after(1)))
    } else if strategy_inverted(c1.after(1), prev, acmod) {
        let v = strategy_fields(c1.after(1), prev, acmod).0;
        Err(DecodeFault::BlockError(inverted_text(v.begf, v.endf, false)))
    } else {
        Ok(strategy_fields(c1.after(1), prev, acmod))
    }
}

/// Coordinates and rematrixing flags of a block.
pub open spec fn block_coupling(c: Cursor, v: BlockView, acmod: u8) -> (BlockView, Cursor) {
    let (coords, c1) = if v.strategy.in_use {
        block_coordinates(c, v.coords, v.strategy, acmod)
    } else {
        (v.coords, c)
    };
    let (rematflg, c2) = if acmod == 2 {
        rematrix_flags(c1, v.rematflg, v.strategy.in_use, v.strategy.begf)
    } else {
        (v.rematflg, c1)
    };
    (BlockView { coords, rematflg, ..v }, c2)
}

/// Read coordinates and rematrixing flags of a block.
pub fn read_block_coupling(br: &mut BitReader, ab: &mut AudioBlock, acmod: u8, nfchans: usize)
    requires
        old(br).wf(),
        old(ab)@.wf(nfchans as int),
        acmod == 2 ==> nfchans >= 2,
    ensures
        final(br).wf(),
        final(ab)@.wf(nfchans as int),
        (final(ab)@, final(br)@) == block_coupling(old(br)@, old(ab)@, acmod),
{
    if ab.strategy.in_use {
        ab.coords.read(br, &ab.strategy, acmod);
    }
    if acmod == 2 {
        read_rematrix(br, &mut ab.rematflg, ab.strategy.in_use, ab.strategy.begf);
    }
}

/// An AC-3 block up to its rematrixing flags.
#[verifier::opaque]
pub open spec fn ac3_prelude(c: Cursor, v: BlockView, acmod: u8, first: bool) -> Result<(BlockView, Cursor), DecodeFault> {
    let n = v.blksw.len();
    let c1 = flags_end(c, n);
    let c2 = dynamic_range_end(flags_end(c1, n), acmod);
    match ac3_strategy(c2, v.strategy, acmod, first) {
        Err(f) => Err(f),
        Ok((strategy, c3)) => Ok(block_coupling(c3, BlockView { blksw: flags(c, n), dithflag: flags(c1, n), strategy, ..v }, acmod)),
    }
}

/// The exponents of an AC-3 block behind their strategies.
#[verifier::opaque]
pub open spec fn ac3_exponents(c: Cursor, v: BlockView, lfeon: bool) -> (BlockView, Cursor) {
    let n = v.blksw.len();
    let (cplexpstr, c1) = if v.strategy.in_use { (c.value(2) as u8, c.after(2)) } else { (0u8, c) };
    let expstr = codes(c1, n, 2);
    let c2 = codes_end(c1, n, 2);
    let (lfeexpstr, c3) = if lfeon { (c2.value(1) as u8, c2.after(1)) } else { (0u8, c2) };
    let (spectrum, c4) = block_spectrum(c3, v.spectrum, v.strategy, cplexpstr, expstr, lfeon, lfeexpstr);
    (BlockView { spectrum, ..v }, c4)
}

/// The bit allocation side information of an AC-3 block.
#[verifier::opaque]
pub open spec fn ac3_side_info(c: Cursor, v: BlockView, lfeon: bool, first: bool) -> (BlockView, Cursor) {
    let (codes, c1) = optional_ba_codes(c, v.codes);
    let (snr, c2) = optional_snr(c1, v.snr, v.strategy.in_use, lfeon);
    let (cplfleak, cplsleak, c3) = if v.strategy.in_use {
        if c2.flag() {
            let d = c2.after(1);
            (d.value(3) as i32, d.after(3).value(3) as i32, d.after(3).after(3))
        } else {
            (v.cplfleak, v.cplsleak, c2.after(1))
        }
    } else {
        (v.cplfleak, v.cplsleak, c2)
    };
    let (deltas, c4) = optional_deltas(c3, v.deltas, v.strategy.in_use, first);
    (BlockView { codes, snr, cplfleak, cplsleak, deltas, ..v }, c4)
}

/// The gains of the channels of an AC-3 block.
pub open spec fn ac3_gains(snr: SnrView) -> Seq<Gain> {
    Seq::new(snr.ch.len(), |i: int| block_gain(snr.csnroffst as int, snr.ch[i]))
}

/// The coupling allocation of an AC-3 block.
pub open spec fn ac3_coupling_baps(v: BlockView, fscod: int) -> Seq<u8> {
    if v.strategy.in_use {
        coupling_baps(
            fscod,
            v.codes.params(),
            v.spectrum,
            v.strategy,
            block_gain(v.snr.csnroffst as int, v.snr.cpl),
            256 * v.cplfleak + 768,
            256 * v.cplsleak + 768,
            v.cplbap,
        )
    } else {
        v.cplbap
    }
}

/// The cursor behind the skip field of a block.
pub open spec fn skip_field_end(c: Cursor) -> Cursor {
    if c.flag() {
        c.after(1).after(9).skipped((c.after(1).value(9) * 8) as nat)
    } else {
        c.after(1)
    }
}

/// Pass over the skip field of a block.
pub fn pass_skip_field(br: &mut BitReader)
    requires
        old(br).wf(),
    ensures
        final(br).wf(),
        final(br)@ == skip_field_end(old(br)@),
{
    if br.read_bool() {
        proof {
            lemma2_to64();
        }
        let skipl: usize = br.read(9) as usize;
        br.skip(skipl * 8);
    }
}

/// A whole AC-3 block: the state after it, its coefficients, the cursor behind
/// it and the dither state after it.
#[verifier::opaque]
pub open spec fn ac3_block(c: Cursor, v: BlockView, bsi: Bsi, first: bool, dither: u32) -> Result<(BlockView, CoefficientsView, Cursor, u32), DecodeFault> {
    match ac3_prelude(c, v, bsi.acmod, first) {
        Err(f) => Err(f),
        Ok((v1, c1)) => {
            let (v2, c2) = ac3_exponents(c1, v1, bsi.lfeon);
            let (v3, c3) = ac3_side_info(c2, v2, bsi.lfeon, first);
            let fscod = bsi.fscod as int;
            let ba = v3.codes.params();
            let baps = all_baps(fscod, ba, v3.spectrum, ac3_gains(v3.snr), v3.deltas);
            let lfebap = if bsi.lfeon {
                Some(lfe_baps(fscod, ba, v3.spectrum, block_gain(v3.snr.csnroffst as int, v3.snr.lfe)))
            } else {
                None
            };
            let v4 = BlockView { cplbap: ac3_coupling_baps(v3, fscod), ..v3 };
            let start = MantState { cur: skip_field_end(c3), pending: no_pending(), dither };
            let (out, end) = block_coefficients(baps, lfebap, v4, bsi.acmod, start);
            Ok((v4, out, end.cur, end.dither))
        },
    }
}

fn read_ac3_prelude(br: &mut BitReader, ab: &mut AudioBlock, bsi: &Bsi, first: bool) -> (r: Result<(), DecodeError>)
    requires
        old(br).wf(),
        bsi.wf(),
        old(ab)@.wf(bsi.nfchans as int),
    ensures
        final(br).wf(),
        match r {
            Ok(()) => {
                &&& final(ab)@.wf(bsi.nfchans as int)
                &&& ac3_prelude(old(br)@, old(ab)@, bsi.acmod, first) == Ok::<(BlockView, Cursor), DecodeFault>((final(ab)@, final(br)@))
            },
            Err(e) => ac3_prelude(old(br)@, old(ab)@, bsi.acmod, first) == Err::<(BlockView, Cursor), DecodeFault>(e@),
        },
{
    proof {
        reveal(ac3_prelude);
    }
    ab.blksw = read_flags(br, bsi.nfchans);
    ab.dithflag = read_flags(br, bsi.nfchans);
    skip_dynamic_range(br, bsi.acmod);
    let ghost c2 = br@;
    let cplstre: bool = if first { true } else { br.read_bool() };
    if cplstre {
        if br.read_bool() {
            match ab.strategy.read_fields(br, bsi.acmod, false) {
                Ok(()) => {},
                Err(e) => {
                    return Err(e);
                },
            }
        } else {
            ab.strategy.switch_off();
        }
    }
    read_block_coupling(br, ab, bsi.acmod, bsi.nfchans);
    Ok(())
}

fn read_ac3_exponents(br: &mut BitReader, ab: &mut AudioBlock, bsi: &Bsi)
    requires
        old(br).wf(),
        bsi.wf(),
        old(ab)@.wf(bsi.nfchans as int),
    ensures
        final(br).wf(),
        final(ab)@.wf(bsi.nfchans as int),
        (final(ab)@, final(br)@) == ac3_exponents(old(br)@, old(ab)@, bsi.lfeon),
{
    proof {
        reveal(ac3_exponents);
    }
    proof {
        lemma2_to64();
    }
    let cplexpstr: u8 = if ab.strategy.in_use { br.read(2) as u8 } else { 0 };
    let expstr: Vec<u8> = read_codes2(br, bsi.nfchans);
    let lfeexpstr: u8 = if bsi.lfeon { br.read(1) as u8 } else { 0 };
    ab.spectrum.read(br, &ab.strategy, cplexpstr, &expstr, bsi.lfeon, lfeexpstr);
}

fn read_ac3_side_info(br: &mut BitReader, ab: &mut AudioBlock, bsi: &Bsi, first: bool)
    requires
        old(br).wf(),
        bsi.wf(),
        old(ab)@.wf(bsi.nfchans as int),
    ensures
        final(br).wf(),
        final(ab)@.wf(bsi.nfchans as int),
        (final(ab)@, final(br)@) == ac3_side_info(old(br)@, old(ab)@, bsi.lfeon, first),
{
    proof {
        reveal(ac3_side_info);
    }
    proof {
        lemma2_to64();
    }
    if br.read_bool() {
        ab.codes = BaCodes::read(br);
    }
    ab.snr.read_optional(br, ab.strategy.in_use, bsi.lfeon);
    if ab.strategy.in_use {
        if br.read_bool() {
            ab.cplfleak = br.read(3) as i32;
            ab.cplsleak = br.read(3) as i32;
        }
    }
    read_deltas(br, &mut ab.deltas, ab.strategy.in_use, first);
}

/// Read and process one audio block.
pub fn read_audio_block(br: &mut BitReader, bsi: &Bsi, ab: &mut AudioBlock, blk: usize, dither: &mut u32) -> (r: Result<BlockCoefficients, DecodeError>)
    requires
        old(br).wf(),
        bsi.wf(),
        old(ab)@.wf(bsi.nfchans as int),
    ensures
        final(br).wf(),
        match r {
            Ok(out) => {
                &&& final(ab)@.wf(bsi.nfchans as int)
                &&& ac3_block(old(br)@, old(ab)@, *bsi, blk == 0, *old(dither)) == Ok::<(BlockView, CoefficientsView, Cursor, u32), DecodeFault>(
                    (final(ab)@, out@, final(br)@, *final(dither)),
                )
            },
            Err(e) => {
                &&& ac3_block(old(br)@, old(ab)@, *bsi, blk == 0, *old(dither)) == Err::<(BlockView, CoefficientsView, Cursor, u32), DecodeFault>(e@)
                &&& *final(dither) == *old(dither)
            },
        },
{
    proof {
        reveal(ac3_block);
    }
    let first: bool = blk == 0;
    match read_ac3_prelude(br, ab, bsi, first) {
        Ok(()) => {},
        Err(e) => {
            return Err(e);
        },
    }
    read_ac3_exponents(br, ab, bsi);
    read_ac3_side_info(br, ab, bsi, first);
    let ghost v3 = ab@;
    let ba: BaParams = ab.codes.derive();
    let mut gains: Vec<Gain> = Vec::new();
    let mut ch: usize = 0;
    while ch < bsi.nfchans
        invariant
            ch <= bsi.nfchans,
            gains.len() == ch,
            ab@.wf(bsi.nfchans as int),
            v3 == ab@,
            forall|i: int| 0 <= i < ch ==> (#[trigger] gains[i]).wf() && gains[i] == ac3_gains(v3.snr)[i],
        decreases bsi.nfchans - ch,
    {
        assert(v3.snr.ch[ch as int].wf());
        gains.push(gain_of(ab.snr.csnroffst, ab.snr.ch[ch]));
        ch = ch + 1;
    }
    assert(gains@ =~= ac3_gains(v3.snr));
    let baps: Vec<[u8; 256]> = allocate_channels(bsi.fscod, &ba, &ab.spectrum, &gains, &ab.deltas);
    if ab.strategy.in_use {
        let gain: Gain = gain_of(ab.snr.csnroffst, ab.snr.cpl);
        bit_allocation(
            bsi.fscod,
            &ba,
            12 * ab.strategy.begf + 37,
            12 * (ab.strategy.endf + 3) + 37,
            &ab.spectrum.cplexps,
            gain.fgain,
            gain.snroffset,
            256 * ab.cplfleak + 768,
            256 * ab.cplsleak + 768,
            None,
            &mut ab.cplbap,
        );
    }
    let lfebap: Option<[u8; 256]> = if bsi.lfeon {
        Some(allocate_lfe(bsi.fscod, &ba, &ab.spectrum, gain_of(ab.snr.csnroffst, ab.snr.lfe)))
    } else {
        None
    };
    pass_skip_field(br);
    Ok(read_coefficients(br, dither, ab, &baps, lfebap, bsi.acmod))
}

// ---------------------------------------------------------------------------
// Laws
// ---------------------------------------------------------------------------

/// The fields of a header stand at their places behind the sync word and the checksum:
/// two bits of the sample rate, six of the size, five of the version, three of the
/// service and three of the channels; then two bits each of the levels of the centre,
/// where there are three front channels, and of the surround, where there are any, two
/// bits in stereo, and the flag of the LFE channel.
pub proof fn law_header_fields(data: Seq<u8>)
    requires
        data.len() >= 8,
        data.len() <= usize::MAX,
        bsi_syntax(Cursor { data, pos: 0 }) is Ok,
    ensures
        ({
            let b = bsi_syntax(Cursor { data, pos: 0 })->Ok_0.0;
            let centre = b.acmod == 3 || b.acmod == 5 || b.acmod == 7;
            let surround = b.acmod >= 4;
            let at: int = 51 + (if centre { 2int } else { 0 }) + (if surround { 2int } else { 0 }) + (if b.acmod == 2 { 2int } else { 0 });
            &&& bits_from(data, 0, 16) == 0x0B77
            &&& b.fscod == bits_from(data, 32, 2)
            &&& b.frmsizecod == bits_from(data, 34, 6)
            &&& b.bsid == bits_from(data, 40, 5)
            &&& b.bsmod == bits_from(data, 45, 3)
            &&& b.acmod == bits_from(data, 48, 3)
            &&& b.cmixlev == if centre { bits_from(data, 51, 2) } else { 0 }
            &&& b.surmixlev == if surround { bits_from(data, if centre { 53 } else { 51 }, 2) } else { 0 }
            &&& b.lfeon == (bits_from(data, at, 1) == 1)
        }),
{
    reveal(bsi_syntax);
    lemma2_to64();
    let c = Cursor { data, pos: 0 };
    assert(c.after(16).skipped(16) == (Cursor { data, pos: 32 }));
    lemma_bits_bound(data, 32, 2);
    lemma_bits_bound(data, 34, 6);
    lemma_bits_bound(data, 40, 5);
    lemma_bits_bound(data, 45, 3);
    lemma_bits_bound(data, 48, 3);
    lemma_bits_bound(data, 51, 2);
    lemma_bits_bound(data, 53, 2);
    lemma_bits_bound(data, 51, 1);
    lemma_bits_bound(data, 53, 1);
    lemma_bits_bound(data, 55, 1);
}

/// A frame holds as many bits as its bit rate gives in the time of its 1536 samples:
/// exactly so at 48 and 32 kHz, and at 44.1 kHz to within one word.
pub proof fn law_frame_holds_bit_rate(fscod: int, frmsizecod: int)
    requires
        0 <= fscod < 3,
        0 <= frmsizecod < 38,
    ensures
        ({
            let bits = 8 * frame_bytes(fscod, frmsizecod);
            let wanted = 1_536_000 * (BIT_RATES[frmsizecod / 2] as int);
            &&& fscod == 0 ==> bits * 48000 == wanted
            &&& fscod == 1 ==> wanted - 705_600 < bits * 44100 <= wanted + 705_600
            &&& fscod == 2 ==> bits * 32000 == wanted
        }),
{
    let rate = BIT_RATES[frmsizecod / 2] as int;
    let words = 320 * rate / 147;
    assert(147 * words <= 320 * rate < 147 * words + 147);
    if fscod == 1 {
        assert(frame_bytes(fscod, frmsizecod) == 2 * (words + frmsizecod % 2));
        assert(0 <= frmsizecod % 2 <= 1);
    }
}

/// The channels of a mode: two for two separate ones, and else one in front or two,
/// one in the centre where the mode is odd, and one or two behind from the fourth and
/// sixth mode on.
pub proof fn law_channels_of_mode(acmod: int)
    requires
        0 <= acmod < 8,
    ensures
        acmod < 2 ==> nfchans_of(acmod) == 2 - acmod,
        acmod >= 2 ==> nfchans_of(acmod) == 2 + acmod % 2 + (if acmod >= 6 { 2int } else if acmod >= 4 { 1 } else { 0 }),
{
}

/// Whether `n` bits behind a cursor are there.
pub open spec fn has_bits(c: Cursor, n: int) -> bool {
    0 <= c.pos && c.pos + n <= 8 * c.data.len() && c.data.len() <= usize::MAX
}

/// Fields that are passed over: additional information holds a length of six bits, in
/// bytes less one, and that many bytes; skipped data a length of nine bits in bytes.
/// Where the flag before them is not set, only that flag is passed.
pub proof fn law_passed_fields(c: Cursor)
    requires
        has_bits(c, 5000),
    ensures
        ({
            let flag = bits_from(c.data, c.pos, 1) == 1;
            &&& additional_end(c).pos == c.pos + 1 + (if flag { 6 + 8 * (bits_from(c.data, c.pos + 1, 6) + 1) } else { 0 })
            &&& skip_field_end(c).pos == c.pos + 1 + (if flag { 9 + 8 * bits_from(c.data, c.pos + 1, 9) } else { 0 })
        }),
{
    lemma2_to64();
    lemma_bits_bound(c.data, c.pos, 1);
    lemma_bits_bound(c.data, c.pos + 1, 6);
    lemma_bits_bound(c.data, c.pos + 1, 9);
}

/// The information on a programme holds five bits of its level and three optional fields
/// of eight, eight and seven bits. The dynamic range, where it is told, has eight bits.
pub proof fn law_programme_fields(c: Cursor, acmod: u8)
    requires
        has_bits(c, 100),
    ensures
        ({
            let a = bits_from(c.data, c.pos + 5, 1) == 1;
            let at = c.pos + 6 + (if a { 8int } else { 0 });
            let b = bits_from(c.data, at, 1) == 1;
            let next = at + 1 + (if b { 8int } else { 0 });
            let d = bits_from(c.data, next, 1) == 1;
            &&& program_info_end(c).pos == next + 1 + (if d { 7int } else { 0 })
            &&& acmod != 0 ==> dynamic_range_end(c, acmod).pos == c.pos + 1 + (if bits_from(c.data, c.pos, 1) == 1 { 8int } else { 0 })
        }),
{
    lemma2_to64();
    lemma_bits_bound(c.data, c.pos, 1);
    lemma_bits_bound(c.data, c.pos + 5, 1);
    let at = c.pos + 6 + (if bits_from(c.data, c.pos + 5, 1) == 1 { 8int } else { 0 });
    lemma_bits_bound(c.data, at, 1);
    let next = at + 1 + (if bits_from(c.data, at, 1) == 1 { 8int } else { 0 });
    lemma_bits_bound(c.data, next, 1);
}

/// Without a flag the coupling strategy and the parameters of a block are those of the
/// block before it.
pub proof fn law_blocks_reuse(c: Cursor, v: BlockView, acmod: u8, lfeon: bool)
    requires
        has_bits(c, 100),
        bits_from(c.data, c.pos, 1) == 0,
    ensures
        ac3_strategy(c, v.strategy, acmod, false) == Ok::<(StrategyView, Cursor), DecodeFault>((v.strategy, Cursor { pos: c.pos + 1, ..c })),
        optional_ba_codes(c, v.codes) == (v.codes, Cursor { pos: c.pos + 1, ..c }),
        optional_snr(c, v.snr, v.strategy.in_use, lfeon) == (v.snr, Cursor { pos: c.pos + 1, ..c }),
        rematrix_flags(c, v.rematflg, v.strategy.in_use, v.strategy.begf) == (v.rematflg, Cursor { pos: c.pos + 1, ..c }),
{
}

} // verus!
