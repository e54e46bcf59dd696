//! Bit stream information of E-AC-3: syncinfo, metadata and the frame-level
//! audio parameters.

use vstd::arithmetic::power2::{lemma2_to64, lemma_pow2_adds, pow2};
use vstd::prelude::*;
use vstd::string::*;

use crate::ac3::allocation::snr_offset;
use crate::ac3::bitstream::{bits_from, lemma_bits_bound, BitReader, Cursor};
use crate::ac3::bsi::{additional_end, has_bits, skip_additional, skip_optional};
use crate::ac3::error::{DecodeError, DecodeFault};
use crate::ac3::tables::{blocks_of, nfchans, nfchans_of, REDUCED_SAMPLE_RATES, SAMPLE_RATES};

verus! {

/// Parsed E-AC-3 BSI (Bit Stream Information) — frame-level parameters.
/// Exponent strategies, coupling flags, SNR offsets, block switch and dither are
/// all stored at the frame level, not per audio block.
pub struct EacBsi {
    /// 0=independent, 1=dependent, 2=AC-3 conversion.
    pub strmtyp: u8,
    pub substreamid: u8,
    pub frmsiz: usize,
    /// Frame size in bytes.
    pub frmsize: usize,
    pub fscod: usize,
    pub numblkscod: u8,
    pub num_blocks: usize,
    pub sample_rate: u32,
    pub acmod: u8,
    pub lfeon: bool,
    pub bsid: u8,
    pub nfchans: usize,
    pub dialnorm: u8,
    pub bsmod: u8,
    pub cmixlev: usize,
    pub surmixlev: usize,
    /// If false: no blksw in audio blocks.
    pub block_switch_syntax: bool,
    /// If false: dither always ON.
    pub dither_flag_syntax: bool,
    /// If false: use default BA params.
    pub bit_allocation_syntax: bool,
    /// If false: no fast gain in audio blocks.
    pub fast_gain_syntax: bool,
    /// If false: no delta BA in audio blocks.
    pub dba_syntax: bool,
    /// If false: no skip field in audio blocks.
    pub skip_syntax: bool,
    /// 0=frame-level, 1-3=per-block in audio block.
    pub snr_offset_strategy: u8,
    pub cpl_strategy_exists: [bool; 6],
    pub cplinu: [bool; 6],
    /// Exponent strategies by block and channel.
    pub chexpstr: [[u8; 6]; 6],
    pub cplexpstr: [u8; 6],
    pub lfeexpstr: [u8; 6],
    pub snr_offset: i32,
    /// SPX attenuation by channel; -1 = not set.
    pub spx_atten_code: [i8; 6],
}

impl EacBsi {
    /// The defaults before anything has been parsed.
    pub fn new() -> (r: Self)
        ensures
            r.strmtyp == 0,
            r.substreamid == 0,
            r.frmsiz == 0,
            r.frmsize == 0,
            r.fscod == 0,
            r.numblkscod == 3,
            r.num_blocks == 6,
            r.sample_rate == 48000,
            r.acmod == 0,
            !r.lfeon,
            r.bsid == 16,
            r.nfchans == 2,
            r.dialnorm == 31,
            r.bsmod == 0,
            r.cmixlev == 0,
            r.surmixlev == 0,
            !r.block_switch_syntax,
            !r.dither_flag_syntax,
            !r.bit_allocation_syntax,
            !r.fast_gain_syntax,
            !r.dba_syntax,
            !r.skip_syntax,
            r.snr_offset_strategy == 0,
            r.cpl_strategy_exists@ == Seq::new(6, |i: int| false),
            r.cplinu@ == Seq::new(6, |i: int| false),
            strategy_rows(r.chexpstr@) == Seq::new(6, |i: int| Seq::new(6, |j: int| 0u8)),
            r.cplexpstr@ == Seq::new(6, |i: int| 0u8),
            r.lfeexpstr@ == Seq::new(6, |i: int| 0u8),
            r.snr_offset == 0,
            r.spx_atten_code@ == Seq::new(6, |i: int| -1i8),
    {
        let r: EacBsi = EacBsi {
            strmtyp: 0,
            substreamid: 0,
            frmsiz: 0,
            frmsize: 0,
            fscod: 0,
            numblkscod: 3,
            num_blocks: 6,
            sample_rate: 48000,
            acmod: 0,
            lfeon: false,
            bsid: 16,
            nfchans: 2,
            dialnorm: 31,
            bsmod: 0,
            cmixlev: 0,
            surmixlev: 0,
            block_switch_syntax: false,
            dither_flag_syntax: false,
            bit_allocation_syntax: false,
            fast_gain_syntax: false,
            dba_syntax: false,
            skip_syntax: false,
            snr_offset_strategy: 0,
            cpl_strategy_exists: [false; 6],
            cplinu: [false; 6],
            chexpstr: [[0; 6]; 6],
            cplexpstr: [0; 6],
            lfeexpstr: [0; 6],
            snr_offset: 0,
            spx_atten_code: [-1; 6],
        };
        proof {
            assert(r.cpl_strategy_exists@ =~= Seq::new(6, |i: int| false));
            assert(r.cplinu@ =~= Seq::new(6, |i: int| false));
            assert(r.cplexpstr@ =~= Seq::new(6, |i: int| 0u8));
            assert(r.lfeexpstr@ =~= Seq::new(6, |i: int| 0u8));
            assert(r.spx_atten_code@ =~= Seq::new(6, |i: int| -1i8));
            assert forall|i: int| 0 <= i < 6 implies (#[trigger] strategy_rows(r.chexpstr@)[i]) == Seq::new(
                6,
                |j: int| 0u8,
            ) by {
                assert(r.chexpstr@[i]@ =~= Seq::new(6, |j: int| 0u8));
            }
            assert(strategy_rows(r.chexpstr@) =~= Seq::new(6, |i: int| Seq::new(6, |j: int| 0u8)));
        }
        r
    }
}

/// The rows of a table of exponent strategies.
pub open spec fn strategy_rows(v: Seq<[u8; 6]>) -> Seq<Seq<u8>> {
    Seq::new(v.len(), |i: int| v[i]@)
}

// ---------------------------------------------------------------------------
// Syncinfo
// ---------------------------------------------------------------------------

/// The fixed part of the header.
#[derive(Clone, Copy, Debug, PartialEq, Eq, Structural)]
pub struct SyncInfo {
    pub strmtyp: u8,
    pub substreamid: u8,
    pub frmsiz: usize,
    pub fscod: usize,
    pub numblkscod: u8,
    pub sample_rate: u32,
    pub acmod: u8,
    pub lfeon: bool,
    pub bsid: u8,
}

impl SyncInfo {
    /// Every code fits its field.
    pub open spec fn wf(self) -> bool {
        &&& self.strmtyp < 4
        &&& self.strmtyp != 1
        &&& self.frmsiz < 2048
        &&& self.fscod < 4
        &&& self.numblkscod < 4
        &&& self.acmod < 8
        &&& 11 <= self.bsid <= 16
    }

    /// The number of full-bandwidth channels.
    pub open spec fn channels(self) -> nat {
        nfchans_of(self.acmod as int)
    }

    /// The number of audio blocks.
    pub open spec fn blocks(self) -> nat {
        blocks_of(self.numblkscod as int)
    }
}

/// The fixed part of the header, and the cursor behind it.
pub open spec fn syncinfo_syntax(c: Cursor) -> Result<(SyncInfo, Cursor), DecodeFault> {
    let c1 = c.after(16);
    let strmtyp = c1.value(2);
    let c2 = c1.after(2);
    let c3 = c2.after(3);
    let frmsiz = c3.value(11);
    let c4 = c3.after(11);
    let fscod = c4.value(2);
    let c5 = c4.after(2);
    let code = c5.value(2);
    let c6 = c5.after(2);
    let acmod = c6.value(3);
    let c7 = c6.after(3);
    let c8 = c7.after(1);
    let bsid = c8.value(5);
    if c.value(16) != 0x0B77 {
        Err(DecodeFault::InvalidSync)
    } else if strmtyp == 1 {
        Err(DecodeFault::InvalidHeader("E-AC-3 dependent substream not supported"@))
    } else if 2 * (frmsiz + 1) < 8 {
        Err(DecodeFault::InvalidHeader("E-AC-3 frame too small"@))
    } else if fscod == 3 && code == 3 {
        Err(DecodeFault::InvalidHeader("invalid fscod2"@))
    } else if bsid < 11 || bsid > 16 {
        Err(DecodeFault::UnsupportedVersion(bsid as u8))
    } else {
        Ok(
            (
                SyncInfo {
                    strmtyp: strmtyp as u8,
                    substreamid: c2.value(3) as u8,
                    frmsiz: frmsiz as usize,
                    fscod: fscod as usize,
                    numblkscod: (if fscod == 3 { 3 } else { code }) as u8,
                    sample_rate: if fscod == 3 { REDUCED_SAMPLE_RATES[code] } else { SAMPLE_RATES[fscod] },
                    acmod: acmod as u8,
                    lfeon: c7.flag(),
                    bsid: bsid as u8,
                },
                c8.after(5),
            ),
        )
    }
}

fn parse_syncinfo(br: &mut BitReader) -> (r: Result<SyncInfo, DecodeError>)
    requires
        old(br).wf(),
    ensures
        final(br).wf(),
        match r {
            Ok(s) => s.wf() && syncinfo_syntax(old(br)@) == Ok::<(SyncInfo, Cursor), DecodeFault>((s, final(br)@)),
            Err(e) => syncinfo_syntax(old(br)@) == Err::<(SyncInfo, Cursor), DecodeFault>(e@),
        },
{
    proof {
        lemma2_to64();
    }
    let sync: u32 = br.read(16);
    if sync != 0x0B77 {
        return Err(DecodeError::InvalidSync);
    }
    let strmtyp: u8 = br.read(2) as u8;
    let substreamid: u8 = br.read(3) as u8;
    let frmsiz: usize = br.read(11) as usize;
    if strmtyp == 1 {
        return Err(DecodeError::InvalidHeader(String::from_str("E-AC-3 dependent substream not supported")));
    }
    if 2 * (frmsiz + 1) < 8 {
        return Err(DecodeError::InvalidHeader(String::from_str("E-AC-3 frame too small")));
    }
    let fscod: usize = br.read(2) as usize;
    let code: usize = br.read(2) as usize;
    let numblkscod: u8;
    let sample_rate: u32;
    if fscod == 3 {
        if code >= 3 {
            return Err(DecodeError::InvalidHeader(String::from_str("invalid fscod2")));
        }
        sample_rate = REDUCED_SAMPLE_RATES[code];
        numblkscod = 3;
    } else {
        numblkscod = code as u8;
        sample_rate = SAMPLE_RATES[fscod];
    }
    let acmod: u8 = br.read(3) as u8;
    let lfeon: bool = br.read_bool();
    let bsid: u8 = br.read(5) as u8;
    if bsid < 11 || bsid > 16 {
        return Err(DecodeError::UnsupportedVersion(bsid));
    }
    Ok(SyncInfo { strmtyp, substreamid, frmsiz, fscod, numblkscod, sample_rate, acmod, lfeon, bsid })
}

// ---------------------------------------------------------------------------
// Metadata
// ---------------------------------------------------------------------------

/// The cursor behind `n` flags, each followed by `width` ignored bits when set.
pub open spec fn optionals_end(c: Cursor, n: nat, width: nat) -> Cursor
    decreases n,
{
    if n == 0 {
        c
    } else {
        optionals_end(c, (n - 1) as nat, width).past_optional(width)
    }
}

/// Skip `width` bits behind each of `n` flags that is set.
pub fn skip_optionals(br: &mut BitReader, n: usize, width: usize)
    requires
        old(br).wf(),
    ensures
        final(br).wf(),
        final(br)@ == optionals_end(old(br)@, n as nat, width as nat),
{
    let ghost c = br@;
    let mut i: usize = 0;
    while i < n
        invariant
            i <= n,
            br.wf(),
            br@ == optionals_end(c, i as nat, width as nat),
        decreases n - i,
    {
        skip_optional(br, width);
        i = i + 1;
    }
}

/// The cursor behind the mixing data that `mixdef` announces.
pub open spec fn mixdata_end(c: Cursor) -> Cursor {
    let d = c.after(2);
    let mixdef = c.value(2);
    if mixdef == 0 {
        d
    } else if mixdef == 1 {
        d.skipped(5)
    } else if mixdef == 2 {
        d.skipped(12)
    } else {
        d.after(5).skipped(((d.value(5) + 2) * 8) as nat)
    }
}

/// The cursor behind the mixing configuration of an independent stream.
pub open spec fn program_mixing_end(c: Cursor, s: SyncInfo) -> Cursor {
    let c1 = c.past_optional(6);
    let c2 = if s.acmod == 0 { c1.past_optional(6) } else { c1 };
    let c3 = mixdata_end(c2.past_optional(5));
    let c4 = if s.acmod < 2 {
        let d = c3.past_optional(14);
        if s.acmod == 0 { d.past_optional(14) } else { d }
    } else {
        c3
    };
    if !c4.flag() {
        c4.after(1)
    } else if s.numblkscod == 0 {
        c4.after(1).skipped(5)
    } else {
        optionals_end(c4.after(1), s.blocks(), 5)
    }
}

/// The cursor behind the mixing metadata.
pub open spec fn mixing_end(c: Cursor, s: SyncInfo) -> Cursor {
    if !c.flag() {
        c.after(1)
    } else {
        let c1 = c.after(1);
        let c2 = if s.acmod > 2 { c1.skipped(2) } else { c1 };
        let c3 = if s.acmod % 2 == 1 && s.acmod > 2 { c2.skipped(6) } else { c2 };
        let c4 = if s.acmod >= 4 { c3.skipped(6) } else { c3 };
        let c5 = if s.lfeon { c4.past_optional(5) } else { c4 };
        if s.strmtyp == 0 { program_mixing_end(c5, s) } else { c5 }
    }
}

/// The bit stream mode and the cursor behind the informational metadata.
pub open spec fn information(c: Cursor, s: SyncInfo) -> (u8, Cursor) {
    if !c.flag() {
        (0u8, c.after(1))
    } else {
        let c1 = c.after(1);
        let c2 = c1.after(3).skipped(2);
        let c3 = if s.acmod == 2 { c2.skipped(4) } else { c2 };
        let c4 = if s.acmod >= 6 { c3.skipped(2) } else { c3 };
        let c5 = c4.past_optional(8);
        let c6 = if s.acmod == 0 { c5.past_optional(8) } else { c5 };
        (c1.value(3) as u8, if s.fscod < 3 { c6.skipped(1) } else { c6 })
    }
}

/// Dialogue normalisation, bit stream mode and the cursor behind all metadata.
pub open spec fn metadata(c: Cursor, s: SyncInfo) -> (u8, u8, Cursor) {
    let c1 = c.after(5).past_optional(8);
    let c2 = if s.acmod == 0 { c1.skipped(5).past_optional(8) } else { c1 };
    let (bsmod, c3) = information(mixing_end(c2, s), s);
    let c4 = if s.strmtyp == 0 && s.numblkscod != 3 { c3.skipped(1) } else { c3 };
    let c5 = if s.strmtyp == 2 { c4.past_optional(6) } else { c4 };
    (c.value(5) as u8, bsmod, additional_end(c5))
}

fn skip_program_mixing(br: &mut BitReader, s: &SyncInfo)
    requires
        old(br).wf(),
        s.wf(),
    ensures
        final(br).wf(),
        final(br)@ == program_mixing_end(old(br)@, *s),
{
    proof {
        lemma2_to64();
    }
    skip_optional(br, 6);
    if s.acmod == 0 {
        skip_optional(br, 6);
    }
    skip_optional(br, 5);
    let mixdef: u32 = br.read(2);
    match mixdef {
        0 => {},
        1 => br.skip(5),
        2 => br.skip(12),
        _ => {
            let mixdeflen: usize = br.read(5) as usize;
            br.skip((mixdeflen + 2) * 8);
        },
    }
    if s.acmod < 2 {
        skip_optional(br, 14);
        if s.acmod == 0 {
            skip_optional(br, 14);
        }
    }
    if br.read_bool() {
        if s.numblkscod == 0 {
            br.skip(5);
        } else {
            skip_optionals(br, num_blocks(s.numblkscod), 5);
        }
    }
}

fn skip_mixing(br: &mut BitReader, s: &SyncInfo)
    requires
        old(br).wf(),
        s.wf(),
    ensures
        final(br).wf(),
        final(br)@ == mixing_end(old(br)@, *s),
{
    if br.read_bool() {
        if s.acmod > 2 {
            br.skip(2);
        }
        if s.acmod % 2 == 1 && s.acmod > 2 {
            br.skip(6);
        }
        if s.acmod >= 4 {
            br.skip(6);
        }
        if s.lfeon {
            skip_optional(br, 5);
        }
        if s.strmtyp == 0 {
            skip_program_mixing(br, s);
        }
    }
}

fn num_blocks(numblkscod: u8) -> (n: usize)
    ensures
        n == blocks_of(numblkscod as int),
{
    if numblkscod < 3 { numblkscod as usize + 1 } else { 6 }
}

fn read_information(br: &mut BitReader, s: &SyncInfo) -> (bsmod: u8)
    requires
        old(br).wf(),
    ensures
        final(br).wf(),
        (bsmod, final(br)@) == information(old(br)@, *s),
{
    let mut bsmod: u8 = 0;
    if br.read_bool() {
        proof {
            lemma2_to64();
        }
        bsmod = br.read(3) as u8;
        br.skip(2);
        if s.acmod == 2 {
            br.skip(4);
        }
        if s.acmod >= 6 {
            br.skip(2);
        }
        skip_optional(br, 8);
        if s.acmod == 0 {
            skip_optional(br, 8);
        }
        if s.fscod < 3 {
            br.skip(1);
        }
    }
    bsmod
}

fn read_metadata(br: &mut BitReader, s: &SyncInfo) -> (r: (u8, u8))
    requires
        old(br).wf(),
        s.wf(),
    ensures
        final(br).wf(),
        (r.0, r.1, final(br)@) == metadata(old(br)@, *s),
{
    proof {
        lemma2_to64();
    }
    let dialnorm: u8 = br.read(5) as u8;
    skip_optional(br, 8);
    if s.acmod == 0 {
        br.skip(5);
        skip_optional(br, 8);
    }
    skip_mixing(br, s);
    let bsmod: u8 = read_information(br, s);
    if s.strmtyp == 0 && s.numblkscod != 3 {
        br.skip(1);
    }
    if s.strmtyp == 2 {
        skip_optional(br, 6);
    }
    skip_additional(br);
    (dialnorm, bsmod)
}

// ---------------------------------------------------------------------------
// Frame-level flags
// ---------------------------------------------------------------------------

/// The syntax flags at the start of the audio frame information.
#[derive(Clone, Copy, Debug, PartialEq, Eq, Structural)]
pub struct FrameFlags {
    pub ac3_exponents: bool,
    pub aht: bool,
    pub snr_offset_strategy: u8,
    pub transient: bool,
    pub block_switch: bool,
    pub dither_flag: bool,
    pub bit_allocation: bool,
    pub fast_gain: bool,
    pub dba: bool,
    pub skip: bool,
    pub spx_atten: bool,
}

/// The syntax flags of a frame of `blocks` blocks.
pub open spec fn frame_flags(c: Cursor, blocks: nat) -> (FrameFlags, Cursor) {
    let (ac3_exponents, aht, c1) = if blocks == 6 {
        (c.flag(), c.after(1).flag(), c.after(1).after(1))
    } else {
        (true, false, c)
    };
    let c2 = c1.after(2);
    let c3 = c2.after(1);
    let c4 = c3.after(1);
    let c5 = c4.after(1);
    let c6 = c5.after(1);
    let c7 = c6.after(1);
    let c8 = c7.after(1);
    let c9 = c8.after(1);
    (
        FrameFlags {
            ac3_exponents,
            aht,
            snr_offset_strategy: c1.value(2) as u8,
            transient: c2.flag(),
            block_switch: c3.flag(),
            dither_flag: c4.flag(),
            bit_allocation: c5.flag(),
            fast_gain: c6.flag(),
            dba: c7.flag(),
            skip: c8.flag(),
            spx_atten: c9.flag(),
        },
        c9.after(1),
    )
}

fn read_frame_flags(br: &mut BitReader, blocks: usize) -> (r: FrameFlags)
    requires
        old(br).wf(),
    ensures
        final(br).wf(),
        r.snr_offset_strategy < 4,
        (r, final(br)@) == frame_flags(old(br)@, blocks as nat),
{
    proof {
        lemma2_to64();
    }
    let mut ac3_exponents: bool = true;
    let mut aht: bool = false;
    if blocks == 6 {
        ac3_exponents = br.read_bool();
        aht = br.read_bool();
    }
    let snr_offset_strategy: u8 = br.read(2) as u8;
    let transient: bool = br.read_bool();
    let block_switch: bool = br.read_bool();
    let dither_flag: bool = br.read_bool();
    let bit_allocation: bool = br.read_bool();
    let fast_gain: bool = br.read_bool();
    let dba: bool = br.read_bool();
    let skip: bool = br.read_bool();
    let spx_atten: bool = br.read_bool();
    FrameFlags {
        ac3_exponents,
        aht,
        snr_offset_strategy,
        transient,
        block_switch,
        dither_flag,
        bit_allocation,
        fast_gain,
        dba,
        skip,
        spx_atten,
    }
}

// ---------------------------------------------------------------------------
// Coupling and exponent strategies
// ---------------------------------------------------------------------------

/// Coupling and exponent strategies of all blocks.
pub struct Strategies {
    pub exists: [bool; 6],
    pub cplinu: [bool; 6],
    pub cplexpstr: [u8; 6],
    pub chexpstr: [[u8; 6]; 6],
    pub lfeexpstr: [u8; 6],
}

/// Coupling and exponent strategies as sequences.
#[verifier::ext_equal]
pub struct StrategiesView {
    pub exists: Seq<bool>,
    pub cplinu: Seq<bool>,
    pub cplexpstr: Seq<u8>,
    pub chexpstr: Seq<Seq<u8>>,
    pub lfeexpstr: Seq<u8>,
}

impl View for Strategies {
    type V = StrategiesView;

    open spec fn view(&self) -> StrategiesView {
        StrategiesView {
            exists: self.exists@,
            cplinu: self.cplinu@,
            cplexpstr: self.cplexpstr@,
            chexpstr: strategy_rows(self.chexpstr@),
            lfeexpstr: self.lfeexpstr@,
        }
    }
}

/// No coupling, and exponents reused everywhere.
pub open spec fn no_strategies() -> StrategiesView {
    StrategiesView {
        exists: Seq::new(6, |i: int| false),
        cplinu: Seq::new(6, |i: int| false),
        cplexpstr: Seq::new(6, |i: int| 0u8),
        chexpstr: Seq::new(6, |i: int| Seq::new(6, |j: int| 0u8)),
        lfeexpstr: Seq::new(6, |i: int| 0u8),
    }
}

impl StrategiesView {
    /// Six entries each; a strategy fits two bits.
    pub open spec fn wf(self) -> bool {
        &&& self.exists.len() == 6
        &&& self.cplinu.len() == 6
        &&& self.cplexpstr.len() == 6
        &&& self.chexpstr.len() == 6
        &&& self.lfeexpstr.len() == 6
        &&& forall|i: int| 0 <= i < 6 ==> #[trigger] self.cplexpstr[i] < 4
        &&& forall|i: int| 0 <= i < 6 ==> #[trigger] self.lfeexpstr[i] < 4
        &&& forall|i: int| 0 <= i < 6 ==> (#[trigger] self.chexpstr[i]).len() == 6
        &&& forall|i: int, j: int| 0 <= i < 6 && 0 <= j < 6 ==> #[trigger] self.chexpstr[i][j] < 4
    }
}

/// The coupling flags of the first `n` blocks of a stream with several channels:
/// the first block always has a strategy, a block without one goes on as the
/// block before it.
pub open spec fn coupling_flags(c: Cursor, v: StrategiesView, n: nat) -> (StrategiesView, Cursor)
    decreases n,
{
    if n == 0 {
        (v, c)
    } else {
        let (w, d) = coupling_flags(c, v, (n - 1) as nat);
        let b = n - 1;
        let (exists, d1) = if b == 0 { (true, d) } else { (d.flag(), d.after(1)) };
        let (inu, d2) = if exists { (d1.flag(), d1.after(1)) } else { (w.cplinu[b - 1], d1) };
        (StrategiesView { exists: w.exists.update(b, exists), cplinu: w.cplinu.update(b, inu), ..w }, d2)
    }
}

/// A row whose first `n` entries are the next fields of two bits.
pub open spec fn row_codes(c: Cursor, row: Seq<u8>, n: nat) -> (Seq<u8>, Cursor)
    decreases n,
{
    if n == 0 {
        (row, c)
    } else {
        let (r, d) = row_codes(c, row, (n - 1) as nat);
        (r.update(n - 1, d.value(2) as u8), d.after(2))
    }
}

/// The exponent strategies of the first `n` blocks, coded block by block.
pub open spec fn block_strategies(c: Cursor, v: StrategiesView, channels: nat, n: nat) -> (StrategiesView, Cursor)
    decreases n,
{
    if n == 0 {
        (v, c)
    } else {
        let (w, d) = block_strategies(c, v, channels, (n - 1) as nat);
        let b = n - 1;
        let (cpl, d1) = if w.cplinu[b] { (d.value(2) as u8, d.after(2)) } else { (w.cplexpstr[b], d) };
        let (row, d2) = row_codes(d1, w.chexpstr[b], channels);
        (StrategiesView { cplexpstr: w.cplexpstr.update(b, cpl), chexpstr: w.chexpstr.update(b, row), ..w }, d2)
    }
}

/// The strategy that a frame-level code gives a block: the first block brings
/// new exponents, a later one reuses them where its bit of the code is set.
pub open spec fn frame_strategy(code: int, blk: int) -> u8 {
    let p = if blk == 1 { 16int } else if blk == 2 { 8 } else if blk == 3 { 4 } else if blk == 4 { 2 } else { 1 };
    if blk == 0 || (code / p) % 2 == 0 {
        1
    } else {
        0
    }
}

/// The strategies of all six blocks by one code.
pub open spec fn frame_strategies(code: int) -> Seq<u8> {
    Seq::new(6, |b: int| frame_strategy(code, b))
}

/// The table with the column of channel `ch` set by a frame-level code.
pub open spec fn with_column(t: Seq<Seq<u8>>, ch: int, code: int) -> Seq<Seq<u8>> {
    Seq::new(t.len(), |b: int| t[b].update(ch, frame_strategy(code, b)))
}

/// The exponent strategies of the first `n` channels, coded channel by channel.
pub open spec fn column_strategies(c: Cursor, t: Seq<Seq<u8>>, n: nat) -> (Seq<Seq<u8>>, Cursor)
    decreases n,
{
    if n == 0 {
        (t, c)
    } else {
        let (u, d) = column_strategies(c, t, (n - 1) as nat);
        (with_column(u, n - 1, d.value(5)), d.after(5))
    }
}

/// How many of the first `n` blocks use coupling.
pub open spec fn coupled_blocks(cplinu: Seq<bool>, n: nat) -> nat
    decreases n,
{
    if n == 0 {
        0
    } else {
        coupled_blocks(cplinu, (n - 1) as nat) + (if cplinu[n - 1] { 1nat } else { 0nat })
    }
}

/// The exponent strategies of a frame, coded frame by frame.
pub open spec fn whole_frame_strategies(c: Cursor, v: StrategiesView, s: SyncInfo) -> (StrategiesView, Cursor) {
    let (cpl, c1) = if s.acmod > 1 && coupled_blocks(v.cplinu, s.blocks()) > 0 {
        (frame_strategies(c.value(5)), c.after(5))
    } else {
        (v.cplexpstr, c)
    };
    let (t, c2) = column_strategies(c1, v.chexpstr, s.channels());
    (StrategiesView { cplexpstr: cpl, chexpstr: t, ..v }, c2)
}

/// The LFE strategies of the first `n` blocks.
pub open spec fn lfe_strategies(c: Cursor, row: Seq<u8>, n: nat) -> (Seq<u8>, Cursor)
    decreases n,
{
    if n == 0 {
        (row, c)
    } else {
        let (r, d) = lfe_strategies(c, row, (n - 1) as nat);
        (r.update(n - 1, d.value(1) as u8), d.after(1))
    }
}

/// All strategies of a frame.
pub open spec fn strategies_syntax(c: Cursor, s: SyncInfo, f: FrameFlags) -> (StrategiesView, Cursor) {
    let (v1, c1) = if s.acmod > 1 { coupling_flags(c, no_strategies(), s.blocks()) } else { (no_strategies(), c) };
    let (v2, c2) = if f.ac3_exponents {
        block_strategies(c1, v1, s.channels(), s.blocks())
    } else {
        whole_frame_strategies(c1, v1, s)
    };
    let (lfe, c3) = if s.lfeon { lfe_strategies(c2, v2.lfeexpstr, s.blocks()) } else { (v2.lfeexpstr, c2) };
    (StrategiesView { lfeexpstr: lfe, ..v2 }, c3)
}

impl Strategies {
    fn new() -> (r: Self)
        ensures
            r@ == no_strategies(),
            r@.wf(),
    {
        let r: Strategies = Strategies {
            exists: [false; 6],
            cplinu: [false; 6],
            cplexpstr: [0; 6],
            chexpstr: [[0; 6]; 6],
            lfeexpstr: [0; 6],
        };
        proof {
            assert forall|i: int| 0 <= i < 6 implies (#[trigger] strategy_rows(r.chexpstr@)[i]) == Seq::new(
                6,
                |j: int| 0u8,
            ) by {
                assert(r.chexpstr@[i]@ =~= Seq::new(6, |j: int| 0u8));
            }
            assert(r@.chexpstr =~= no_strategies().chexpstr);
            assert(r@ =~= no_strategies());
        }
        r
    }

    fn read_coupling(&mut self, br: &mut BitReader, blocks: usize)
        requires
            old(br).wf(),
            blocks <= 6,
            old(self)@.wf(),
        ensures
            final(br).wf(),
            final(self)@.wf(),
            (final(self)@, final(br)@) == coupling_flags(old(br)@, old(self)@, blocks as nat),
    {
        let ghost c = br@;
        let ghost before = self@;
        let mut b: usize = 0;
        while b < blocks
            invariant
                b <= blocks <= 6,
                br.wf(),
                self@.wf(),
                (self@, br@) == coupling_flags(c, before, b as nat),
            decreases blocks - b,
        {
            let exists: bool = if b == 0 { true } else { br.read_bool() };
            self.exists[b] = exists;
            let inu: bool = if exists {
                br.read_bool()
            } else if b > 0 {
                self.cplinu[b - 1]
            } else {
                false
            };
            self.cplinu[b] = inu;
            b = b + 1;
            assert(self@ =~= coupling_flags(c, before, b as nat).0);
        }
    }

    fn read_blocks(&mut self, br: &mut BitReader, channels: usize, blocks: usize)
        requires
            old(br).wf(),
            blocks <= 6,
            channels <= 5,
            old(self)@.wf(),
        ensures
            final(br).wf(),
            final(self)@.wf(),
            final(self)@.exists == old(self)@.exists,
            final(self)@.cplinu == old(self)@.cplinu,
            (final(self)@, final(br)@) == block_strategies(old(br)@, old(self)@, channels as nat, blocks as nat),
    {
        let ghost c = br@;
        let ghost before = self@;
        let mut b: usize = 0;
        while b < blocks
            invariant
                b <= blocks <= 6,
                channels <= 5,
                br.wf(),
                self@.wf(),
                self@.exists == before.exists,
                self@.cplinu == before.cplinu,
                (self@, br@) == block_strategies(c, before, channels as nat, b as nat),
            decreases blocks - b,
        {
            let ghost w = self@;
            proof {
                lemma2_to64();
            }
            if self.cplinu[b] {
                self.cplexpstr[b] = br.read(2) as u8;
            }
            let ghost d1 = br@;
            let mut row: [u8; 6] = self.chexpstr[b];
            let ghost row0 = row@;
            assert(w.chexpstr[b as int] == row0);
            assert forall|j: int| 0 <= j < 6 implies #[trigger] row0[j] < 4 by {
                assert(w.chexpstr[b as int][j] < 4);
            }
            let mut ch: usize = 0;
            while ch < channels
                invariant
                    ch <= channels <= 5,
                    br.wf(),
                    (row@, br@) == row_codes(d1, row0, ch as nat),
                    forall|j: int| 0 <= j < 6 ==> #[trigger] row@[j] < 4,
                decreases channels - ch,
            {
                proof {
                    lemma2_to64();
                }
                row[ch] = br.read(2) as u8;
                ch = ch + 1;
            }
            self.chexpstr[b] = row;
            b = b + 1;
            proof {
                let goal = block_strategies(c, before, channels as nat, b as nat).0;
                assert(self@.chexpstr =~= goal.chexpstr);
                assert(self@.cplexpstr =~= goal.cplexpstr);
                assert(self@ =~= goal);
                assert(self@.wf());
            }
        }
    }

    fn read_whole_frame(&mut self, br: &mut BitReader, s: &SyncInfo, channels: usize, blocks: usize)
        requires
            old(br).wf(),
            s.wf(),
            channels == s.channels(),
            blocks == s.blocks(),
            old(self)@.wf(),
        ensures
            final(br).wf(),
            final(self)@.wf(),
            final(self)@.exists == old(self)@.exists,
            final(self)@.cplinu == old(self)@.cplinu,
            (final(self)@, final(br)@) == whole_frame_strategies(old(br)@, old(self)@, *s),
    {
        let ghost c = br@;
        let ghost before = self@;
        let coupled: usize = count_coupled(&self.cplinu, blocks);
        if s.acmod > 1 && coupled > 0 {
            proof {
                lemma2_to64();
            }
            let code: u32 = br.read(5);
            self.cplexpstr = strategies_by_code(code);
        }
        let ghost c1 = br@;
        let ghost t0 = strategy_rows(self.chexpstr@);
        let mut ch: usize = 0;
        while ch < channels
            invariant
                ch <= channels <= 5,
                br.wf(),
                self@.wf(),
                self.exists@ == before.exists,
                self.cplinu@ == before.cplinu,
                self.lfeexpstr@ == before.lfeexpstr,
                self.cplexpstr@ == whole_frame_strategies(c, before, *s).0.cplexpstr,
                (strategy_rows(self.chexpstr@), br@) == column_strategies(c1, t0, ch as nat),
            decreases channels - ch,
        {
            proof {
                lemma2_to64();
            }
            let ghost u = strategy_rows(self.chexpstr@);
            let code: u32 = br.read(5);
            let column: [u8; 6] = strategies_by_code(code);
            let mut b: usize = 0;
            while b < 6
                invariant
                    b <= 6,
                    ch < 5,
                    u.len() == 6,
                    column@ == frame_strategies(code as int),
                    forall|k: int| 0 <= k < 6 ==> (#[trigger] u[k]).len() == 6,
                    forall|k: int| 0 <= k < 6 ==> (#[trigger] self.chexpstr[k])@ == if k < b {
                        u[k].update(ch as int, frame_strategy(code as int, k))
                    } else {
                        u[k]
                    },
                    self.exists@ == before.exists,
                    self.cplinu@ == before.cplinu,
                    self.lfeexpstr@ == before.lfeexpstr,
                    self.cplexpstr@ == whole_frame_strategies(c, before, *s).0.cplexpstr,
                decreases 6 - b,
            {
                let mut row: [u8; 6] = self.chexpstr[b];
                row[ch] = column[b];
                self.chexpstr[b] = row;
                b = b + 1;
            }
            proof {
                assert(strategy_rows(self.chexpstr@) =~= with_column(u, ch as int, code as int));
                assert forall|i: int, j: int| 0 <= i < 6 && 0 <= j < 6 implies #[trigger] self@.chexpstr[i][j] < 4 by {
                    assert(u[i][j] < 4);
                }
            }
            ch = ch + 1;
        }
        assert(self@ =~= whole_frame_strategies(c, before, *s).0);
    }

    fn read_lfe(&mut self, br: &mut BitReader, blocks: usize)
        requires
            old(br).wf(),
            blocks <= 6,
            old(self)@.wf(),
        ensures
            final(br).wf(),
            final(self)@.wf(),
            final(self)@ == (StrategiesView {
                lfeexpstr: lfe_strategies(old(br)@, old(self)@.lfeexpstr, blocks as nat).0,
                ..old(self)@
            }),
            final(br)@ == lfe_strategies(old(br)@, old(self)@.lfeexpstr, blocks as nat).1,
    {
        let ghost c = br@;
        let ghost before = self@;
        let mut b: usize = 0;
        while b < blocks
            invariant
                b <= blocks <= 6,
                br.wf(),
                self@.wf(),
                self.exists@ == before.exists,
                self.cplinu@ == before.cplinu,
                self.cplexpstr@ == before.cplexpstr,
                strategy_rows(self.chexpstr@) == before.chexpstr,
                (self.lfeexpstr@, br@) == lfe_strategies(c, before.lfeexpstr, b as nat),
            decreases blocks - b,
        {
            proof {
                lemma2_to64();
            }
            self.lfeexpstr[b] = br.read(1) as u8;
            b = b + 1;
        }
    }

    fn read(br: &mut BitReader, s: &SyncInfo, f: &FrameFlags) -> (r: Self)
        requires
            old(br).wf(),
            s.wf(),
        ensures
            final(br).wf(),
            r@.wf(),
            (r@, final(br)@) == strategies_syntax(old(br)@, *s, *f),
    {
        let channels: usize = nfchans(s.acmod);
        let blocks: usize = num_blocks(s.numblkscod);
        let mut r: Strategies = Strategies::new();
        if s.acmod > 1 {
            r.read_coupling(br, blocks);
        }
        if f.ac3_exponents {
            r.read_blocks(br, channels, blocks);
        } else {
            r.read_whole_frame(br, s, channels, blocks);
        }
        if s.lfeon {
            r.read_lfe(br, blocks);
        }
        r
    }
}

fn count_coupled(cplinu: &[bool; 6], blocks: usize) -> (n: usize)
    requires
        blocks <= 6,
    ensures
        n == coupled_blocks(cplinu@, blocks as nat),
        n <= blocks,
{
    let mut n: usize = 0;
    let mut b: usize = 0;
    while b < blocks
        invariant
            b <= blocks <= 6,
            n == coupled_blocks(cplinu@, b as nat),
            n <= b,
        decreases blocks - b,
    {
        if cplinu[b] {
            n = n + 1;
        }
        b = b + 1;
    }
    n
}

fn strategies_by_code(code: u32) -> (r: [u8; 6])
    ensures
        r@ == frame_strategies(code as int),
        forall|i: int| 0 <= i < 6 ==> #[trigger] r[i] < 4,
{
    let r: [u8; 6] = [
        1,
        if (code / 16) % 2 == 0 { 1 } else { 0 },
        if (code / 8) % 2 == 0 { 1 } else { 0 },
        if (code / 4) % 2 == 0 { 1 } else { 0 },
        if (code / 2) % 2 == 0 { 1 } else { 0 },
        if code % 2 == 0 { 1 } else { 0 },
    ];
    assert(r@ =~= frame_strategies(code as int));
    r
}

// ---------------------------------------------------------------------------
// The rest of the audio frame information
// ---------------------------------------------------------------------------

/// Whether channel `ch` (0 coupling, then the full-bandwidth channels, then LFE)
/// keeps the exponents of the first block through all six blocks.
pub open spec fn reuses_exponents(v: StrategiesView, channels: nat, ch: int) -> bool {
    forall|b: int| 1 <= b < 6 ==> {
        &&& #[trigger] exponent_strategy(v, channels, ch, b) == 0
        &&& ch == 0 ==> !v.exists[b]
    }
}

/// The exponent strategy of channel `ch` in block `b`.
pub open spec fn exponent_strategy(v: StrategiesView, channels: nat, ch: int, b: int) -> u8 {
    if ch == 0 {
        v.cplexpstr[b]
    } else if ch <= channels {
        v.chexpstr[b][ch - 1]
    } else {
        v.lfeexpstr[b]
    }
}

/// The cursor behind the hybrid transform flags of the channels from `first` up
/// to `n`: one for each channel that keeps its exponents.
pub open spec fn aht_end(c: Cursor, v: StrategiesView, channels: nat, first: int, n: int) -> Cursor
    decreases n - first,
{
    if n <= first {
        c
    } else {
        let d = aht_end(c, v, channels, first, n - 1);
        if reuses_exponents(v, channels, n - 1) {
            d.after(1)
        } else {
            d
        }
    }
}

/// The SPX attenuation codes of the first `n` channels.
pub open spec fn attenuation_codes(c: Cursor, present: bool, row: Seq<i8>, n: nat) -> (Seq<i8>, Cursor)
    decreases n,
{
    if n == 0 {
        (row, c)
    } else {
        let (r, d) = attenuation_codes(c, present, row, (n - 1) as nat);
        if present && d.flag() {
            (r.update(n - 1, d.after(1).value(5) as i8), d.after(1).after(5))
        } else {
            (r.update(n - 1, -1i8), if present { d.after(1) } else { d })
        }
    }
}

/// The smallest `k` such that two to the `k` is at least `n`, counted up from
/// `from`.
pub open spec fn log2_ceil(n: int, from: nat) -> nat
    decreases
        (if pow2(from) >= n {
            0
        } else {
            n - pow2(from)
        }),
    via log2_ceil_decreases
{
    if pow2(from) >= n {
        from
    } else {
        log2_ceil(n, from + 1)
    }
}

#[via_fn]
proof fn log2_ceil_decreases(n: int, from: nat) {
    lemma2_to64();
    lemma_pow2_adds(from, 1);
    vstd::arithmetic::power2::lemma_pow2_pos(from);
}

/// The length of the block start information in bits.
pub open spec fn block_start_bits(words: int, blocks: nat) -> nat {
    let log = if words > 2 { log2_ceil(words - 2, 0) } else { 0 };
    ((blocks - 1) * (4 + log)) as nat
}

/// What stands between the exponent strategies and the audio blocks: the
/// frame-level SNR offset, the SPX attenuation codes and the cursor behind them.
pub open spec fn frame_rest(c: Cursor, s: SyncInfo, f: FrameFlags, v: StrategiesView) -> (int, Seq<i8>, Cursor) {
    let n = s.channels();
    let c1 = if s.strmtyp != 0 {
        c
    } else if s.blocks() == 6 {
        c.skipped(5 * n)
    } else {
        c.past_optional(5 * n)
    };
    let c2 = if f.aht {
        let first = if coupled_blocks(v.cplinu, s.blocks()) != 6 { 1int } else { 0 };
        aht_end(c1, v, n, first, n + (if s.lfeon { 2int } else { 1 }))
    } else {
        c1
    };
    let (snr, c3) = if f.snr_offset_strategy == 0 {
        (snr_offset(c2.value(6), c2.after(6).value(4)), c2.after(6).after(4))
    } else {
        (0, c2)
    };
    let c4 = if f.transient { optionals_end(c3, n, 18) } else { c3 };
    let (atten, c5) = attenuation_codes(c4, f.spx_atten, Seq::new(6, |i: int| -1i8), n);
    let c6 = if s.blocks() > 1 { c5.past_optional(block_start_bits(s.frmsiz + 1, s.blocks())) } else { c5 };
    (snr, atten, c6)
}

fn keeps_exponents(v: &Strategies, channels: usize, ch: usize) -> (r: bool)
    requires
        channels <= 5,
        ch <= channels + 1,
    ensures
        r == reuses_exponents(v@, channels as nat, ch as int),
{
    let mut b: usize = 1;
    while b < 6
        invariant
            1 <= b <= 6,
            channels <= 5,
            ch <= channels + 1,
            forall|k: int| 1 <= k < b ==> {
                &&& #[trigger] exponent_strategy(v@, channels as nat, ch as int, k) == 0
                &&& ch == 0 ==> !v@.exists[k]
            },
        decreases 6 - b,
    {
        let strategy: u8 = if ch == 0 {
            v.cplexpstr[b]
        } else if ch <= channels {
            v.chexpstr[b][ch - 1]
        } else {
            v.lfeexpstr[b]
        };
        assert(strategy == exponent_strategy(v@, channels as nat, ch as int, b as int));
        if strategy != 0 {
            return false;
        }
        if ch == 0 && v.exists[b] {
            assert(v@.exists[b as int]);
            return false;
        }
        assert(strategy == 0);
        assert(exponent_strategy(v@, channels as nat, ch as int, b as int) == 0);
        assert(ch == 0 ==> !v@.exists[b as int]);
        assert forall|k: int| 1 <= k < b + 1 implies {
            &&& #[trigger] exponent_strategy(v@, channels as nat, ch as int, k) == 0
            &&& ch == 0 ==> !v@.exists[k]
        } by {
            if k < b {
                assert(exponent_strategy(v@, channels as nat, ch as int, k) == 0);
            } else {
                assert(k == b);
            }
        }
        b = b + 1;
    }
    true
}

fn skip_aht(br: &mut BitReader, v: &Strategies, channels: usize, first: usize, n: usize)
    requires
        old(br).wf(),
        channels <= 5,
        n <= channels + 2,
        first <= 1,
    ensures
        final(br).wf(),
        final(br)@ == aht_end(old(br)@, v@, channels as nat, first as int, n as int),
{
    let ghost c = br@;
    let mut ch: usize = first;
    while ch < n
        invariant
            first <= ch,
            ch <= n || n < first,
            n < first ==> ch == first,
            channels <= 5,
            n <= channels + 2,
            br.wf(),
            br@ == aht_end(c, v@, channels as nat, first as int, ch as int),
        decreases n - ch,
    {
        if keeps_exponents(v, channels, ch) {
            br.read_bool();
        }
        ch = ch + 1;
    }
}

fn read_attenuation(br: &mut BitReader, present: bool, n: usize) -> (row: [i8; 6])
    requires
        old(br).wf(),
        n <= 5,
    ensures
        final(br).wf(),
        (row@, final(br)@) == attenuation_codes(old(br)@, present, Seq::new(6, |i: int| -1i8), n as nat),
{
    let ghost c = br@;
    let mut row: [i8; 6] = [-1; 6];
    let ghost row0 = Seq::new(6, |i: int| -1i8);
    assert(row@ =~= row0);
    let mut ch: usize = 0;
    while ch < n
        invariant
            ch <= n <= 5,
            br.wf(),
            (row@, br@) == attenuation_codes(c, present, row0, ch as nat),
        decreases n - ch,
    {
        proof {
            lemma2_to64();
        }
        row[ch] = if present && br.read_bool() {
            br.read(5) as i8
        } else {
            -1
        };
        ch = ch + 1;
    }
    row
}

fn log2_of(n: usize) -> (k: usize)
    requires
        1 <= n <= 2048,
    ensures
        k == log2_ceil(n as int, 0),
        k <= 11,
{
    let mut k: usize = 0;
    let mut p: usize = 1;
    proof {
        lemma2_to64();
    }
    while p < n
        invariant
            k <= 11,
            1 <= n <= 2048,
            p == pow2(k as nat),
            p >= 1,
            log2_ceil(n as int, 0) == log2_ceil(n as int, k as nat),
        decreases 2048 - p,
    {
        proof {
            lemma2_to64();
            lemma_pow2_adds(k as nat, 1);
            if k == 11 {
                assert(p == 2048);
            }
        }
        p = 2 * p;
        k = k + 1;
    }
    k
}

fn read_frame_rest(br: &mut BitReader, s: &SyncInfo, f: &FrameFlags, v: &Strategies) -> (r: (i32, [i8; 6]))
    requires
        old(br).wf(),
        s.wf(),
        f.aht ==> s.blocks() == 6,
    ensures
        final(br).wf(),
        -4000 <= r.0 <= 4000,
        (r.0 as int, r.1@, final(br)@) == frame_rest(old(br)@, *s, *f, v@),
{
    proof {
        lemma2_to64();
    }
    let n: usize = nfchans(s.acmod);
    let blocks: usize = num_blocks(s.numblkscod);
    if s.strmtyp == 0 {
        if blocks == 6 {
            br.skip(5 * n);
        } else {
            skip_optional(br, 5 * n);
        }
    }
    if f.aht {
        let coupled: usize = count_coupled(&v.cplinu, blocks);
        let first: usize = if coupled != 6 { 1 } else { 0 };
        skip_aht(br, v, n, first, n + (if s.lfeon { 2 } else { 1 }));
    }
    let mut snr: i32 = 0;
    if f.snr_offset_strategy == 0 {
        let coarse: i32 = br.read(6) as i32;
        let fine: i32 = br.read(4) as i32;
        snr = (16 * (coarse - 15) + fine) * 4;
    }
    if f.transient {
        skip_optionals(br, n, 18);
    }
    let atten: [i8; 6] = read_attenuation(br, f.spx_atten, n);
    if blocks > 1 {
        let words: usize = s.frmsiz + 1;
        let log: usize = if words > 2 { log2_of(words - 2) } else { 0 };
        assert((blocks - 1) * (4 + log) <= 5 * 15) by (nonlinear_arith)
            requires
                1 <= blocks <= 6,
                0 <= log <= 11,
        ;
        skip_optional(br, (blocks - 1) * (4 + log));
    }
    (snr, atten)
}

// ---------------------------------------------------------------------------
// The whole header
// ---------------------------------------------------------------------------

/// What the header of an E-AC-3 frame says.
#[verifier::ext_equal]
pub struct EacView {
    pub sync: SyncInfo,
    pub dialnorm: u8,
    pub bsmod: u8,
    pub flags: FrameFlags,
    pub strategies: StrategiesView,
    pub snr_offset: int,
    pub spx_atten_code: Seq<i8>,
}

/// The header of an E-AC-3 frame, and the cursor at its first audio block.
#[verifier::opaque]
pub open spec fn eac3_syntax(c: Cursor) -> Result<(EacView, Cursor), DecodeFault> {
    match syncinfo_syntax(c) {
        Err(f) => Err(f),
        Ok((sync, c1)) => {
            let (dialnorm, bsmod, c2) = metadata(c1, sync);
            let (flags, c3) = frame_flags(c2, sync.blocks());
            let (strategies, c4) = strategies_syntax(c3, sync, flags);
            let (snr_offset, spx_atten_code, c5) = frame_rest(c4, sync, flags, strategies);
            Ok((EacView { sync, dialnorm, bsmod, flags, strategies, snr_offset, spx_atten_code }, c5))
        },
    }
}

/// What the audio blocks of a frame need of its header.
#[verifier::ext_equal]
pub struct BlockHeader {
    pub fscod: usize,
    pub acmod: u8,
    pub lfeon: bool,
    pub block_switch: bool,
    pub dither_flag: bool,
    pub bit_allocation: bool,
    pub fast_gain: bool,
    pub dba: bool,
    pub skip: bool,
    pub snr_offset_strategy: u8,
    pub strategies: StrategiesView,
    pub snr_offset: int,
}

impl BlockHeader {
    /// Codes fit their fields, and the SNR offset is one that codes make.
    pub open spec fn wf(self) -> bool {
        &&& self.fscod < 4
        &&& self.acmod < 8
        &&& self.strategies.wf()
        &&& -4000 <= self.snr_offset <= 4000
    }
}

impl View for EacBsi {
    type V = BlockHeader;

    open spec fn view(&self) -> BlockHeader {
        BlockHeader {
            fscod: self.fscod,
            acmod: self.acmod,
            lfeon: self.lfeon,
            block_switch: self.block_switch_syntax,
            dither_flag: self.dither_flag_syntax,
            bit_allocation: self.bit_allocation_syntax,
            fast_gain: self.fast_gain_syntax,
            dba: self.dba_syntax,
            skip: self.skip_syntax,
            snr_offset_strategy: self.snr_offset_strategy,
            strategies: StrategiesView {
                exists: self.cpl_strategy_exists@,
                cplinu: self.cplinu@,
                cplexpstr: self.cplexpstr@,
                chexpstr: strategy_rows(self.chexpstr@),
                lfeexpstr: self.lfeexpstr@,
            },
            snr_offset: self.snr_offset as int,
        }
    }
}

impl EacBsi {
    /// The fields say what the header says.
    pub open spec fn describes(&self, v: EacView) -> bool {
        &&& self.strmtyp == v.sync.strmtyp
        &&& self.substreamid == v.sync.substreamid
        &&& self.frmsiz == v.sync.frmsiz
        &&& self.frmsize == 2 * (v.sync.frmsiz + 1)
        &&& self.fscod == v.sync.fscod
        &&& self.numblkscod == v.sync.numblkscod
        &&& self.num_blocks == v.sync.blocks()
        &&& self.sample_rate == v.sync.sample_rate
        &&& self.acmod == v.sync.acmod
        &&& self.lfeon == v.sync.lfeon
        &&& self.bsid == v.sync.bsid
        &&& self.nfchans == v.sync.channels()
        &&& self.dialnorm == v.dialnorm
        &&& self.bsmod == v.bsmod
        &&& self.cmixlev == 0
        &&& self.surmixlev == 0
        &&& self.block_switch_syntax == v.flags.block_switch
        &&& self.dither_flag_syntax == v.flags.dither_flag
        &&& self.bit_allocation_syntax == v.flags.bit_allocation
        &&& self.fast_gain_syntax == v.flags.fast_gain
        &&& self.dba_syntax == v.flags.dba
        &&& self.skip_syntax == v.flags.skip
        &&& self.snr_offset_strategy == v.flags.snr_offset_strategy
        &&& self.cpl_strategy_exists@ == v.strategies.exists
        &&& self.cplinu@ == v.strategies.cplinu
        &&& strategy_rows(self.chexpstr@) == v.strategies.chexpstr
        &&& self.cplexpstr@ == v.strategies.cplexpstr
        &&& self.lfeexpstr@ == v.strategies.lfeexpstr
        &&& self.snr_offset == v.snr_offset
        &&& self.spx_atten_code@ == v.spx_atten_code
    }
}

impl EacView {
    /// What the audio blocks need.
    pub open spec fn blocks_need(self) -> BlockHeader {
        BlockHeader {
            fscod: self.sync.fscod,
            acmod: self.sync.acmod,
            lfeon: self.sync.lfeon,
            block_switch: self.flags.block_switch,
            dither_flag: self.flags.dither_flag,
            bit_allocation: self.flags.bit_allocation,
            fast_gain: self.flags.fast_gain,
            dba: self.flags.dba,
            skip: self.flags.skip,
            snr_offset_strategy: self.flags.snr_offset_strategy,
            strategies: self.strategies,
            snr_offset: self.snr_offset,
        }
    }

    /// Everything is in the range that a parsed header has.
    pub open spec fn wf(self) -> bool {
        &&& self.sync.wf()
        &&& self.strategies.wf()
        &&& -4000 <= self.snr_offset <= 4000
    }
}

/// Parse E-AC-3 BSI (syncinfo + bsi + audfrm_bsi).
/// After this returns, the BitReader is positioned at the first audio block.
pub fn parse_eac3_bsi(br: &mut BitReader) -> (r: Result<EacBsi, DecodeError>)
    requires
        old(br).wf(),
    ensures
        final(br).wf(),
        match r {
            Ok(eac) => eac3_syntax(old(br)@) matches Ok((v, c)) && v.wf() && eac.describes(v) && final(br)@ == c,
            Err(e) => eac3_syntax(old(br)@) == Err::<(EacView, Cursor), DecodeFault>(e@),
        },
{
    proof {
        reveal(eac3_syntax);
    }
    let sync: SyncInfo = match parse_syncinfo(br) {
        Ok(s) => s,
        Err(e) => {
            return Err(e);
        },
    };
    let (dialnorm, bsmod) = read_metadata(br, &sync);
    let blocks: usize = num_blocks(sync.numblkscod);
    let flags: FrameFlags = read_frame_flags(br, blocks);
    let strategies: Strategies = Strategies::read(br, &sync, &flags);
    let (snr_offset, spx_atten_code) = read_frame_rest(br, &sync, &flags, &strategies);
    let mut eac: EacBsi = EacBsi::new();
    eac.strmtyp = sync.strmtyp;
    eac.substreamid = sync.substreamid;
    eac.frmsiz = sync.frmsiz;
    eac.frmsize = 2 * (sync.frmsiz + 1);
    eac.fscod = sync.fscod;
    eac.numblkscod = sync.numblkscod;
    eac.num_blocks = blocks;
    eac.sample_rate = sync.sample_rate;
    eac.acmod = sync.acmod;
    eac.lfeon = sync.lfeon;
    eac.bsid = sync.bsid;
    eac.nfchans = nfchans(sync.acmod);
    eac.dialnorm = dialnorm;
    eac.bsmod = bsmod;
    eac.block_switch_syntax = flags.block_switch;
    eac.dither_flag_syntax = flags.dither_flag;
    eac.bit_allocation_syntax = flags.bit_allocation;
    eac.fast_gain_syntax = flags.fast_gain;
    eac.dba_syntax = flags.dba;
    eac.skip_syntax = flags.skip;
    eac.snr_offset_strategy = flags.snr_offset_strategy;
    eac.cpl_strategy_exists = strategies.exists;
    eac.cplinu = strategies.cplinu;
    eac.chexpstr = strategies.chexpstr;
    eac.cplexpstr = strategies.cplexpstr;
    eac.lfeexpstr = strategies.lfeexpstr;
    eac.snr_offset = snr_offset;
    eac.spx_atten_code = spx_atten_code;
    Ok(eac)
}

// ---------------------------------------------------------------------------
// Laws
// ---------------------------------------------------------------------------

/// The fields that begin an E-AC-3 frame stand at their places behind the sync word:
/// two bits of the type, three of the substream, eleven of the size, two of the sample
/// rate, two of the number of blocks or of a halved sample rate, three of the channels,
/// the flag of the LFE channel, and five of the version.
pub proof fn law_sync_fields(data: Seq<u8>)
    requires
        data.len() >= 8,
        syncinfo_syntax(Cursor { data, pos: 0 }) is Ok,
    ensures
        ({
            let (s, c) = syncinfo_syntax(Cursor { data, pos: 0 })->Ok_0;
            let code = bits_from(data, 34, 2);
            &&& bits_from(data, 0, 16) == 0x0B77
            &&& s.strmtyp == bits_from(data, 16, 2)
            &&& s.substreamid == bits_from(data, 18, 3)
            &&& s.frmsiz == bits_from(data, 21, 11)
            &&& s.fscod == bits_from(data, 32, 2)
            &&& s.acmod == bits_from(data, 36, 3)
            &&& s.lfeon == (bits_from(data, 39, 1) == 1)
            &&& s.bsid == bits_from(data, 40, 5)
            &&& c == (Cursor { data, pos: 45 })
            &&& s.fscod < 3 ==> s.sample_rate == SAMPLE_RATES[s.fscod as int]
            &&& s.fscod == 3 ==> code < 3 && 2 * s.sample_rate == SAMPLE_RATES[code] && s.blocks() == 6
            &&& s.fscod < 3 && code < 3 ==> s.blocks() == code + 1
            &&& s.fscod < 3 && code == 3 ==> s.blocks() == 6
        }),
{
    lemma2_to64();
    lemma_bits_bound(data, 16, 2);
    lemma_bits_bound(data, 18, 3);
    lemma_bits_bound(data, 21, 11);
    lemma_bits_bound(data, 32, 2);
    lemma_bits_bound(data, 34, 2);
    lemma_bits_bound(data, 36, 3);
    lemma_bits_bound(data, 39, 1);
    lemma_bits_bound(data, 40, 5);
}

/// A code for the exponents of a whole frame has a bit for each block but the first, the
/// most significant one for the second: where it is set, the block uses the exponents of
/// the one before it, and else it has its own for every bin, as the first one has.
pub proof fn law_frame_strategy_bits(second: int, third: int, fourth: int, fifth: int, sixth: int)
    requires
        0 <= second < 2,
        0 <= third < 2,
        0 <= fourth < 2,
        0 <= fifth < 2,
        0 <= sixth < 2,
    ensures
        ({
            let s = frame_strategies(16 * second + 8 * third + 4 * fourth + 2 * fifth + sixth);
            &&& s.len() == 6
            &&& s[0] == 1
            &&& s[1] == 1 - second
            &&& s[2] == 1 - third
            &&& s[3] == 1 - fourth
            &&& s[4] == 1 - fifth
            &&& s[5] == 1 - sixth
        }),
{
}

/// The flags of a frame stand behind each other: with six blocks one for the kind of
/// exponents and one for the adaptive transform, which are set and not set with fewer;
/// then two bits of the signal-to-noise strategy, and eight flags.
pub proof fn law_frame_flag_bits(c: Cursor, blocks: nat)
    requires
        0 <= c.pos,
        c.pos + 12 <= 8 * c.data.len(),
    ensures
        ({
            let (f, d) = frame_flags(c, blocks);
            let at = if blocks == 6 { c.pos + 2 } else { c.pos };
            &&& blocks == 6 ==> f.ac3_exponents == (bits_from(c.data, c.pos, 1) == 1) && f.aht == (bits_from(c.data, c.pos + 1, 1) == 1)
            &&& blocks != 6 ==> f.ac3_exponents && !f.aht
            &&& f.snr_offset_strategy == bits_from(c.data, at, 2)
            &&& f.transient == (bits_from(c.data, at + 2, 1) == 1)
            &&& f.block_switch == (bits_from(c.data, at + 3, 1) == 1)
            &&& f.dither_flag == (bits_from(c.data, at + 4, 1) == 1)
            &&& f.bit_allocation == (bits_from(c.data, at + 5, 1) == 1)
            &&& f.fast_gain == (bits_from(c.data, at + 6, 1) == 1)
            &&& f.dba == (bits_from(c.data, at + 7, 1) == 1)
            &&& f.skip == (bits_from(c.data, at + 8, 1) == 1)
            &&& f.spx_atten == (bits_from(c.data, at + 9, 1) == 1)
            &&& d == (Cursor { pos: at + 10, ..c })
        }),
{
    lemma2_to64();
    let at = if blocks == 6 { c.pos + 2 } else { c.pos };
    lemma_bits_bound(c.data, c.pos, 1);
    lemma_bits_bound(c.data, c.pos + 1, 1);
    lemma_bits_bound(c.data, at, 2);
    lemma_bits_bound(c.data, at + 2, 1);
    lemma_bits_bound(c.data, at + 3, 1);
    lemma_bits_bound(c.data, at + 4, 1);
    lemma_bits_bound(c.data, at + 5, 1);
    lemma_bits_bound(c.data, at + 6, 1);
    lemma_bits_bound(c.data, at + 7, 1);
    lemma_bits_bound(c.data, at + 8, 1);
    lemma_bits_bound(c.data, at + 9, 1);
}

/// Mixing data is as long as its two-bit kind says: nothing more, five bits, twelve bits,
/// or five bits of a length in bytes less two and that many bytes.
pub proof fn law_mixing_data(c: Cursor)
    requires
        has_bits(c, 400),
    ensures
        ({
            let kind = bits_from(c.data, c.pos, 2);
            mixdata_end(c).pos == c.pos + 2 + (if kind == 0 { 0 } else if kind == 1 { 5 } else if kind == 2 { 12 } else {
                5 + 8 * (bits_from(c.data, c.pos + 2, 5) + 2)
            })
        }),
{
    lemma2_to64();
    lemma_bits_bound(c.data, c.pos, 2);
    lemma_bits_bound(c.data, c.pos + 2, 5);
}

/// The coupling of a block is told where the block says so, the first one always does,
/// and else it is that of the block before it.
pub proof fn law_coupling_is_carried_on(c: Cursor, n: nat, b: int)
    requires
        n <= 6,
        0 < b < n,
        !coupling_flags(c, no_strategies(), n).0.exists[b],
    ensures
        coupling_flags(c, no_strategies(), n).0.exists[0],
        coupling_flags(c, no_strategies(), n).0.cplinu[b] == coupling_flags(c, no_strategies(), n).0.cplinu[b - 1],
{
    lemma_coupling_flags(c, n, b);
}

proof fn lemma_coupling_flags(c: Cursor, n: nat, b: int)
    requires
        n <= 6,
    ensures
        ({
            let v = coupling_flags(c, no_strategies(), n).0;
            &&& v.exists.len() == 6 && v.cplinu.len() == 6
            &&& n > 0 ==> v.exists[0]
            &&& 0 < b < n && !v.exists[b] ==> v.cplinu[b] == v.cplinu[b - 1]
        }),
    decreases n,
{
    if n > 0 {
        lemma_coupling_flags(c, (n - 1) as nat, b);
    }
}

/// The block start information has four bits and as many as it takes to count the words
/// of the frame but two, for each block behind the first.
pub proof fn law_block_start_bits(words: int, blocks: nat)
    requires
        2 < words,
        1 <= blocks,
    ensures
        ({
            let log = log2_ceil(words - 2, 0);
            &&& words - 2 <= pow2(log)
            &&& log > 0 ==> pow2((log - 1) as nat) < words - 2
            &&& block_start_bits(words, 1) == 0
            &&& block_start_bits(words, (blocks + 1) as nat) == block_start_bits(words, blocks) + 4 + log
        }),
{
    lemma2_to64();
    lemma_log2(words - 2, 0);
    let log = log2_ceil(words - 2, 0);
    assert(blocks * (4 + log) == (blocks - 1) * (4 + log) + (4 + log)) by (nonlinear_arith);
    assert(0 <= (blocks - 1) * (4 + log)) by (nonlinear_arith)
        requires
            blocks >= 1,
            log >= 0,
    ;
}

proof fn lemma_log2(n: int, from: nat)
    requires
        from > 0 ==> pow2((from - 1) as nat) < n,
    ensures
        ({
            let log = log2_ceil(n, from);
            &&& n <= pow2(log)
            &&& log > 0 ==> pow2((log - 1) as nat) < n
        }),
    decreases
        (if pow2(from) >= n {
            0
        } else {
            n - pow2(from)
        }),
{
    if pow2(from) < n {
        lemma2_to64();
        lemma_pow2_adds(from, 1);
        assert(pow2((from + 1) as nat) == 2 * pow2(from));
        vstd::arithmetic::power2::lemma_pow2_pos(from);
        lemma_log2(n, from + 1);
    }
}

} // verus!
