//! Frames: synchronisation, frame sizes and decoding up to the coefficients.

use vstd::arithmetic::power2::lemma2_to64;
use vstd::prelude::*;

use crate::ac3::bitstream::{bits_from, lemma_bits_bound, lemma_chunk, BitReader, Cursor};
use crate::ac3::block::{initial_block, AudioBlock, BlockCoefficients, BlockView, CoefficientsView};
use crate::ac3::bsi::{ac3_block, bsi_syntax, parse_bsi, read_audio_block, Bsi};
use crate::ac3::eac3_block::{eac3_block, read_eac3_audio_block};
use crate::ac3::eac3_bsi::{eac3_syntax, parse_eac3_bsi, EacBsi, EacView};
use crate::ac3::error::{DecodeError, DecodeFault};
use crate::ac3::tables::{AC3_FRAME_SAMPLES, BLOCK_SAMPLES, FRAME_SIZE_TAB, SAMPLE_RATES};

verus! {

// ---------------------------------------------------------------------------
// Synchronisation
// ---------------------------------------------------------------------------

/// Whether the sync word stands at `i`.
pub open spec fn sync_at(data: Seq<u8>, i: int) -> bool {
    0 <= i && i + 1 < data.len() && data[i] == 0x0B && data[i + 1] == 0x77
}

/// The first sync word at or behind `i` and before `limit`.
pub open spec fn sync_from(data: Seq<u8>, i: int, limit: int) -> Option<int>
    decreases limit - i,
{
    if i >= limit {
        None
    } else if sync_at(data, i) {
        Some(i)
    } else {
        sync_from(data, i + 1, limit)
    }
}

fn scan_sync(data: &[u8], limit: usize) -> (r: Option<usize>)
    requires
        limit == 0 || limit < data.len(),
    ensures
        match r {
            Some(i) => i < limit && sync_from(data@, 0, limit as int) == Some(i as int),
            None => sync_from(data@, 0, limit as int) is None,
        },
{
    let mut i: usize = 0;
    while i < limit
        invariant
            i <= limit,
            limit == 0 || limit < data.len(),
            sync_from(data@, 0, limit as int) == sync_from(data@, i as int, limit as int),
        decreases limit - i,
    {
        if data[i] == 0x0B && data[i + 1] == 0x77 {
            return Some(i);
        }
        i = i + 1;
    }
    None
}

/// A sync word that the scan finds stands there, and none stands before it.
pub proof fn lemma_sync_first(data: Seq<u8>, i: int, limit: int)
    ensures
        match sync_from(data, i, limit) {
            Some(k) => i <= k < limit && sync_at(data, k) && forall|j: int| i <= j < k ==> !sync_at(data, j),
            None => forall|j: int| i <= j < limit ==> !sync_at(data, j),
        },
    decreases limit - i,
{
    if i < limit && !sync_at(data, i) {
        lemma_sync_first(data, i + 1, limit);
    }
}

// ---------------------------------------------------------------------------
// Frames
// ---------------------------------------------------------------------------

/// One decoded frame: the coefficients of its blocks, from which the inverse
/// transform makes `samples_per_channel` samples of each channel.
pub struct DecodedFrame {
    pub blocks: Vec<BlockCoefficients>,
    /// Sample rate in Hz.
    pub sample_rate: u32,
    /// Number of channels.
    pub channels: u32,
    /// Number of samples per channel.
    pub samples_per_channel: usize,
}

/// One decoded frame as sequences.
#[verifier::ext_equal]
pub struct FrameView {
    pub blocks: Seq<CoefficientsView>,
    pub sample_rate: u32,
    pub channels: int,
    pub samples_per_channel: int,
}

/// The coefficients of several blocks.
pub open spec fn block_rows(v: Seq<BlockCoefficients>) -> Seq<CoefficientsView> {
    Seq::new(v.len(), |i: int| v[i]@)
}

impl View for DecodedFrame {
    type V = FrameView;

    open spec fn view(&self) -> FrameView {
        FrameView {
            blocks: block_rows(self.blocks@),
            sample_rate: self.sample_rate,
            channels: self.channels as int,
            samples_per_channel: self.samples_per_channel as int,
        }
    }
}

/// How far the blocks of a frame have been decoded.
#[verifier::ext_equal]
pub struct Progress {
    pub fault: Option<DecodeFault>,
    pub state: BlockView,
    pub cur: Cursor,
    pub blocks: Seq<CoefficientsView>,
    pub dither: u32,
}

/// The progress that one more block makes.
pub open spec fn advanced(p: Progress, block: Result<(BlockView, CoefficientsView, Cursor, u32), DecodeFault>) -> Progress {
    match block {
        Err(f) => Progress { fault: Some(f), ..p },
        Ok((state, out, cur, dither)) => Progress { fault: None, state, cur, blocks: p.blocks.push(out), dither },
    }
}

/// The first `n` blocks of an AC-3 frame, up to the first one that fails.
pub open spec fn ac3_blocks(p: Progress, bsi: Bsi, n: nat) -> Progress
    decreases n,
{
    if n == 0 {
        p
    } else {
        let q = ac3_blocks(p, bsi, (n - 1) as nat);
        if q.fault is Some {
            q
        } else {
            advanced(q, ac3_block(q.cur, q.state, bsi, n == 1, q.dither))
        }
    }
}

/// The first `n` blocks of an E-AC-3 frame, up to the first one that fails.
pub open spec fn eac3_blocks(p: Progress, e: EacView, n: nat) -> Progress
    decreases n,
{
    if n == 0 {
        p
    } else {
        let q = eac3_blocks(p, e, (n - 1) as nat);
        if q.fault is Some {
            q
        } else {
            advanced(q, eac3_block(q.cur, q.state, e.blocks_need(), n - 1, q.dither))
        }
    }
}

/// The progress at the start of the blocks.
pub open spec fn at_start(cur: Cursor, nfchans: nat, dither: u32) -> Progress {
    Progress { fault: None, state: initial_block(nfchans), cur, blocks: Seq::empty(), dither }
}

/// The frame that the blocks make, or the fault of the block that failed, with
/// the dither state after it.
pub open spec fn frame_outcome(p: Progress, sample_rate: u32, channels: int, samples: int) -> (Result<FrameView, DecodeFault>, u32) {
    (
        match p.fault {
            Some(f) => Err(f),
            None => Ok(FrameView { blocks: p.blocks, sample_rate, channels, samples_per_channel: samples }),
        },
        p.dither,
    )
}

/// The number of channels with LFE.
pub open spec fn total_channels(nfchans: int, lfeon: bool) -> int {
    nfchans + if lfeon { 1int } else { 0 }
}

/// What an AC-3 frame decodes to.
pub open spec fn ac3_frame(data: Seq<u8>, dither: u32) -> (Result<FrameView, DecodeFault>, u32) {
    match bsi_syntax(Cursor { data, pos: 0 }) {
        Err(f) => (Err(f), dither),
        Ok((bsi, c)) => if data.len() < bsi.frmsize {
            (Err(DecodeFault::FrameTooShort), dither)
        } else {
            frame_outcome(
                ac3_blocks(at_start(c, bsi.nfchans as nat, dither), bsi, 6),
                SAMPLE_RATES[bsi.fscod as int],
                total_channels(bsi.nfchans as int, bsi.lfeon),
                1536,
            )
        },
    }
}

/// What an E-AC-3 frame decodes to.
pub open spec fn eac3_frame(data: Seq<u8>, dither: u32) -> (Result<FrameView, DecodeFault>, u32) {
    match eac3_syntax(Cursor { data, pos: 0 }) {
        Err(f) => (Err(f), dither),
        Ok((e, c)) => if data.len() < 2 * (e.sync.frmsiz + 1) {
            (Err(DecodeFault::FrameTooShort), dither)
        } else {
            frame_outcome(
                eac3_blocks(at_start(c, e.sync.channels(), dither), e, e.sync.blocks()),
                e.sync.sample_rate,
                total_channels(e.sync.channels() as int, e.sync.lfeon),
                256 * (e.sync.blocks() as int),
            )
        },
    }
}

/// What `data` decodes to: the frame at the sync word within its first 16 bytes,
/// AC-3 or E-AC-3 by the version in its sixth byte.
pub open spec fn frame_syntax(data: Seq<u8>, dither: u32) -> (Result<FrameView, DecodeFault>, u32) {
    if data.len() < 8 {
        (Err(DecodeFault::NotEnoughData), dither)
    } else {
        match sync_from(data, 0, if data.len() - 1 < 16 { data.len() - 1 } else { 16 }) {
            None => (Err(DecodeFault::InvalidSync), dither),
            Some(i) => {
                let frame = data.skip(i);
                if frame.len() < 8 {
                    (Err(DecodeFault::NotEnoughData), dither)
                } else if frame[5] / 8 <= 10 {
                    ac3_frame(frame, dither)
                } else if frame[5] / 8 <= 16 {
                    eac3_frame(frame, dither)
                } else {
                    (Err(DecodeFault::UnsupportedVersion((frame[5] / 8) as u8)), dither)
                }
            },
        }
    }
}

/// The blocks that were decoded of a frame in which one failed.
pub open spec fn left_of(p: Progress) -> Seq<CoefficientsView> {
    if p.fault is Some { p.blocks } else { Seq::empty() }
}

/// The blocks before the one that fails in an AC-3 frame.
pub open spec fn ac3_left(data: Seq<u8>, dither: u32) -> Seq<CoefficientsView> {
    match bsi_syntax(Cursor { data, pos: 0 }) {
        Ok((bsi, c)) if data.len() >= bsi.frmsize => left_of(ac3_blocks(at_start(c, bsi.nfchans as nat, dither), bsi, 6)),
        _ => Seq::empty(),
    }
}

/// The blocks before the one that fails in an E-AC-3 frame.
pub open spec fn eac3_left(data: Seq<u8>, dither: u32) -> Seq<CoefficientsView> {
    match eac3_syntax(Cursor { data, pos: 0 }) {
        Ok((e, c)) if data.len() >= 2 * (e.sync.frmsiz + 1) => left_of(
            eac3_blocks(at_start(c, e.sync.channels(), dither), e, e.sync.blocks()),
        ),
        _ => Seq::empty(),
    }
}

/// The blocks before the one that fails in the frame that `data` holds; none where
/// no block fails.
pub open spec fn frame_left(data: Seq<u8>, dither: u32) -> Seq<CoefficientsView> {
    match sync_from(data, 0, if data.len() - 1 < 16 { data.len() - 1 } else { 16 }) {
        Some(i) if data.len() - i >= 8 => {
            let frame = data.skip(i);
            if frame[5] / 8 <= 10 {
                ac3_left(frame, dither)
            } else if frame[5] / 8 <= 16 {
                eac3_left(frame, dither)
            } else {
                Seq::empty()
            }
        },
        _ => Seq::empty(),
    }
}

/// The size of the frame at the start of `data` and its version, by the header
/// alone.
pub open spec fn frame_size_of(data: Seq<u8>) -> Option<(usize, u8)> {
    let bsid = (data[5] / 8) as u8;
    if data.len() < 8 || !sync_at(data, 0) || bsid > 16 {
        None
    } else if bsid <= 10 {
        let fscod = data[4] as int / 64;
        let code = (data[4] as int % 64) / 2;
        if fscod >= 3 || code >= 19 {
            None
        } else {
            Some(((2 * FRAME_SIZE_TAB[code][fscod]) as usize, bsid))
        }
    } else {
        Some(((2 * (bits_from(data, 21, 11) + 1)) as usize, bsid))
    }
}

/// AC-3 decoder state: the state of the dither generator, and the blocks that were
/// decoded of the last frame where one of them failed.
pub struct Ac3Decoder {
    dither_state: u32,
    unfinished: Vec<BlockCoefficients>,
}

impl Ac3Decoder {
    /// The state of the dither generator.
    pub closed spec fn dither(&self) -> u32 {
        self.dither_state
    }

    /// The blocks that were decoded of the last frame, where one of them failed.
    pub closed spec fn unfinished(&self) -> Seq<CoefficientsView> {
        block_rows(self.unfinished@)
    }

    /// A decoder in its initial state.
    pub fn new() -> (r: Self)
        ensures
            r.dither() == 1,
            r.unfinished() == Seq::<CoefficientsView>::empty(),
    {
        let r: Self = Self { dither_state: 1, unfinished: Vec::new() };
        assert(r.unfinished() =~= Seq::empty());
        r
    }

    /// Take the blocks that were decoded of the last frame, where one of them failed:
    /// the next frame overlaps with them.
    pub fn take_unfinished(&mut self) -> (r: Vec<BlockCoefficients>)
        ensures
            block_rows(r@) == old(self).unfinished(),
            final(self).unfinished() == Seq::<CoefficientsView>::empty(),
            final(self).dither() == old(self).dither(),
    {
        let mut r: Vec<BlockCoefficients> = Vec::new();
        r.append(&mut self.unfinished);
        assert(block_rows(r@) =~= old(self).unfinished());
        assert(self.unfinished() =~= Seq::empty());
        r
    }

    /// Find the next AC-3 sync word in the data.
    pub fn find_sync(data: &[u8]) -> (r: Option<usize>)
        ensures
            match r {
                Some(i) => sync_at(data@, i as int) && forall|j: int| 0 <= j < i ==> !sync_at(data@, j),
                None => forall|j: int| !sync_at(data@, j),
            },
    {
        let limit: usize = if data.len() > 0 { data.len() - 1 } else { 0 };
        proof {
            lemma_sync_first(data@, 0, limit as int);
        }
        scan_sync(data, limit)
    }

    /// Get the frame size from the header without full parsing.
    pub fn frame_size(data: &[u8]) -> (r: Option<(usize, u8)>)
        ensures
            r == frame_size_of(data@),
    {
        if data.len() < 8 {
            return None;
        }
        if data[0] != 0x0B || data[1] != 0x77 {
            return None;
        }
        let bsid: u8 = data[5] / 8;
        if bsid <= 10 {
            let fscod: usize = (data[4] / 64) as usize;
            let frmsizecod: usize = (data[4] % 64) as usize;
            if fscod >= 3 || frmsizecod / 2 >= 19 {
                return None;
            }
            Some((FRAME_SIZE_TAB[frmsizecod / 2][fscod] as usize * 2, bsid))
        } else if bsid <= 16 {
            proof {
                lemma2_to64();
            }
            let mut br: BitReader = BitReader::new(data);
            br.skip(21);
            let frmsiz: usize = br.read(11) as usize;
            Some(((frmsiz + 1) * 2, bsid))
        } else {
            None
        }
    }

    /// Decode one AC-3 or E-AC-3 frame.
    /// Scans for the 0x0B77 sync word and checks bsid to determine format.
    pub fn decode_frame(&mut self, data: &[u8]) -> (r: Result<DecodedFrame, DecodeError>)
        ensures
            final(self).dither() == frame_syntax(data@, old(self).dither()).1,
            final(self).unfinished() == frame_left(data@, old(self).dither()),
            match r {
                Ok(f) => frame_syntax(data@, old(self).dither()).0 == Ok::<FrameView, DecodeFault>(f@),
                Err(e) => frame_syntax(data@, old(self).dither()).0 == Err::<FrameView, DecodeFault>(e@),
            },
    {
        self.unfinished = Vec::new();
        assert(self.unfinished() =~= Seq::empty());
        if data.len() < 8 {
            proof {
                lemma_sync_first(data@, 0, data@.len() - 1);
            }
            return Err(DecodeError::NotEnoughData);
        }
        let limit: usize = if data.len() - 1 < 16 { data.len() - 1 } else { 16 };
        let offset: usize = match scan_sync(data, limit) {
            Some(i) => i,
            None => {
                return Err(DecodeError::InvalidSync);
            },
        };
        let frame: &[u8] = vstd::slice::slice_subrange(data, offset, data.len());
        assert(frame@ =~= data@.skip(offset as int));
        if frame.len() < 8 {
            return Err(DecodeError::NotEnoughData);
        }
        let bsid: u8 = frame[5] / 8;
        if bsid <= 10 {
            self.decode_ac3_frame(frame)
        } else if bsid <= 16 {
            self.decode_eac3_frame(frame)
        } else {
            Err(DecodeError::UnsupportedVersion(bsid))
        }
    }

    /// Decode an AC-3 frame (bsid <= 10).
    fn decode_ac3_frame(&mut self, frame: &[u8]) -> (r: Result<DecodedFrame, DecodeError>)
        requires
            old(self).unfinished() == Seq::<CoefficientsView>::empty(),
        ensures
            final(self).dither() == ac3_frame(frame@, old(self).dither()).1,
            final(self).unfinished() == ac3_left(frame@, old(self).dither()),
            match r {
                Ok(f) => ac3_frame(frame@, old(self).dither()).0 == Ok::<FrameView, DecodeFault>(f@),
                Err(e) => ac3_frame(frame@, old(self).dither()).0 == Err::<FrameView, DecodeFault>(e@),
            },
    {
        let mut br: BitReader = BitReader::new(frame);
        let bsi: Bsi = match parse_bsi(&mut br) {
            Ok(b) => b,
            Err(e) => {
                return Err(e);
            },
        };
        if frame.len() < bsi.frmsize {
            return Err(DecodeError::FrameTooShort);
        }
        let ghost p = at_start(br@, bsi.nfchans as nat, self.dither_state);
        let mut audblk: AudioBlock = AudioBlock::new(bsi.nfchans);
        let mut blocks: Vec<BlockCoefficients> = Vec::new();
        assert(block_rows(blocks@) =~= Seq::empty());
        let mut blk: usize = 0;
        while blk < 6
            invariant
                blk <= 6,
                self.unfinished() == Seq::<CoefficientsView>::empty(),
                br.wf(),
                bsi.wf(),
                audblk@.wf(bsi.nfchans as int),
                bsi_syntax(Cursor { data: frame@, pos: 0 }) == Ok::<(Bsi, Cursor), DecodeFault>((bsi, p.cur)),
                frame@.len() >= bsi.frmsize,
                p == at_start(p.cur, bsi.nfchans as nat, old(self).dither_state),
                ac3_blocks(p, bsi, blk as nat) == (Progress {
                    fault: None,
                    state: audblk@,
                    cur: br@,
                    blocks: block_rows(blocks@),
                    dither: self.dither_state,
                }),
            decreases 6 - blk,
        {
            let ghost q = ac3_blocks(p, bsi, blk as nat);
            proof {
                lemma_ac3_blocks_keep_fault(p, bsi, (blk + 1) as nat, 6);
            }
            match read_audio_block(&mut br, &bsi, &mut audblk, blk, &mut self.dither_state) {
                Ok(out) => {
                    blocks.push(out);
                    assert(block_rows(blocks@) =~= q.blocks.push(out@));
                },
                Err(e) => {
                    self.unfinished = blocks;
                    assert(self.unfinished() == q.blocks);
                    return Err(e);
                },
            }
            blk = blk + 1;
        }
        let total: usize = bsi.nfchans + if bsi.lfeon { 1 } else { 0 };
        Ok(
            DecodedFrame {
                blocks,
                sample_rate: SAMPLE_RATES[bsi.fscod],
                channels: total as u32,
                samples_per_channel: AC3_FRAME_SAMPLES,
            },
        )
    }

    /// Decode an E-AC-3 frame (bsid 11-16).
    fn decode_eac3_frame(&mut self, frame: &[u8]) -> (r: Result<DecodedFrame, DecodeError>)
        requires
            old(self).unfinished() == Seq::<CoefficientsView>::empty(),
        ensures
            final(self).dither() == eac3_frame(frame@, old(self).dither()).1,
            final(self).unfinished() == eac3_left(frame@, old(self).dither()),
            match r {
                Ok(f) => eac3_frame(frame@, old(self).dither()).0 == Ok::<FrameView, DecodeFault>(f@),
                Err(e) => eac3_frame(frame@, old(self).dither()).0 == Err::<FrameView, DecodeFault>(e@),
            },
    {
        let mut br: BitReader = BitReader::new(frame);
        let eac: EacBsi = match parse_eac3_bsi(&mut br) {
            Ok(b) => b,
            Err(e) => {
                return Err(e);
            },
        };
        let ghost e: EacView = eac3_syntax(Cursor { data: frame@, pos: 0 })->Ok_0.0;
        if frame.len() < eac.frmsize {
            return Err(DecodeError::FrameTooShort);
        }
        assert(eac@ =~= e.blocks_need());
        let n: usize = eac.num_blocks;
        let ghost p = at_start(br@, eac.nfchans as nat, self.dither_state);
        let mut audblk: AudioBlock = AudioBlock::new(eac.nfchans);
        let mut blocks: Vec<BlockCoefficients> = Vec::new();
        assert(block_rows(blocks@) =~= Seq::empty());
        let mut blk: usize = 0;
        while blk < n
            invariant
                blk <= n <= 6,
                self.unfinished() == Seq::<CoefficientsView>::empty(),
                n == eac.num_blocks,
                br.wf(),
                e.wf(),
                eac.describes(e),
                audblk@.wf(eac.nfchans as int),
                eac@ == e.blocks_need(),
                eac3_syntax(Cursor { data: frame@, pos: 0 }) == Ok::<(EacView, Cursor), DecodeFault>((e, p.cur)),
                frame@.len() >= eac.frmsize,
                p == at_start(p.cur, eac.nfchans as nat, old(self).dither_state),
                eac3_blocks(p, e, blk as nat) == (Progress {
                    fault: None,
                    state: audblk@,
                    cur: br@,
                    blocks: block_rows(blocks@),
                    dither: self.dither_state,
                }),
            decreases n - blk,
        {
            let ghost q = eac3_blocks(p, e, blk as nat);
            proof {
                lemma_eac3_blocks_keep_fault(p, e, (blk + 1) as nat, n as nat);
            }
            match read_eac3_audio_block(&mut br, &eac, &mut audblk, blk, &mut self.dither_state) {
                Ok(out) => {
                    blocks.push(out);
                    assert(block_rows(blocks@) =~= q.blocks.push(out@));
                },
                Err(x) => {
                    self.unfinished = blocks;
                    assert(self.unfinished() == q.blocks);
                    return Err(x);
                },
            }
            blk = blk + 1;
        }
        let total: usize = eac.nfchans + if eac.lfeon { 1 } else { 0 };
        Ok(
            DecodedFrame {
                blocks,
                sample_rate: eac.sample_rate,
                channels: total as u32,
                samples_per_channel: n * BLOCK_SAMPLES,
            },
        )
    }

    /// Reset decoder state (e.g., after seek).
    pub fn reset(&mut self)
        ensures
            final(self).dither() == 1,
            final(self).unfinished() == Seq::<CoefficientsView>::empty(),
    {
        self.dither_state = 1;
        self.unfinished = Vec::new();
        assert(self.unfinished() =~= Seq::empty());
    }
}

/// A block that failed ends the frame.
proof fn lemma_ac3_blocks_keep_fault(p: Progress, bsi: Bsi, n: nat, m: nat)
    requires
        n <= m,
    ensures
        ac3_blocks(p, bsi, n).fault is Some ==> ac3_blocks(p, bsi, m) == ac3_blocks(p, bsi, n),
    decreases m - n,
{
    if n < m {
        lemma_ac3_blocks_keep_fault(p, bsi, n, (m - 1) as nat);
    }
}

/// A block that failed ends the frame.
proof fn lemma_eac3_blocks_keep_fault(p: Progress, e: EacView, n: nat, m: nat)
    requires
        n <= m,
    ensures
        eac3_blocks(p, e, n).fault is Some ==> eac3_blocks(p, e, m) == eac3_blocks(p, e, n),
    decreases m - n,
{
    if n < m {
        lemma_eac3_blocks_keep_fault(p, e, n, (m - 1) as nat);
    }
}

// ---------------------------------------------------------------------------
// Laws
// ---------------------------------------------------------------------------

proof fn lemma_ac3_block_count(p: Progress, bsi: Bsi, n: nat)
    ensures
        ac3_blocks(p, bsi, n).fault is None ==> ac3_blocks(p, bsi, n).blocks.len() == p.blocks.len() + n,
    decreases n,
{
    if n > 0 {
        lemma_ac3_block_count(p, bsi, (n - 1) as nat);
    }
}

proof fn lemma_eac3_block_count(p: Progress, e: EacView, n: nat)
    ensures
        eac3_blocks(p, e, n).fault is None ==> eac3_blocks(p, e, n).blocks.len() == p.blocks.len() + n,
    decreases n,
{
    if n > 0 {
        lemma_eac3_block_count(p, e, (n - 1) as nat);
    }
}

/// A frame that decodes is whole: each of its blocks is there and stands for 256
/// samples of every channel, and it has at most six channels.
pub proof fn law_frames_are_whole(data: Seq<u8>, dither: u32)
    ensures
        frame_syntax(data, dither).0 matches Ok(f) ==> {
            &&& f.samples_per_channel == 256 * f.blocks.len()
            &&& 1 <= f.channels <= 6
            &&& f.blocks.len() == 1 || f.blocks.len() == 2 || f.blocks.len() == 3 || f.blocks.len() == 6
        },
{
    assert forall|frame: Seq<u8>| #[trigger] ac3_frame(frame, dither).0 matches Ok(f) ==> f.samples_per_channel == 256 * f.blocks.len() && 1
        <= f.channels <= 6 && f.blocks.len() == 6 by {
        reveal(bsi_syntax);
        if let Ok((bsi, c)) = bsi_syntax(Cursor { data: frame, pos: 0 }) {
            lemma_ac3_block_count(at_start(c, bsi.nfchans as nat, dither), bsi, 6);
        }
    }
    assert forall|frame: Seq<u8>| #[trigger] eac3_frame(frame, dither).0 matches Ok(f) ==> f.samples_per_channel == 256 * f.blocks.len() && 1
        <= f.channels <= 6 && (f.blocks.len() == 1 || f.blocks.len() == 2 || f.blocks.len() == 3 || f.blocks.len() == 6) by {
        reveal(eac3_syntax);
        if let Ok((e, c)) = eac3_syntax(Cursor { data: frame, pos: 0 }) {
            lemma_eac3_block_count(at_start(c, e.sync.channels(), dither), e, e.sync.blocks());
        }
    }
}

/// Padding before a frame that holds no sync word does not change what is decoded,
/// as long as the sync word stands within the first 16 bytes.
pub proof fn law_padding_is_skipped(padding: Seq<u8>, frame: Seq<u8>, dither: u32)
    requires
        frame.len() >= 8,
        sync_at(frame, 0),
        padding.len() < 16,
        forall|j: int| 0 <= j < padding.len() ==> !#[trigger] sync_at(padding + frame, j),
    ensures
        frame_syntax(padding + frame, dither) == frame_syntax(frame, dither),
{
    let all = padding + frame;
    let limit = if all.len() - 1 < 16 { all.len() - 1 } else { 16 };
    let short = if frame.len() - 1 < 16 { frame.len() - 1 } else { 16 };
    lemma_sync_first(all, 0, limit);
    lemma_sync_first(frame, 0, short);
    assert(sync_at(all, padding.len() as int));
    assert(sync_from(all, 0, limit) == Some(padding.len() as int));
    assert(all.skip(padding.len() as int) =~= frame);
    assert(frame.skip(0) =~= frame);
}

/// The size that the header of an E-AC-3 frame tells is the one that decoding it
/// asks for.
pub proof fn law_enhanced_size_is_kept(data: Seq<u8>)
    requires
        frame_size_of(data) is Some,
        frame_size_of(data)->Some_0.1 > 10,
    ensures
        eac3_syntax(Cursor { data, pos: 0 }) matches Ok((e, c)) ==> 2 * (e.sync.frmsiz + 1) == frame_size_of(data)->Some_0.0,
{
    reveal(eac3_syntax);
    lemma2_to64();
    lemma_bits_bound(data, 21, 11);
}

/// The size that the header of an AC-3 frame tells is the one that decoding it asks
/// for; at 44.1 kHz decoding asks for two bytes more where the size code is odd.
pub proof fn law_size_is_kept(data: Seq<u8>)
    requires
        frame_size_of(data) is Some,
        frame_size_of(data)->Some_0.1 <= 10,
    ensures
        bsi_syntax(Cursor { data, pos: 0 }) matches Ok((bsi, c)) ==> bsi.frmsize == frame_size_of(data)->Some_0.0 + (if bsi.fscod == 1 {
            2 * (bsi.frmsizecod % 2)
        } else {
            0
        }),
{
    reveal(bsi_syntax);
    lemma2_to64();
    lemma_chunk(data, 4, 0, 2);
    lemma_chunk(data, 4, 2, 6);
    let w = data[4] as u32;
    assert((w >> 6u32) & (((1u32 << 2u32) - 1) as u32) == w / 64) by (bit_vector)
        requires
            w < 256,
    ;
    assert((w >> 0u32) & (((1u32 << 6u32) - 1) as u32) == w % 64) by (bit_vector)
        requires
            w < 256,
    ;
    assert(bits_from(data, 32, 2) == data[4] / 64);
    assert(bits_from(data, 34, 6) == data[4] % 64);
}

} // verus!
