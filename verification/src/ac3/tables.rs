//! Tables of the AC-3 bitstream syntax and bit allocation.

use vstd::prelude::*;

verus! {

/// Full-bandwidth channels plus LFE.
pub const MAX_CHANNELS: usize = 6;

/// Samples per channel in an AC-3 frame.
pub const AC3_FRAME_SAMPLES: usize = 1536;

/// Samples per channel in one audio block.
pub const BLOCK_SAMPLES: usize = 256;

/// Coefficients of the LFE channel.
pub const LFE_COEFS: usize = 7;

/// Number of coefficients of a channel in one audio block.
pub const NUM_BINS: usize = 256;

/// Number of bit allocation bands.
pub const NUM_BANDS: usize = 50;

/// Sample rate by `fscod`.
pub const SAMPLE_RATES: [u32; 3] = [48000, 44100, 32000];

/// Reduced sample rate by `fscod2` (E-AC-3).
pub const REDUCED_SAMPLE_RATES: [u32; 3] = [24000, 22050, 16000];

/// Nominal bit rate in kbit/s by half the frame size code.
pub const BIT_RATES: [u16; 19] = [
    32, 40, 48, 56, 64, 80, 96, 112, 128, 160, 192, 224, 256, 320, 384, 448, 512, 576, 640,
];

/// Frame size in 16-bit words by half the frame size code and `fscod`.
pub const FRAME_SIZE_TAB: [[u16; 3]; 19] = [
    [64, 69, 96],
    [80, 87, 120],
    [96, 104, 144],
    [112, 121, 168],
    [128, 139, 192],
    [160, 174, 240],
    [192, 208, 288],
    [224, 243, 336],
    [256, 278, 384],
    [320, 348, 480],
    [384, 417, 576],
    [448, 487, 672],
    [512, 557, 768],
    [640, 696, 960],
    [768, 835, 1152],
    [896, 975, 1344],
    [1024, 1114, 1536],
    [1152, 1253, 1728],
    [1280, 1393, 1920],
];

/// Exponents per differential by exponent strategy.
pub const EXPONENT_GROUP_SIZE: [usize; 4] = [0, 1, 2, 4];

/// Slow decay by `sdcycod`.
pub const SLOW_DECAY: [u16; 4] = [0x0f, 0x11, 0x13, 0x15];

/// Fast decay by `fdcycod`.
pub const FAST_DECAY: [u16; 4] = [0x3f, 0x53, 0x67, 0x7b];

/// Slow gain by `sgaincod`.
pub const SLOW_GAIN: [u16; 4] = [0x540, 0x4d8, 0x478, 0x410];

/// Knee of the masking curve by `dbpbcod`.
pub const DB_PER_BIT: [u16; 4] = [0x000, 0x700, 0x900, 0xb00];

/// Masking floor by `floorcod`.
pub const FLOOR: [i16; 8] = [0x2f0, 0x2b0, 0x270, 0x230, 0x1f0, 0x170, 0x0f0, -2048];

/// Fast gain by `fgaincod`.
pub const FAST_GAIN: [u16; 8] = [0x080, 0x100, 0x180, 0x200, 0x280, 0x300, 0x380, 0x400];

/// Edges of the rematrixing bands.
pub const REMATRIX_BANDS: [usize; 5] = [13, 25, 37, 61, 253];

/// Log-addition corrections by half the distance of the two operands.
pub const LATAB: [u8; 256] = [
    64, 63, 62, 61, 60, 59, 58, 57, 56, 55, 54, 53, 52, 52, 51, 50,
    49, 48, 47, 47, 46, 45, 44, 44, 43, 42, 41, 41, 40, 39, 38, 38,
    37, 36, 36, 35, 35, 34, 33, 33, 32, 32, 31, 30, 30, 29, 29, 28,
    28, 27, 27, 26, 26, 25, 25, 24, 24, 23, 23, 22, 22, 21, 21, 21,
    20, 20, 19, 19, 19, 18, 18, 18, 17, 17, 17, 16, 16, 16, 15, 15,
    15, 14, 14, 14, 13, 13, 13, 13, 12, 12, 12, 12, 11, 11, 11, 11,
    10, 10, 10, 10, 10, 9, 9, 9, 9, 9, 8, 8, 8, 8, 8, 8,
    7, 7, 7, 7, 7, 7, 6, 6, 6, 6, 6, 6, 6, 6, 5, 5,
    5, 5, 5, 5, 5, 5, 4, 4, 4, 4, 4, 4, 4, 4, 4, 4,
    4, 3, 3, 3, 3, 3, 3, 3, 3, 3, 3, 3, 3, 3, 3, 2,
    2, 2, 2, 2, 2, 2, 2, 2, 2, 2, 2, 2, 2, 2, 2, 2,
    2, 2, 1, 1, 1, 1, 1, 1, 1, 1, 1, 1, 1, 1, 1, 1,
    1, 1, 1, 1, 1, 1, 1, 1, 1, 1, 1, 1, 1, 1, 1, 1,
    1, 1, 1, 0, 0, 0, 0, 0, 0, 0, 0, 0, 0, 0, 0, 0,
    0, 0, 0, 0, 0, 0, 0, 0, 0, 0, 0, 0, 0, 0, 0, 0,
    0, 0, 0, 0, 0, 0, 0, 0, 0, 0, 0, 0, 0, 0, 0, 0,
];

/// Hearing threshold by sample rate code and band.
pub const HTH: [[u16; 50]; 3] = [
[
    0x4d0, 0x4d0, 0x440, 0x400, 0x3e0, 0x3c0, 0x3b0, 0x3b0, 0x3a0, 0x3a0,
    0x3a0, 0x3a0, 0x3a0, 0x390, 0x390, 0x390, 0x380, 0x380, 0x370, 0x370,
    0x360, 0x360, 0x350, 0x350, 0x340, 0x340, 0x330, 0x320, 0x310, 0x300,
    0x2f0, 0x2f0, 0x2f0, 0x2f0, 0x300, 0x310, 0x340, 0x390, 0x3e0, 0x420,
    0x460, 0x490, 0x4a0, 0x460, 0x440, 0x440, 0x520, 0x800, 0x840, 0x840,
],
[
    0x4f0, 0x4f0, 0x460, 0x410, 0x3e0, 0x3d0, 0x3c0, 0x3b0, 0x3b0, 0x3a0,
    0x3a0, 0x3a0, 0x3a0, 0x3a0, 0x390, 0x390, 0x390, 0x380, 0x380, 0x380,
    0x370, 0x370, 0x360, 0x360, 0x350, 0x350, 0x340, 0x340, 0x320, 0x310,
    0x300, 0x2f0, 0x2f0, 0x2f0, 0x2f0, 0x300, 0x320, 0x350, 0x390, 0x3e0,
    0x420, 0x450, 0x4a0, 0x490, 0x460, 0x440, 0x480, 0x630, 0x840, 0x840,
],
[
    0x580, 0x580, 0x4b0, 0x450, 0x420, 0x3f0, 0x3e0, 0x3d0, 0x3c0, 0x3b0,
    0x3b0, 0x3b0, 0x3a0, 0x3a0, 0x3a0, 0x3a0, 0x3a0, 0x3a0, 0x3a0, 0x3a0,
    0x390, 0x390, 0x390, 0x390, 0x380, 0x380, 0x380, 0x380, 0x370, 0x360,
    0x350, 0x340, 0x330, 0x320, 0x310, 0x300, 0x2f0, 0x2f0, 0x2f0, 0x300,
    0x310, 0x330, 0x350, 0x3c0, 0x410, 0x470, 0x4a0, 0x460, 0x440, 0x450,
],
];

/// Bit allocation pointer by signal-to-mask distance.
pub const BAPTAB: [u8; 64] = [
    0, 1, 1, 1, 1, 1, 2, 2, 3, 3, 3, 4, 4, 5, 5, 6,
    6, 6, 6, 7, 7, 7, 7, 8, 8, 8, 8, 9, 9, 9, 9, 10,
    10, 10, 10, 11, 11, 11, 11, 12, 12, 12, 12, 13, 13, 13, 13, 14,
    14, 14, 14, 14, 14, 14, 14, 15, 15, 15, 15, 15, 15, 15, 15, 15,
];

/// Full-bandwidth channels by `acmod`.
pub open spec fn nfchans_of(acmod: int) -> nat {
    if acmod == 1 {
        1
    } else if acmod == 0 || acmod == 2 {
        2
    } else if acmod == 3 || acmod == 4 {
        3
    } else if acmod == 5 || acmod == 6 {
        4
    } else {
        5
    }
}

/// Full-bandwidth channels by `acmod`.
pub fn nfchans(acmod: u8) -> (n: usize)
    ensures
        n == nfchans_of(acmod as int),
{
    match acmod {
        1 => 1,
        0 | 2 => 2,
        3 | 4 => 3,
        5 | 6 => 4,
        _ => 5,
    }
}

/// Audio blocks in an E-AC-3 frame by `numblkscod`.
pub open spec fn blocks_of(numblkscod: int) -> nat {
    if numblkscod < 3 {
        (numblkscod + 1) as nat
    } else {
        6
    }
}

} // verus!
