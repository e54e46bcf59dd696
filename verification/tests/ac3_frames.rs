use web_player::ac3::bitstream::BitReader;
use web_player::ac3::block::AudioBlock;
use web_player::ac3::decoder::{Ac3Decoder, DecodedFrame};
use web_player::ac3::eac3_block::read_eac3_audio_block;
use web_player::ac3::eac3_bsi::EacBsi;
use web_player::ac3::error::DecodeError;
use web_player::ac3::mantissa::{bap2_lookup, bap4_lookup, Mantissa};

/// Bits, the most significant first.
struct Bits(Vec<bool>);

impl Bits {
    fn put(&mut self, n: usize, value: u32) {
        for i in (0..n).rev() {
            self.0.push(value >> i & 1 == 1);
        }
    }

    fn bytes(mut self, len: usize) -> Vec<u8> {
        self.0.resize(len * 8, false);
        self.0.chunks(8).map(|c| c.iter().fold(0, |n, b| n << 1 | *b as u8)).collect()
    }
}

/// A mono frame of 2560 bytes: exponents all `exp` in the first block and used
/// again in the others, and mantissas all `mantissa` where `loud`.
fn mono_frame(exp: u32, dither: bool, loud: bool, mantissa: u32) -> Vec<u8> {
    mono_frame_broken(exp, dither, loud, mantissa, 6)
}

/// As before, with a coupling range that ends before it begins in a block.
fn mono_frame_broken(exp: u32, dither: bool, loud: bool, mantissa: u32, broken: usize) -> Vec<u8> {
    let mut b = Bits(Vec::new());
    b.put(16, 0x0B77);
    b.put(16, 0);
    b.put(2, 0);
    b.put(6, 37);
    b.put(5, 8);
    b.put(3, 0);
    b.put(3, 1);
    b.put(1, 0);
    b.put(5, 31);
    b.put(3, 0);
    b.put(2, 0);
    b.put(2, 0);
    b.put(1, 0);
    for block in 0..6 {
        b.put(1, 0);
        b.put(1, dither as u32);
        b.put(1, 0);
        if block == broken {
            b.put(3, 7);
            b.put(8, 0xF0);
            break;
        }
        if block == 0 {
            b.put(1, 0);
            b.put(2, 1);
            b.put(6, 0);
            b.put(4, exp);
            for _ in 0..24 {
                b.put(7, 62);
            }
            b.put(2, 0);
            b.put(1, 1);
            b.put(11, 0);
            b.put(1, 1);
            b.put(6, if loud { 63 } else { 0 });
            b.put(4, if loud { 15 } else { 0 });
            b.put(3, 0);
        } else {
            b.put(1, 0);
            b.put(2, 0);
            b.put(1, 0);
            b.put(1, 0);
        }
        b.put(1, 0);
        b.put(1, 0);
        if loud {
            for _ in 0..73 {
                b.put(16, mantissa);
            }
        }
    }
    b.bytes(2560)
}

fn decode(data: &[u8]) -> Result<DecodedFrame, DecodeError> {
    Ac3Decoder::new().decode_frame(data)
}

#[test]
fn frame_of_silence() {
    let f = decode(&mono_frame(3, false, false, 0)).unwrap();
    assert_eq!((f.sample_rate, f.channels, f.samples_per_channel), (48000, 1, 1536));
    assert_eq!(f.blocks.len(), 6);
    for block in &f.blocks {
        assert_eq!(block.channels.len(), 1);
        assert_eq!(block.channels[0].len(), 256);
        assert!(block.lfe.is_none() && block.rematrix.is_empty());
        for c in &block.channels[0] {
            assert!(matches!(c.mantissa, Mantissa::Quantised(l) if l.num == 0));
        }
    }
}

#[test]
fn frame_of_noise() {
    let f = decode(&mono_frame(3, true, false, 0)).unwrap();
    let first = &f.blocks[0].channels[0][0];
    assert_eq!(first.mantissa, Mantissa::Dither(16838));
    assert_eq!((first.exp, first.coord), (3, None));
    assert!(matches!(f.blocks[0].channels[0][72].mantissa, Mantissa::Dither(_)));
    assert!(matches!(f.blocks[0].channels[0][73].mantissa, Mantissa::Quantised(_)));
    let mut d = Ac3Decoder::new();
    let again = d.decode_frame(&mono_frame(3, true, false, 0)).unwrap();
    assert_eq!(again.blocks[5].channels[0], f.blocks[5].channels[0]);
    let next = d.decode_frame(&mono_frame(3, true, false, 0)).unwrap();
    assert_ne!(next.blocks[0].channels[0][0], first.clone());
}

#[test]
fn frame_of_sound() {
    let f = decode(&mono_frame(0, false, true, 0xC000)).unwrap();
    for block in &f.blocks {
        for c in &block.channels[0][..73] {
            assert_eq!(c.exp, 0);
            match c.mantissa {
                Mantissa::Quantised(l) => assert_eq!((l.num, l.den), (-16384, 32768)),
                m => panic!("{:?}", m),
            }
        }
        assert!(matches!(block.channels[0][73].mantissa, Mantissa::Quantised(l) if l.num == 0));
    }
}

#[test]
fn frame_that_fails_leaves_its_blocks() {
    let whole = decode(&mono_frame(3, true, false, 0)).unwrap();
    let mut d = Ac3Decoder::new();
    assert!(matches!(d.decode_frame(&mono_frame_broken(3, true, false, 0, 2)), Err(DecodeError::BlockError(_))));
    let left = d.take_unfinished();
    assert_eq!(left.len(), 2);
    for (a, b) in left.iter().zip(&whole.blocks) {
        assert_eq!(a.channels, b.channels);
    }
    assert!(d.take_unfinished().is_empty());
    assert!(d.decode_frame(&mono_frame_broken(3, true, false, 0, 4)).is_err());
    assert!(d.decode_frame(&mono_frame(3, true, false, 0)).is_ok());
    assert!(d.take_unfinished().is_empty());
    assert!(d.decode_frame(&mono_frame_broken(3, true, false, 0, 0)).is_err());
    assert!(d.take_unfinished().is_empty());
    assert!(d.decode_frame(&mono_frame_broken(3, true, false, 0, 1)).is_err());
    d.reset();
    assert!(d.take_unfinished().is_empty());
}

#[test]
fn frame_behind_other_bytes() {
    let mut data = vec![0; 5];
    data.extend(mono_frame(3, false, false, 0));
    assert_eq!(Ac3Decoder::find_sync(&data), Some(5));
    assert!(decode(&data).is_ok());
    let mut far = vec![0; 20];
    far.extend(mono_frame(3, false, false, 0));
    assert_eq!(Ac3Decoder::find_sync(&far), Some(20));
    assert!(matches!(decode(&far), Err(DecodeError::InvalidSync)));
}

#[test]
fn frame_sizes() {
    assert_eq!(Ac3Decoder::frame_size(&mono_frame(0, false, false, 0)), Some((2560, 8)));
    let head = |b4: u8, b5: u8| Ac3Decoder::frame_size(&[0x0B, 0x77, 0, 0, b4, b5, 0, 0]);
    assert_eq!(head(0x00, 0x40), Some((128, 8)));
    assert_eq!(head(0x80, 0x40), Some((192, 8)));
    assert_eq!(head(0xC0, 0x40), None);
    assert_eq!(head(38, 0x40), None);
    assert_eq!(head(0x00, 17 << 3), None);
    assert_eq!(Ac3Decoder::frame_size(&[0x0B, 0x77, 0x05, 0xFF, 0, 16 << 3, 0, 0]), Some((3072, 16)));
}

#[test]
fn frame_errors() {
    let text = |data: &[u8]| decode(data).map(|_| ()).unwrap_err().message();
    assert_eq!(text(&[0x0B, 0x77, 0]), "Not enough data");
    assert_eq!(text(&[0; 40]), "Invalid AC-3 sync word");
    assert_eq!(text(&[0x0B, 0x77, 0, 0, 0, 20 << 3, 0, 0]), "Unsupported bsid: 20");
    assert_eq!(text(&[0x0B, 0x77, 0, 0, 0xC0, 0x40, 0, 0]), "Invalid header: invalid fscod");
    assert_eq!(text(&[0x0B, 0x77, 0, 0, 38, 0x40, 0, 0]), "Invalid header: invalid frmsizecod");
    assert_eq!(text(&[0x0B, 0x77, 0, 0, 0, 0x40, 0x20, 0, 0, 0, 0, 0]), "Frame too short");
    assert_eq!(
        text(&[0x0B, 0x77, 0x45, 0xFF, 0x3F, 0x85, 0, 0]),
        "Invalid header: E-AC-3 dependent substream not supported"
    );
}

#[test]
fn block_error_is_told() {
    let mut b = Bits(Vec::new());
    b.put(16, 0x0B77);
    b.put(16, 0);
    b.put(8, 0);
    b.put(5, 8);
    b.put(3, 0);
    b.put(3, 2);
    b.put(2, 0);
    b.put(1, 0);
    b.put(5, 31);
    b.put(3, 0);
    b.put(2, 0);
    b.put(2, 0);
    b.put(1, 0);
    b.put(2, 0);
    b.put(2, 0);
    b.put(1, 0);
    b.put(1, 1);
    b.put(2, 0b11);
    b.put(1, 0);
    b.put(4, 15);
    b.put(4, 0);
    let e = decode(&b.bytes(128)).map(|_| ()).unwrap_err();
    assert!(matches!(e, DecodeError::BlockError(_)));
    assert!(e.message().starts_with("Block decode error: "));
}

#[test]
fn grouped_mantissas() {
    let v = bap2_lookup(0);
    assert_eq!((v[0].num, v[0].den), (-4, 5));
    let v = bap2_lookup(124);
    assert_eq!((v[2].num, v[2].den), (4, 5));
    let v = bap4_lookup(60);
    assert_eq!((v[0].num, v[1].num), (0, 0));
    let v = bap4_lookup(0);
    assert_eq!((v[1].num, v[1].den), (-10, 11));
}

#[test]
fn bits_behind_the_end_are_zero() {
    let mut br = BitReader::new(&[0xFF]);
    assert_eq!(br.read(12), 0xFF0);
    assert_eq!(br.read(32), 0);
}

#[test]
fn enhanced_block_with_coupling() {
    let data = [0x34, 0x30];
    let mut br = BitReader::new(&data);
    let mut eac = EacBsi::new();
    eac.acmod = 2;
    eac.cpl_strategy_exists = [true, false, false, false, false, false];
    eac.cplinu = [true; 6];
    let mut block = AudioBlock::new(2);
    let mut dither = 1;
    assert!(read_eac3_audio_block(&mut br, &eac, &mut block, 0, &mut dither).is_ok());
    let s = &block.strategy;
    assert!(s.in_use && s.chincpl[0] && s.chincpl[1]);
    assert_eq!((s.begf, s.endf, s.nsubnd, s.nbnd), (8, 6, 1, 1));
}
