use web_player::ac3::bitalloc::logadd;
use web_player::ac3::bitstream::BitReader;
use web_player::ac3::decoder::Ac3Decoder;
use web_player::ac3::eac3_bsi::{parse_eac3_bsi, EacBsi};
use web_player::ac3::mantissa::{bap1_lookup, bap3_lookup, bap5_lookup, Level, MantissaReader};


/// A mantissa value as a number.
fn value(l: Level) -> f64 {
    l.num as f64 / l.den as f64
}

#[test]
fn find_sync_basic() {
    let data = [0x00, 0x00, 0x0B, 0x77, 0xFF];
    assert_eq!(Ac3Decoder::find_sync(&data), Some(2));
}

#[test]
fn find_sync_none() {
    let data = [0x00, 0x00, 0x00, 0x00];
    assert_eq!(Ac3Decoder::find_sync(&data), None);
}

#[test]
fn frame_size_ac3() {
    let mut data = [0u8; 8];
    data[0] = 0x0B;
    data[1] = 0x77;
    data[2] = 0x00;
    data[3] = 0x00;
    data[4] = 0x0C; // fscod=0, frmsizecod=12
    data[5] = 0x40; // bsid=8
    let result = Ac3Decoder::frame_size(&data);
    assert!(result.is_some());
    let (size, bsid) = result.unwrap();
    assert_eq!(bsid, 8);
    assert!(size > 0);
}

#[test]
fn logadd_basic() {
    // logadd(a, b) where a > b should return a + LATAB[...]
    let result = logadd(1000, 900);
    assert!(result > 1000);
    assert!(result < 1100);
}

#[test]
fn bap_lookup_tables() {
    // BAP 1: group 0 should give [-2/3, -2/3, -2/3]
    let v = bap1_lookup(0);
    assert!((value(v[0]) - (-2.0 / 3.0)).abs() < 1e-5);

    // BAP 1: group 13 (1*9 + 1*3 + 1 = 13) should give [0, 0, 0]
    let v = bap1_lookup(13);
    assert!(value(v[0]).abs() < 1e-5);
    assert!(value(v[1]).abs() < 1e-5);
    assert!(value(v[2]).abs() < 1e-5);

    // BAP 3: code 3 should give 0
    assert!(value(bap3_lookup(3)).abs() < 1e-5);

    // BAP 5: code 7 should give 0
    assert!(value(bap5_lookup(7)).abs() < 1e-5);
}

#[test]
fn mantissa_signed_read() {
    // Test that BAP 6 reads 5 bits signed and divides by 2^4 = 16
    let data = [0b11111_000]; // 5 bits = 11111 = -1 signed
    let mut br = BitReader::new(&data);
    let mut mr = MantissaReader::new();
    let val = value(mr.get(6, &mut br));
    assert!((val - (-1.0 / 16.0)).abs() < 1e-5, "BAP 6: got {}", val);
}

#[test]
fn eac_bsi_defaults() {
    let eac = EacBsi::new();
    assert_eq!(eac.strmtyp, 0);
    assert_eq!(eac.substreamid, 0);
    assert_eq!(eac.frmsize, 0);
    assert_eq!(eac.fscod, 0);
    assert_eq!(eac.numblkscod, 3);
    assert_eq!(eac.num_blocks, 6);
    assert_eq!(eac.sample_rate, 48000);
    assert_eq!(eac.acmod, 0);
    assert!(!eac.lfeon);
    assert_eq!(eac.bsid, 16);
    assert_eq!(eac.nfchans, 2);
    assert_eq!(eac.dialnorm, 31);
    assert_eq!(eac.bsmod, 0);
    // Syntax flags default to false
    assert!(!eac.dither_flag_syntax);
    assert!(!eac.block_switch_syntax);
    // Coupling defaults to false
    assert!(!eac.cplinu[0]);
    // SNR defaults
    assert_eq!(eac.snr_offset, 0);
    assert_eq!(eac.snr_offset_strategy, 0);
    assert!(!eac.bit_allocation_syntax);
}

#[test]
fn eac3_syncinfo_parse() {
    // Test data: 0x0B77 05FF 3F85 ...
    // sync=0x0B77, strmtyp=00, substreamid=000, frmsiz=10111111111=1535
    // fscod=00(48kHz), numblkscod=11(6blks), acmod=111(5ch), lfeon=1
    // bsid=10000=16, dialnorm=00101=5
    // Then compre=0 (no compression)
    // We need enough bytes for the BSI parser to not run out of data.
    // Build a minimal valid-ish E-AC-3 header.
    let mut data = vec![0u8; 256];
    // sync word
    data[0] = 0x0B;
    data[1] = 0x77;
    // strmtyp=00, substreamid=000, frmsiz[10:0]=10111111111
    data[2] = 0x05; // 00_000_101
    data[3] = 0xFF; // 11111111
                    // fscod=00, numblkscod=11, acmod=111, lfeon=1
    data[4] = 0x3F; // 00_11_111_1
                    // bsid=10000, dialnorm=00101
    data[5] = 0x85; // 10000_001
    data[6] = 0x01; // 01_......  (dialnorm continues, then compre=0)
                    // Remaining bytes zero = compre=0, dual_mono=no (acmod=7 != 0),
                    // All subsequent flags will be 0 (no optional metadata).

    let mut br = BitReader::new(&data);
    let result = parse_eac3_bsi(&mut br);

    // The parser may encounter issues with zeroed-out audfrm data,
    // but the syncinfo fields should parse correctly before any error.
    // For a robust test, we verify the header is parsed:
    match result {
        Ok(eac) => {
            assert_eq!(eac.strmtyp, 0, "strmtyp");
            assert_eq!(eac.substreamid, 0, "substreamid");
            assert_eq!(eac.frmsiz, 1535, "frmsiz");
            assert_eq!(eac.frmsize, 3072, "frmsize");
            assert_eq!(eac.fscod, 0, "fscod");
            assert_eq!(eac.numblkscod, 3, "numblkscod");
            assert_eq!(eac.num_blocks, 6, "num_blocks");
            assert_eq!(eac.sample_rate, 48000, "sample_rate");
            assert_eq!(eac.acmod, 7, "acmod");
            assert!(eac.lfeon, "lfeon");
            assert_eq!(eac.bsid, 16, "bsid");
            assert_eq!(eac.nfchans, 5, "nfchans");
        }
        Err(e) => {
            // If it fails due to running out of data in audfrm parsing,
            // that's acceptable for this test — the syncinfo was correct.
            // But let's not panic.
            panic!("parse_eac3_bsi failed: {}", e.message());
        }
    }
}

#[test]
fn eac3_frame_too_short() {
    let mut decoder = Ac3Decoder::new();
    // Valid sync + E-AC-3 header but frame data truncated
    let data = vec![0x0B, 0x77, 0x05, 0xFF, 0x3F, 0x85, 0x00, 0x00];
    // This should parse BSI but fail with FrameTooShort since data is only 8 bytes
    // but frmsize = 3072
    let result = decoder.decode_frame(&data);
    assert!(result.is_err());
}

#[test]
fn eac3_dependent_substream_rejected() {
    let mut decoder = Ac3Decoder::new();
    // strmtyp=1 (dependent) in header
    let mut data = vec![0x0B, 0x77];
    // byte 2-3: strmtyp=01, substreamid=000, frmsiz=10111111111
    // 01 000 101 11111111 → 0x45 0xFF
    data.extend_from_slice(&[0x45, 0xFF]);
    // byte 4: fscod=00, numblkscod=11, acmod=111, lfeon=1 → 0x3F 0x85
    data.extend_from_slice(&[0x3F, 0x85]);
    // pad to at least 8 bytes
    data.extend_from_slice(&[0x00; 4]);
    let result = decoder.decode_frame(&data);
    assert!(result.is_err());
}

#[test]
fn eac3_invalid_fscod_rejected() {
    let mut decoder = Ac3Decoder::new();
    // fscod=11 (invalid without fscod2)
    // byte 2-3: strmtyp=00, substreamid=000, frmsiz=10111111111
    // 00 000 101 11111111 → 0x05 0xFF
    // byte 4: fscod=11, ... → 0xFF ...
    let data = vec![0x0B, 0x77, 0x05, 0xFF, 0xFF, 0x85, 0x00, 0x00, 0x00, 0x00];
    let result = decoder.decode_frame(&data);
    // Should either handle reduced rate or error gracefully
    assert!(result.is_err());
}

#[test]
fn eac3_zero_length_frame() {
    let mut decoder = Ac3Decoder::new();
    // frmsiz=0 → frmsize=2, way too small for a valid frame
    let data = vec![0x0B, 0x77, 0x00, 0x00, 0x3F, 0x85, 0x00, 0x00];
    let result = decoder.decode_frame(&data);
    assert!(result.is_err());
}

#[test]
fn ac3_decoder_reset() {
    let mut decoder = Ac3Decoder::new();
    decoder.reset();
    // Should be safe to call reset multiple times
    decoder.reset();
    // After reset, decoding should work normally
    let data = vec![0x0B, 0x77, 0x05, 0xFF, 0x3F, 0x85, 0x00, 0x00];
    let result = decoder.decode_frame(&data);
    // Will fail (frame too short) but shouldn't panic
    assert!(result.is_err());
}

#[test]
fn logadd_of_distant_levels() {
    assert_eq!(logadd(i32::MAX, i32::MAX - 600), i32::MAX);
    assert_eq!(logadd(5, 1000), logadd(1000, 5));
    assert_eq!(logadd(10, 10), 74);
}
