use web_player::demux::boxes::{MoovLocation, Mp4Box};
use web_player::demux::mp4::Mp4Demuxer;

// =============================================
// Helper: build a top-level MP4 box (8-byte header)
// =============================================
fn make_box(box_type: &[u8; 4], content_size: u32) -> Vec<u8> {
    let total_size = content_size + 8;
    let mut data = total_size.to_be_bytes().to_vec();
    data.extend_from_slice(box_type);
    data.extend(vec![0u8; content_size as usize]);
    data
}

/// Build a box with extended 64-bit size header (16 bytes)
fn make_box_extended(box_type: &[u8; 4], total_size: u64) -> Vec<u8> {
    let mut data = 1u32.to_be_bytes().to_vec(); // size=1 signals extended
    data.extend_from_slice(box_type);
    data.extend_from_slice(&total_size.to_be_bytes());
    let content_size = total_size.saturating_sub(16) as usize;
    data.extend(vec![0u8; content_size]);
    data
}

// =============================================
// scan_top_level_boxes tests
// =============================================

#[test]
fn scan_empty_data() {
    let boxes = Mp4Demuxer::scan_top_level_boxes(&[]);
    assert!(boxes.is_empty());
}

#[test]
fn scan_too_short() {
    let boxes = Mp4Demuxer::scan_top_level_boxes(&[0x00, 0x01, 0x02, 0x03]);
    assert!(boxes.is_empty());
}

#[test]
fn scan_single_ftyp_box() {
    let data = make_box(b"ftyp", 12); // 20 bytes total
    let boxes = Mp4Demuxer::scan_top_level_boxes(&data);
    assert_eq!(boxes.len(), 1);
    assert!(boxes[0].is_type(b"ftyp"));
    assert_eq!(boxes[0].offset, 0);
    assert_eq!(boxes[0].size, 20);
}

#[test]
fn scan_multiple_boxes() {
    let mut data = make_box(b"ftyp", 12); // 20 bytes
    data.extend(make_box(b"moov", 100)); // 108 bytes
    data.extend(make_box(b"mdat", 50));  // 58 bytes
    let boxes = Mp4Demuxer::scan_top_level_boxes(&data);
    assert_eq!(boxes.len(), 3);
    assert!(boxes[0].is_type(b"ftyp"));
    assert_eq!(boxes[0].offset, 0);
    assert!(boxes[1].is_type(b"moov"));
    assert_eq!(boxes[1].offset, 20);
    assert!(boxes[2].is_type(b"mdat"));
    assert_eq!(boxes[2].offset, 128);
}

#[test]
fn scan_extended_size_box() {
    let data = make_box_extended(b"mdat", 32); // 32 bytes total
    let boxes = Mp4Demuxer::scan_top_level_boxes(&data);
    assert_eq!(boxes.len(), 1);
    assert!(boxes[0].is_type(b"mdat"));
    assert_eq!(boxes[0].size, 32);
}

#[test]
fn scan_size_zero_extends_to_eof() {
    // size=0 means "extends to end of file"
    let mut data = vec![0x00, 0x00, 0x00, 0x00]; // size = 0
    data.extend_from_slice(b"mdat");
    data.extend(vec![0xFF; 100]); // content
    let boxes = Mp4Demuxer::scan_top_level_boxes(&data);
    assert_eq!(boxes.len(), 1);
    assert!(boxes[0].is_type(b"mdat"));
    assert_eq!(boxes[0].size, 0);
}

#[test]
fn scan_size_zero_stops_scanning() {
    // After size=0 box, no more boxes should be scanned
    let mut data = vec![0x00, 0x00, 0x00, 0x00]; // size = 0
    data.extend_from_slice(b"mdat");
    data.extend(vec![0x00; 50]);
    // Put another "box" after — should not be found
    data.extend(make_box(b"moov", 10));
    let boxes = Mp4Demuxer::scan_top_level_boxes(&data);
    assert_eq!(boxes.len(), 1);
}

#[test]
fn scan_truncated_box_header() {
    // 7 bytes — not enough for a complete header
    let data = [0x00, 0x00, 0x00, 0x1C, b'f', b't', b'y'];
    let boxes = Mp4Demuxer::scan_top_level_boxes(&data);
    assert!(boxes.is_empty());
}

#[test]
fn scan_truncated_extended_header() {
    // Extended size header but not enough bytes for the 64-bit size
    let mut data = 1u32.to_be_bytes().to_vec(); // size=1 (extended)
    data.extend_from_slice(b"mdat");
    data.extend_from_slice(&[0x00, 0x00, 0x00]); // only 3 of 8 bytes
    let boxes = Mp4Demuxer::scan_top_level_boxes(&data);
    assert!(boxes.is_empty());
}

#[test]
fn scan_box_type_str() {
    let b = Mp4Box {
        box_type: *b"moov",
        offset: 0,
        size: 100,
    };
    assert_eq!(b.type_str(), "moov");
}

#[test]
fn scan_recognizes_common_box_types() {
    let types = [b"ftyp", b"moov", b"mdat", b"moof", b"free", b"skip"];
    let mut data = Vec::new();
    for t in &types {
        data.extend(make_box(t, 0)); // 8 bytes each
    }
    let boxes = Mp4Demuxer::scan_top_level_boxes(&data);
    assert_eq!(boxes.len(), types.len());
    for (i, t) in types.iter().enumerate() {
        assert!(boxes[i].is_type(t));
    }
}

// =============================================
// locate_moov tests
// =============================================

#[test]
fn locate_moov_found_before_mdat() {
    let mut data = make_box(b"ftyp", 12);
    data.extend(make_box(b"moov", 100));
    data.extend(make_box(b"mdat", 1000));
    let file_size = data.len() as u64;
    match Mp4Demuxer::locate_moov(&data, file_size) {
        MoovLocation::Found { offset, size } => {
            assert_eq!(offset, 20);
            assert_eq!(size, 108);
        }
        other => panic!("Expected Found, got {:?}", other),
    }
}

#[test]
fn locate_moov_at_end() {
    // ftyp + mdat only — moov missing in scanned data
    let mut data = make_box(b"ftyp", 12);   // 20 bytes
    data.extend(make_box(b"mdat", 10000)); // 10008 bytes
    let file_size = 20000u64; // file is larger — moov at end
    match Mp4Demuxer::locate_moov(&data, file_size) {
        MoovLocation::AtEnd { moov_offset } => {
            // mdat ends at 20 + 10008 = 10028
            assert_eq!(moov_offset, 10028);
        }
        other => panic!("Expected AtEnd, got {:?}", other),
    }
}

#[test]
fn locate_moov_unknown_no_boxes() {
    let data = [0x00; 100]; // No valid boxes
    match Mp4Demuxer::locate_moov(&data, 1000) {
        MoovLocation::Unknown => {}
        other => panic!("Expected Unknown, got {:?}", other),
    }
}

#[test]
fn locate_moov_unknown_no_mdat_no_moov() {
    // Only ftyp, no mdat or moov
    let data = make_box(b"ftyp", 12);
    match Mp4Demuxer::locate_moov(&data, 1000) {
        MoovLocation::Unknown => {}
        other => panic!("Expected Unknown, got {:?}", other),
    }
}

#[test]
fn locate_moov_mdat_size_zero() {
    // mdat with size=0 (extends to EOF) — should return Unknown
    let mut data = make_box(b"ftyp", 12);
    // Add mdat with size=0
    data.extend_from_slice(&[0x00, 0x00, 0x00, 0x00]); // size=0
    data.extend_from_slice(b"mdat");
    match Mp4Demuxer::locate_moov(&data, 10000) {
        MoovLocation::Unknown => {}
        other => panic!("Expected Unknown, got {:?}", other),
    }
}

#[test]
fn locate_moov_mdat_end_equals_file_size() {
    // mdat fills the rest of the file — no room for moov
    let mut data = make_box(b"ftyp", 4);  // 12 bytes
    data.extend(make_box(b"mdat", 0));   // 8 bytes
    let file_size = 20u64;
    match Mp4Demuxer::locate_moov(&data, file_size) {
        MoovLocation::Unknown => {}
        other => panic!("Expected Unknown, got {:?}", other),
    }
}

#[test]
fn locate_moov_empty_data() {
    match Mp4Demuxer::locate_moov(&[], 1000) {
        MoovLocation::Unknown => {}
        other => panic!("Expected Unknown, got {:?}", other),
    }
}

// =============================================
// Mp4Demuxer::probe tests
// =============================================

#[test]
fn mp4_probe_valid_ftyp() {
    let data = [
        0x00, 0x00, 0x00, 0x1C, b'f', b't', b'y', b'p',
        b'i', b's', b'o', b'm',
    ];
    assert!(Mp4Demuxer::probe(&data));
}

#[test]
fn mp4_probe_empty() {
    assert!(!Mp4Demuxer::probe(&[]));
}

#[test]
fn mp4_probe_too_short() {
    assert!(!Mp4Demuxer::probe(&[0x00, 0x00, 0x00, 0x1C, b'f', b't', b'y']));
}

#[test]
fn mp4_probe_wrong_type() {
    let data = [
        0x00, 0x00, 0x00, 0x1C, b'm', b'o', b'o', b'v',
    ];
    assert!(!Mp4Demuxer::probe(&data));
}

#[test]
fn mp4_probe_mkv_magic() {
    assert!(!Mp4Demuxer::probe(&[0x1A, 0x45, 0xDF, 0xA3, 0x93, 0x42, 0x86, 0x81]));
}

// =============================================
// Mp4Demuxer state tests
// =============================================

#[test]
fn mp4_demuxer_initial_state() {
    let d = Mp4Demuxer::new();
    assert!(d.reader.is_none());
    assert!(d.media_info.is_none());
    assert!(d.sample_cursors.is_empty());
}

#[test]
fn mp4_demuxer_sample_positions_roundtrip() {
    let mut d = Mp4Demuxer::new();
    let positions = vec![(1, 42), (2, 100), (3, 1)];
    d.set_sample_positions(positions.clone());
    assert_eq!(d.sample_positions(), positions);
}

#[test]
fn mp4_demuxer_sample_positions_empty() {
    let d = Mp4Demuxer::new();
    assert!(d.sample_positions().is_empty());
}

#[test]
fn mp4_demuxer_next_chunk_without_parse_errors() {
    let mut d = Mp4Demuxer::new();
    let result = d.next_chunk();
    assert!(result.is_err());
}

#[test]
fn mp4_demuxer_seek_without_parse_errors() {
    let mut d = Mp4Demuxer::new();
    let result = d.seek_to_keyframe(0);
    assert!(result.is_err());
}

#[test]
fn mp4_demuxer_parse_invalid_data() {
    let mut d = Mp4Demuxer::new();
    let result = d.parse_header(&[0x00; 100]);
    assert!(result.is_err());
}

#[test]
fn mp4_demuxer_parse_truncated_ftyp() {
    let mut d = Mp4Demuxer::new();
    // Valid ftyp header but truncated
    let data = [
        0x00, 0x00, 0x00, 0x1C, b'f', b't', b'y', b'p',
        b'i', b's', b'o', b'm',
    ];
    let result = d.parse_header(&data);
    assert!(result.is_err());
}

// =============================================
// Edge cases: box scanning with large sizes
// =============================================

#[test]
fn scan_box_with_max_u32_size() {
    // A box claiming to be 4GB — scanning should handle it (advance past)
    let mut data = (0xFFFFFFFFu32).to_be_bytes().to_vec();
    data.extend_from_slice(b"mdat");
    // No content (we don't have 4GB), but scan should find this one box
    let boxes = Mp4Demuxer::scan_top_level_boxes(&data);
    assert_eq!(boxes.len(), 1);
    assert!(boxes[0].is_type(b"mdat"));
    assert_eq!(boxes[0].size, 0xFFFFFFFF);
}

#[test]
fn scan_adjacent_minimal_boxes() {
    // Multiple 8-byte boxes (minimum size = 8, no content)
    let mut data = Vec::new();
    for _ in 0..10 {
        data.extend(make_box(b"free", 0)); // 8 bytes each
    }
    let boxes = Mp4Demuxer::scan_top_level_boxes(&data);
    assert_eq!(boxes.len(), 10);
    for (i, b) in boxes.iter().enumerate() {
        assert_eq!(b.offset, (i * 8) as u64);
        assert_eq!(b.size, 8);
    }
}

// =============================================
// locate_moov — additional edge cases
// =============================================

#[test]
fn locate_moov_multiple_mdat_before_moov() {
    // ftyp + mdat + free + moov (moov found despite mdat before it)
    let mut data = make_box(b"ftyp", 12);  // 20 bytes
    data.extend(make_box(b"mdat", 100));    // 108 bytes
    data.extend(make_box(b"free", 8));      // 16 bytes
    let moov_offset = data.len();
    data.extend(make_box(b"moov", 200));    // 208 bytes
    let file_size = data.len() as u64;
    match Mp4Demuxer::locate_moov(&data, file_size) {
        MoovLocation::Found { offset, .. } => {
            assert_eq!(offset, moov_offset as u64);
        }
        other => panic!("Expected Found, got {:?}", other),
    }
}

#[test]
fn locate_moov_with_extended_mdat() {
    // ftyp + extended-size mdat — moov at end
    let mut data = make_box(b"ftyp", 12); // 20 bytes
    // mdat with extended 64-bit size
    data.extend(make_box_extended(b"mdat", 64)); // 64 bytes
    let file_size = 1000u64;
    match Mp4Demuxer::locate_moov(&data, file_size) {
        MoovLocation::AtEnd { moov_offset } => {
            // mdat starts at 20, size=64 → ends at 84
            assert_eq!(moov_offset, 84);
        }
        other => panic!("Expected AtEnd, got {:?}", other),
    }
}

// =============================================
// Mp4Demuxer — build_seek_index without parse
// =============================================

#[test]
fn mp4_build_seek_index_without_parse() {
    let d = Mp4Demuxer::new();
    let idx = d.build_seek_index();
    assert!(idx.is_empty());
}

// =============================================
// Mp4Box utilities
// =============================================

#[test]
fn mp4_box_type_non_ascii() {
    let b = Mp4Box {
        box_type: [0xFF, 0xFE, 0xFD, 0xFC],
        offset: 0,
        size: 8,
    };
    assert_eq!(b.type_str(), "????");
}

#[test]
fn mp4_box_is_type_mismatch() {
    let b = Mp4Box {
        box_type: *b"moov",
        offset: 0,
        size: 100,
    };
    assert!(!b.is_type(b"mdat"));
    assert!(b.is_type(b"moov"));
}

// =============================================
// scan_top_level_boxes — stress/edge cases
// =============================================

#[test]
fn scan_box_chain_with_extended_in_middle() {
    let mut data = make_box(b"ftyp", 4);           // 12 bytes
    data.extend(make_box_extended(b"mdat", 32));     // 32 bytes
    data.extend(make_box(b"moov", 8));               // 16 bytes
    let boxes = Mp4Demuxer::scan_top_level_boxes(&data);
    assert_eq!(boxes.len(), 3);
    assert!(boxes[0].is_type(b"ftyp"));
    assert_eq!(boxes[0].offset, 0);
    assert!(boxes[1].is_type(b"mdat"));
    assert_eq!(boxes[1].offset, 12);
    assert_eq!(boxes[1].size, 32);
    assert!(boxes[2].is_type(b"moov"));
    assert_eq!(boxes[2].offset, 44);
}
