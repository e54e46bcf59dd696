use web_player::demux::ebml::{find_cluster_offset, find_cluster_timestamp, parse_ebml_vint};
use web_player::demux::mkv::MkvDemuxer;
use web_player::demux::types::DemuxError;

// =============================================
// find_cluster_offset tests
// =============================================

#[test]
fn cluster_offset_empty_data() {
    assert_eq!(find_cluster_offset(&[]), None);
}

#[test]
fn cluster_offset_too_short() {
    // Less than 4 bytes — can't contain a Cluster ID
    assert_eq!(find_cluster_offset(&[0x1F, 0x43, 0xB6]), None);
}

#[test]
fn cluster_offset_exactly_4_bytes_at_edge() {
    // Cluster ID at the very end, no VINT byte to validate
    // Should still be accepted (edge-of-data rule)
    let data = [0x1F, 0x43, 0xB6, 0x75];
    // pos + 4 < data.len() → 0 + 4 < 4 → false, so the while loop doesn't run
    assert_eq!(find_cluster_offset(&data), None);
}

#[test]
fn cluster_offset_5_bytes_valid() {
    // Cluster ID followed by valid VINT (0x01 = smallest VINT)
    let data = [0x1F, 0x43, 0xB6, 0x75, 0x01];
    // pos + 4 < 5 → true, finds cluster at 0, abs + 4 < 5 → false
    // → edge of data → accept at offset 0
    assert_eq!(find_cluster_offset(&data), Some(0));
}

#[test]
fn cluster_offset_valid_at_start() {
    let data = [0x1F, 0x43, 0xB6, 0x75, 0xA3, 0xFF, 0xFF];
    assert_eq!(find_cluster_offset(&data), Some(0));
}

#[test]
fn cluster_offset_valid_with_prefix() {
    // Some data before the Cluster ID
    let mut data = vec![0x00, 0x00, 0x00, 0x00, 0x00];
    data.extend_from_slice(&[0x1F, 0x43, 0xB6, 0x75, 0xA3]);
    assert_eq!(find_cluster_offset(&data), Some(5));
}

#[test]
fn cluster_offset_false_positive_zero_vint() {
    // Cluster ID bytes followed by 0x00 (invalid VINT) — should be skipped
    let mut data = vec![0x1F, 0x43, 0xB6, 0x75, 0x00];
    // Then a real Cluster with valid VINT
    data.extend_from_slice(&[0x1F, 0x43, 0xB6, 0x75, 0x81]);
    assert_eq!(find_cluster_offset(&data), Some(5));
}

#[test]
fn cluster_offset_multiple_false_positives() {
    // Three false positives (VINT=0x00) then one real
    let mut data = Vec::new();
    for _ in 0..3 {
        data.extend_from_slice(&[0x1F, 0x43, 0xB6, 0x75, 0x00]);
    }
    data.extend_from_slice(&[0x1F, 0x43, 0xB6, 0x75, 0x42]);
    assert_eq!(find_cluster_offset(&data), Some(15));
}

#[test]
fn cluster_offset_no_cluster_in_random_data() {
    let data = vec![0x42; 1000];
    assert_eq!(find_cluster_offset(&data), None);
}

#[test]
fn cluster_offset_partial_cluster_id() {
    // Only 3 of 4 bytes of the Cluster ID
    let data = [0x1F, 0x43, 0xB6, 0x00, 0x00, 0x00, 0x00];
    assert_eq!(find_cluster_offset(&data), None);
}

#[test]
fn cluster_offset_all_vint_values_valid() {
    // Every non-zero VINT first byte should be accepted
    for vint in 1u8..=255 {
        let data = [0x1F, 0x43, 0xB6, 0x75, vint, 0x00];
        assert_eq!(
            find_cluster_offset(&data),
            Some(0),
            "VINT byte 0x{:02X} should be accepted",
            vint
        );
    }
}

#[test]
fn cluster_offset_embedded_in_large_data() {
    // 10KB of random-ish data with a Cluster in the middle
    let mut data = vec![0xAA; 5000];
    data.extend_from_slice(&[0x1F, 0x43, 0xB6, 0x75, 0x81]);
    data.extend_from_slice(&[0xBB; 5000]);
    assert_eq!(find_cluster_offset(&data), Some(5000));
}

#[test]
fn cluster_offset_at_end_with_vint() {
    // Cluster ID at the very end of data, just enough room for VINT
    let mut data = vec![0x00; 100];
    data.extend_from_slice(&[0x1F, 0x43, 0xB6, 0x75, 0x01]);
    assert_eq!(find_cluster_offset(&data), Some(100));
}

#[test]
fn cluster_offset_overlapping_bytes() {
    // Bytes that partially overlap with Cluster ID
    let data = [0x1F, 0x43, 0x1F, 0x43, 0xB6, 0x75, 0x81];
    assert_eq!(find_cluster_offset(&data), Some(2));
}

// =============================================
// MkvDemuxer::probe tests
// =============================================

#[test]
fn mkv_probe_valid_ebml() {
    assert!(MkvDemuxer::probe(&[0x1A, 0x45, 0xDF, 0xA3, 0x93, 0x42]));
}

#[test]
fn mkv_probe_empty() {
    assert!(!MkvDemuxer::probe(&[]));
}

#[test]
fn mkv_probe_too_short() {
    assert!(!MkvDemuxer::probe(&[0x1A, 0x45, 0xDF]));
}

#[test]
fn mkv_probe_wrong_magic() {
    assert!(!MkvDemuxer::probe(&[0x00, 0x00, 0x00, 0x00]));
}

#[test]
fn mkv_probe_mp4_magic() {
    // ftyp — should NOT match MKV
    assert!(!MkvDemuxer::probe(&[
        0x00, 0x00, 0x00, 0x1C, b'f', b't', b'y', b'p'
    ]));
}

#[test]
fn mkv_probe_exactly_4_bytes() {
    assert!(MkvDemuxer::probe(&[0x1A, 0x45, 0xDF, 0xA3]));
}

// =============================================
// map_video_codec tests
// =============================================

#[test]
fn map_video_codec_avc_with_config() {
    let config = vec![0x01, 0x64, 0x00, 0x1F]; // profile=100, compat=0, level=31
    let result = MkvDemuxer::map_video_codec("V_MPEG4/ISO/AVC", &Some(config));
    assert_eq!(result, "avc1.64001F");
}

#[test]
fn map_video_codec_avc_without_config() {
    let result = MkvDemuxer::map_video_codec("V_MPEG4/ISO/AVC", &None);
    assert_eq!(result, "avc1.640029");
}

#[test]
fn map_video_codec_avc_short_config() {
    let config = vec![0x01, 0x42]; // only 2 bytes — not enough
    let result = MkvDemuxer::map_video_codec("V_MPEG4/ISO/AVC", &Some(config));
    assert_eq!(result, "avc1.640029"); // fallback
}

#[test]
fn map_video_codec_hevc() {
    let result = MkvDemuxer::map_video_codec("V_MPEGH/ISO/HEVC", &None);
    assert_eq!(result, "hvc1.1.6.L93.B0");
}

#[test]
fn map_video_codec_vp8() {
    let result = MkvDemuxer::map_video_codec("V_VP8", &None);
    assert_eq!(result, "vp8");
}

#[test]
fn map_video_codec_vp9() {
    let result = MkvDemuxer::map_video_codec("V_VP9", &None);
    assert_eq!(result, "vp09.00.10.08");
}

#[test]
fn map_video_codec_av1() {
    let result = MkvDemuxer::map_video_codec("V_AV1", &None);
    assert_eq!(result, "av01.0.01M.08");
}

#[test]
fn map_video_codec_unknown() {
    let result = MkvDemuxer::map_video_codec("V_THEORA", &None);
    assert_eq!(result, "unknown:V_THEORA");
}

// =============================================
// map_audio_codec tests
// =============================================

#[test]
fn map_audio_codec_aac() {
    assert_eq!(MkvDemuxer::map_audio_codec("A_AAC"), "mp4a.40.2");
}

#[test]
fn map_audio_codec_aac_mpeg2_lc() {
    assert_eq!(MkvDemuxer::map_audio_codec("A_AAC/MPEG2/LC"), "mp4a.40.2");
}

#[test]
fn map_audio_codec_aac_mpeg4_lc() {
    assert_eq!(MkvDemuxer::map_audio_codec("A_AAC/MPEG4/LC"), "mp4a.40.2");
}

#[test]
fn map_audio_codec_aac_sbr() {
    assert_eq!(MkvDemuxer::map_audio_codec("A_AAC/MPEG4/SBR"), "mp4a.40.5");
}

#[test]
fn map_audio_codec_opus() {
    assert_eq!(MkvDemuxer::map_audio_codec("A_OPUS"), "opus");
}

#[test]
fn map_audio_codec_vorbis() {
    assert_eq!(MkvDemuxer::map_audio_codec("A_VORBIS"), "vorbis");
}

#[test]
fn map_audio_codec_flac() {
    assert_eq!(MkvDemuxer::map_audio_codec("A_FLAC"), "flac");
}

#[test]
fn map_audio_codec_ac3() {
    assert_eq!(MkvDemuxer::map_audio_codec("A_AC3"), "ac-3");
}

#[test]
fn map_audio_codec_eac3() {
    assert_eq!(MkvDemuxer::map_audio_codec("A_EAC3"), "ec-3");
}

#[test]
fn map_audio_codec_unknown() {
    assert_eq!(MkvDemuxer::map_audio_codec("A_DTS"), "unknown:A_DTS");
}

// =============================================
// MkvDemuxer state tests
// =============================================

#[test]
fn mkv_demuxer_initial_state() {
    let d = MkvDemuxer::new();
    assert_eq!(d.frames_read(), 0);
    assert!(d.mkv.is_none());
    assert!(d.media_info.is_none());
}

#[test]
fn mkv_demuxer_next_chunk_without_parse_errors() {
    let mut d = MkvDemuxer::new();
    let result = d.next_chunk();
    assert!(result.is_err());
    match result.unwrap_err() {
        DemuxError::InvalidData(msg) => assert!(msg.contains("No header parsed")),
        other => panic!("Expected InvalidData, got: {:?}", other),
    }
}

#[test]
fn mkv_demuxer_seek_without_parse_errors() {
    let mut d = MkvDemuxer::new();
    let result = d.seek_to_keyframe(0);
    assert!(result.is_err());
    match result.unwrap_err() {
        DemuxError::InvalidData(msg) => assert!(msg.contains("No header parsed")),
        other => panic!("Expected InvalidData, got: {:?}", other),
    }
}

#[test]
fn mkv_demuxer_skip_frames_without_parse_errors() {
    let mut d = MkvDemuxer::new();
    let result = d.skip_frames(10);
    assert!(result.is_err());
}

#[test]
fn mkv_demuxer_skip_zero_frames_without_parse() {
    let mut d = MkvDemuxer::new();
    // skip_frames(0) should still error because mkv is None
    let result = d.skip_frames(0);
    assert!(result.is_err());
}

// =============================================
// parse_ebml_vint tests
// =============================================

#[test]
fn vint_empty_data() {
    assert!(parse_ebml_vint(&[]).is_none());
}

#[test]
fn vint_zero_byte() {
    assert!(parse_ebml_vint(&[0x00]).is_none());
}

#[test]
fn vint_1_byte() {
    // 0x81 = 1_0000001 → width=1, value=1
    let (val, len) = parse_ebml_vint(&[0x81]).unwrap();
    assert_eq!(len, 1);
    assert_eq!(val, 1);
}

#[test]
fn vint_1_byte_max() {
    // 0xFE = 1_1111110 → width=1, value=126
    let (val, len) = parse_ebml_vint(&[0xFE]).unwrap();
    assert_eq!(len, 1);
    assert_eq!(val, 126);
}

#[test]
fn vint_2_bytes() {
    // 0x40 0x02 = 01_000000 00000010 → width=2, value=2
    let (val, len) = parse_ebml_vint(&[0x40, 0x02]).unwrap();
    assert_eq!(len, 2);
    assert_eq!(val, 2);
}

#[test]
fn vint_2_bytes_truncated() {
    // Only 1 byte but width=2 → None
    assert!(parse_ebml_vint(&[0x40]).is_none());
}

#[test]
fn vint_3_bytes() {
    // 0x20 0x00 0x05 = 001_00000 00000000 00000101 → width=3, value=5
    let (val, len) = parse_ebml_vint(&[0x20, 0x00, 0x05]).unwrap();
    assert_eq!(len, 3);
    assert_eq!(val, 5);
}

#[test]
fn vint_4_bytes() {
    // 0x10 0x00 0x00 0x0A → width=4, value=10
    let (val, len) = parse_ebml_vint(&[0x10, 0x00, 0x00, 0x0A]).unwrap();
    assert_eq!(len, 4);
    assert_eq!(val, 10);
}

// =============================================
// find_cluster_timestamp tests
// =============================================

#[test]
fn cluster_timestamp_not_found() {
    assert!(find_cluster_timestamp(&[]).is_none());
    assert!(find_cluster_timestamp(&[0x00, 0x01]).is_none());
}

#[test]
fn cluster_timestamp_simple() {
    // Timestamp element: ID=0xE7, size=0x82 (VINT for 2), value=0x01F4 (500)
    let data = [0xE7, 0x82, 0x01, 0xF4];
    let ts = find_cluster_timestamp(&data).unwrap();
    assert_eq!(ts, 500);
}

#[test]
fn cluster_timestamp_zero() {
    // Timestamp = 0
    let data = [0xE7, 0x81, 0x00];
    let ts = find_cluster_timestamp(&data).unwrap();
    assert_eq!(ts, 0);
}

#[test]
fn cluster_timestamp_1_byte_value() {
    // Timestamp = 42
    let data = [0xE7, 0x81, 0x2A];
    let ts = find_cluster_timestamp(&data).unwrap();
    assert_eq!(ts, 42);
}

#[test]
fn cluster_timestamp_truncated() {
    // Timestamp element with size=2 but only 1 byte of value
    let data = [0xE7, 0x82, 0x01];
    assert!(find_cluster_timestamp(&data).is_none());
}

// =============================================
// scan_clusters_for_seek_index tests
// =============================================

/// Build a minimal MKV Cluster with a timestamp element.
fn make_cluster(timestamp: u16, content_extra: usize) -> Vec<u8> {
    let mut data = Vec::new();
    // Cluster ID
    data.extend_from_slice(&[0x1F, 0x43, 0xB6, 0x75]);
    // Cluster size: Timestamp element (4 bytes) + extra content
    let content_size = 4 + content_extra;
    data.push(0x80 | content_size as u8); // VINT 1-byte size
                                          // Timestamp element: ID=0xE7, size=0x82 (2 bytes), value
    data.push(0xE7);
    data.push(0x82);
    data.extend_from_slice(&timestamp.to_be_bytes());
    // Extra content (filler)
    data.extend(vec![0x00; content_extra]);
    data
}

#[test]
fn scan_clusters_empty_data() {
    let idx = MkvDemuxer::scan_clusters_for_seek_index(&[], 1_000_000, 0);
    assert!(idx.is_empty());
}

#[test]
fn scan_clusters_no_clusters() {
    let data = vec![0x00; 100];
    let idx = MkvDemuxer::scan_clusters_for_seek_index(&data, 1_000_000, 0);
    assert!(idx.is_empty());
}

#[test]
fn scan_clusters_single_cluster() {
    let data = make_cluster(0, 10);
    // timestamp_scale = 1_000_000 ns (1ms)
    let idx = MkvDemuxer::scan_clusters_for_seek_index(&data, 1_000_000, 0);
    assert_eq!(idx.len(), 1);
    assert_eq!(idx.entries[0].timestamp_us, 0);
    assert_eq!(idx.entries[0].byte_offset, 0);
}

#[test]
fn scan_clusters_multiple_clusters() {
    let mut data = Vec::new();
    // Cluster at timestamp 0
    data.extend(make_cluster(0, 10));
    let offset1 = data.len();
    // Cluster at timestamp 1000 (1s with 1ms scale)
    data.extend(make_cluster(1000, 10));
    let offset2 = data.len();
    // Cluster at timestamp 2000
    data.extend(make_cluster(2000, 10));

    // timestamp_scale = 1_000_000 ns (1ms) → timestamp 1000 = 1_000_000 us
    let idx = MkvDemuxer::scan_clusters_for_seek_index(&data, 1_000_000, 0);
    assert_eq!(idx.len(), 3);
    assert_eq!(idx.entries[0].timestamp_us, 0);
    assert_eq!(idx.entries[0].byte_offset, 0);
    assert_eq!(idx.entries[1].timestamp_us, 1_000_000);
    assert_eq!(idx.entries[1].byte_offset, offset1 as u64);
    assert_eq!(idx.entries[2].timestamp_us, 2_000_000);
    assert_eq!(idx.entries[2].byte_offset, offset2 as u64);
}

#[test]
fn scan_clusters_with_prefix_data() {
    // Some non-cluster data before the first cluster
    let mut data = vec![0x00; 50];
    data.extend(make_cluster(42, 5));
    let idx = MkvDemuxer::scan_clusters_for_seek_index(&data, 1_000_000, 0);
    assert_eq!(idx.len(), 1);
    assert_eq!(idx.entries[0].byte_offset, 50);
    // timestamp 42 * scale 1_000_000ns / 1_000 = 42_000 us
    assert_eq!(idx.entries[0].timestamp_us, 42_000);
}

#[test]
fn scan_clusters_timestamp_scale_conversion() {
    let data = make_cluster(500, 5);
    // Default MKV timestamp_scale = 1_000_000 ns (1ms)
    // Cluster timestamp = 500 → 500 * 1_000_000 / 1_000 = 500_000 us
    let idx = MkvDemuxer::scan_clusters_for_seek_index(&data, 1_000_000, 0);
    assert_eq!(idx.entries[0].timestamp_us, 500_000);
}

#[test]
fn mkv_demuxer_build_seek_index_without_parse() {
    let d = MkvDemuxer::new();
    let idx = d.build_seek_index();
    assert!(idx.is_empty());
}

// =============================================
// decode_ebml_vint (MkvDemuxer impl) tests
// =============================================

#[test]
fn demuxer_vint_empty() {
    assert_eq!(MkvDemuxer::decode_ebml_vint(&[]), (0, 0));
}

#[test]
fn demuxer_vint_zero_byte() {
    assert_eq!(MkvDemuxer::decode_ebml_vint(&[0x00]), (0, 0));
}

#[test]
fn demuxer_vint_1_byte_min() {
    // 0x80 = 1_0000000 → len=1, value=0 (marker bit stripped)
    assert_eq!(MkvDemuxer::decode_ebml_vint(&[0x80]), (1, 0));
}

#[test]
fn demuxer_vint_1_byte_value() {
    // 0x8F = 1_0001111 → len=1, value=15
    assert_eq!(MkvDemuxer::decode_ebml_vint(&[0x8F]), (1, 15));
}

#[test]
fn demuxer_vint_1_byte_max() {
    // 0xFE = 1_1111110 → len=1, value=126
    assert_eq!(MkvDemuxer::decode_ebml_vint(&[0xFE]), (1, 126));
}

#[test]
fn demuxer_vint_2_byte() {
    // 0x40 0x80 = 01_000000 10000000 → len=2, value=128
    assert_eq!(MkvDemuxer::decode_ebml_vint(&[0x40, 0x80]), (2, 128));
}

#[test]
fn demuxer_vint_2_byte_real_seekhead() {
    // Real SeekHead VINT from test MKV: 0x4F = 01_001111 → len=2?
    // Actually 0x4F has bit6 set (0x40) → len=2, needs 2 bytes
    // But if we only have 1 byte → (0, 0)
    assert_eq!(MkvDemuxer::decode_ebml_vint(&[0x4F]), (0, 0));
    // With second byte: 0x4F 0x00 = 01_001111 00000000 → value = 0x0F00 = 3840
    assert_eq!(MkvDemuxer::decode_ebml_vint(&[0x4F, 0x00]), (2, 0x0F00));
}

#[test]
fn demuxer_vint_1_byte_cf() {
    // 0xCF from real SeekHead = 1_1001111 → len=1, value=0x4F = 79
    assert_eq!(MkvDemuxer::decode_ebml_vint(&[0xCF]), (1, 79));
}

#[test]
fn demuxer_vint_3_byte() {
    // 0x20 0x01 0x00 → len=3, value=256
    assert_eq!(MkvDemuxer::decode_ebml_vint(&[0x20, 0x01, 0x00]), (3, 256));
}

#[test]
fn demuxer_vint_4_byte() {
    // 0x10 0x00 0x01 0x00 → len=4, value=256
    assert_eq!(
        MkvDemuxer::decode_ebml_vint(&[0x10, 0x00, 0x01, 0x00]),
        (4, 256)
    );
}

#[test]
fn demuxer_vint_truncated() {
    // 0x20 needs 3 bytes but only 2 provided
    assert_eq!(MkvDemuxer::decode_ebml_vint(&[0x20, 0x00]), (0, 0));
}

#[test]
fn demuxer_vint_8_byte() {
    // 0x01 + 7 zero bytes → len=8, value=0
    let data = [0x01, 0x00, 0x00, 0x00, 0x00, 0x00, 0x00, 0x00];
    assert_eq!(MkvDemuxer::decode_ebml_vint(&data), (8, 0));
}

#[test]
fn demuxer_vint_8_byte_with_value() {
    // 0x01 0x00 0x00 0x00 0x00 0x00 0x00 0x01 → len=8, value=1
    let data = [0x01, 0x00, 0x00, 0x00, 0x00, 0x00, 0x00, 0x01];
    assert_eq!(MkvDemuxer::decode_ebml_vint(&data), (8, 1));
}

// =============================================
// neutralize_seekhead tests
// =============================================

/// Build a minimal EBML header + SeekHead for testing.
/// Returns (data, seekhead_offset, seekhead_total_size)
fn make_ebml_with_seekhead(seekhead_data_size: u8) -> (Vec<u8>, usize, usize) {
    let mut data = Vec::new();
    // EBML header (simplified — just the magic)
    data.extend_from_slice(&[0x1A, 0x45, 0xDF, 0xA3]);
    // Some padding to simulate EBML header content
    data.extend_from_slice(&[0x93, 0x42, 0x86, 0x81, 0x01]);
    // More padding
    data.extend(vec![0x42; 30]);

    let seekhead_offset = data.len();
    // SeekHead ID: 0x11 0x4D 0x9B 0x74
    data.extend_from_slice(&[0x11, 0x4D, 0x9B, 0x74]);
    // VINT size (1-byte): 0x80 | size
    data.push(0x80 | seekhead_data_size);
    // SeekHead data
    data.extend(vec![0xAA; seekhead_data_size as usize]);

    let total_size = 4 + 1 + seekhead_data_size as usize;
    // Some data after (Info/Tracks elements)
    data.extend_from_slice(&[0x15, 0x49, 0xA9, 0x66]); // Info element ID
    data.extend(vec![0xBB; 20]);

    (data, seekhead_offset, total_size)
}

#[test]
fn neutralize_seekhead_zeros_entire_element() {
    let (mut data, offset, total_size) = make_ebml_with_seekhead(20);
    let data_after_seekhead = data[offset + total_size..offset + total_size + 4].to_vec();

    MkvDemuxer::neutralize_seekhead(&mut data);

    // SeekHead region should be all zeros
    for i in offset..offset + total_size {
        assert_eq!(data[i], 0x00, "byte at {} should be zero", i);
    }
    // Data AFTER SeekHead should be untouched
    assert_eq!(
        &data[offset + total_size..offset + total_size + 4],
        &data_after_seekhead,
        "bytes after SeekHead should be untouched"
    );
}

#[test]
fn neutralize_seekhead_no_seekhead() {
    // Data without any SeekHead — should be unchanged
    let mut data = vec![0x1A, 0x45, 0xDF, 0xA3, 0x93, 0x42, 0x86, 0x81];
    data.extend(vec![0xFF; 100]);
    let original = data.clone();
    MkvDemuxer::neutralize_seekhead(&mut data);
    assert_eq!(data, original);
}

#[test]
fn neutralize_seekhead_at_very_start() {
    // SeekHead right at byte 0
    let mut data = vec![0x11, 0x4D, 0x9B, 0x74, 0x85]; // ID + VINT (size=5)
    data.extend(vec![0xAA; 5]); // 5 bytes of SeekHead data
    data.extend(vec![0xBB; 10]); // data after

    MkvDemuxer::neutralize_seekhead(&mut data);

    // First 10 bytes (4 ID + 1 VINT + 5 data) should be zero
    for i in 0..10 {
        assert_eq!(data[i], 0x00);
    }
    // Rest should be untouched
    for i in 10..20 {
        assert_eq!(data[i], 0xBB);
    }
}

#[test]
fn neutralize_seekhead_real_world_size() {
    // Real MKV SeekHead: 0xCF = VINT for 79 bytes data
    // Total: 4 (ID) + 1 (VINT) + 79 (data) = 84 bytes
    let mut data = vec![0x00; 0x2E]; // offset 0x2E like real file
    data.extend_from_slice(&[0x11, 0x4D, 0x9B, 0x74]); // SeekHead ID
    data.push(0xCF); // VINT = 79
    data.extend(vec![0xAA; 79]); // SeekHead data
    data.extend(vec![0xBB; 50]); // data after

    let seekhead_start = 0x2E;
    MkvDemuxer::neutralize_seekhead(&mut data);

    for i in seekhead_start..seekhead_start + 84 {
        assert_eq!(data[i], 0x00, "byte at 0x{:02X} should be zero", i);
    }
    // Verify data after is untouched
    assert_eq!(data[seekhead_start + 84], 0xBB);
}

#[test]
fn neutralize_seekhead_truncated_at_id() {
    // SeekHead ID right at the end of data, no VINT
    let mut data = vec![0x00; 10];
    data.extend_from_slice(&[0x11, 0x4D, 0x9B, 0x74]);

    MkvDemuxer::neutralize_seekhead(&mut data);

    // ID should be zeroed
    for i in 10..14 {
        assert_eq!(data[i], 0x00);
    }
}

#[test]
fn neutralize_seekhead_truncated_data() {
    // SeekHead claims 50 bytes but data ends before that
    let mut data = vec![0x00; 5];
    data.extend_from_slice(&[0x11, 0x4D, 0x9B, 0x74]); // ID at offset 5
    data.push(0xB2); // VINT = 50
    data.extend(vec![0xAA; 10]); // Only 10 bytes, not 50

    MkvDemuxer::neutralize_seekhead(&mut data);

    // Should zero from offset 5 to end of data
    for i in 5..data.len() {
        assert_eq!(data[i], 0x00, "byte at {} should be zero", i);
    }
}

#[test]
fn neutralize_seekhead_beyond_search_limit() {
    // SeekHead at offset 260 — beyond the 256-byte search limit
    let mut data = vec![0x00; 260];
    data.extend_from_slice(&[0x11, 0x4D, 0x9B, 0x74, 0x85]);
    data.extend(vec![0xAA; 5]);
    let original = data.clone();

    MkvDemuxer::neutralize_seekhead(&mut data);

    // Should NOT be neutralized (beyond search limit)
    assert_eq!(data, original);
}

// =============================================
// parse_header_streaming tests
// =============================================

#[test]
fn parse_header_streaming_invalid_data() {
    let mut d = MkvDemuxer::new();
    let result = d.parse_header_streaming(&[0x00; 100]);
    assert!(result.is_err());
}

#[test]
fn parse_header_streaming_empty() {
    let mut d = MkvDemuxer::new();
    let result = d.parse_header_streaming(&[]);
    assert!(result.is_err());
}

// =============================================
// Codec string mapping — edge cases
// =============================================

#[test]
fn map_video_codec_avc_exact_4_bytes() {
    // Minimum viable codec_private: exactly 4 bytes
    let config = vec![0x01, 0x42, 0xC0, 0x1E]; // Baseline, level 3.0
    let result = MkvDemuxer::map_video_codec("V_MPEG4/ISO/AVC", &Some(config));
    assert_eq!(result, "avc1.42C01E");
}

#[test]
fn map_video_codec_avc_empty_config() {
    let result = MkvDemuxer::map_video_codec("V_MPEG4/ISO/AVC", &Some(vec![]));
    assert_eq!(result, "avc1.640029"); // fallback
}

#[test]
fn map_video_codec_avc_high_profile() {
    // High Profile, Level 4.0
    let config = vec![0x01, 0x64, 0x00, 0x28, 0xFF, 0xE1]; // extra bytes OK
    let result = MkvDemuxer::map_video_codec("V_MPEG4/ISO/AVC", &Some(config));
    assert_eq!(result, "avc1.640028");
}

#[test]
fn map_audio_codec_all_aac_variants() {
    // Verify all AAC Matroska codec IDs map correctly
    assert_eq!(MkvDemuxer::map_audio_codec("A_AAC"), "mp4a.40.2");
    assert_eq!(MkvDemuxer::map_audio_codec("A_AAC/MPEG2/LC"), "mp4a.40.2");
    assert_eq!(MkvDemuxer::map_audio_codec("A_AAC/MPEG4/LC"), "mp4a.40.2");
    assert_eq!(MkvDemuxer::map_audio_codec("A_AAC/MPEG4/SBR"), "mp4a.40.5");
}

#[test]
fn map_audio_codec_ac3_vs_eac3() {
    // AC-3 and E-AC-3 have distinct WebCodecs codec strings
    assert_eq!(MkvDemuxer::map_audio_codec("A_AC3"), "ac-3");
    assert_eq!(MkvDemuxer::map_audio_codec("A_EAC3"), "ec-3");
}

#[test]
fn map_audio_codec_dts_is_unknown() {
    assert_eq!(MkvDemuxer::map_audio_codec("A_DTS"), "unknown:A_DTS");
    assert_eq!(
        MkvDemuxer::map_audio_codec("A_DTS/EXPRESS"),
        "unknown:A_DTS/EXPRESS"
    );
}

#[test]
fn map_audio_codec_truehd_is_unknown() {
    assert_eq!(MkvDemuxer::map_audio_codec("A_TRUEHD"), "unknown:A_TRUEHD");
}
