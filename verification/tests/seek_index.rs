use web_player::demux::types::{SeekEntry, SeekIndex};

fn make_entries(timestamps_offsets: &[(i64, u64)]) -> Vec<SeekEntry> {
    timestamps_offsets
        .iter()
        .map(|&(ts, off)| SeekEntry {
            timestamp_us: ts,
            byte_offset: off,
        })
        .collect()
}

// =============================================
// SeekIndex construction
// =============================================

#[test]
fn seek_index_empty() {
    let idx = SeekIndex::new();
    assert!(idx.is_empty());
    assert_eq!(idx.len(), 0);
    assert!(idx.first().is_none());
    assert!(idx.last().is_none());
}

#[test]
fn seek_index_from_entries_sorts() {
    // Out of order entries should be sorted by timestamp
    let entries = make_entries(&[(3_000_000, 300), (1_000_000, 100), (2_000_000, 200)]);
    let idx = SeekIndex::from_entries(entries);
    assert_eq!(idx.len(), 3);
    assert_eq!(idx.entries[0].timestamp_us, 1_000_000);
    assert_eq!(idx.entries[1].timestamp_us, 2_000_000);
    assert_eq!(idx.entries[2].timestamp_us, 3_000_000);
}

#[test]
fn seek_index_first_last() {
    let entries = make_entries(&[(1_000_000, 100), (5_000_000, 500)]);
    let idx = SeekIndex::from_entries(entries);
    assert_eq!(idx.first().unwrap().timestamp_us, 1_000_000);
    assert_eq!(idx.last().unwrap().timestamp_us, 5_000_000);
}

// =============================================
// SeekIndex::lookup_keyframe
// =============================================

#[test]
fn lookup_empty_index() {
    let idx = SeekIndex::new();
    assert!(idx.lookup_keyframe(0).is_none());
    assert!(idx.lookup_keyframe(1_000_000).is_none());
}

#[test]
fn lookup_single_entry_exact() {
    let entries = make_entries(&[(2_000_000, 200)]);
    let idx = SeekIndex::from_entries(entries);
    let result = idx.lookup_keyframe(2_000_000).unwrap();
    assert_eq!(result.timestamp_us, 2_000_000);
    assert_eq!(result.byte_offset, 200);
}

#[test]
fn lookup_single_entry_before() {
    let entries = make_entries(&[(2_000_000, 200)]);
    let idx = SeekIndex::from_entries(entries);
    // Before the only entry → None
    assert!(idx.lookup_keyframe(1_000_000).is_none());
}

#[test]
fn lookup_single_entry_after() {
    let entries = make_entries(&[(2_000_000, 200)]);
    let idx = SeekIndex::from_entries(entries);
    // After the only entry → returns it
    let result = idx.lookup_keyframe(5_000_000).unwrap();
    assert_eq!(result.timestamp_us, 2_000_000);
}

#[test]
fn lookup_exact_match() {
    let entries = make_entries(&[
        (0, 0),
        (2_000_000, 200),
        (4_000_000, 400),
        (6_000_000, 600),
    ]);
    let idx = SeekIndex::from_entries(entries);
    let result = idx.lookup_keyframe(4_000_000).unwrap();
    assert_eq!(result.timestamp_us, 4_000_000);
    assert_eq!(result.byte_offset, 400);
}

#[test]
fn lookup_between_entries_returns_previous() {
    let entries = make_entries(&[
        (0, 0),
        (2_000_000, 200),
        (4_000_000, 400),
        (6_000_000, 600),
    ]);
    let idx = SeekIndex::from_entries(entries);

    // Between 2s and 4s → returns 2s entry
    let result = idx.lookup_keyframe(3_000_000).unwrap();
    assert_eq!(result.timestamp_us, 2_000_000);
    assert_eq!(result.byte_offset, 200);
}

#[test]
fn lookup_before_first_entry() {
    let entries = make_entries(&[(1_000_000, 100), (3_000_000, 300)]);
    let idx = SeekIndex::from_entries(entries);
    assert!(idx.lookup_keyframe(500_000).is_none());
}

#[test]
fn lookup_at_zero() {
    let entries = make_entries(&[(0, 0), (2_000_000, 200)]);
    let idx = SeekIndex::from_entries(entries);
    let result = idx.lookup_keyframe(0).unwrap();
    assert_eq!(result.timestamp_us, 0);
    assert_eq!(result.byte_offset, 0);
}

#[test]
fn lookup_beyond_last_entry() {
    let entries = make_entries(&[(0, 0), (2_000_000, 200), (4_000_000, 400)]);
    let idx = SeekIndex::from_entries(entries);
    // Way past last entry → returns last
    let result = idx.lookup_keyframe(100_000_000).unwrap();
    assert_eq!(result.timestamp_us, 4_000_000);
}

#[test]
fn lookup_just_before_second_entry() {
    let entries = make_entries(&[(0, 0), (2_000_000, 200)]);
    let idx = SeekIndex::from_entries(entries);
    let result = idx.lookup_keyframe(1_999_999).unwrap();
    assert_eq!(result.timestamp_us, 0);
}

#[test]
fn lookup_negative_timestamp() {
    let entries = make_entries(&[(0, 0), (2_000_000, 200)]);
    let idx = SeekIndex::from_entries(entries);
    assert!(idx.lookup_keyframe(-1).is_none());
}

#[test]
fn lookup_many_entries() {
    // 100 keyframes every 2 seconds
    let entries: Vec<SeekEntry> = (0..100)
        .map(|i| SeekEntry {
            timestamp_us: i * 2_000_000,
            byte_offset: i as u64 * 50_000,
        })
        .collect();
    let idx = SeekIndex::from_entries(entries);
    assert_eq!(idx.len(), 100);

    // Seek to 55s → should return 54s keyframe (entry 27)
    let result = idx.lookup_keyframe(55_000_000).unwrap();
    assert_eq!(result.timestamp_us, 54_000_000);
    assert_eq!(result.byte_offset, 27 * 50_000);
}

#[test]
fn seek_entry_equality() {
    let a = SeekEntry { timestamp_us: 100, byte_offset: 200 };
    let b = SeekEntry { timestamp_us: 100, byte_offset: 200 };
    let c = SeekEntry { timestamp_us: 100, byte_offset: 300 };
    assert_eq!(a, b);
    assert_ne!(a, c);
}

#[test]
fn merge_with_nothing_sorts() {
    let at = |t: i64, o: u64| SeekEntry { timestamp_us: t, byte_offset: o };
    let mut idx = SeekIndex::from_entries(vec![at(1, 30), at(2, 10), at(3, 30)]);
    idx.merge(SeekIndex::new());
    let offsets: Vec<u64> = idx.entries.iter().map(|e| e.byte_offset).collect();
    assert_eq!(offsets, vec![10, 30]);
    assert_eq!(idx.entries[1], at(1, 30));
}
