use web_player::player::buffer::RangeBuffer;

// =============================================
// RangeBuffer construction
// =============================================

#[test]
fn new_buffer_is_empty() {
    let buf = RangeBuffer::new(1000);
    assert_eq!(buf.total_bytes(), 0);
    assert_eq!(buf.segment_count(), 0);
    assert_eq!(buf.file_size, 1000);
}

// =============================================
// insert + has_range
// =============================================

#[test]
fn insert_single_segment() {
    let mut buf = RangeBuffer::new(1000);
    buf.insert(0, vec![1, 2, 3, 4, 5]);
    assert_eq!(buf.total_bytes(), 5);
    assert_eq!(buf.segment_count(), 1);
    assert!(buf.has_range(0, 5));
    assert!(!buf.has_range(0, 6));
}

#[test]
fn insert_non_overlapping_segments() {
    let mut buf = RangeBuffer::new(1000);
    buf.insert(0, vec![1, 2, 3]);
    buf.insert(10, vec![4, 5, 6]);
    assert_eq!(buf.segment_count(), 2);
    assert!(buf.has_range(0, 3));
    assert!(buf.has_range(10, 13));
    assert!(!buf.has_range(0, 13)); // gap between 3 and 10
}

#[test]
fn insert_adjacent_segments_merge() {
    let mut buf = RangeBuffer::new(1000);
    buf.insert(0, vec![1, 2, 3]);
    buf.insert(3, vec![4, 5, 6]);
    assert_eq!(buf.segment_count(), 1);
    assert_eq!(buf.total_bytes(), 6);
    assert!(buf.has_range(0, 6));
}

#[test]
fn insert_overlapping_segments_merge() {
    let mut buf = RangeBuffer::new(1000);
    buf.insert(0, vec![1, 2, 3, 4, 5]);
    buf.insert(3, vec![6, 7, 8]);
    assert_eq!(buf.segment_count(), 1);
    assert_eq!(buf.total_bytes(), 6); // 0..6
    assert!(buf.has_range(0, 6));
}

#[test]
fn insert_fully_contained_segment() {
    let mut buf = RangeBuffer::new(1000);
    buf.insert(0, vec![1, 2, 3, 4, 5]);
    buf.insert(1, vec![9, 9]); // fully inside [0..5]
    assert_eq!(buf.segment_count(), 1);
    assert_eq!(buf.total_bytes(), 5); // no growth
}

#[test]
fn insert_three_segments_merge_cascade() {
    let mut buf = RangeBuffer::new(1000);
    buf.insert(0, vec![1, 2, 3]);
    buf.insert(6, vec![7, 8, 9]);
    assert_eq!(buf.segment_count(), 2);
    // Insert bridging segment
    buf.insert(3, vec![4, 5, 6]);
    assert_eq!(buf.segment_count(), 1);
    assert_eq!(buf.total_bytes(), 9);
    assert!(buf.has_range(0, 9));
}

#[test]
fn insert_empty_data_noop() {
    let mut buf = RangeBuffer::new(1000);
    buf.insert(0, vec![]);
    assert_eq!(buf.segment_count(), 0);
}

// =============================================
// get_contiguous_from
// =============================================

#[test]
fn get_contiguous_from_start() {
    let mut buf = RangeBuffer::new(1000);
    buf.insert(10, vec![0xAA, 0xBB, 0xCC, 0xDD]);
    let data = buf.get_contiguous_from(10).unwrap();
    assert_eq!(data, &[0xAA, 0xBB, 0xCC, 0xDD]);
}

#[test]
fn get_contiguous_from_middle() {
    let mut buf = RangeBuffer::new(1000);
    buf.insert(10, vec![0xAA, 0xBB, 0xCC, 0xDD]);
    let data = buf.get_contiguous_from(12).unwrap();
    assert_eq!(data, &[0xCC, 0xDD]);
}

#[test]
fn get_contiguous_from_no_data() {
    let mut buf = RangeBuffer::new(1000);
    buf.insert(10, vec![0xAA, 0xBB]);
    assert!(buf.get_contiguous_from(5).is_none());
    assert!(buf.get_contiguous_from(12).is_none());
}

// =============================================
// get_range
// =============================================

#[test]
fn get_range_exact() {
    let mut buf = RangeBuffer::new(1000);
    buf.insert(100, vec![1, 2, 3, 4, 5]);
    let data = buf.get_range(101, 104).unwrap();
    assert_eq!(data, vec![2, 3, 4]);
}

#[test]
fn get_range_missing() {
    let mut buf = RangeBuffer::new(1000);
    buf.insert(100, vec![1, 2, 3]);
    assert!(buf.get_range(100, 110).is_none()); // extends beyond segment
}

#[test]
fn get_range_empty() {
    let buf = RangeBuffer::new(1000);
    let data = buf.get_range(0, 0).unwrap();
    assert!(data.is_empty());
}

// =============================================
// contiguous_bytes_from
// =============================================

#[test]
fn contiguous_bytes_from_start() {
    let mut buf = RangeBuffer::new(1000);
    buf.insert(0, vec![0; 100]);
    assert_eq!(buf.contiguous_bytes_from(0), 100);
    assert_eq!(buf.contiguous_bytes_from(50), 50);
    assert_eq!(buf.contiguous_bytes_from(100), 0);
}

#[test]
fn contiguous_bytes_from_gap() {
    let mut buf = RangeBuffer::new(1000);
    buf.insert(100, vec![0; 50]);
    assert_eq!(buf.contiguous_bytes_from(0), 0);
    assert_eq!(buf.contiguous_bytes_from(100), 50);
}

// =============================================
// eviction
// =============================================

#[test]
fn eviction_removes_oldest_segments() {
    let mut buf = RangeBuffer::new(10000);
    buf.max_bytes = 100; // very small limit

    // Insert segments totaling 150 bytes
    buf.insert(0, vec![0; 50]);
    buf.insert(100, vec![0; 50]);
    buf.insert(200, vec![0; 50]);

    // After eviction, oldest segment should be removed
    assert!(buf.total_bytes() <= 100);
    // The first segment (offset=0) should have been evicted
    assert!(buf.get_contiguous_from(0).is_none());
    // Latest segments should still be there
    assert!(buf.get_contiguous_from(200).is_some());
}

// =============================================
// clear
// =============================================

#[test]
fn clear_removes_everything() {
    let mut buf = RangeBuffer::new(1000);
    buf.insert(0, vec![1, 2, 3]);
    buf.insert(100, vec![4, 5, 6]);
    buf.clear();
    assert_eq!(buf.total_bytes(), 0);
    assert_eq!(buf.segment_count(), 0);
}

// =============================================
// has_range edge cases
// =============================================

#[test]
fn has_range_start_equals_end() {
    let buf = RangeBuffer::new(1000);
    assert!(buf.has_range(5, 5)); // empty range
}

#[test]
fn has_range_start_greater_than_end() {
    let buf = RangeBuffer::new(1000);
    assert!(buf.has_range(10, 5)); // inverted range = empty
}
