//! Buffers for streaming.

use vstd::prelude::*;

verus! {

/// Configuration for streaming buffer management.
#[derive(Debug, Clone, Copy, PartialEq, Eq, Structural)]
pub struct BufferConfig {
    /// Maximum chunks to feed to decoders per tick. Default: 8
    pub decode_batch_size: usize,
    /// Maximum download rate in bytes/sec. 0 = unlimited. Default: 0
    pub max_download_rate: u64,
    /// Pause download when the decoded video frame queue exceeds this. Default: 120
    pub max_video_queue: usize,
    /// Resume download when the video frame queue drops below this. Default: 30
    pub resume_video_queue: usize,
    /// Minimum demuxed chunk queue size before trying to demux more. Default: 24
    pub min_chunk_queue: usize,
    /// Number of chunks to demux in one batch. Default: 32
    pub demux_batch_size: usize,
}

/// The configuration that a player starts with.
pub open spec fn default_config() -> BufferConfig {
    BufferConfig {
        decode_batch_size: 8,
        max_download_rate: 0,
        max_video_queue: 120,
        resume_video_queue: 30,
        min_chunk_queue: 24,
        demux_batch_size: 32,
    }
}

impl BufferConfig {
    /// The configuration that a player starts with.
    pub fn new() -> (r: Self)
        ensures
            r == default_config(),
    {
        BufferConfig {
            decode_batch_size: 8,
            max_download_rate: 0,
            max_video_queue: 120,
            resume_video_queue: 30,
            min_chunk_queue: 24,
            demux_batch_size: 32,
        }
    }
}

impl Default for BufferConfig {
    fn default() -> (r: Self)
        ensures
            r == default_config(),
    {
        BufferConfig::new()
    }
}

/// Download state: written by the download task, read by the player.
pub struct SharedDownload {
    pub data: Vec<u8>,
    pub content_length: u64,
    pub complete: bool,
    pub error: Option<String>,
    /// Back-pressure flag: signals download task to pause.
    pub paused: bool,
    /// Cancellation flag: signals background download task to stop permanently.
    pub cancelled: bool,
}

impl SharedDownload {
    /// A download that has not begun.
    pub fn new() -> (r: Self)
        ensures
            r.data@ == Seq::<u8>::empty(),
            r.content_length == 0,
            !r.complete,
            r.error is None,
            !r.paused,
            !r.cancelled,
    {
        SharedDownload {
            data: Vec::new(),
            content_length: 0,
            complete: false,
            error: None,
            paused: false,
            cancelled: false,
        }
    }
}

// ---------------------------------------------------------------------------
// Range buffer
// ---------------------------------------------------------------------------

/// A stretch of a file: its byte offset and its bytes.
#[derive(Debug)]
pub struct Segment {
    pub offset: u64,
    pub data: Vec<u8>,
}

/// A stretch of a file with its bytes as a sequence.
#[verifier::ext_equal]
pub struct SegmentView {
    pub offset: u64,
    pub data: Seq<u8>,
}

impl View for Segment {
    type V = SegmentView;

    open spec fn view(&self) -> SegmentView {
        SegmentView { offset: self.offset, data: self.data@ }
    }
}

/// The views of several stretches.
pub open spec fn segment_views(v: Seq<Segment>) -> Seq<SegmentView> {
    Seq::new(v.len(), |i: int| v[i]@)
}

/// The file offset behind a stretch.
pub open spec fn end_of(s: SegmentView) -> int {
    s.offset + s.data.len()
}

/// Whether a stretch holds the byte at a file offset.
pub open spec fn covers(s: SegmentView, p: int) -> bool {
    s.offset <= p < end_of(s)
}

/// The byte that a stretch holds at a file offset.
pub open spec fn byte_in(s: SegmentView, p: int) -> u8 {
    s.data[p - s.offset]
}

/// Whether stretches stand in order, with a gap between any two, none is empty,
/// and their ends are file offsets.
pub open spec fn apart(segs: Seq<SegmentView>) -> bool {
    &&& forall|i: int| 0 <= i < segs.len() ==> (#[trigger] segs[i]).data.len() > 0 && end_of(segs[i]) <= u64::MAX
    &&& forall|i: int, j: int| 0 <= i < j < segs.len() ==> end_of(#[trigger] segs[i]) < (#[trigger] segs[j]).offset
}

/// Whether some stretch holds the byte at a file offset.
pub open spec fn stored(segs: Seq<SegmentView>, p: int) -> bool {
    exists|i: int| 0 <= i < segs.len() && covers(#[trigger] segs[i], p)
}

/// Whether the byte at a file offset is stored and is `b`.
pub open spec fn holds(segs: Seq<SegmentView>, p: int, b: u8) -> bool {
    exists|i: int| 0 <= i < segs.len() && covers(#[trigger] segs[i], p) && byte_in(segs[i], p) == b
}

/// Whether all bytes of the range `[start, end)` are stored.
pub open spec fn has_all(segs: Seq<SegmentView>, start: int, end: int) -> bool {
    forall|p: int| start <= p < end ==> #[trigger] stored(segs, p)
}

/// Whether `bytes` are the stored ones from `start` on.
pub open spec fn reads(segs: Seq<SegmentView>, start: int, bytes: Seq<u8>) -> bool {
    forall|i: int| 0 <= i < bytes.len() ==> holds(segs, start + i, #[trigger] bytes[i])
}

/// The byte that is stored at a file offset.
pub open spec fn byte_at(segs: Seq<SegmentView>, p: int) -> u8 {
    choose|b: u8| holds(segs, p, b)
}

/// The stored bytes of the range `[start, end)`; none where one of them is
/// missing.
pub open spec fn range_bytes(segs: Seq<SegmentView>, start: int, end: int) -> Seq<u8> {
    if start < end && has_all(segs, start, end) {
        Seq::new((end - start) as nat, |i: int| byte_at(segs, start + i))
    } else {
        Seq::empty()
    }
}

/// How many bytes the first `n` stretches hold.
pub open spec fn total_in(segs: Seq<SegmentView>, n: nat) -> int
    decreases n,
{
    if n == 0 {
        0
    } else {
        total_in(segs, (n - 1) as nat) + segs[n - 1].data.len()
    }
}

/// How many bytes are stored.
pub open spec fn total_stored(segs: Seq<SegmentView>) -> int {
    total_in(segs, segs.len())
}

/// Where a stretch is put in: before the first that does not begin earlier.
pub open spec fn slot(segs: Seq<SegmentView>, offset: u64, i: int) -> int
    decreases segs.len() - i,
{
    if i < 0 || i >= segs.len() || segs[i].offset >= offset {
        i
    } else {
        slot(segs, offset, i + 1)
    }
}

/// A stretch put behind others: it becomes part of the last one where it begins
/// inside it or right behind it, and adds only what reaches further.
pub open spec fn attached(segs: Seq<SegmentView>, s: SegmentView) -> Seq<SegmentView> {
    if segs.len() == 0 || s.offset > end_of(segs.last()) {
        segs.push(s)
    } else {
        let last = segs.last();
        let have = end_of(last) - s.offset;
        let more = if have < s.data.len() { s.data.subrange(have, s.data.len() as int) } else { Seq::empty() };
        segs.drop_last().push(SegmentView { offset: last.offset, data: last.data + more })
    }
}

/// The first `n` stretches, overlapping and adjacent ones made one.
pub open spec fn merged_in(segs: Seq<SegmentView>, n: nat) -> Seq<SegmentView>
    decreases n,
{
    if n == 0 {
        Seq::empty()
    } else {
        attached(merged_in(segs, (n - 1) as nat), segs[n - 1])
    }
}

/// Stretches without the first ones, as many as must go to keep within `max`; the
/// last stays.
pub open spec fn trimmed(segs: Seq<SegmentView>, max: int) -> Seq<SegmentView>
    decreases segs.len(),
{
    if segs.len() > 1 && total_stored(segs) > max {
        trimmed(segs.drop_first(), max)
    } else {
        segs
    }
}

/// Stretches with another one put in and made one with those that it touches.
pub open spec fn joined(segs: Seq<SegmentView>, s: SegmentView) -> Seq<SegmentView> {
    let all = segs.insert(slot(segs, s.offset, 0), s);
    merged_in(all, all.len())
}

/// What a buffer holds after data has been put in.
pub open spec fn inserted(segs: Seq<SegmentView>, max: int, s: SegmentView) -> Seq<SegmentView> {
    if s.data.len() == 0 { segs } else { trimmed(joined(segs, s), max) }
}

/// A non-contiguous buffer for Range-based streaming.
///
/// Stores data in sorted, non-overlapping segments. Segments are merged
/// when they are adjacent or overlapping. Old segments are evicted when
/// total memory exceeds `max_bytes`.
///
/// For Range-first playback: instead of downloading the entire file, windows are
/// fetched on demand and only what's needed is kept in memory.
#[derive(Debug)]
pub struct RangeBuffer {
    pub segments: Vec<Segment>,
    /// Total file size (from HEAD request).
    pub file_size: u64,
    /// Maximum total bytes before eviction. Default: 64MB.
    pub max_bytes: usize,
}

/// What a range buffer holds and its limits.
#[verifier::ext_equal]
pub struct RangeView {
    pub segs: Seq<SegmentView>,
    pub file_size: u64,
    pub max_bytes: usize,
}

impl View for RangeBuffer {
    type V = RangeView;

    open spec fn view(&self) -> RangeView {
        RangeView { segs: segment_views(self.segments@), file_size: self.file_size, max_bytes: self.max_bytes }
    }
}

/// Stretches that are apart hold no more bytes than the last one's end says.
proof fn lemma_total_bound(segs: Seq<SegmentView>, n: nat)
    requires
        apart(segs),
        n <= segs.len(),
    ensures
        0 <= total_in(segs, n),
        n > 0 ==> total_in(segs, n) <= end_of(segs[n - 1]),
        total_in(segs, n) <= u64::MAX,
    decreases n,
{
    if n > 0 {
        lemma_total_bound(segs, (n - 1) as nat);
        if n > 1 {
            assert(end_of(segs[n - 2]) < segs[n - 1].offset);
        }
        assert(end_of(segs[n - 1]) <= u64::MAX);
    }
}

/// A stretch is found where it is put in.
proof fn lemma_slot(segs: Seq<SegmentView>, offset: u64, i: int)
    requires
        apart(segs),
        0 <= i <= segs.len(),
        forall|j: int| 0 <= j < i ==> (#[trigger] segs[j]).offset < offset,
    ensures
        i <= slot(segs, offset, i) <= segs.len(),
        forall|j: int| 0 <= j < slot(segs, offset, i) ==> (#[trigger] segs[j]).offset < offset,
        forall|j: int| slot(segs, offset, i) <= j < segs.len() ==> (#[trigger] segs[j]).offset >= offset,
    decreases segs.len() - i,
{
    if i < segs.len() && segs[i].offset < offset {
        lemma_slot(segs, offset, i + 1);
    } else {
        assert forall|j: int| i <= j < segs.len() implies (#[trigger] segs[j]).offset >= offset by {
            if i < j {
                assert(end_of(segs[i]) < segs[j].offset);
            }
        }
    }
}

/// Stretches in the order of their beginnings, none of them empty.
pub open spec fn in_order(segs: Seq<SegmentView>) -> bool {
    &&& forall|i: int| 0 <= i < segs.len() ==> (#[trigger] segs[i]).data.len() > 0 && end_of(segs[i]) <= u64::MAX
    &&& forall|i: int, j: int| 0 <= i < j < segs.len() ==> (#[trigger] segs[i]).offset <= (#[trigger] segs[j]).offset
}

/// Merging keeps what is stored and sets stretches apart.
proof fn lemma_merged(segs: Seq<SegmentView>, n: nat)
    requires
        in_order(segs),
        n <= segs.len(),
    ensures
        apart(merged_in(segs, n)),
        n > 0 ==> merged_in(segs, n).len() > 0,
        merged_in(segs, n).len() <= n,
        n > 0 ==> merged_in(segs, n).last().offset <= segs[n - 1].offset,
        forall|p: int| stored(merged_in(segs, n), p) ==> #[trigger] stored(segs.take(n as int), p),
        forall|p: int| #[trigger] stored(segs.take(n as int), p) ==> stored(merged_in(segs, n), p),
        forall|p: int, b: u8| holds(merged_in(segs, n), p, b) ==> #[trigger] holds(segs.take(n as int), p, b),
    decreases n,
{
    if n > 0 {
        let m = merged_in(segs, (n - 1) as nat);
        let s = segs[n - 1];
        let r = merged_in(segs, n);
        let before = segs.take(n - 1);
        let now = segs.take(n as int);
        lemma_merged(segs, (n - 1) as nat);
        assert(r == attached(m, s));
        if n > 1 {
            assert(segs[n - 2].offset <= segs[n - 1].offset);
        }
        if m.len() == 0 || s.offset > end_of(m.last()) {
            assert(r == m.push(s));
            assert forall|i: int, j: int| 0 <= i < j < r.len() implies end_of(#[trigger] r[i]) < (#[trigger] r[j]).offset by {
                if j == m.len() && i < m.len() - 1 {
                    assert(end_of(m[i]) < m[m.len() - 1].offset);
                }
            }
            assert forall|p: int| #[trigger] stored(now, p) implies stored(r, p) by {
                let i = choose|i: int| 0 <= i < now.len() && covers(#[trigger] now[i], p);
                if i == n - 1 {
                    assert(covers(r[m.len() as int], p));
                } else {
                    assert(covers(before[i], p));
                    assert(stored(before, p));
                    let k = choose|k: int| 0 <= k < m.len() && covers(#[trigger] m[k], p);
                    assert(covers(r[k], p));
                }
            }
            assert forall|p: int, b: u8| holds(r, p, b) implies #[trigger] holds(now, p, b) by {
                let k = choose|k: int| 0 <= k < r.len() && covers(#[trigger] r[k], p) && byte_in(r[k], p) == b;
                if k == m.len() {
                    assert(covers(now[n - 1], p));
                } else {
                    assert(covers(m[k], p));
                    assert(holds(m, p, b));
                    assert(holds(before, p, b));
                    let i = choose|i: int| 0 <= i < before.len() && covers(#[trigger] before[i], p) && byte_in(before[i], p) == b;
                    assert(covers(now[i], p));
                }
            }
        } else {
            let last = m.last();
            let have = end_of(last) - s.offset;
            let grown = r.last();
            assert(r.len() == m.len());
            assert(forall|k: int| 0 <= k < m.len() - 1 ==> r[k] == m[k]);
            assert(grown.offset == last.offset);
            assert(end_of(grown) == if end_of(s) > end_of(last) { end_of(s) } else { end_of(last) });
            assert forall|i: int, j: int| 0 <= i < j < r.len() implies end_of(#[trigger] r[i]) < (#[trigger] r[j]).offset by {
                assert(end_of(m[i]) < m[j].offset);
            }
            assert forall|p: int| #[trigger] stored(now, p) implies stored(r, p) by {
                let i = choose|i: int| 0 <= i < now.len() && covers(#[trigger] now[i], p);
                if i == n - 1 {
                    assert(covers(r[m.len() - 1], p));
                } else {
                    assert(covers(before[i], p));
                    assert(stored(before, p));
                    let k = choose|k: int| 0 <= k < m.len() && covers(#[trigger] m[k], p);
                    assert(covers(r[k], p));
                }
            }
            assert forall|p: int, b: u8| holds(r, p, b) implies #[trigger] holds(now, p, b) by {
                let k = choose|k: int| 0 <= k < r.len() && covers(#[trigger] r[k], p) && byte_in(r[k], p) == b;
                if k == m.len() - 1 && !covers(last, p) {
                    assert(byte_in(grown, p) == byte_in(s, p));
                    assert(covers(now[n - 1], p));
                } else {
                    assert(byte_in(m[k], p) == b);
                    assert(covers(m[k], p));
                    assert(holds(m, p, b));
                    assert(holds(before, p, b));
                    let i = choose|i: int| 0 <= i < before.len() && covers(#[trigger] before[i], p) && byte_in(before[i], p) == b;
                    assert(covers(now[i], p));
                }
            }
        }
        assert forall|p: int| stored(r, p) implies #[trigger] stored(now, p) by {
            let k = choose|k: int| 0 <= k < r.len() && covers(#[trigger] r[k], p);
            assert(holds(r, p, byte_in(r[k], p)));
            assert(holds(now, p, byte_in(r[k], p)));
        }
    }
}

/// Trimming leaves the last stretches as they are, keeps within the limit where
/// more than one is left, and keeps them apart.
pub proof fn law_trim_keeps_last(segs: Seq<SegmentView>, max: int)
    requires
        apart(segs),
    ensures
        trimmed(segs, max).len() <= segs.len(),
        trimmed(segs, max) == segs.skip(segs.len() - trimmed(segs, max).len()),
        segs.len() > 0 ==> trimmed(segs, max).len() > 0,
        trimmed(segs, max).len() > 1 ==> total_stored(trimmed(segs, max)) <= max,
        total_stored(segs) <= max ==> trimmed(segs, max) == segs,
        apart(trimmed(segs, max)),
    decreases segs.len(),
{
    if segs.len() > 1 && total_stored(segs) > max {
        let rest = segs.drop_first();
        assert(apart(rest)) by {
            assert forall|i: int| 0 <= i < rest.len() implies (#[trigger] rest[i]).data.len() > 0 && end_of(rest[i]) <= u64::MAX by {
                assert(rest[i] == segs[i + 1]);
            }
            assert forall|i: int, j: int| 0 <= i < j < rest.len() implies end_of(#[trigger] rest[i]) < (#[trigger] rest[j]).offset by {
                assert(rest[i] == segs[i + 1] && rest[j] == segs[j + 1]);
            }
        }
        law_trim_keeps_last(rest, max);
        assert(trimmed(segs, max) =~= segs.skip(segs.len() - trimmed(segs, max).len()));
    } else {
        assert(segs =~= segs.skip(0));
    }
}

/// Putting data in stores its bytes beside those stored before, and no others: a
/// byte that only one side has is that one, and a byte that both have is one of
/// the two.
pub proof fn law_joined_content(segs: Seq<SegmentView>, s: SegmentView)
    requires
        apart(segs),
        s.data.len() > 0,
        end_of(s) <= u64::MAX,
    ensures
        apart(joined(segs, s)),
        forall|p: int| #[trigger] stored(joined(segs, s), p) <==> (stored(segs, p) || covers(s, p)),
        forall|p: int, b: u8| #[trigger] holds(joined(segs, s), p, b) ==> (holds(segs, p, b) || (covers(s, p) && byte_in(s, p) == b)),
{
    let k = slot(segs, s.offset, 0);
    lemma_slot(segs, s.offset, 0);
    let all = segs.insert(k, s);
    assert(in_order(all)) by {
        assert forall|i: int| 0 <= i < all.len() implies (#[trigger] all[i]).data.len() > 0 && end_of(all[i]) <= u64::MAX by {
            if i < k {
                assert(all[i] == segs[i]);
            } else if i > k {
                assert(all[i] == segs[i - 1]);
            }
        }
        assert forall|i: int, j: int| 0 <= i < j < all.len() implies (#[trigger] all[i]).offset <= (#[trigger] all[j]).offset by {
            if j < k {
                assert(end_of(segs[i]) < segs[j].offset);
            } else if j == k {
                assert(segs[i].offset < s.offset);
            } else if i == k {
                assert(segs[j - 1].offset >= s.offset);
            } else if i < k {
                assert(segs[i].offset < s.offset <= segs[j - 1].offset);
            } else {
                assert(end_of(segs[i - 1]) < segs[j - 1].offset);
            }
        }
    }
    lemma_merged(all, all.len());
    assert(all.take(all.len() as int) =~= all);
    assert forall|p: int, b: u8| #[trigger] holds(joined(segs, s), p, b) implies (holds(segs, p, b) || (covers(s, p) && byte_in(s, p) == b)) by {
        assert(holds(all.take(all.len() as int), p, b));
        let i = choose|i: int| 0 <= i < all.len() && covers(#[trigger] all[i], p) && byte_in(all[i], p) == b;
        if i < k {
            assert(covers(segs[i], p));
        } else if i > k {
            assert(covers(segs[i - 1], p));
        }
    }
    assert forall|p: int| #[trigger] stored(joined(segs, s), p) <==> (stored(segs, p) || covers(s, p)) by {
        if stored(joined(segs, s), p) {
            assert(stored(all.take(all.len() as int), p));
            let i = choose|i: int| 0 <= i < all.len() && covers(#[trigger] all[i], p);
            if i < k {
                assert(covers(segs[i], p));
            } else if i > k {
                assert(covers(segs[i - 1], p));
            }
        }
        if covers(s, p) {
            assert(covers(all[k], p));
            assert(stored(all.take(all.len() as int), p));
        }
        if stored(segs, p) {
            let i = choose|i: int| 0 <= i < segs.len() && covers(#[trigger] segs[i], p);
            assert(covers(all[if i < k { i } else { i + 1 }], p));
            assert(stored(all.take(all.len() as int), p));
        }
    }
}

/// What is put in is read back: where the buffer held no other bytes at these
/// offsets and stays within its limit, a read of the range gives the data.
pub proof fn law_read_back(segs: Seq<SegmentView>, max: int, s: SegmentView, bytes: Seq<u8>)
    requires
        apart(segs),
        s.data.len() > 0,
        end_of(s) <= u64::MAX,
        total_stored(joined(segs, s)) <= max,
        forall|p: int, b: u8| covers(s, p) && #[trigger] holds(segs, p, b) ==> b == byte_in(s, p),
        bytes.len() == s.data.len(),
        reads(inserted(segs, max, s), s.offset as int, bytes),
    ensures
        has_all(inserted(segs, max, s), s.offset as int, end_of(s)),
        bytes == s.data,
{
    law_joined_content(segs, s);
    law_trim_keeps_last(joined(segs, s), max);
    assert forall|i: int| 0 <= i < bytes.len() implies bytes[i] == s.data[i] by {
        let p = s.offset + i;
        assert(holds(joined(segs, s), p, bytes[i]));
        assert(covers(s, p));
    }
    assert(bytes =~= s.data);
}

/// In stretches that are apart, only one byte is stored at a file offset.
proof fn lemma_one_byte(segs: Seq<SegmentView>, p: int, b: u8)
    requires
        apart(segs),
        holds(segs, p, b),
    ensures
        byte_at(segs, p) == b,
{
    let c = byte_at(segs, p);
    assert(holds(segs, p, c));
    let i = choose|i: int| 0 <= i < segs.len() && covers(#[trigger] segs[i], p) && byte_in(segs[i], p) == b;
    let j = choose|j: int| 0 <= j < segs.len() && covers(#[trigger] segs[j], p) && byte_in(segs[j], p) == c;
    if i < j {
        assert(end_of(segs[i]) < segs[j].offset);
    } else if j < i {
        assert(end_of(segs[j]) < segs[i].offset);
    }
}

/// In stretches that are apart, a range is stored as a whole only inside one of
/// them.
proof fn lemma_range_in_one(segs: Seq<SegmentView>, start: int, end: int, i: int)
    requires
        apart(segs),
        0 <= i < segs.len(),
        covers(segs[i], start),
        start < end,
    ensures
        has_all(segs, start, end) <==> end <= end_of(segs[i]),
{
    if end <= end_of(segs[i]) {
        assert forall|p: int| start <= p < end implies #[trigger] stored(segs, p) by {
            assert(covers(segs[i], p));
        }
    } else {
        lemma_gap_behind(segs, i);
        let p = end_of(segs[i]);
        assert(start <= p < end && !stored(segs, p));
    }
}

/// The byte right behind a stretch is not stored.
proof fn lemma_gap_behind(segs: Seq<SegmentView>, i: int)
    requires
        apart(segs),
        0 <= i < segs.len(),
    ensures
        !stored(segs, end_of(segs[i])),
{
    let p = end_of(segs[i]);
    assert forall|j: int| 0 <= j < segs.len() implies !covers(#[trigger] segs[j], p) by {
        if j < i {
            assert(end_of(segs[j]) < segs[i].offset);
        } else if j > i {
            assert(end_of(segs[i]) < segs[j].offset);
        }
    }
}

/// The bytes of a stretch from `from` on.
fn copy_range(data: &Vec<u8>, from: usize, to: usize) -> (r: Vec<u8>)
    requires
        from <= to <= data.len(),
    ensures
        r@ == data@.subrange(from as int, to as int),
{
    vstd::slice::slice_to_vec(vstd::slice::slice_subrange(data.as_slice(), from, to))
}

/// Put a stretch behind others.
fn attach(merged: &mut Vec<Segment>, s: Segment)
    requires
        apart(segment_views(old(merged)@)),
        end_of(s@) <= u64::MAX,
    ensures
        segment_views(final(merged)@) == attached(segment_views(old(merged)@), s@),
{
    let ghost before = segment_views(merged@);
    let ghost added = s@;
    let n: usize = merged.len();
    if n == 0 {
        merged.push(s);
        assert(segment_views(merged@) =~= attached(before, added));
        return;
    }
    assert(end_of(before[n - 1]) <= u64::MAX);
    let last_end: u64 = merged[n - 1].offset + merged[n - 1].data.len() as u64;
    if s.offset > last_end {
        merged.push(s);
        assert(segment_views(merged@) =~= attached(before, added));
        return;
    }
    let have: u64 = last_end - s.offset;
    if have < s.data.len() as u64 {
        let mut more: Vec<u8> = copy_range(&s.data, have as usize, s.data.len());
        let ghost tail = more@;
        merged[n - 1].data.append(&mut more);
        assert(segment_views(merged@)[n - 1].data =~= before[n - 1].data + tail);
    } else {
        assert(before[n - 1].data =~= before[n - 1].data + Seq::<u8>::empty());
    }
    assert(segment_views(merged@) =~= attached(before, added));
}

impl RangeBuffer {
    /// Stretches are apart, and within the limit where there are several.
    pub open spec fn wf(&self) -> bool {
        apart(self@.segs) && total_stored(self@.segs) <= usize::MAX
    }

    /// Create a new empty RangeBuffer.
    pub fn new(file_size: u64) -> (r: Self)
        ensures
            r.wf(),
            r@ == (RangeView { segs: Seq::empty(), file_size, max_bytes: 67_108_864 }),
    {
        let r: RangeBuffer = RangeBuffer { segments: Vec::new(), file_size, max_bytes: 67_108_864 };
        assert(r@.segs =~= Seq::empty());
        r
    }

    /// How many bytes are stored, in a wide number.
    fn sum(&self) -> (n: u64)
        requires
            apart(self@.segs),
        ensures
            n == total_stored(self@.segs),
    {
        let ghost segs = self@.segs;
        let mut n: u64 = 0;
        let mut i: usize = 0;
        while i < self.segments.len()
            invariant
                i <= self.segments.len(),
                segs == segment_views(self.segments@),
                apart(segs),
                n == total_in(segs, i as nat),
            decreases self.segments.len() - i,
        {
            proof {
                lemma_total_bound(segs, (i + 1) as nat);
            }
            n = n + self.segments[i].data.len() as u64;
            i = i + 1;
        }
        n
    }

    /// Total bytes currently stored across all segments.
    pub fn total_bytes(&self) -> (n: usize)
        requires
            self.wf(),
        ensures
            n == total_stored(self@.segs),
    {
        self.sum() as usize
    }

    /// Number of segments.
    pub fn segment_count(&self) -> (n: usize)
        ensures
            n == self@.segs.len(),
    {
        self.segments.len()
    }

    /// The segment that holds the byte at `offset`.
    fn find(&self, offset: u64) -> (r: Option<usize>)
        requires
            apart(self@.segs),
        ensures
            match r {
                Some(i) => i < self.segments.len() && covers(self@.segs[i as int], offset as int),
                None => !stored(self@.segs, offset as int),
            },
    {
        let ghost segs = self@.segs;
        let mut i: usize = 0;
        while i < self.segments.len()
            invariant
                i <= self.segments.len(),
                segs == segment_views(self.segments@),
                apart(segs),
                forall|j: int| 0 <= j < i ==> !covers(#[trigger] segs[j], offset as int),
            decreases self.segments.len() - i,
        {
            let s: &Segment = &self.segments[i];
            assert(segs[i as int].data.len() > 0 && end_of(segs[i as int]) <= u64::MAX);
            if s.offset <= offset && offset < s.offset + s.data.len() as u64 {
                assert(covers(segs[i as int], offset as int));
                return Some(i);
            }
            i = i + 1;
        }
        None
    }

    /// Check if the buffer contains data for the entire range [start, end).
    pub fn has_range(&self, start: u64, end: u64) -> (r: bool)
        requires
            self.wf(),
        ensures
            r == has_all(self@.segs, start as int, end as int),
    {
        if start >= end {
            return true;
        }
        match self.find(start) {
            Some(i) => {
                proof {
                    lemma_range_in_one(self@.segs, start as int, end as int, i as int);
                    assert(end_of(self@.segs[i as int]) <= u64::MAX);
                }
                self.segments[i].offset + self.segments[i].data.len() as u64 >= end
            },
            None => {
                assert(!stored(self@.segs, start as int));
                false
            },
        }
    }

    /// Get contiguous data starting at `offset`.
    /// Returns as much contiguous data as available from that offset,
    /// or None if no segment covers that offset.
    pub fn get_contiguous_from(&self, offset: u64) -> (r: Option<&[u8]>)
        requires
            self.wf(),
        ensures
            match r {
                Some(s) => s@.len() > 0 && reads(self@.segs, offset as int, s@) && !stored(self@.segs, offset + s@.len()),
                None => !stored(self@.segs, offset as int),
            },
    {
        match self.find(offset) {
            Some(i) => {
                let ghost segs = self@.segs;
                let within: usize = (offset - self.segments[i].offset) as usize;
                let s: &[u8] = vstd::slice::slice_subrange(self.segments[i].data.as_slice(), within, self.segments[i].data.len());
                proof {
                    lemma_gap_behind(segs, i as int);
                    assert forall|j: int| 0 <= j < s@.len() implies holds(segs, offset + j, #[trigger] s@[j]) by {
                        assert(covers(segs[i as int], offset + j));
                    }
                }
                Some(s)
            },
            None => None,
        }
    }

    /// Get data for the exact range [start, end).
    /// Returns None if any part of the range is missing.
    pub fn get_range(&self, start: u64, end: u64) -> (r: Option<Vec<u8>>)
        requires
            self.wf(),
        ensures
            match r {
                Some(v) => {
                    &&& has_all(self@.segs, start as int, end as int)
                    &&& v.len() == (if start < end { end - start } else { 0 })
                    &&& reads(self@.segs, start as int, v@)
                },
                None => !has_all(self@.segs, start as int, end as int),
            },
    {
        if start >= end {
            return Some(Vec::new());
        }
        match self.find(start) {
            Some(i) => {
                let ghost segs = self@.segs;
                proof {
                    lemma_range_in_one(segs, start as int, end as int, i as int);
                    assert(end_of(segs[i as int]) <= u64::MAX);
                }
                let base: u64 = self.segments[i].offset;
                if base + self.segments[i].data.len() as u64 >= end {
                    let v: Vec<u8> = copy_range(&self.segments[i].data, (start - base) as usize, (end - base) as usize);
                    proof {
                        assert forall|j: int| 0 <= j < v@.len() implies holds(segs, start + j, #[trigger] v@[j]) by {
                            assert(covers(segs[i as int], start + j));
                        }
                    }
                    Some(v)
                } else {
                    None
                }
            },
            None => {
                assert(!stored(self@.segs, start as int));
                None
            },
        }
    }

    /// The stored bytes of the range [start, end), or nothing if any part of it is
    /// missing.
    pub fn range_or_empty(&self, start: u64, end: u64) -> (r: Vec<u8>)
        requires
            self.wf(),
        ensures
            r@ == range_bytes(self@.segs, start as int, end as int),
    {
        match self.get_range(start, end) {
            Some(v) => {
                proof {
                    assert forall|i: int| 0 <= i < v@.len() implies v@[i] == byte_at(self@.segs, start + i) by {
                        lemma_one_byte(self@.segs, start + i, v@[i]);
                    }
                    assert(v@ =~= range_bytes(self@.segs, start as int, end as int));
                }
                v
            },
            None => Vec::new(),
        }
    }

    /// Insert a data segment. Merges with adjacent/overlapping segments.
    pub fn insert(&mut self, offset: u64, data: Vec<u8>)
        requires
            old(self).wf(),
            offset + data.len() <= u64::MAX,
        ensures
            final(self).wf(),
            final(self)@ == (RangeView {
                segs: inserted(old(self)@.segs, old(self)@.max_bytes as int, SegmentView { offset, data: data@ }),
                ..old(self)@
            }),
    {
        if data.len() == 0 {
            return;
        }
        let ghost segs = self@.segs;
        let ghost s = SegmentView { offset, data: data@ };
        let mut k: usize = 0;
        while k < self.segments.len() && self.segments[k].offset < offset
            invariant
                k <= self.segments.len(),
                segs == segment_views(self.segments@),
                slot(segs, offset, 0) == slot(segs, offset, k as int),
            decreases self.segments.len() - k,
        {
            k = k + 1;
        }
        proof {
            lemma_slot(segs, offset, 0);
            law_joined_content(segs, s);
            law_trim_keeps_last(joined(segs, s), self.max_bytes as int);
        }
        self.segments.insert(k, Segment { offset, data });
        assert(self@.segs =~= segs.insert(k as int, s));
        self.merge_segments();
        assert(self@.segs == joined(segs, s));
        self.evict_if_needed();
    }

    /// Merge overlapping or adjacent segments.
    fn merge_segments(&mut self)
        requires
            in_order(old(self)@.segs),
        ensures
            final(self)@ == (RangeView { segs: merged_in(old(self)@.segs, old(self)@.segs.len()), ..old(self)@ }),
            apart(final(self)@.segs),
    {
        let ghost all = self@.segs;
        let mut rest: Vec<Segment> = Vec::new();
        rest.append(&mut self.segments);
        let ghost queue = rest@;
        assert(segment_views(queue) =~= all);
        assert(all.len() == rest.len());
        let mut merged: Vec<Segment> = Vec::new();
        let mut n: usize = 0;
        assert(segment_views(merged@) =~= merged_in(all, 0));
        while rest.len() > 0
            invariant
                in_order(all),
                all == segment_views(queue),
                n + rest.len() == all.len(),
                all.len() <= usize::MAX,
                rest@ == queue.skip(n as int),
                segment_views(merged@) == merged_in(all, n as nat),
            decreases rest.len(),
        {
            proof {
                lemma_merged(all, n as nat);
                lemma_merged(all, (n + 1) as nat);
                if n > 0 {
                    assert(all[n - 1].offset <= all[n as int].offset);
                }
            }
            let s: Segment = rest.remove(0);
            assert(s@ == all[n as int]);
            attach(&mut merged, s);
            assert(rest@ =~= queue.skip(n + 1));
            n = n + 1;
        }
        proof {
            lemma_merged(all, n as nat);
        }
        self.segments = merged;
    }

    /// Evict oldest segments (lowest offsets) when total exceeds max_bytes.
    /// Keeps the segments with the highest offsets.
    fn evict_if_needed(&mut self)
        requires
            apart(old(self)@.segs),
        ensures
            final(self)@ == (RangeView { segs: trimmed(old(self)@.segs, old(self)@.max_bytes as int), ..old(self)@ }),
            final(self).wf(),
    {
        let ghost goal = trimmed(self@.segs, self.max_bytes as int);
        proof {
            law_trim_keeps_last(self@.segs, self.max_bytes as int);
        }
        while self.segments.len() > 1 && self.sum() > self.max_bytes as u64
            invariant
                apart(self@.segs),
                apart(goal),
                goal == trimmed(self@.segs, self.max_bytes as int),
                self.max_bytes == old(self).max_bytes,
                self.file_size == old(self).file_size,
            decreases self.segments.len(),
        {
            let ghost segs = self@.segs;
            self.segments.remove(0);
            assert(self@.segs =~= segs.drop_first());
            proof {
                law_trim_keeps_last(segs, self.max_bytes as int);
                assert forall|i: int| 0 <= i < self@.segs.len() implies (#[trigger] self@.segs[i]).data.len() > 0 && end_of(self@.segs[i]) <= u64::MAX by {
                    assert(self@.segs[i] == segs[i + 1]);
                }
                assert forall|i: int, j: int| 0 <= i < j < self@.segs.len() implies end_of(#[trigger] self@.segs[i]) < (#[trigger] self@.segs[j]).offset by {
                    assert(self@.segs[i] == segs[i + 1] && self@.segs[j] == segs[j + 1]);
                }
            }
        }
        proof {
            let segs = self@.segs;
            if segs.len() == 1 {
                assert(segs[0].data.len() == self.segments[0].data.len());
                assert(total_in(segs, 1) == total_in(segs, 0) + segs[0].data.len());
            } else if segs.len() == 0 {
                assert(total_in(segs, 0) == 0);
            }
        }
    }

    /// How many contiguous bytes are available starting at `offset`.
    pub fn contiguous_bytes_from(&self, offset: u64) -> (n: u64)
        requires
            self.wf(),
        ensures
            has_all(self@.segs, offset as int, offset + n),
            !stored(self@.segs, offset + n),
    {
        match self.find(offset) {
            Some(i) => {
                proof {
                    let e = end_of(self@.segs[i as int]);
                    lemma_gap_behind(self@.segs, i as int);
                    lemma_range_in_one(self@.segs, offset as int, e, i as int);
                    assert(e <= u64::MAX);
                }
                self.segments[i].offset + self.segments[i].data.len() as u64 - offset
            },
            None => 0,
        }
    }

    /// Clear all segments.
    pub fn clear(&mut self)
        ensures
            final(self).wf(),
            final(self)@ == (RangeView { segs: Seq::empty(), ..old(self)@ }),
    {
        self.segments.clear();
        assert(self@.segs =~= Seq::empty());
    }
}

/// Bytes that are read from stretches are those that stand at their offsets in them.
pub proof fn law_range_bytes_are_stored(segs: Seq<SegmentView>, start: int, end: int, k: int, i: int)
    requires
        apart(segs),
        0 <= k < segs.len(),
        segs[k].offset <= start < end <= end_of(segs[k]),
        0 <= i < end - start,
    ensures
        range_bytes(segs, start, end).len() == end - start,
        range_bytes(segs, start, end)[i] == segs[k].data[start + i - segs[k].offset],
{
    assert forall|p: int| start <= p < end implies #[trigger] stored(segs, p) by {
        assert(covers(segs[k], p));
    }
    let p = start + i;
    let b = byte_in(segs[k], p);
    assert(covers(segs[k], p));
    assert(holds(segs, p, b));
    let found = byte_at(segs, p);
    assert(holds(segs, p, found));
    let j = choose|j: int| 0 <= j < segs.len() && covers(#[trigger] segs[j], p) && byte_in(segs[j], p) == found;
    if j < k {
        assert(end_of(segs[j]) < segs[k].offset);
    } else if k < j {
        assert(end_of(segs[k]) < segs[j].offset);
    }
}

} // verus!
