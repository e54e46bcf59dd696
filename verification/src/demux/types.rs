//! What demuxers share: media information, encoded chunks, errors and the seek
//! index.

use vstd::prelude::*;
use vstd::string::*;

verus! {

/// Supported container formats.
#[derive(Debug, Clone, Copy, PartialEq, Eq, Structural)]
pub enum ContainerFormat {
    Mp4,
    Mkv,
    WebM,
    Unknown,
}

/// Errors during demuxing.
#[derive(Debug)]
pub enum DemuxError {
    UnsupportedFormat(ContainerFormat),
    InvalidData(String),
    EndOfStream,
    IoError(String),
}

/// A demuxing error with its text as characters.
#[verifier::ext_equal]
pub enum DemuxFault {
    UnsupportedFormat(ContainerFormat),
    InvalidData(Seq<char>),
    EndOfStream,
    IoError(Seq<char>),
}

impl View for DemuxError {
    type V = DemuxFault;

    open spec fn view(&self) -> DemuxFault {
        match self {
            DemuxError::UnsupportedFormat(f) => DemuxFault::UnsupportedFormat(*f),
            DemuxError::InvalidData(s) => DemuxFault::InvalidData(s@),
            DemuxError::EndOfStream => DemuxFault::EndOfStream,
            DemuxError::IoError(s) => DemuxFault::IoError(s@),
        }
    }
}

/// The name of a container format.
pub open spec fn format_name(f: ContainerFormat) -> Seq<char> {
    match f {
        ContainerFormat::Mp4 => "Mp4"@,
        ContainerFormat::Mkv => "Mkv"@,
        ContainerFormat::WebM => "WebM"@,
        ContainerFormat::Unknown => "Unknown"@,
    }
}

/// The text that is shown for an error.
pub open spec fn fault_text(f: DemuxFault) -> Seq<char> {
    match f {
        DemuxFault::UnsupportedFormat(c) => "unsupported format: "@ + format_name(c),
        DemuxFault::InvalidData(s) => "invalid data: "@ + s,
        DemuxFault::EndOfStream => "end of stream"@,
        DemuxFault::IoError(s) => "io error: "@ + s,
    }
}

impl DemuxError {
    /// The text that is shown for this error.
    pub fn message(&self) -> (s: String)
        ensures
            s@ == fault_text(self@),
    {
        match self {
            DemuxError::UnsupportedFormat(f) => {
                let mut s: String = String::from_str("unsupported format: ");
                s.append(
                    match f {
                        ContainerFormat::Mp4 => "Mp4",
                        ContainerFormat::Mkv => "Mkv",
                        ContainerFormat::WebM => "WebM",
                        ContainerFormat::Unknown => "Unknown",
                    },
                );
                s
            },
            DemuxError::InvalidData(t) => {
                let mut s: String = String::from_str("invalid data: ");
                s.append(t.as_str());
                s
            },
            DemuxError::EndOfStream => String::from_str("end of stream"),
            DemuxError::IoError(t) => {
                let mut s: String = String::from_str("io error: ");
                s.append(t.as_str());
                s
            },
        }
    }
}

/// A single encoded chunk (video or audio sample).
#[derive(Debug)]
pub struct EncodedChunk {
    pub track_id: u32,
    pub is_video: bool,
    pub is_audio: bool,
    pub is_keyframe: bool,
    pub timestamp_us: i64,
    pub duration_us: i64,
    pub data: Vec<u8>,
}

/// A single encoded chunk with its data as a sequence.
#[verifier::ext_equal]
pub struct ChunkView {
    pub track_id: u32,
    pub is_video: bool,
    pub is_audio: bool,
    pub is_keyframe: bool,
    pub timestamp_us: i64,
    pub duration_us: i64,
    pub data: Seq<u8>,
}

impl View for EncodedChunk {
    type V = ChunkView;

    open spec fn view(&self) -> ChunkView {
        ChunkView {
            track_id: self.track_id,
            is_video: self.is_video,
            is_audio: self.is_audio,
            is_keyframe: self.is_keyframe,
            timestamp_us: self.timestamp_us,
            duration_us: self.duration_us,
            data: self.data@,
        }
    }
}

/// The views of several chunks.
pub open spec fn chunk_views(v: Seq<EncodedChunk>) -> Seq<ChunkView> {
    Seq::new(v.len(), |i: int| v[i]@)
}

/// A frame rate: `frames` in `nanos` nanoseconds.
#[derive(Debug, Clone, Copy, PartialEq, Eq, Structural)]
pub struct FrameRate {
    pub frames: i64,
    pub nanos: u64,
}

/// Video track metadata.
#[derive(Debug)]
pub struct VideoTrackInfo {
    pub track_id: u32,
    /// WebCodecs-compatible codec string (e.g. "avc1.64001F").
    pub codec_string: String,
    pub width: u32,
    pub height: u32,
    pub fps: Option<FrameRate>,
    /// Codec-specific configuration (SPS/PPS for H264, etc.)
    pub codec_config: Vec<u8>,
}

/// Audio track metadata.
#[derive(Debug)]
pub struct AudioTrackInfo {
    pub track_id: u32,
    /// WebCodecs-compatible codec string (e.g. "mp4a.40.2", "opus").
    pub codec_string: String,
    pub sample_rate: u32,
    pub channels: u32,
    /// Codec-specific configuration.
    pub codec_config: Vec<u8>,
}

/// Media information extracted from the container header.
#[derive(Debug)]
pub struct MediaInfo {
    pub container: ContainerFormat,
    pub duration_us: Option<i64>,
    pub video_tracks: Vec<VideoTrackInfo>,
    pub audio_tracks: Vec<AudioTrackInfo>,
}

/// Video track metadata as sequences.
#[verifier::ext_equal]
pub struct VideoView {
    pub track_id: u32,
    pub codec_string: Seq<char>,
    pub width: u32,
    pub height: u32,
    pub fps: Option<FrameRate>,
    pub codec_config: Seq<u8>,
}

/// Audio track metadata as sequences.
#[verifier::ext_equal]
pub struct AudioView {
    pub track_id: u32,
    pub codec_string: Seq<char>,
    pub sample_rate: u32,
    pub channels: u32,
    pub codec_config: Seq<u8>,
}

/// Media information as sequences.
#[verifier::ext_equal]
pub struct MediaView {
    pub container: ContainerFormat,
    pub duration_us: Option<i64>,
    pub video_tracks: Seq<VideoView>,
    pub audio_tracks: Seq<AudioView>,
}

impl View for VideoTrackInfo {
    type V = VideoView;

    open spec fn view(&self) -> VideoView {
        VideoView {
            track_id: self.track_id,
            codec_string: self.codec_string@,
            width: self.width,
            height: self.height,
            fps: self.fps,
            codec_config: self.codec_config@,
        }
    }
}

impl View for AudioTrackInfo {
    type V = AudioView;

    open spec fn view(&self) -> AudioView {
        AudioView {
            track_id: self.track_id,
            codec_string: self.codec_string@,
            sample_rate: self.sample_rate,
            channels: self.channels,
            codec_config: self.codec_config@,
        }
    }
}

/// The views of several video tracks.
pub open spec fn video_views(v: Seq<VideoTrackInfo>) -> Seq<VideoView> {
    Seq::new(v.len(), |i: int| v[i]@)
}

/// The views of several audio tracks.
pub open spec fn audio_views(v: Seq<AudioTrackInfo>) -> Seq<AudioView> {
    Seq::new(v.len(), |i: int| v[i]@)
}

impl View for MediaInfo {
    type V = MediaView;

    open spec fn view(&self) -> MediaView {
        MediaView {
            container: self.container,
            duration_us: self.duration_us,
            video_tracks: video_views(self.video_tracks@),
            audio_tracks: audio_views(self.audio_tracks@),
        }
    }
}

/// Copy a byte vector.
pub fn copy_bytes(v: &Vec<u8>) -> (r: Vec<u8>)
    ensures
        r@ == v@,
{
    let r: Vec<u8> = v.clone();
    assert(r@ =~= v@);
    r
}

impl VideoTrackInfo {
    /// A copy of the track metadata.
    pub fn copy(&self) -> (r: Self)
        ensures
            r@ == self@,
    {
        VideoTrackInfo {
            track_id: self.track_id,
            codec_string: self.codec_string.clone(),
            width: self.width,
            height: self.height,
            fps: self.fps,
            codec_config: copy_bytes(&self.codec_config),
        }
    }
}

impl AudioTrackInfo {
    /// A copy of the track metadata.
    pub fn copy(&self) -> (r: Self)
        ensures
            r@ == self@,
    {
        AudioTrackInfo {
            track_id: self.track_id,
            codec_string: self.codec_string.clone(),
            sample_rate: self.sample_rate,
            channels: self.channels,
            codec_config: copy_bytes(&self.codec_config),
        }
    }
}

impl MediaInfo {
    /// A copy of the media information.
    pub fn copy(&self) -> (r: Self)
        ensures
            r@ == self@,
    {
        let mut video_tracks: Vec<VideoTrackInfo> = Vec::new();
        let mut i: usize = 0;
        while i < self.video_tracks.len()
            invariant
                i <= self.video_tracks.len(),
                video_tracks.len() == i,
                forall|k: int| 0 <= k < i ==> (#[trigger] video_tracks[k])@ == self.video_tracks[k]@,
            decreases self.video_tracks.len() - i,
        {
            video_tracks.push(self.video_tracks[i].copy());
            i = i + 1;
        }
        let mut audio_tracks: Vec<AudioTrackInfo> = Vec::new();
        let mut j: usize = 0;
        while j < self.audio_tracks.len()
            invariant
                j <= self.audio_tracks.len(),
                audio_tracks.len() == j,
                forall|k: int| 0 <= k < j ==> (#[trigger] audio_tracks[k])@ == self.audio_tracks[k]@,
            decreases self.audio_tracks.len() - j,
        {
            audio_tracks.push(self.audio_tracks[j].copy());
            j = j + 1;
        }
        let r: MediaInfo = MediaInfo {
            container: self.container,
            duration_us: self.duration_us,
            video_tracks,
            audio_tracks,
        };
        assert(r@ =~= self@);
        r
    }
}

// ---------------------------------------------------------------------------
// Seek index
// ---------------------------------------------------------------------------

/// A single entry in the seek index: maps a keyframe timestamp to its byte
/// offset in the file. Used for precise Range-based seeking.
#[derive(Debug, Clone, Copy, PartialEq, Eq, Structural)]
pub struct SeekEntry {
    /// Presentation timestamp of the keyframe in microseconds.
    pub timestamp_us: i64,
    /// Absolute byte offset in the file where this keyframe's data starts.
    /// For MP4: offset of the sample's chunk. For MKV: offset of the Cluster.
    pub byte_offset: u64,
}

/// What seek entries are ordered by.
#[derive(Debug, Clone, Copy, PartialEq, Eq, Structural)]
pub enum SeekKey {
    Timestamp,
    Offset,
}

/// The key of an entry.
pub open spec fn key_of(e: SeekEntry, k: SeekKey) -> int {
    match k {
        SeekKey::Timestamp => e.timestamp_us as int,
        SeekKey::Offset => e.byte_offset as int,
    }
}

/// Entries in ascending order of their key.
pub open spec fn ordered(s: Seq<SeekEntry>, k: SeekKey) -> bool {
    forall|i: int, j: int| 0 <= i <= j < s.len() ==> key_of(#[trigger] s[i], k) <= key_of(#[trigger] s[j], k)
}

/// The place of `e` in an ordered sequence: behind every entry with a key that is
/// not larger.
pub open spec fn place_of(s: Seq<SeekEntry>, e: SeekEntry, k: SeekKey) -> int
    decreases s.len(),
{
    if s.len() == 0 || key_of(s.last(), k) <= key_of(e, k) {
        s.len() as int
    } else {
        place_of(s.drop_last(), e, k)
    }
}

/// The entries in ascending order of their key, equal ones in the order in which
/// they came.
pub open spec fn sorted_by(s: Seq<SeekEntry>, k: SeekKey) -> Seq<SeekEntry>
    decreases s.len(),
{
    if s.len() == 0 {
        s
    } else {
        let t = sorted_by(s.drop_last(), k);
        t.insert(place_of(t, s.last(), k), s.last())
    }
}

/// The entries without those whose offset equals that of the entry before.
pub open spec fn deduped(s: Seq<SeekEntry>) -> Seq<SeekEntry>
    decreases s.len(),
{
    if s.len() <= 1 {
        s
    } else {
        let t = deduped(s.drop_last());
        if s[s.len() - 2].byte_offset == s.last().byte_offset {
            t
        } else {
            t.push(s.last())
        }
    }
}

/// The entries of two indexes in the order of their offsets, one for each offset.
pub open spec fn merged_entries(a: Seq<SeekEntry>, b: Seq<SeekEntry>) -> Seq<SeekEntry> {
    deduped(sorted_by(a + b, SeekKey::Offset))
}

/// An index with entries that were found later; where there are none it stays as
/// it is.
pub open spec fn entries_with(a: Seq<SeekEntry>, found: Seq<SeekEntry>) -> Seq<SeekEntry> {
    if found.len() == 0 { a } else { merged_entries(a, found) }
}

proof fn lemma_place_bounds(s: Seq<SeekEntry>, e: SeekEntry, k: SeekKey)
    requires
        ordered(s, k),
    ensures
        0 <= place_of(s, e, k) <= s.len(),
        forall|i: int| 0 <= i < place_of(s, e, k) ==> key_of(#[trigger] s[i], k) <= key_of(e, k),
        forall|i: int| place_of(s, e, k) <= i < s.len() ==> key_of(#[trigger] s[i], k) > key_of(e, k),
    decreases s.len(),
{
    if s.len() > 0 && key_of(s.last(), k) > key_of(e, k) {
        let t = s.drop_last();
        assert(ordered(t, k)) by {
            assert forall|i: int, j: int| 0 <= i <= j < t.len() implies key_of(#[trigger] t[i], k) <= key_of(#[trigger] t[j], k) by {
                assert(t[i] == s[i] && t[j] == s[j]);
            }
        }
        lemma_place_bounds(t, e, k);
        assert forall|i: int| 0 <= i < place_of(s, e, k) implies key_of(#[trigger] s[i], k) <= key_of(e, k) by {
            assert(t[i] == s[i]);
        }
        assert forall|i: int| place_of(s, e, k) <= i < s.len() implies key_of(#[trigger] s[i], k) > key_of(e, k) by {
            if i < t.len() {
                assert(t[i] == s[i]);
            }
        }
    } else if s.len() > 0 {
        assert forall|i: int| 0 <= i < s.len() implies key_of(#[trigger] s[i], k) <= key_of(e, k) by {
            assert(key_of(s[i], k) <= key_of(s[s.len() - 1], k));
        }
    }
}

/// Sorting keeps every entry and puts them in order.
pub proof fn law_sorting(s: Seq<SeekEntry>, k: SeekKey)
    ensures
        ordered(sorted_by(s, k), k),
        sorted_by(s, k).to_multiset() == s.to_multiset(),
        sorted_by(s, k).len() == s.len(),
    decreases s.len(),
{
    broadcast use vstd::seq_lib::group_to_multiset_ensures;

    if s.len() > 0 {
        let t = sorted_by(s.drop_last(), k);
        let e = s.last();
        law_sorting(s.drop_last(), k);
        lemma_place_bounds(t, e, k);
        let p = place_of(t, e, k);
        let r = t.insert(p, e);
        assert forall|i: int, j: int| 0 <= i <= j < r.len() implies key_of(#[trigger] r[i], k) <= key_of(#[trigger] r[j], k) by {
            let a = if i < p { t[i] } else if i == p { e } else { t[i - 1] };
            let b = if j < p { t[j] } else if j == p { e } else { t[j - 1] };
            assert(r[i] == a && r[j] == b);
        }
        assert(s =~= s.drop_last().push(e));
        assert(r.to_multiset() =~= t.to_multiset().insert(e));
    }
}

/// Sorting an ordered sequence changes nothing.
pub proof fn law_sorting_ordered(s: Seq<SeekEntry>, k: SeekKey)
    requires
        ordered(s, k),
    ensures
        sorted_by(s, k) == s,
    decreases s.len(),
{
    if s.len() > 0 {
        let t = s.drop_last();
        assert forall|i: int, j: int| 0 <= i <= j < t.len() implies key_of(#[trigger] t[i], k) <= key_of(#[trigger] t[j], k) by {
            assert(t[i] == s[i] && t[j] == s[j]);
        }
        law_sorting_ordered(t, k);
        if t.len() > 0 {
            assert(key_of(s[t.len() - 1], k) <= key_of(s[s.len() - 1], k));
        }
        assert(t.insert(t.len() as int, s.last()) =~= s);
    }
}

/// A merged index has strictly ascending offsets.
pub proof fn law_merge_ascending(a: Seq<SeekEntry>, b: Seq<SeekEntry>)
    ensures
        ({
            let m = merged_entries(a, b);
            forall|i: int, j: int| 0 <= i < j < m.len() ==> (#[trigger] m[i]).byte_offset < (#[trigger] m[j]).byte_offset
        }),
{
    law_sorting(a + b, SeekKey::Offset);
    lemma_dedup_ascending(sorted_by(a + b, SeekKey::Offset));
}

proof fn lemma_dedup_ascending(s: Seq<SeekEntry>)
    requires
        ordered(s, SeekKey::Offset),
    ensures
        forall|i: int, j: int| 0 <= i < j < deduped(s).len() ==> (#[trigger] deduped(s)[i]).byte_offset < (#[trigger] deduped(s)[j]).byte_offset,
        s.len() > 0 ==> deduped(s).len() > 0 && deduped(s).last().byte_offset == s.last().byte_offset,
        s.len() == 0 ==> deduped(s).len() == 0,
    decreases s.len(),
{
    if s.len() > 1 {
        let t = s.drop_last();
        assert(ordered(t, SeekKey::Offset)) by {
            assert forall|i: int, j: int| 0 <= i <= j < t.len() implies key_of(#[trigger] t[i], SeekKey::Offset) <= key_of(#[trigger] t[j], SeekKey::Offset) by {
                assert(t[i] == s[i] && t[j] == s[j]);
            }
        }
        lemma_dedup_ascending(t);
        let d = deduped(t);
        let r = deduped(s);
        assert(t.last() == s[s.len() - 2]);
        assert(key_of(s[s.len() - 2], SeekKey::Offset) <= key_of(s[s.len() - 1], SeekKey::Offset));
        assert forall|i: int, j: int| 0 <= i < j < r.len() implies (#[trigger] r[i]).byte_offset < (#[trigger] r[j]).byte_offset by {
            if j < d.len() {
                assert(r[i] == d[i] && r[j] == d[j]);
            } else {
                assert(r[i] == d[i]);
                if i < d.len() - 1 {
                    assert(d[i].byte_offset < d[d.len() - 1].byte_offset);
                }
            }
        }
    }
}

/// Merging keeps the offsets of both indexes and brings no others.
pub proof fn law_merge_offsets(a: Seq<SeekEntry>, b: Seq<SeekEntry>, offset: u64)
    ensures
        has_offset(merged_entries(a, b), offset) <==> has_offset(a, offset) || has_offset(b, offset),
{
    let s = sorted_by(a + b, SeekKey::Offset);
    law_sorting(a + b, SeekKey::Offset);
    lemma_dedup_offsets(s, offset);
    lemma_same_multiset_offsets(s, a + b, offset);
    if has_offset(a, offset) {
        let i = choose|i: int| 0 <= i < a.len() && (#[trigger] a[i]).byte_offset == offset;
        assert((a + b)[i].byte_offset == offset);
    }
    if has_offset(b, offset) {
        let i = choose|i: int| 0 <= i < b.len() && (#[trigger] b[i]).byte_offset == offset;
        assert((a + b)[a.len() + i].byte_offset == offset);
    }
    if has_offset(a + b, offset) {
        let i = choose|i: int| 0 <= i < (a + b).len() && (#[trigger] (a + b)[i]).byte_offset == offset;
        if i < a.len() {
            assert(a[i].byte_offset == offset);
        } else {
            assert(b[i - a.len()].byte_offset == offset);
        }
    }
}

proof fn lemma_dedup_subset(s: Seq<SeekEntry>, e: SeekEntry)
    requires
        deduped(s).contains(e),
    ensures
        s.contains(e),
    decreases s.len(),
{
    if s.len() > 1 {
        let t = s.drop_last();
        let i = choose|i: int| 0 <= i < deduped(s).len() && deduped(s)[i] == e;
        if i < deduped(t).len() {
            assert(deduped(t)[i] == e);
            lemma_dedup_subset(t, e);
            let j = choose|j: int| 0 <= j < t.len() && t[j] == e;
            assert(s[j] == e);
        } else {
            assert(s[s.len() - 1] == e);
        }
    }
}

/// Every entry of a merged index is an entry of one of the two.
pub proof fn law_merge_entries(a: Seq<SeekEntry>, b: Seq<SeekEntry>, e: SeekEntry)
    requires
        merged_entries(a, b).contains(e),
    ensures
        a.contains(e) || b.contains(e),
{
    let s = sorted_by(a + b, SeekKey::Offset);
    lemma_dedup_subset(s, e);
    law_sorting(a + b, SeekKey::Offset);
    assert(s.to_multiset().count(e) > 0) by {
        s.to_multiset_ensures();
    }
    (a + b).to_multiset_ensures();
    let i = choose|i: int| 0 <= i < (a + b).len() && (a + b)[i] == e;
    if i < a.len() {
        assert(a[i] == e);
    } else {
        assert(b[i - a.len()] == e);
    }
}

/// Whether some entry has the offset.
pub open spec fn has_offset(s: Seq<SeekEntry>, offset: u64) -> bool {
    exists|i: int| 0 <= i < s.len() && (#[trigger] s[i]).byte_offset == offset
}

proof fn lemma_dedup_offsets(s: Seq<SeekEntry>, offset: u64)
    ensures
        has_offset(deduped(s), offset) == has_offset(s, offset),
        s.len() > 0 ==> deduped(s).len() > 0 && deduped(s).last().byte_offset == s.last().byte_offset,
    decreases s.len(),
{
    if s.len() > 1 {
        let t = s.drop_last();
        let d = deduped(t);
        let r = deduped(s);
        lemma_dedup_offsets(t, offset);
        assert(t.last() == s[s.len() - 2]);
        if has_offset(s, offset) {
            let i = choose|i: int| 0 <= i < s.len() && (#[trigger] s[i]).byte_offset == offset;
            if i < t.len() {
                assert(t[i].byte_offset == offset);
                let j = choose|j: int| 0 <= j < d.len() && (#[trigger] d[j]).byte_offset == offset;
                assert(r[j].byte_offset == offset);
            } else {
                assert(r[r.len() - 1].byte_offset == offset);
            }
        }
        if has_offset(r, offset) {
            let j = choose|j: int| 0 <= j < r.len() && (#[trigger] r[j]).byte_offset == offset;
            if j < d.len() {
                assert(d[j].byte_offset == offset);
                let i = choose|i: int| 0 <= i < t.len() && (#[trigger] t[i]).byte_offset == offset;
                assert(s[i].byte_offset == offset);
            } else {
                assert(s[s.len() - 1].byte_offset == offset);
            }
        }
    }
}

proof fn lemma_same_multiset_offsets(s: Seq<SeekEntry>, t: Seq<SeekEntry>, offset: u64)
    requires
        s.to_multiset() == t.to_multiset(),
    ensures
        has_offset(s, offset) == has_offset(t, offset),
{
    broadcast use vstd::seq_lib::group_to_multiset_ensures;

    if has_offset(s, offset) {
        let i = choose|i: int| 0 <= i < s.len() && (#[trigger] s[i]).byte_offset == offset;
        assert(s.contains(s[i]));
        assert(t.to_multiset().count(s[i]) > 0);
        assert(t.contains(s[i]));
        let j = choose|j: int| 0 <= j < t.len() && t[j] == s[i];
        assert(t[j].byte_offset == offset);
    }
    if has_offset(t, offset) {
        let i = choose|i: int| 0 <= i < t.len() && (#[trigger] t[i]).byte_offset == offset;
        assert(t.contains(t[i]));
        assert(s.to_multiset().count(t[i]) > 0);
        assert(s.contains(t[i]));
        let j = choose|j: int| 0 <= j < s.len() && s[j] == t[i];
        assert(s[j].byte_offset == offset);
    }
}

/// Whether one key is not larger than another.
fn not_after(a: &SeekEntry, b: &SeekEntry, k: SeekKey) -> (r: bool)
    ensures
        r == (key_of(*a, k) <= key_of(*b, k)),
{
    match k {
        SeekKey::Timestamp => a.timestamp_us <= b.timestamp_us,
        SeekKey::Offset => a.byte_offset <= b.byte_offset,
    }
}

/// Sort entries by a key; equal ones keep their order.
fn sort_entries(v: &Vec<SeekEntry>, k: SeekKey) -> (r: Vec<SeekEntry>)
    ensures
        r@ == sorted_by(v@, k),
        ordered(r@, k),
{
    let mut r: Vec<SeekEntry> = Vec::new();
    let mut i: usize = 0;
    while i < v.len()
        invariant
            i <= v.len(),
            r.len() == i,
            r@ == sorted_by(v@.take(i as int), k),
        decreases v.len() - i,
    {
        let e: SeekEntry = v[i];
        let ghost t = r@;
        let mut p: usize = r.len();
        assert(t.take(p as int) =~= t);
        while p > 0 && !not_after(&r[p - 1], &e, k)
            invariant
                p <= r.len(),
                r@ == t,
                place_of(t, e, k) == place_of(t.take(p as int), e, k),
            decreases p,
        {
            assert(t.take(p as int).drop_last() =~= t.take(p - 1));
            p = p - 1;
        }
        assert(place_of(t, e, k) == p);
        r.insert(p, e);
        assert(v@.take(i + 1).drop_last() =~= v@.take(i as int));
        i = i + 1;
    }
    assert(v@.take(v.len() as int) =~= v@);
    proof {
        law_sorting(v@, k);
    }
    r
}

/// Index of keyframe positions for fast seeking via HTTP Range requests.
///
/// Built from container metadata:
/// - MP4: stss (sync sample table) + stco/co64 (chunk offset table)
/// - MKV: Cluster positions
#[derive(Debug)]
pub struct SeekIndex {
    pub entries: Vec<SeekEntry>,
}

impl View for SeekIndex {
    type V = Seq<SeekEntry>;

    open spec fn view(&self) -> Seq<SeekEntry> {
        self.entries@
    }
}

/// Whether `e` is the answer to a lookup of `timestamp_us`: it stands at or
/// before the target, and the next entry stands behind it.
pub open spec fn is_keyframe_for(s: Seq<SeekEntry>, timestamp_us: int, i: int) -> bool {
    &&& 0 <= i < s.len()
    &&& s[i].timestamp_us <= timestamp_us
    &&& i + 1 < s.len() ==> s[i + 1].timestamp_us > timestamp_us
}

/// In an index ordered by time, a lookup finds the latest entry that is not
/// behind the target, and nothing only where every entry is behind it.
pub proof fn law_lookup_latest(s: Seq<SeekEntry>, timestamp_us: int, i: int)
    requires
        ordered(s, SeekKey::Timestamp),
        is_keyframe_for(s, timestamp_us, i),
    ensures
        forall|j: int| 0 <= j < s.len() ==> ((#[trigger] s[j]).timestamp_us <= timestamp_us <==> j <= i),
{
    assert forall|j: int| 0 <= j < s.len() implies ((#[trigger] s[j]).timestamp_us <= timestamp_us <==> j <= i) by {
        if j <= i {
            assert(key_of(s[j], SeekKey::Timestamp) <= key_of(s[i], SeekKey::Timestamp));
        } else {
            assert(key_of(s[i + 1], SeekKey::Timestamp) <= key_of(s[j], SeekKey::Timestamp));
        }
    }
}

/// How many entries a binary search between `lo` and `hi` puts before the target.
pub open spec fn search(s: Seq<SeekEntry>, timestamp_us: int, lo: int, hi: int) -> int
    decreases hi - lo,
{
    if lo >= hi {
        lo
    } else {
        let mid = lo + (hi - lo) / 2;
        if s[mid].timestamp_us <= timestamp_us {
            search(s, timestamp_us, mid + 1, hi)
        } else {
            search(s, timestamp_us, lo, mid)
        }
    }
}

/// The entry that a lookup finds: the last one before the place of the target.
pub open spec fn keyframe_for(s: Seq<SeekEntry>, timestamp_us: int) -> Option<SeekEntry> {
    let n = search(s, timestamp_us, 0, s.len() as int);
    if n > 0 { Some(s[n - 1]) } else { None }
}

impl SeekIndex {
    /// Create an empty seek index.
    pub fn new() -> (r: Self)
        ensures
            r@ == Seq::<SeekEntry>::empty(),
    {
        Self { entries: Vec::new() }
    }

    /// Create a seek index from a list of entries.
    /// Entries are sorted by timestamp on creation.
    pub fn from_entries(entries: Vec<SeekEntry>) -> (r: Self)
        ensures
            r@ == sorted_by(entries@, SeekKey::Timestamp),
            ordered(r@, SeekKey::Timestamp),
    {
        Self { entries: sort_entries(&entries, SeekKey::Timestamp) }
    }

    /// Returns true if the index has no entries.
    pub fn is_empty(&self) -> (r: bool)
        ensures
            r == (self@.len() == 0),
    {
        self.entries.is_empty()
    }

    /// Number of entries in the index.
    pub fn len(&self) -> (n: usize)
        ensures
            n == self@.len(),
    {
        self.entries.len()
    }

    /// Find the keyframe entry at or just before the given timestamp.
    /// Returns None if the index is empty or all entries are after the target.
    ///
    /// Uses binary search for O(log n) lookup.
    pub fn lookup_keyframe(&self, timestamp_us: i64) -> (r: Option<&SeekEntry>)
        ensures
            match r {
                Some(e) => exists|i: int| is_keyframe_for(self@, timestamp_us as int, i) && *e == #[trigger] self@[i],
                None => self@.len() == 0 || self@[0].timestamp_us > timestamp_us,
            },
            keyframe_for(self@, timestamp_us as int) == match r {
                Some(e) => Some(*e),
                None => None,
            },
    {
        let mut lo: usize = 0;
        let mut hi: usize = self.entries.len();
        while lo < hi
            invariant
                lo <= hi <= self.entries.len(),
                search(self@, timestamp_us as int, 0, self@.len() as int) == search(self@, timestamp_us as int, lo as int, hi as int),
                lo > 0 ==> self@[lo - 1].timestamp_us <= timestamp_us,
                hi < self.entries.len() ==> self@[hi as int].timestamp_us > timestamp_us,
            decreases hi - lo,
        {
            let mid: usize = lo + (hi - lo) / 2;
            if self.entries[mid].timestamp_us <= timestamp_us {
                lo = mid + 1;
            } else {
                hi = mid;
            }
        }
        if lo == 0 {
            None
        } else {
            assert(is_keyframe_for(self@, timestamp_us as int, lo - 1));
            Some(&self.entries[lo - 1])
        }
    }

    /// Get the first entry.
    pub fn first(&self) -> (r: Option<&SeekEntry>)
        ensures
            match r {
                Some(e) => self@.len() > 0 && *e == self@[0],
                None => self@.len() == 0,
            },
    {
        if self.entries.is_empty() { None } else { Some(&self.entries[0]) }
    }

    /// Get the last entry.
    pub fn last(&self) -> (r: Option<&SeekEntry>)
        ensures
            match r {
                Some(e) => self@.len() > 0 && *e == self@.last(),
                None => self@.len() == 0,
            },
    {
        if self.entries.is_empty() { None } else { Some(&self.entries[self.entries.len() - 1]) }
    }

    /// Merge entries from another SeekIndex, deduplicating by byte_offset.
    /// The result is sorted by byte_offset.
    pub fn merge(&mut self, other: SeekIndex)
        ensures
            final(self)@ == merged_entries(old(self)@, other@),
    {
        let mut all: Vec<SeekEntry> = copy_entries(&self.entries);
        let mut tail: Vec<SeekEntry> = other.entries;
        all.append(&mut tail);
        let sorted: Vec<SeekEntry> = sort_entries(&all, SeekKey::Offset);
        let mut r: Vec<SeekEntry> = Vec::new();
        let mut i: usize = 0;
        while i < sorted.len()
            invariant
                i <= sorted.len(),
                r@ == deduped(sorted@.take(i as int)),
            decreases sorted.len() - i,
        {
            assert(sorted@.take(i + 1).drop_last() =~= sorted@.take(i as int));
            if i == 0 || sorted[i - 1].byte_offset != sorted[i].byte_offset {
                r.push(sorted[i]);
            }
            assert(r@ =~= deduped(sorted@.take(i + 1)));
            i = i + 1;
        }
        assert(sorted@.take(sorted.len() as int) =~= sorted@);
        self.entries = r;
    }

    /// Take in entries that were found later, where there are any.
    pub fn add_found(&mut self, found: SeekIndex)
        ensures
            final(self)@ == entries_with(old(self)@, found@),
    {
        if !found.entries.is_empty() {
            self.merge(found);
        }
    }

    /// A copy of the index.
    pub fn copy(&self) -> (r: Self)
        ensures
            r@ == self@,
    {
        Self { entries: copy_entries(&self.entries) }
    }
}

fn copy_entries(v: &Vec<SeekEntry>) -> (r: Vec<SeekEntry>)
    ensures
        r@ == v@,
{
    let r: Vec<SeekEntry> = v.clone();
    assert(r@ =~= v@);
    r
}

/// A lookup in an index that is ordered by time gives the latest entry at or before the
/// target; it gives none only where every entry is behind it.
pub proof fn law_keyframe_is_latest(s: Seq<SeekEntry>, timestamp_us: int, j: int)
    requires
        ordered(s, SeekKey::Timestamp),
        0 <= j < s.len(),
    ensures
        match keyframe_for(s, timestamp_us) {
            Some(e) => {
                &&& s.contains(e)
                &&& e.timestamp_us <= timestamp_us
                &&& s[j].timestamp_us <= timestamp_us ==> s[j].timestamp_us <= e.timestamp_us
            },
            None => s[j].timestamp_us > timestamp_us,
        },
{
    lemma_search(s, timestamp_us, 0, s.len() as int);
    let n = search(s, timestamp_us, 0, s.len() as int);
    if n > 0 {
        assert(s[n - 1].timestamp_us <= timestamp_us);
        law_lookup_latest(s, timestamp_us, n - 1);
        if j <= n - 1 {
            assert(key_of(s[j], SeekKey::Timestamp) <= key_of(s[n - 1], SeekKey::Timestamp));
        }
    } else {
        assert(key_of(s[0], SeekKey::Timestamp) <= key_of(s[j], SeekKey::Timestamp));
    }
}

proof fn lemma_search(s: Seq<SeekEntry>, timestamp_us: int, lo: int, hi: int)
    requires
        0 <= lo <= hi <= s.len(),
        lo > 0 ==> s[lo - 1].timestamp_us <= timestamp_us,
        hi < s.len() ==> s[hi].timestamp_us > timestamp_us,
    ensures
        ({
            let n = search(s, timestamp_us, lo, hi);
            &&& lo <= n <= hi
            &&& n > 0 ==> s[n - 1].timestamp_us <= timestamp_us
            &&& n < s.len() ==> s[n].timestamp_us > timestamp_us
        }),
    decreases hi - lo,
{
    if lo < hi {
        let mid = lo + (hi - lo) / 2;
        if s[mid].timestamp_us <= timestamp_us {
            lemma_search(s, timestamp_us, mid + 1, hi);
        } else {
            lemma_search(s, timestamp_us, lo, mid);
        }
    }
}

} // verus!
