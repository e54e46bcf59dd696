//! MKV/WebM demuxer.

use vstd::prelude::*;
use vstd::string::*;

use crate::demux::codecs::{audio_codec_text, config_view, map_audio_codec, map_video_codec, video_codec_text};
use crate::demux::detect::is_ebml;
use crate::demux::ebml::{
    as_signed, cluster_entries, decode_ebml_vint, divide, limited_product, multiply_limited, neutralize_seekhead,
    quotient, scan_clusters_for_seek_index, to_signed, vint, without_seekhead,
};
use crate::demux::elements::{check_segment, find_first_hazard, first_hazard, mkv_fault, same_count};
use crate::demux::matroska::{
    duration_bits, mkv_duration_bits, mkv_outcome, mkv_position, mkv_timestamp_scale, mkv_tracks, next_frame,
    no_number, open, share, shared_bytes, timestamp_scale, track_at, track_count, unshare, MkvFrame, MkvFrameView,
    MkvOutcome, MkvPosition, MkvReader, MkvTrack, MkvTrackKind, MkvTrackView,
};
use crate::demux::types::{
    audio_views, entries_with, sorted_by, video_views, AudioTrackInfo, AudioView, ChunkView, ContainerFormat,
    DemuxError, DemuxFault, EncodedChunk, FrameRate, MediaInfo, MediaView, SeekEntry, SeekIndex, SeekKey,
    VideoTrackInfo, VideoView,
};

verus! {

// ---------------------------------------------------------------------------
// Duration
// ---------------------------------------------------------------------------

/// The bits that stand for no number.
pub const NO_NUMBER: u64 = 0x7ff8_0000_0000_0000;

/// The bits of a double-precision number, with one pattern for no number.
pub open spec fn settled(bits: u64) -> u64 {
    if no_number(bits) { NO_NUMBER } else { bits }
}

/// The bits of the duration of a Matroska file in ticks.
pub open spec fn mkv_duration(data: Seq<u8>) -> Option<u64> {
    match mkv_duration_bits(data) {
        Some(b) => Some(settled(b)),
        None => None,
    }
}

/// The bits of a double-precision number, with one pattern for no number.
pub fn settle(bits: u64) -> (r: u64)
    ensures
        r == settled(bits),
{
    if (bits / 0x10_0000_0000_0000) % 0x800 == 0x7ff && bits % 0x10_0000_0000_0000 != 0 {
        NO_NUMBER
    } else {
        bits
    }
}

// ---------------------------------------------------------------------------
// Tracks
// ---------------------------------------------------------------------------

/// The low 32 bits of `n`.
pub open spec fn low32(n: u64) -> u32 {
    (n % 0x1_0000_0000) as u32
}

/// The bytes of an optional record; none where it is missing.
pub open spec fn config_or_empty(c: Option<Seq<u8>>) -> Seq<u8> {
    match c {
        Some(v) => v,
        None => Seq::empty(),
    }
}

/// The metadata of a video track with the given picture size.
pub open spec fn video_track_view(t: MkvTrackView, size: (u64, u64)) -> VideoView {
    VideoView {
        track_id: low32(t.number),
        codec_string: video_codec_text(t.codec_id, t.codec_private),
        width: low32(size.0),
        height: low32(size.1),
        fps: match t.default_duration {
            Some(d) => Some(FrameRate { frames: 1, nanos: d }),
            None => None,
        },
        codec_config: config_or_empty(t.codec_private),
    }
}

/// The metadata of an audio track with the given sample rate and channels.
pub open spec fn audio_track_view(t: MkvTrackView, settings: (u32, u64)) -> AudioView {
    AudioView {
        track_id: low32(t.number),
        codec_string: audio_codec_text(t.codec_id),
        sample_rate: settings.0,
        channels: low32(settings.1),
        codec_config: config_or_empty(t.codec_private),
    }
}

/// The tracks of a file by kind, with their numbers.
#[verifier::ext_equal]
pub struct TrackLists {
    pub video: Seq<VideoView>,
    pub audio: Seq<AudioView>,
    pub video_ids: Seq<u64>,
    pub audio_ids: Seq<u64>,
}

/// The first `n` tracks by kind; a video or audio track without its settings is
/// an error.
pub open spec fn listed_tracks(tracks: Seq<MkvTrackView>, n: nat) -> Result<TrackLists, Seq<char>>
    decreases n,
{
    if n == 0 {
        Ok(TrackLists { video: Seq::empty(), audio: Seq::empty(), video_ids: Seq::empty(), audio_ids: Seq::empty() })
    } else {
        match listed_tracks(tracks, (n - 1) as nat) {
            Err(e) => Err(e),
            Ok(l) => {
                let t = tracks[n - 1];
                match t.kind {
                    MkvTrackKind::Video => match t.video {
                        None => Err("Video track without video settings"@),
                        Some(s) => Ok(
                            TrackLists {
                                video: l.video.push(video_track_view(t, s)),
                                video_ids: l.video_ids.push(t.number),
                                ..l
                            },
                        ),
                    },
                    MkvTrackKind::Audio => match t.audio {
                        None => Err("Audio track without audio settings"@),
                        Some(s) => Ok(
                            TrackLists {
                                audio: l.audio.push(audio_track_view(t, s)),
                                audio_ids: l.audio_ids.push(t.number),
                                ..l
                            },
                        ),
                    },
                    MkvTrackKind::Other => Ok(l),
                }
            },
        }
    }
}

/// A track that fails fails the whole file.
proof fn lemma_listed_fault(tracks: Seq<MkvTrackView>, n: nat, m: nat)
    requires
        n <= m,
    ensures
        listed_tracks(tracks, n) is Err ==> listed_tracks(tracks, m) == listed_tracks(tracks, n),
    decreases m - n,
{
    if n < m {
        lemma_listed_fault(tracks, n, (m - 1) as nat);
    }
}

struct Listed {
    video: Vec<VideoTrackInfo>,
    audio: Vec<AudioTrackInfo>,
    video_ids: Vec<u64>,
    audio_ids: Vec<u64>,
}

impl View for Listed {
    type V = TrackLists;

    closed spec fn view(&self) -> TrackLists {
        TrackLists {
            video: video_views(self.video@),
            audio: audio_views(self.audio@),
            video_ids: self.video_ids@,
            audio_ids: self.audio_ids@,
        }
    }
}

fn list_tracks(m: &MkvReader) -> (r: Result<Listed, DemuxError>)
    ensures
        ({
            let tracks = mkv_tracks(mkv_position(*m).data);
            match r {
                Ok(l) => listed_tracks(tracks, tracks.len()) == Ok::<TrackLists, Seq<char>>(l@),
                Err(e) => listed_tracks(tracks, tracks.len()) matches Err(t) && e@ == DemuxFault::InvalidData(t),
            }
        }),
{
    let ghost tracks = mkv_tracks(mkv_position(*m).data);
    let n: usize = track_count(m);
    let mut l: Listed = Listed { video: Vec::new(), audio: Vec::new(), video_ids: Vec::new(), audio_ids: Vec::new() };
    assert(l@ =~= listed_tracks(tracks, 0)->Ok_0);
    let mut i: usize = 0;
    while i < n
        invariant
            i <= n,
            tracks == mkv_tracks(mkv_position(*m).data),
            n == tracks.len(),
            listed_tracks(tracks, i as nat) == Ok::<TrackLists, Seq<char>>(l@),
        decreases n - i,
    {
        let t: MkvTrack = track_at(m, i);
        let ghost tv = t@;
        let ghost before = l@;
        proof {
            lemma_listed_fault(tracks, (i + 1) as nat, n as nat);
        }
        let codec_private: Option<Vec<u8>> = t.codec_private;
        match t.kind {
            MkvTrackKind::Video => {
                let (width, height): (u64, u64) = match t.video {
                    Some(s) => s,
                    None => {
                        return Err(DemuxError::InvalidData(String::from_str("Video track without video settings")));
                    },
                };
                let codec_string: String = map_video_codec(t.codec_id.as_str(), &codec_private);
                let fps: Option<FrameRate> = match t.default_duration {
                    Some(d) => Some(FrameRate { frames: 1, nanos: d }),
                    None => None,
                };
                let codec_config: Vec<u8> = match codec_private {
                    Some(v) => v,
                    None => Vec::new(),
                };
                let info: VideoTrackInfo = VideoTrackInfo {
                    track_id: (t.number % 0x1_0000_0000) as u32,
                    codec_string,
                    width: (width % 0x1_0000_0000) as u32,
                    height: (height % 0x1_0000_0000) as u32,
                    fps,
                    codec_config,
                };
                assert(info@ =~= video_track_view(tv, tv.video->Some_0));
                l.video.push(info);
                l.video_ids.push(t.number);
                assert(l@.video =~= before.video.push(video_track_view(tv, tv.video->Some_0)));
            },
            MkvTrackKind::Audio => {
                let (sample_rate, channels): (u32, u64) = match t.audio {
                    Some(s) => s,
                    None => {
                        return Err(DemuxError::InvalidData(String::from_str("Audio track without audio settings")));
                    },
                };
                let codec_string: String = map_audio_codec(t.codec_id.as_str());
                let codec_config: Vec<u8> = match codec_private {
                    Some(v) => v,
                    None => Vec::new(),
                };
                let info: AudioTrackInfo = AudioTrackInfo {
                    track_id: (t.number % 0x1_0000_0000) as u32,
                    codec_string,
                    sample_rate,
                    channels: (channels % 0x1_0000_0000) as u32,
                    codec_config,
                };
                assert(info@ =~= audio_track_view(tv, tv.audio->Some_0));
                l.audio.push(info);
                l.audio_ids.push(t.number);
                assert(l@.audio =~= before.audio.push(audio_track_view(tv, tv.audio->Some_0)));
            },
            MkvTrackKind::Other => {},
        }
        assert(l@ =~= listed_tracks(tracks, (i + 1) as nat)->Ok_0);
        i = i + 1;
    }
    Ok(l)
}

// ---------------------------------------------------------------------------
// Frames
// ---------------------------------------------------------------------------

/// Ticks of `scale_ns` nanoseconds as microseconds, limited to 64 bits.
pub open spec fn ticks_us(ticks: u64, scale_ns: u64) -> i64 {
    quotient(limited_product(as_signed(ticks) as int, as_signed(scale_ns) as int), 1000) as i64
}

fn ticks_to_us(ticks: u64, scale_ns: u64) -> (r: i64)
    ensures
        r == ticks_us(ticks, scale_ns),
{
    divide(multiply_limited(to_signed(ticks), to_signed(scale_ns)), 1000)
}

/// The chunk that a frame makes. A frame without a keyframe mark counts as one on
/// an audio track and as none elsewhere.
pub open spec fn chunk_of(f: MkvFrameView, video_ids: Seq<u64>, audio_ids: Seq<u64>, scale_ns: u64) -> ChunkView {
    ChunkView {
        track_id: low32(f.track),
        is_video: video_ids.contains(f.track),
        is_audio: audio_ids.contains(f.track),
        is_keyframe: match f.is_keyframe {
            Some(k) => k,
            None => audio_ids.contains(f.track),
        },
        timestamp_us: ticks_us(f.timestamp, scale_ns),
        duration_us: match f.duration {
            Some(d) => ticks_us(d, scale_ns),
            None => 0,
        },
        data: f.data,
    }
}

fn contains_id(ids: &Vec<u64>, id: u64) -> (r: bool)
    ensures
        r == ids@.contains(id),
{
    let mut i: usize = 0;
    while i < ids.len()
        invariant
            i <= ids.len(),
            forall|j: int| 0 <= j < i ==> ids[j] != id,
        decreases ids.len() - i,
    {
        if ids[i] == id {
            return true;
        }
        i = i + 1;
    }
    false
}

/// What a call for a frame gives that follows `n` others: an error where it would
/// reach a sum that is too large for a machine word, else what the reader gives.
pub open spec fn mkv_given(data: Seq<u8>, n: nat) -> MkvOutcome {
    match first_hazard(data) {
        Some(h) if h <= n => MkvOutcome::Fault("block is not sound"@),
        _ => mkv_outcome(data, n),
    }
}

/// How many frames stand before the keyframe that a seek to `target_us` lands on:
/// the last video keyframe at or before the target among the frames from `count`
/// on, up to the first frame behind the target; `skip` where there is none.
pub open spec fn seek_scan(data: Seq<u8>, video_ids: Seq<u64>, scale_ns: u64, target_us: i64, count: nat, skip: nat) -> Result<nat, Seq<char>>
    decreases usize::MAX - count,
{
    if count >= usize::MAX {
        Ok(skip)
    } else {
        match mkv_given(data, count) {
            MkvOutcome::End => Ok(skip),
            MkvOutcome::Fault(t) => Err(t),
            MkvOutcome::Frame(f) => {
                let time = ticks_us(f.timestamp, scale_ns);
                let next = if video_ids.contains(f.track) && f.is_keyframe == Some(true) && time <= target_us {
                    count
                } else {
                    skip
                };
                if time > target_us {
                    Ok(next)
                } else {
                    seek_scan(data, video_ids, scale_ns, target_us, count + 1, next)
                }
            },
        }
    }
}

/// Whether the frame behind `n` others is a video keyframe at or before the
/// target.
pub open spec fn keyframe_before(data: Seq<u8>, video_ids: Seq<u64>, scale_ns: u64, target_us: i64, n: nat) -> bool {
    mkv_given(data, n) matches MkvOutcome::Frame(f) && video_ids.contains(f.track) && f.is_keyframe == Some(true)
        && ticks_us(f.timestamp, scale_ns) <= target_us
}

/// Whether the first `n` frames all exist and none of them is behind the target.
pub open spec fn frames_up_to(data: Seq<u8>, scale_ns: u64, target_us: i64, n: nat) -> bool {
    forall|i: nat|
        i < n ==> (#[trigger] mkv_given(data, i) is Frame && ticks_us(mkv_given(data, i)->Frame_0.timestamp, scale_ns) <= target_us)
}

/// A seek lands on the first frame or on a video keyframe that is not behind the
/// target, behind frames that are not behind it either; and no keyframe that it
/// could reach in this way stands later.
pub proof fn law_seek_lands_on_keyframe(data: Seq<u8>, video_ids: Seq<u64>, scale_ns: u64, target_us: i64)
    ensures
        seek_scan(data, video_ids, scale_ns, target_us, 0, 0) matches Ok(n) ==> {
            &&& n == 0 || keyframe_before(data, video_ids, scale_ns, target_us, n)
            &&& frames_up_to(data, scale_ns, target_us, n)
            &&& forall|k: nat|
                n < k < usize::MAX && frames_up_to(data, scale_ns, target_us, k)
                    ==> !#[trigger] keyframe_before(data, video_ids, scale_ns, target_us, k)
        },
{
    lemma_seek_scan(data, video_ids, scale_ns, target_us, 0, 0);
}

proof fn lemma_seek_scan(data: Seq<u8>, video_ids: Seq<u64>, scale_ns: u64, target_us: i64, count: nat, skip: nat)
    requires
        skip <= count <= usize::MAX,
        skip == 0 || keyframe_before(data, video_ids, scale_ns, target_us, skip),
        frames_up_to(data, scale_ns, target_us, count),
        forall|k: nat| skip < k < count ==> !#[trigger] keyframe_before(data, video_ids, scale_ns, target_us, k),
    ensures
        seek_scan(data, video_ids, scale_ns, target_us, count, skip) matches Ok(n) ==> {
            &&& n == 0 || keyframe_before(data, video_ids, scale_ns, target_us, n)
            &&& frames_up_to(data, scale_ns, target_us, n)
            &&& forall|k: nat|
                n < k < usize::MAX && frames_up_to(data, scale_ns, target_us, k)
                    ==> !#[trigger] keyframe_before(data, video_ids, scale_ns, target_us, k)
        },
    decreases usize::MAX - count,
{
    if count < usize::MAX {
        match mkv_given(data, count) {
            MkvOutcome::Frame(f) => {
                let time = ticks_us(f.timestamp, scale_ns);
                let hit = video_ids.contains(f.track) && f.is_keyframe == Some(true) && time <= target_us;
                let next = if hit { count } else { skip };
                assert(hit == keyframe_before(data, video_ids, scale_ns, target_us, count));
                if time <= target_us {
                    lemma_seek_scan(data, video_ids, scale_ns, target_us, count + 1, next);
                }
            },
            _ => {},
        }
        assert forall|k: nat| skip < k < usize::MAX && frames_up_to(data, scale_ns, target_us, k) && k > count
            && !(mkv_given(data, count) is Frame && ticks_us(mkv_given(data, count)->Frame_0.timestamp, scale_ns) <= target_us)
            implies !#[trigger] keyframe_before(data, video_ids, scale_ns, target_us, k) by {
            assert(mkv_given(data, count) is Frame);
        }
    }
}

// ---------------------------------------------------------------------------
// Demuxer
// ---------------------------------------------------------------------------

/// Why a reader gives no more frames.
#[derive(Debug)]
pub enum MkvStop {
    End,
    Fault(String),
}

impl MkvStop {
    /// The outcome that it stands for.
    pub open spec fn outcome(&self) -> MkvOutcome {
        match self {
            MkvStop::End => MkvOutcome::End,
            MkvStop::Fault(t) => MkvOutcome::Fault(t@),
        }
    }
}

/// MKV/WebM demuxer using the `matroska-demuxer` crate.
pub struct MkvDemuxer {
    pub mkv: Option<MkvReader>,
    pub media_info: Option<MediaInfo>,
    pub video_track_ids: Vec<u64>,
    pub audio_track_ids: Vec<u64>,
    /// Number of frames read so far (for resume after re-creation).
    pub frames_read: usize,
    /// Pre-computed seek index from Cluster scanning.
    pub seek_index: SeekIndex,
    /// TimestampScale in nanoseconds (default 1_000_000 = 1ms per tick).
    /// Used to convert frame timestamps (ticks) to microseconds.
    pub timestamp_scale_ns: u64,
    /// Byte offset up to which Clusters have already been scanned.
    pub last_scanned_offset: usize,
    /// Raw buffer used during parse_header, kept for seek rewind.
    pub raw_data: Option<bytes::Bytes>,
    /// Why the reader gives no more frames, once it has told.
    pub stop: Option<MkvStop>,
    /// How many calls for a frame can be made on a fresh reader, where not all can.
    pub hazard: Option<u128>,
    /// How many of them are left.
    pub left: Option<u128>,
}

/// The state of a Matroska demuxer.
#[verifier::ext_equal]
pub struct MkvView {
    pub reader: Option<MkvPosition>,
    pub media_info: Option<MediaView>,
    pub video_ids: Seq<u64>,
    pub audio_ids: Seq<u64>,
    pub frames_read: int,
    pub seek_index: Seq<SeekEntry>,
    pub scale_ns: u64,
    pub scanned: int,
}

/// One more than `n`, at most the largest machine word.
pub open spec fn counted(n: int) -> int {
    if n < usize::MAX {
        n + 1
    } else {
        n
    }
}

/// A demuxer that has parsed nothing.
pub open spec fn fresh_mkv() -> MkvView {
    MkvView {
        reader: None,
        media_info: None,
        video_ids: Seq::empty(),
        audio_ids: Seq::empty(),
        frames_read: 0,
        seek_index: Seq::empty(),
        scale_ns: 1_000_000,
        scanned: 0,
    }
}

/// The media information of a file. The duration is a floating-point number of
/// ticks and is left out.
pub open spec fn mkv_media(l: TrackLists) -> MediaView {
    MediaView { container: ContainerFormat::Mkv, duration_us: None, video_tracks: l.video, audio_tracks: l.audio }
}

/// The demuxer once it has parsed `data`.
pub open spec fn mkv_parsed(v: MkvView, data: Seq<u8>) -> Result<MkvView, DemuxFault> {
    match mkv_fault(data) {
        Some(t) => Err(DemuxFault::InvalidData("MKV parse error: "@ + t)),
        None => {
            let tracks = mkv_tracks(data);
            match listed_tracks(tracks, tracks.len()) {
                Err(t) => Err(DemuxFault::InvalidData(t)),
                Ok(l) => {
                    let scale = mkv_timestamp_scale(data);
                    Ok(
                        MkvView {
                            reader: Some(MkvPosition { data, calls: 0 }),
                            media_info: Some(mkv_media(l)),
                            video_ids: l.video_ids,
                            audio_ids: l.audio_ids,
                            frames_read: v.frames_read,
                            seek_index: entries_with(
                                v.seek_index,
                                sorted_by(cluster_entries(data, scale, v.scanned), SeekKey::Timestamp),
                            ),
                            scale_ns: scale,
                            scanned: data.len() as int,
                        },
                    )
                },
            }
        },
    }
}

/// The error of a demuxer that has parsed nothing.
pub open spec fn no_header() -> DemuxFault {
    DemuxFault::InvalidData("No header parsed yet"@)
}

/// The demuxer behind a frame.
pub open spec fn mkv_stepped(v: MkvView) -> MkvView {
    match v.reader {
        None => v,
        Some(p) => MkvView {
            reader: Some(MkvPosition { data: p.data, calls: p.calls + 1 }),
            frames_read: counted(v.frames_read),
            ..v
        },
    }
}

/// The next chunk, and the demuxer after it. At the end and at an error it stays
/// where it is.
pub open spec fn mkv_next(v: MkvView) -> (Result<Option<ChunkView>, DemuxFault>, MkvView) {
    match v.reader {
        None => (Err(no_header()), v),
        Some(p) => match mkv_given(p.data, p.calls) {
            MkvOutcome::Frame(f) => (Ok(Some(chunk_of(f, v.video_ids, v.audio_ids, v.scale_ns))), mkv_stepped(v)),
            MkvOutcome::End => (Ok(None), v),
            MkvOutcome::Fault(t) => (Err(DemuxFault::InvalidData("MKV frame error: "@ + t)), v),
        },
    }
}

/// The demuxer after at most `n` skipped frames; an error ends the skipping.
pub open spec fn mkv_skipped(v: MkvView, n: nat) -> (Result<(), DemuxFault>, MkvView)
    decreases n,
{
    match v.reader {
        None => (Err(no_header()), v),
        Some(p) => if n == 0 {
            (Ok(()), v)
        } else {
            match mkv_given(p.data, p.calls) {
                MkvOutcome::Frame(f) => mkv_skipped(mkv_stepped(v), (n - 1) as nat),
                MkvOutcome::End => (Ok(()), v),
                MkvOutcome::Fault(t) => (Err(DemuxFault::InvalidData("Skip error: "@ + t)), v),
            }
        },
    }
}

/// The demuxer once it stands `n` frames behind the start of its data.
pub open spec fn mkv_at(v: MkvView, n: nat) -> MkvView {
    match v.reader {
        None => v,
        Some(p) => MkvView { reader: Some(MkvPosition { data: p.data, calls: n }), frames_read: n as int, ..v },
    }
}

/// The demuxer after a seek.
pub open spec fn mkv_sought(v: MkvView, target_us: i64) -> (Result<(), DemuxFault>, MkvView) {
    match v.reader {
        None => (Err(no_header()), v),
        Some(p) => match seek_scan(p.data, v.video_ids, v.scale_ns, target_us, 0, 0) {
            Err(t) => (Err(DemuxFault::InvalidData("MKV seek scan error: "@ + t)), v),
            Ok(n) => (Ok(()), mkv_at(v, n)),
        },
    }
}

/// The time of frame `n`, if there is one.
pub open spec fn frame_time(data: Seq<u8>, scale_ns: u64, n: nat) -> Option<i64> {
    match mkv_given(data, n) {
        MkvOutcome::Frame(f) => Some(ticks_us(f.timestamp, scale_ns)),
        _ => None,
    }
}

/// The time of the frame at which a demuxer stands.
pub open spec fn mkv_stands_at(v: MkvView) -> Option<i64> {
    match mkv_next(v).0 {
        Ok(Some(c)) => Some(c.timestamp_us),
        _ => None,
    }
}

/// After a seek the next chunk is the keyframe that the seek landed on, or the
/// first frame where no keyframe stands before the target.
pub proof fn law_seek_then_next(v: MkvView, target_us: i64)
    requires
        v.reader is Some,
        mkv_sought(v, target_us).0 is Ok,
    ensures
        ({
            let p = v.reader->Some_0;
            let n = seek_scan(p.data, v.video_ids, v.scale_ns, target_us, 0, 0)->Ok_0;
            let w = mkv_sought(v, target_us).1;
            &&& mkv_given(p.data, n) matches MkvOutcome::Frame(f) ==> mkv_next(w).0 == Ok::<Option<ChunkView>, DemuxFault>(
                Some(chunk_of(f, v.video_ids, v.audio_ids, v.scale_ns)),
            )
            &&& n > 0 ==> (mkv_next(w).0 matches Ok(Some(c)) && c.is_video && c.is_keyframe && c.timestamp_us <= target_us)
        }),
{
    let p = v.reader->Some_0;
    law_seek_lands_on_keyframe(p.data, v.video_ids, v.scale_ns, target_us);
}

/// The time that a seek tells is not behind the target, unless the seek ends at the
/// first frame.
pub proof fn law_seek_tells_earlier_time(v: MkvView, target_us: i64)
    requires
        v.reader is Some,
        mkv_sought(v, target_us).0 is Ok,
        mkv_sought(v, target_us).1.frames_read > 0,
    ensures
        mkv_stands_at(mkv_sought(v, target_us).1) matches Some(t) && t <= target_us,
{
    law_seek_then_next(v, target_us);
}

/// Skipping `n` frames and then `m` frames leads where skipping all of them at
/// once leads.
pub proof fn law_skip_adds(v: MkvView, n: nat, m: nat)
    requires
        mkv_skipped(v, n).0 is Ok,
        mkv_skipped(v, n + m).0 is Ok,
        v.reader matches Some(p) ==> forall|i: nat| i < n ==> #[trigger] mkv_given(p.data, p.calls + i) is Frame,
    ensures
        mkv_skipped(mkv_skipped(v, n).1, m) == mkv_skipped(v, n + m),
    decreases n,
{
    if n > 0 {
        match v.reader {
            Some(p) => {
                assert(mkv_given(p.data, p.calls + 0) is Frame);
                let w = mkv_stepped(v);
                let q = w.reader->Some_0;
                assert forall|i: nat| i < (n - 1) as nat implies #[trigger] mkv_given(q.data, q.calls + i) is Frame by {
                    assert(q.calls + i == p.calls + (i + 1));
                    assert(mkv_given(p.data, p.calls + (i + 1)) is Frame);
                }
                assert((n + m - 1) as nat == ((n - 1) as nat) + m);
                law_skip_adds(w, (n - 1) as nat, m);
            },
            None => {},
        }
    }
}

/// Whether the first `n` calls for a frame give one.
pub open spec fn frames_given(data: Seq<u8>, n: nat) -> bool {
    forall|i: nat| i < n ==> #[trigger] mkv_given(data, i) is Frame
}

/// Frames that were given came from the reader, and no call for them reached a sum
/// that is too large.
proof fn lemma_frames_read(data: Seq<u8>, n: nat)
    requires
        frames_given(data, n),
    ensures
        forall|i: nat| i < n ==> #[trigger] mkv_outcome(data, i) is Frame,
        first_hazard(data) matches Some(h) ==> n <= h,
{
    assert forall|i: nat| i < n implies #[trigger] mkv_outcome(data, i) is Frame by {
        assert(mkv_given(data, i) is Frame);
    }
    if let Some(h) = first_hazard(data) {
        if h < n {
            assert(mkv_given(data, h) is Frame);
        }
    }
}

impl View for MkvDemuxer {
    type V = MkvView;

    open spec fn view(&self) -> MkvView {
        MkvView {
            reader: match (self.mkv, self.stop) {
                (Some(m), None) => Some(mkv_position(m)),
                (Some(m), Some(_)) => Some(MkvPosition { calls: (mkv_position(m).calls - 1) as nat, ..mkv_position(m) }),
                (None, _) => None,
            },
            media_info: match self.media_info {
                Some(i) => Some(i@),
                None => None,
            },
            video_ids: self.video_track_ids@,
            audio_ids: self.audio_track_ids@,
            frames_read: self.frames_read as int,
            seek_index: self.seek_index@,
            scale_ns: self.timestamp_scale_ns,
            scanned: self.last_scanned_offset as int,
        }
    }
}

/// The last of the leading entries whose offset is not behind `byte_offset`.
pub open spec fn entry_before(s: Seq<SeekEntry>, byte_offset: u64, n: int) -> Option<SeekEntry>
    decreases s.len() - n,
{
    if n < 0 || n >= s.len() || s[n].byte_offset > byte_offset {
        if 0 < n <= s.len() {
            Some(s[n - 1])
        } else {
            None
        }
    } else {
        entry_before(s, byte_offset, n + 1)
    }
}

impl MkvDemuxer {
    /// The buffer kept for rewinding is the one that the reader was opened on. All
    /// that it has given are frames, but for the last answer where it has stopped.
    /// No call has reached a sum that is too large, and how many more can be made is
    /// known.
    pub open spec fn wf(&self) -> bool {
        self.mkv matches Some(m) ==> {
            &&& self.raw_data matches Some(b) && shared_bytes(b) == mkv_position(m).data
            &&& mkv_fault(mkv_position(m).data) is None
            &&& same_count(self.hazard, first_hazard(mkv_position(m).data))
            &&& match (self.hazard, self.left) {
                (Some(h), Some(left)) => left == h - self@.reader->Some_0.calls,
                (None, None) => true,
                _ => false,
            }
            &&& match self.stop {
                None => frames_given(mkv_position(m).data, mkv_position(m).calls),
                Some(stop) => {
                    &&& mkv_position(m).calls > 0
                    &&& frames_given(mkv_position(m).data, (mkv_position(m).calls - 1) as nat)
                    &&& mkv_given(mkv_position(m).data, (mkv_position(m).calls - 1) as nat) == stop.outcome()
                },
            }
        }
    }

    /// A demuxer that has parsed nothing.
    pub fn new() -> (r: Self)
        ensures
            r.wf(),
            r@ == fresh_mkv(),
    {
        let r: MkvDemuxer = MkvDemuxer {
            mkv: None,
            media_info: None,
            video_track_ids: Vec::new(),
            audio_track_ids: Vec::new(),
            frames_read: 0,
            seek_index: SeekIndex::new(),
            timestamp_scale_ns: 1_000_000,
            last_scanned_offset: 0,
            raw_data: None,
            stop: None,
            hazard: None,
            left: None,
        };
        assert(r@ =~= fresh_mkv());
        r
    }

    /// Check if this demuxer can handle the given data.
    pub fn probe(data: &[u8]) -> (r: bool)
        ensures
            r == is_ebml(data@),
    {
        data.len() >= 4 && data[0] == 0x1A && data[1] == 0x45 && data[2] == 0xDF && data[3] == 0xA3
    }

    /// Map Matroska codec ID to WebCodecs-compatible codec string.
    pub fn map_video_codec(codec_id: &str, codec_private: &Option<Vec<u8>>) -> (s: String)
        ensures
            s@ == video_codec_text(codec_id@, config_view(*codec_private)),
    {
        map_video_codec(codec_id, codec_private)
    }

    /// Map Matroska codec ID to WebCodecs-compatible codec string.
    pub fn map_audio_codec(codec_id: &str) -> (s: String)
        ensures
            s@ == audio_codec_text(codec_id@),
    {
        map_audio_codec(codec_id)
    }

    /// Scan raw data for MKV Cluster elements and extract their timestamps + offsets.
    pub fn scan_clusters_for_seek_index(data: &[u8], timestamp_scale_ns: u64, start_offset: usize) -> (r: SeekIndex)
        ensures
            r@ == sorted_by(cluster_entries(data@, timestamp_scale_ns, start_offset as int), SeekKey::Timestamp),
    {
        scan_clusters_for_seek_index(data, timestamp_scale_ns, start_offset)
    }

    /// Zero out the entire SeekHead element in raw EBML data.
    pub fn neutralize_seekhead(data: &mut Vec<u8>)
        ensures
            final(data)@ == without_seekhead(old(data)@),
    {
        neutralize_seekhead(data);
    }

    /// Decode an EBML variable-length unsigned integer (VINT).
    /// Returns (byte_length, value). (0, 0) on error.
    pub fn decode_ebml_vint(data: &[u8]) -> (r: (usize, u64))
        ensures
            match vint(data@) {
                Some((value, len)) => r.0 == len && r.1 == value,
                None => r == (0usize, 0u64),
            },
    {
        decode_ebml_vint(data)
    }

    /// Get the number of frames read so far (for resume tracking).
    pub fn frames_read(&self) -> (n: usize)
        ensures
            n == self@.frames_read,
    {
        self.frames_read
    }

    /// Get the pre-computed seek index (Cluster boundary offsets + timestamps).
    pub fn get_seek_index(&self) -> (r: &SeekIndex)
        ensures
            r@ == self@.seek_index,
    {
        &self.seek_index
    }

    /// Transfer the seek index and scan offset from a previous demuxer instance.
    /// Used during rebuild to avoid re-scanning already-known Cluster entries.
    pub fn transfer_seek_state(&mut self, seek_index: SeekIndex, last_scanned_offset: usize)
        ensures
            final(self).wf() == old(self).wf(),
            final(self)@ == (MkvView { seek_index: seek_index@, scanned: last_scanned_offset as int, ..old(self)@ }),
    {
        self.seek_index = seek_index;
        self.last_scanned_offset = last_scanned_offset;
    }

    /// Get the byte offset up to which Clusters have been scanned.
    pub fn last_scanned_offset(&self) -> (n: usize)
        ensures
            n == self@.scanned,
    {
        self.last_scanned_offset
    }

    /// Get the timestamp scale in nanoseconds (default 1_000_000 = 1ms per tick).
    /// Available after `parse_header` has been called.
    pub fn timestamp_scale_ns(&self) -> (n: u64)
        ensures
            n == self@.scale_ns,
    {
        self.timestamp_scale_ns
    }

    /// The bits of the duration in ticks, a double-precision number. One pattern
    /// stands for no number.
    pub fn duration_bits(&self) -> (d: Option<u64>)
        ensures
            d == match self@.reader {
                Some(p) => mkv_duration(p.data),
                None => None,
            },
    {
        match &self.mkv {
            Some(m) => match duration_bits(m) {
                Some(b) => Some(settle(b)),
                None => None,
            },
            None => None,
        }
    }

    /// Find the last Cluster boundary (byte offset + timestamp_us) that starts
    /// at or before the given byte offset. Uses the seek index built during parse_header.
    ///
    /// Returns `None` if the seek index is empty or its first entry is past the offset.
    pub fn find_cluster_before_offset(&self, byte_offset: u64) -> (r: Option<&SeekEntry>)
        ensures
            match r {
                Some(e) => entry_before(self@.seek_index, byte_offset, 0) == Some(*e),
                None => entry_before(self@.seek_index, byte_offset, 0) is None,
            },
    {
        let mut n: usize = 0;
        while n < self.seek_index.entries.len() && self.seek_index.entries[n].byte_offset <= byte_offset
            invariant
                n <= self.seek_index.entries.len(),
                entry_before(self@.seek_index, byte_offset, 0) == entry_before(self@.seek_index, byte_offset, n as int),
            decreases self.seek_index.entries.len() - n,
        {
            n = n + 1;
        }
        if n == 0 { None } else { Some(&self.seek_index.entries[n - 1]) }
    }

    /// Skip N frames (used after re-creating demuxer to resume position).
    pub fn skip_frames(&mut self, count: usize) -> (r: Result<(), DemuxError>)
        requires
            old(self).wf(),
        ensures
            final(self).wf(),
            final(self)@ == mkv_skipped(old(self)@, count as nat).1,
            match r {
                Ok(()) => mkv_skipped(old(self)@, count as nat).0 is Ok,
                Err(e) => mkv_skipped(old(self)@, count as nat).0 == Err::<(), DemuxFault>(e@),
            },
    {
        if self.mkv.is_none() {
            return Err(DemuxError::InvalidData(String::from_str("No header parsed yet")));
        }
        let ghost goal = mkv_skipped(self@, count as nat);
        let mut left: usize = count;
        while left > 0
            invariant
                self.wf(),
                self.mkv is Some,
                goal == mkv_skipped(self@, left as nat),
                goal == mkv_skipped(old(self)@, count as nat),
            decreases left,
        {
            let ghost before = self@;
            match self.step() {
                Ok(Some(_)) => {},
                Ok(None) => {
                    return Ok(());
                },
                Err(e) => {
                    let mut s: String = String::from_str("Skip error: ");
                    s.append(e.as_str());
                    return Err(DemuxError::InvalidData(s));
                },
            }
            left = left - 1;
        }
        Ok(())
    }

    /// Call for the next frame and count it.
    fn step(&mut self) -> (r: Result<Option<MkvFrame>, String>)
        requires
            old(self).wf(),
            old(self).mkv is Some,
        ensures
            final(self).wf(),
            final(self).mkv is Some,
            ({
                let p = old(self)@.reader->Some_0;
                match r {
                    Ok(Some(f)) => mkv_given(p.data, p.calls) == MkvOutcome::Frame(f@) && final(self)@ == mkv_stepped(old(self)@),
                    Ok(None) => mkv_given(p.data, p.calls) == MkvOutcome::End && final(self)@ == old(self)@,
                    Err(e) => mkv_given(p.data, p.calls) == MkvOutcome::Fault(e@) && final(self)@ == old(self)@,
                }
            }),
    {
        match &self.stop {
            Some(MkvStop::End) => {
                return Ok(None);
            },
            Some(MkvStop::Fault(t)) => {
                return Err(String::from_str(t.as_str()));
            },
            None => {},
        }
        if self.left == Some(0u128) {
            return Err(String::from_str("block is not sound"));
        }
        match &mut self.mkv {
            Some(m) => {
                let ghost p = mkv_position(*m);
                proof {
                    lemma_frames_read(p.data, p.calls);
                }
                match next_frame(m) {
                    Ok(Some(f)) => {
                        self.left = match self.left {
                            Some(n) => Some((n - 1) as u128),
                            None => None,
                        };
                        if self.frames_read < usize::MAX {
                            self.frames_read = self.frames_read + 1;
                        }
                        assert(self@ =~= mkv_stepped(old(self)@));
                        Ok(Some(f))
                    },
                    Ok(None) => {
                        self.stop = Some(MkvStop::End);
                        assert(self@ =~= old(self)@);
                        Ok(None)
                    },
                    Err(e) => {
                        self.stop = Some(MkvStop::Fault(String::from_str(e.as_str())));
                        assert(self@ =~= old(self)@);
                        Err(e)
                    },
                }
            },
            None => Ok(None),
        }
    }

    /// Parse the container header and extract media information.
    pub fn parse_header(&mut self, data: &[u8]) -> (r: Result<MediaInfo, DemuxError>)
        requires
            old(self).wf(),
        ensures
            final(self).wf(),
            match r {
                Ok(info) => mkv_parsed(old(self)@, data@) == Ok::<MkvView, DemuxFault>(final(self)@) && final(self)@.media_info == Some(info@),
                Err(e) => mkv_parsed(old(self)@, data@) == Err::<MkvView, DemuxFault>(e@) && final(self)@ == old(self)@,
            },
    {
        let copy: Vec<u8> = vstd::slice::slice_to_vec(data);
        self.parse_header_from_vec(copy)
    }

    /// Parse header from a potentially truncated buffer (Range-first streaming).
    ///
    /// The parser follows SeekHead entries to reach elements like Cues, Chapters, Tags.
    /// In most MKV files, Cues are at the END of the file. When only the first N MB are
    /// there, seeking to the Cues offset would abort the entire parse — even though Info,
    /// Tracks, and the first Cluster are all within the buffer. So the SeekHead is
    /// neutralised in a copy of the data.
    pub fn parse_header_streaming(&mut self, data: &[u8]) -> (r: Result<MediaInfo, DemuxError>)
        requires
            old(self).wf(),
        ensures
            final(self).wf(),
            match r {
                Ok(info) => mkv_parsed(old(self)@, without_seekhead(data@)) == Ok::<MkvView, DemuxFault>(final(self)@)
                    && final(self)@.media_info == Some(info@),
                Err(e) => mkv_parsed(old(self)@, without_seekhead(data@)) == Err::<MkvView, DemuxFault>(e@) && final(self)@ == old(self)@,
            },
    {
        let mut patched: Vec<u8> = vstd::slice::slice_to_vec(data);
        neutralize_seekhead(&mut patched);
        self.parse_header_from_vec(patched)
    }

    /// Like `parse_header_streaming` but takes ownership of the Vec, avoiding a copy.
    pub fn parse_header_streaming_owned(&mut self, data: Vec<u8>) -> (r: Result<MediaInfo, DemuxError>)
        requires
            old(self).wf(),
        ensures
            final(self).wf(),
            match r {
                Ok(info) => mkv_parsed(old(self)@, without_seekhead(data@)) == Ok::<MkvView, DemuxFault>(final(self)@)
                    && final(self)@.media_info == Some(info@),
                Err(e) => mkv_parsed(old(self)@, without_seekhead(data@)) == Err::<MkvView, DemuxFault>(e@) && final(self)@ == old(self)@,
            },
    {
        let mut patched: Vec<u8> = data;
        neutralize_seekhead(&mut patched);
        self.parse_header_from_vec(patched)
    }

    /// Parse the header of an owned buffer.
    fn parse_header_from_vec(&mut self, data: Vec<u8>) -> (r: Result<MediaInfo, DemuxError>)
        requires
            old(self).wf(),
        ensures
            final(self).wf(),
            match r {
                Ok(info) => mkv_parsed(old(self)@, data@) == Ok::<MkvView, DemuxFault>(final(self)@) && final(self)@.media_info == Some(info@),
                Err(e) => mkv_parsed(old(self)@, data@) == Err::<MkvView, DemuxFault>(e@) && final(self)@ == old(self)@,
            },
    {
        let ghost all = data@;
        let shared: bytes::Bytes = share(data);
        let copy: Vec<u8> = unshare(&shared);
        let raw: Vec<u8> = unshare(&shared);
        if !check_segment(&raw) {
            let mut s: String = String::from_str("MKV parse error: ");
            s.append("segment is not sound");
            return Err(DemuxError::InvalidData(s));
        }
        let hazard: Option<u128> = find_first_hazard(&raw);
        let mkv: MkvReader = match open(copy) {
            Ok(m) => m,
            Err(e) => {
                let mut s: String = String::from_str("MKV parse error: ");
                s.append(e.as_str());
                return Err(DemuxError::InvalidData(s));
            },
        };
        self.finish_parse_header(mkv, shared, raw.as_slice(), hazard)
    }

    /// Extract tracks, build the seek index, store the reader.
    fn finish_parse_header(&mut self, mkv: MkvReader, shared: bytes::Bytes, raw: &[u8], hazard: Option<u128>) -> (r: Result<MediaInfo, DemuxError>)
        requires
            old(self).wf(),
            shared_bytes(shared) == raw@,
            mkv_fault(raw@) is None,
            same_count(hazard, first_hazard(raw@)),
            mkv_position(mkv) == (MkvPosition { data: raw@, calls: 0 }),
        ensures
            final(self).wf(),
            match r {
                Ok(info) => mkv_parsed(old(self)@, raw@) == Ok::<MkvView, DemuxFault>(final(self)@) && final(self)@.media_info == Some(info@),
                Err(e) => mkv_parsed(old(self)@, raw@) == Err::<MkvView, DemuxFault>(e@) && final(self)@ == old(self)@,
            },
    {
        let ghost before = self@;
        let l: Listed = match list_tracks(&mkv) {
            Ok(l) => l,
            Err(e) => {
                return Err(e);
            },
        };
        let ghost lists = l@;
        let info: MediaInfo = MediaInfo {
            container: ContainerFormat::Mkv,
            duration_us: None,
            video_tracks: l.video,
            audio_tracks: l.audio,
        };
        assert(info@ =~= mkv_media(lists));
        let scale: u64 = timestamp_scale(&mkv);
        let fresh: SeekIndex = scan_clusters_for_seek_index(raw, scale, self.last_scanned_offset);
        self.seek_index.add_found(fresh);
        self.last_scanned_offset = raw.len();
        self.media_info = Some(info.copy());
        self.video_track_ids = l.video_ids;
        self.audio_track_ids = l.audio_ids;
        self.timestamp_scale_ns = scale;
        self.raw_data = Some(shared);
        self.mkv = Some(mkv);
        self.stop = None;
        self.hazard = hazard;
        self.left = hazard;
        assert(self@ =~= mkv_parsed(before, raw@)->Ok_0);
        Ok(info)
    }

    /// Get the next encoded chunk (video or audio sample). At the end, and after an
    /// error, nothing more is read: the same answer comes again.
    pub fn next_chunk(&mut self) -> (r: Result<Option<EncodedChunk>, DemuxError>)
        requires
            old(self).wf(),
        ensures
            final(self).wf(),
            final(self)@ == mkv_next(old(self)@).1,
            match r {
                Ok(Some(c)) => mkv_next(old(self)@).0 == Ok::<Option<ChunkView>, DemuxFault>(Some(c@)),
                Ok(None) => mkv_next(old(self)@).0 == Ok::<Option<ChunkView>, DemuxFault>(None),
                Err(e) => mkv_next(old(self)@).0 == Err::<Option<ChunkView>, DemuxFault>(e@),
            },
    {
        if self.mkv.is_none() {
            return Err(DemuxError::InvalidData(String::from_str("No header parsed yet")));
        }
        match self.step() {
            Ok(Some(f)) => {
                let ghost fv = f@;
                let is_video: bool = contains_id(&self.video_track_ids, f.track);
                let is_audio: bool = contains_id(&self.audio_track_ids, f.track);
                let chunk: EncodedChunk = EncodedChunk {
                    track_id: (f.track % 0x1_0000_0000) as u32,
                    is_video,
                    is_audio,
                    is_keyframe: match f.is_keyframe {
                        Some(k) => k,
                        None => is_audio,
                    },
                    timestamp_us: ticks_to_us(f.timestamp, self.timestamp_scale_ns),
                    duration_us: match f.duration {
                        Some(d) => ticks_to_us(d, self.timestamp_scale_ns),
                        None => 0,
                    },
                    data: f.data,
                };
                assert(chunk@ =~= chunk_of(fv, self@.video_ids, self@.audio_ids, self@.scale_ns));
                Ok(Some(chunk))
            },
            Ok(None) => Ok(None),
            Err(e) => {
                let mut s: String = String::from_str("MKV frame error: ");
                s.append(e.as_str());
                Err(DemuxError::InvalidData(s))
            },
        }
    }

    /// Seek to the nearest keyframe before the given timestamp, and tell its time.
    ///
    /// The reader cannot go back: a second one is read from the start to count the
    /// frames before the keyframe, and a third one is left standing there.
    pub fn seek_and_tell(&mut self, timestamp_us: i64) -> (r: Result<Option<i64>, DemuxError>)
        requires
            old(self).wf(),
        ensures
            final(self).wf(),
            final(self)@ == mkv_sought(old(self)@, timestamp_us).1,
            match r {
                Ok(t) => mkv_sought(old(self)@, timestamp_us).0 is Ok && t == mkv_stands_at(final(self)@),
                Err(e) => mkv_sought(old(self)@, timestamp_us).0 == Err::<(), DemuxFault>(e@),
            },
    {
        let ghost before = self@;
        if self.mkv.is_none() {
            return Err(DemuxError::InvalidData(String::from_str("No header parsed yet")));
        }
        let raw: Vec<u8> = match &self.raw_data {
            Some(b) => unshare(b),
            None => Vec::new(),
        };
        let again: Vec<u8> = crate::demux::types::copy_bytes(&raw);
        let ghost data = raw@;
        let mut scan: MkvReader = match open(raw) {
            Ok(m) => m,
            Err(_) => {
                return Ok(None);
            },
        };
        let ghost goal = seek_scan(data, before.video_ids, before.scale_ns, timestamp_us, 0, 0);
        let mut stands_at: Option<i64> = None;
        let mut skip: usize = 0;
        let mut count: usize = 0;
        let mut more: bool = true;
        while more && count < usize::MAX
            invariant
                self@ == before,
                self.wf(),
                before.reader matches Some(p) && p.data == data,
                before == old(self)@,
                skip <= count,
                skip < usize::MAX,
                goal == seek_scan(data, before.video_ids, before.scale_ns, timestamp_us, 0, 0),
                more ==> mkv_position(scan) == (MkvPosition { data, calls: count as nat }),
                more ==> goal == seek_scan(data, before.video_ids, before.scale_ns, timestamp_us, count as nat, skip as nat),
                more ==> frames_given(data, count as nat),
                !more ==> goal == Ok::<nat, Seq<char>>(skip as nat),
                frames_given(data, skip as nat),
                count == 0 && more ==> stands_at is None,
                count > 0 || !more ==> stands_at == frame_time(data, before.scale_ns, skip as nat),
            decreases (if more { usize::MAX - count + 1 } else { 0 }),
        {
            if let Some(h) = self.hazard {
                if count as u128 >= h {
                    let mut s: String = String::from_str("MKV seek scan error: ");
                    s.append("block is not sound");
                    return Err(DemuxError::InvalidData(s));
                }
            }
            proof {
                lemma_frames_read(data, count as nat);
            }
            match next_frame(&mut scan) {
                Ok(Some(f)) => {
                    let time: i64 = ticks_to_us(f.timestamp, self.timestamp_scale_ns);
                    let marked: bool = match f.is_keyframe {
                        Some(k) => k,
                        None => false,
                    };
                    if contains_id(&self.video_track_ids, f.track) && marked && time <= timestamp_us {
                        skip = count;
                        stands_at = Some(time);
                    }
                    if count == 0 {
                        stands_at = Some(time);
                    }
                    if time > timestamp_us {
                        more = false;
                    } else {
                        count = count + 1;
                    }
                },
                Ok(None) => {
                    more = false;
                },
                Err(e) => {
                    let mut s: String = String::from_str("MKV seek scan error: ");
                    s.append(e.as_str());
                    return Err(DemuxError::InvalidData(s));
                },
            }
        }
        let fresh: MkvReader = match open(again) {
            Ok(m) => m,
            Err(_) => {
                return Ok(None);
            },
        };
        self.mkv = Some(fresh);
        self.stop = None;
        self.left = self.hazard;
        self.frames_read = 0;
        let ghost start = self@;
        assert(start =~= mkv_at(before, 0));
        proof {
            lemma_skip_from_start(before, skip as nat, 0);
        }
        match self.skip_frames(skip) {
            Ok(()) => Ok(stands_at),
            Err(e) => Err(e),
        }
    }

    /// Seek to the nearest keyframe before the given timestamp.
    pub fn seek_to_keyframe(&mut self, timestamp_us: i64) -> (r: Result<(), DemuxError>)
        requires
            old(self).wf(),
        ensures
            final(self).wf(),
            final(self)@ == mkv_sought(old(self)@, timestamp_us).1,
            match r {
                Ok(()) => mkv_sought(old(self)@, timestamp_us).0 is Ok,
                Err(e) => mkv_sought(old(self)@, timestamp_us).0 == Err::<(), DemuxFault>(e@),
            },
    {
        match self.seek_and_tell(timestamp_us) {
            Ok(_) => Ok(()),
            Err(e) => Err(e),
        }
    }

    /// A copy of the index of Cluster positions.
    pub fn build_seek_index(&self) -> (r: SeekIndex)
        ensures
            r@ == self@.seek_index,
    {
        self.seek_index.copy()
    }
}

/// Skipping over frames that are all there leads to the place behind them.
proof fn lemma_skip_from_start(v: MkvView, n: nat, k: nat)
    requires
        v.reader is Some,
        k <= n < usize::MAX,
        forall|i: nat| i < n ==> #[trigger] mkv_given(v.reader->Some_0.data, i) is Frame,
    ensures
        mkv_skipped(mkv_at(v, k), (n - k) as nat) == (Ok::<(), DemuxFault>(()), mkv_at(v, n)),
    decreases n - k,
{
    if k < n {
        assert(mkv_given(v.reader->Some_0.data, k) is Frame);
        assert(mkv_stepped(mkv_at(v, k)) =~= mkv_at(v, k + 1));
        lemma_skip_from_start(v, n, k + 1);
    }
}

/// How many of the first `n` tracks are of a kind.
pub open spec fn tracks_of_kind(tracks: Seq<MkvTrackView>, kind: MkvTrackKind, n: nat) -> nat
    decreases n,
{
    if n == 0 {
        0
    } else {
        tracks_of_kind(tracks, kind, (n - 1) as nat) + if tracks[n - 1].kind == kind { 1nat } else { 0 }
    }
}

/// What a file says of a track is what its list says of it. The video tracks are
/// listed in their order in the file, and no others; of track `i` the list has its
/// number, the size of its picture, its CodecPrivate byte for byte, none where it has
/// none, and one frame in its default duration. So it is with the audio tracks, their
/// sample rate and channels. A number that does not fit is cut to 32 bits.
pub proof fn law_tracks_are_listed(v: MkvView, data: Seq<u8>, i: int)
    requires
        mkv_parsed(v, data) is Ok,
        0 <= i < mkv_tracks(data).len(),
    ensures
        ({
            let w = mkv_parsed(v, data)->Ok_0;
            let info = w.media_info->Some_0;
            let tracks = mkv_tracks(data);
            let t = tracks[i];
            let a = tracks_of_kind(tracks, MkvTrackKind::Video, i as nat) as int;
            let b = tracks_of_kind(tracks, MkvTrackKind::Audio, i as nat) as int;
            &&& w.media_info is Some
            &&& info.container == ContainerFormat::Mkv
            &&& info.video_tracks.len() == tracks_of_kind(tracks, MkvTrackKind::Video, tracks.len())
            &&& info.audio_tracks.len() == tracks_of_kind(tracks, MkvTrackKind::Audio, tracks.len())
            &&& w.video_ids.len() == info.video_tracks.len()
            &&& w.audio_ids.len() == info.audio_tracks.len()
            &&& t.kind == MkvTrackKind::Video ==> {
                let x = info.video_tracks[a];
                &&& a < info.video_tracks.len()
                &&& w.video_ids[a] == t.number
                &&& t.number <= u32::MAX ==> x.track_id == t.number
                &&& t.video matches Some(size) && (size.0 <= u32::MAX ==> x.width == size.0) && (size.1 <= u32::MAX ==> x.height == size.1)
                &&& t.codec_private matches Some(p) ==> x.codec_config == p
                &&& t.codec_private is None ==> x.codec_config.len() == 0
                &&& match (t.default_duration, x.fps) {
                    (Some(ns), Some(r)) => r.frames == 1 && r.nanos == ns,
                    (None, None) => true,
                    _ => false,
                }
                &&& x.codec_string == video_codec_text(t.codec_id, t.codec_private)
            }
            &&& t.kind == MkvTrackKind::Audio ==> {
                let x = info.audio_tracks[b];
                &&& b < info.audio_tracks.len()
                &&& w.audio_ids[b] == t.number
                &&& t.number <= u32::MAX ==> x.track_id == t.number
                &&& t.audio matches Some(s) && x.sample_rate == s.0 && (s.1 <= u32::MAX ==> x.channels == s.1)
                &&& t.codec_private matches Some(p) ==> x.codec_config == p
                &&& t.codec_private is None ==> x.codec_config.len() == 0
                &&& x.codec_string == audio_codec_text(t.codec_id)
            }
        }),
{
    lemma_listed(mkv_tracks(data), mkv_tracks(data).len(), i);
}

proof fn lemma_listed(tracks: Seq<MkvTrackView>, n: nat, i: int)
    requires
        listed_tracks(tracks, n) is Ok,
        n <= tracks.len(),
    ensures
        ({
            let l = listed_tracks(tracks, n)->Ok_0;
            let a = tracks_of_kind(tracks, MkvTrackKind::Video, i as nat) as int;
            let b = tracks_of_kind(tracks, MkvTrackKind::Audio, i as nat) as int;
            &&& l.video.len() == tracks_of_kind(tracks, MkvTrackKind::Video, n) == l.video_ids.len()
            &&& l.audio.len() == tracks_of_kind(tracks, MkvTrackKind::Audio, n) == l.audio_ids.len()
            &&& 0 <= i < n && tracks[i].kind == MkvTrackKind::Video ==> a < l.video.len() && l.video_ids[a] == tracks[i].number && tracks[i].video is Some
                && l.video[a] == video_track_view(tracks[i], tracks[i].video->Some_0)
            &&& 0 <= i < n && tracks[i].kind == MkvTrackKind::Audio ==> b < l.audio.len() && l.audio_ids[b] == tracks[i].number && tracks[i].audio is Some
                && l.audio[b] == audio_track_view(tracks[i], tracks[i].audio->Some_0)
        }),
    decreases n,
{
    if n > 0 {
        lemma_listed(tracks, (n - 1) as nat, i);
    }
}

/// A time in ticks is that time in microseconds, cut to a whole one.
pub proof fn law_ticks_are_time(ticks: u64, scale_ns: u64)
    requires
        ticks <= i64::MAX,
        scale_ns <= i64::MAX,
        ticks * scale_ns <= i64::MAX,
    ensures
        1000 * ticks_us(ticks, scale_ns) <= ticks * scale_ns < 1000 * (ticks_us(ticks, scale_ns) + 1),
{
    assert(0 <= ticks * scale_ns) by (nonlinear_arith)
        requires
            0 <= ticks,
            0 <= scale_ns,
    ;
}

/// The next chunk is the next frame: its bytes, its track, whether that is a video or
/// an audio track, and its mark as a keyframe, where it has one; sound without a mark
/// counts as one. It begins and lasts as the frame does, in ticks of the file.
pub proof fn law_chunk_is_frame(v: MkvView)
    requires
        v.reader matches Some(p) && mkv_given(p.data, p.calls) is Frame,
    ensures
        ({
            let p = v.reader->Some_0;
            let f = mkv_given(p.data, p.calls)->Frame_0;
            let (r, w) = mkv_next(v);
            &&& r matches Ok(Some(c)) && {
                &&& c.data == f.data
                &&& f.track <= u32::MAX ==> c.track_id == f.track
                &&& c.is_video == v.video_ids.contains(f.track)
                &&& c.is_audio == v.audio_ids.contains(f.track)
                &&& f.is_keyframe matches Some(k) ==> c.is_keyframe == k
                &&& f.is_keyframe is None ==> c.is_keyframe == c.is_audio
                &&& f.timestamp * v.scale_ns <= i64::MAX && f.timestamp <= i64::MAX && v.scale_ns <= i64::MAX ==> 1000 * c.timestamp_us <= f.timestamp
                    * v.scale_ns < 1000 * (c.timestamp_us + 1)
                &&& f.duration is None ==> c.duration_us == 0
                &&& f.duration matches Some(d) ==> (d * v.scale_ns <= i64::MAX && d <= i64::MAX && v.scale_ns <= i64::MAX ==> 1000 * c.duration_us <= d
                    * v.scale_ns < 1000 * (c.duration_us + 1))
            }
            &&& w.reader == Some(MkvPosition { data: p.data, calls: p.calls + 1 })
        }),
{
    let p = v.reader->Some_0;
    let f = mkv_given(p.data, p.calls)->Frame_0;
    if f.timestamp * v.scale_ns <= i64::MAX && f.timestamp <= i64::MAX && v.scale_ns <= i64::MAX {
        law_ticks_are_time(f.timestamp, v.scale_ns);
    }
    if let Some(d) = f.duration {
        if d * v.scale_ns <= i64::MAX && d <= i64::MAX && v.scale_ns <= i64::MAX {
            law_ticks_are_time(d, v.scale_ns);
        }
    }
}

} // verus!
