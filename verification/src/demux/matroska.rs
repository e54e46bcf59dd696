//! The `matroska-demuxer` and `bytes` crates as this library uses them.

use std::io::Cursor;

use vstd::prelude::*;

use crate::demux::elements::{first_hazard, segment_sound};

verus! {

/// What a reader works through: the bytes that it was opened on, and how often
/// `next_frame` has been called.
#[verifier::ext_equal]
pub struct MkvPosition {
    pub data: Seq<u8>,
    pub calls: nat,
}

/// A frame as the reader hands it out.
pub struct MkvFrame {
    pub track: u64,
    pub timestamp: u64,
    pub is_keyframe: Option<bool>,
    pub duration: Option<u64>,
    pub data: Vec<u8>,
}

/// A frame with its data as a sequence.
#[verifier::ext_equal]
pub struct MkvFrameView {
    pub track: u64,
    pub timestamp: u64,
    pub is_keyframe: Option<bool>,
    pub duration: Option<u64>,
    pub data: Seq<u8>,
}

impl View for MkvFrame {
    type V = MkvFrameView;

    open spec fn view(&self) -> MkvFrameView {
        MkvFrameView {
            track: self.track,
            timestamp: self.timestamp,
            is_keyframe: self.is_keyframe,
            duration: self.duration,
            data: self.data@,
        }
    }
}

/// What a call for the next frame gives.
#[verifier::ext_equal]
pub enum MkvOutcome {
    Frame(MkvFrameView),
    End,
    Fault(Seq<char>),
}

/// What a track entry is for.
#[derive(Debug, Clone, Copy, PartialEq, Eq, Structural)]
pub enum MkvTrackKind {
    Video,
    Audio,
    Other,
}

/// A track entry of a Matroska file.
pub struct MkvTrack {
    pub number: u64,
    pub kind: MkvTrackKind,
    pub codec_id: String,
    pub codec_private: Option<Vec<u8>>,
    pub default_duration: Option<u64>,
    /// Pixel width and height.
    pub video: Option<(u64, u64)>,
    /// Sample rate, cut to whole hertz, and channels.
    pub audio: Option<(u32, u64)>,
}

/// A track entry with text and bytes as sequences.
#[verifier::ext_equal]
pub struct MkvTrackView {
    pub number: u64,
    pub kind: MkvTrackKind,
    pub codec_id: Seq<char>,
    pub codec_private: Option<Seq<u8>>,
    pub default_duration: Option<u64>,
    pub video: Option<(u64, u64)>,
    pub audio: Option<(u32, u64)>,
}

impl View for MkvTrack {
    type V = MkvTrackView;

    open spec fn view(&self) -> MkvTrackView {
        MkvTrackView {
            number: self.number,
            kind: self.kind,
            codec_id: self.codec_id@,
            codec_private: match self.codec_private {
                Some(v) => Some(v@),
                None => None,
            },
            default_duration: self.default_duration,
            video: self.video,
            audio: self.audio,
        }
    }
}

/// A Matroska reader of the `matroska-demuxer` crate over bytes in memory.
#[verifier::external_body]
pub struct MkvReader {
    inner: matroska_demuxer::MatroskaFile<Cursor<Vec<u8>>>,
}

/// Shared bytes of the `bytes` crate.
#[verifier::external_type_specification]
#[verifier::external_body]
pub struct ExBytes(bytes::Bytes);

/// What an open reader stands on.
pub uninterp spec fn mkv_position(m: MkvReader) -> MkvPosition;

/// The error that opening bytes as a Matroska file gives; none where it gives none.
pub uninterp spec fn mkv_open_fault(data: Seq<u8>) -> Option<Seq<char>>;

/// The outcome of the call for a frame that follows `calls` others, on a reader
/// opened on `data`.
pub uninterp spec fn mkv_outcome(data: Seq<u8>, calls: nat) -> MkvOutcome;

/// The track entries of a Matroska file.
pub uninterp spec fn mkv_tracks(data: Seq<u8>) -> Seq<MkvTrackView>;

/// The length of a tick in nanoseconds.
pub uninterp spec fn mkv_timestamp_scale(data: Seq<u8>) -> u64;

/// The bits of the duration in ticks, a double-precision number. Where they are
/// those of no number, they are one of the patterns for that.
pub uninterp spec fn mkv_duration_bits(data: Seq<u8>) -> Option<u64>;

/// Whether the bits of a double-precision number are those of no number: the
/// exponent is all ones and the fraction is not zero.
pub open spec fn no_number(bits: u64) -> bool {
    (bits / 0x10_0000_0000_0000) % 0x800 == 0x7ff && bits % 0x10_0000_0000_0000 != 0
}

/// Whether the bits of two double-precision numbers are the same, where those of
/// no number are not told apart.
pub open spec fn same_number(a: Option<u64>, b: Option<u64>) -> bool {
    match (a, b) {
        (Some(x), Some(y)) => x == y || (no_number(x) && no_number(y)),
        (None, None) => true,
        _ => false,
    }
}

/// The bytes that a shared buffer holds.
pub uninterp spec fn shared_bytes(b: bytes::Bytes) -> Seq<u8>;

/// `MatroskaFile::open` on a cursor over `data`: a reader before its first frame,
/// or the text of the error. Whether it opens depends on the bytes alone. It does
/// not return, or panics, where a segment begins with a checksum, its seek heads
/// lead in a circle or to two others, or positions in them or in cues are too large;
/// such input is left out.
#[verifier::external_body]
pub(crate) fn open(data: Vec<u8>) -> (r: Result<MkvReader, String>)
    requires
        segment_sound(data@),
    ensures
        match r {
            Ok(m) => mkv_open_fault(data@) is None && mkv_position(m) == (MkvPosition { data: data@, calls: 0 }),
            Err(e) => mkv_open_fault(data@) == Some(e@),
        },
{
    match matroska_demuxer::MatroskaFile::open(Cursor::new(data)) {
        Ok(inner) => Ok(MkvReader { inner }),
        Err(e) => Err(format!("{}", e)),
    }
}

/// `MatroskaFile::next_frame` with a fresh frame: the next frame, nothing at the
/// end of the stream, or the text of the error. What comes depends on the bytes
/// and on the number of calls before. It can panic on times of blocks and sizes of
/// block groups that are too large to be added, and a call that reaches one is left
/// out. Where the reader stands once a call has given no frame is not described, so
/// no other call is made then.
#[verifier::external_body]
pub(crate) fn next_frame(m: &mut MkvReader) -> (r: Result<Option<MkvFrame>, String>)
    requires
        segment_sound(mkv_position(*old(m)).data),
        first_hazard(mkv_position(*old(m)).data) matches Some(n) ==> mkv_position(*old(m)).calls < n,
        forall|i: nat| i < mkv_position(*old(m)).calls ==> #[trigger] mkv_outcome(mkv_position(*old(m)).data, i) is Frame,
    ensures
        mkv_position(*final(m)) == (MkvPosition {
            data: mkv_position(*old(m)).data,
            calls: mkv_position(*old(m)).calls + 1,
        }),
        match r {
            Ok(Some(f)) => mkv_outcome(mkv_position(*old(m)).data, mkv_position(*old(m)).calls) == MkvOutcome::Frame(f@),
            Ok(None) => mkv_outcome(mkv_position(*old(m)).data, mkv_position(*old(m)).calls) == MkvOutcome::End,
            Err(e) => mkv_outcome(mkv_position(*old(m)).data, mkv_position(*old(m)).calls) == MkvOutcome::Fault(e@),
        },
{
    let mut f = matroska_demuxer::Frame::default();
    match m.inner.next_frame(&mut f) {
        Ok(true) => Ok(Some(MkvFrame {
            track: f.track,
            timestamp: f.timestamp,
            is_keyframe: f.is_keyframe,
            duration: f.duration,
            data: f.data,
        })),
        Ok(false) => Ok(None),
        Err(e) => Err(format!("{}", e)),
    }
}

/// The length of `MatroskaFile::tracks`.
#[verifier::external_body]
pub(crate) fn track_count(m: &MkvReader) -> (n: usize)
    ensures
        n == mkv_tracks(mkv_position(*m).data).len(),
{
    m.inner.tracks().len()
}

/// Entry `i` of `MatroskaFile::tracks`, with the fields that its accessors give;
/// the sample rate is cut to a whole number as `as` does it.
#[verifier::external_body]
pub(crate) fn track_at(m: &MkvReader, i: usize) -> (t: MkvTrack)
    requires
        i < mkv_tracks(mkv_position(*m).data).len(),
    ensures
        t@ == mkv_tracks(mkv_position(*m).data)[i as int],
{
    let t = &m.inner.tracks()[i];
    MkvTrack {
        number: t.track_number().get(),
        kind: match t.track_type() {
            matroska_demuxer::TrackType::Video => MkvTrackKind::Video,
            matroska_demuxer::TrackType::Audio => MkvTrackKind::Audio,
            _ => MkvTrackKind::Other,
        },
        codec_id: t.codec_id().to_string(),
        codec_private: t.codec_private().map(|d| d.to_vec()),
        default_duration: t.default_duration().map(|d| d.get()),
        video: t.video().map(|v| (v.pixel_width().get(), v.pixel_height().get())),
        audio: t.audio().map(|a| (a.sampling_frequency() as u32, a.channels().get())),
    }
}

/// `Info::timestamp_scale` of the segment, a non-zero number.
#[verifier::external_body]
pub(crate) fn timestamp_scale(m: &MkvReader) -> (n: u64)
    ensures
        n == mkv_timestamp_scale(mkv_position(*m).data),
        n > 0,
{
    m.inner.info().timestamp_scale().get()
}

/// `Info::duration` of the segment, by its bits. A duration stored in single
/// precision is widened: where it is no number, which of the patterns for that
/// comes out is left open.
#[verifier::external_body]
pub(crate) fn duration_bits(m: &MkvReader) -> (d: Option<u64>)
    ensures
        same_number(d, mkv_duration_bits(mkv_position(*m).data)),
{
    m.inner.info().duration().map(|d| d.to_bits())
}

/// `Bytes::from`: takes over the bytes without a copy.
#[verifier::external_body]
pub(crate) fn share(data: Vec<u8>) -> (b: bytes::Bytes)
    ensures
        shared_bytes(b) == data@,
{
    bytes::Bytes::from(data)
}

/// `to_vec` on shared bytes: a copy of them.
#[verifier::external_body]
pub(crate) fn unshare(b: &bytes::Bytes) -> (v: Vec<u8>)
    ensures
        v@ == shared_bytes(*b),
{
    b.to_vec()
}

} // verus!
