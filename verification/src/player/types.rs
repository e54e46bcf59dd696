//! Player state and the events that a player emits.

use vstd::prelude::*;
use vstd::string::*;

use crate::demux::types::{FrameRate, MediaView};

verus! {

/// Current playback status of the player.
#[derive(Debug, Clone, Copy, PartialEq, Eq, Structural)]
pub enum PlaybackStatus {
    Idle,
    Loading,
    Ready,
    Playing,
    Paused,
    Buffering,
    Stopped,
    Seeking,
    Error,
}

/// High-level media information exposed to consumers.
#[derive(Debug)]
pub struct MediaInfo {
    pub duration_ms: Option<u64>,
    pub video_codec: Option<String>,
    pub audio_codec: Option<String>,
    pub width: u32,
    pub height: u32,
    pub fps: Option<FrameRate>,
    pub sample_rate: Option<u32>,
    pub channels: Option<u32>,
}

/// Media information with its texts as sequences.
#[verifier::ext_equal]
pub struct InfoView {
    pub duration_ms: Option<u64>,
    pub video_codec: Option<Seq<char>>,
    pub audio_codec: Option<Seq<char>>,
    pub width: u32,
    pub height: u32,
    pub fps: Option<FrameRate>,
    pub sample_rate: Option<u32>,
    pub channels: Option<u32>,
}

/// An optional text as a sequence.
pub open spec fn optional_text(s: Option<String>) -> Option<Seq<char>> {
    match s {
        Some(t) => Some(t@),
        None => None,
    }
}

impl View for MediaInfo {
    type V = InfoView;

    open spec fn view(&self) -> InfoView {
        InfoView {
            duration_ms: self.duration_ms,
            video_codec: optional_text(self.video_codec),
            audio_codec: optional_text(self.audio_codec),
            width: self.width,
            height: self.height,
            fps: self.fps,
            sample_rate: self.sample_rate,
            channels: self.channels,
        }
    }
}

/// Snapshot of the player state.
#[derive(Debug)]
pub struct PlayerState {
    pub status: PlaybackStatus,
    pub current_time_ms: u64,
    pub duration_ms: Option<u64>,
    pub video_width: u32,
    pub video_height: u32,
    pub media_info: Option<MediaInfo>,
    pub has_audio: bool,
    pub has_video: bool,
    pub buffered_ms: u64,
}

/// The player state with its media information as a view.
#[verifier::ext_equal]
pub struct StateView {
    pub status: PlaybackStatus,
    pub current_time_ms: u64,
    pub duration_ms: Option<u64>,
    pub video_width: u32,
    pub video_height: u32,
    pub media_info: Option<InfoView>,
    pub has_audio: bool,
    pub has_video: bool,
    pub buffered_ms: u64,
}

impl View for PlayerState {
    type V = StateView;

    open spec fn view(&self) -> StateView {
        StateView {
            status: self.status,
            current_time_ms: self.current_time_ms,
            duration_ms: self.duration_ms,
            video_width: self.video_width,
            video_height: self.video_height,
            media_info: match self.media_info {
                Some(i) => Some(i@),
                None => None,
            },
            has_audio: self.has_audio,
            has_video: self.has_video,
            buffered_ms: self.buffered_ms,
        }
    }
}

/// The state of a player with nothing loaded.
pub open spec fn idle_state() -> StateView {
    StateView {
        status: PlaybackStatus::Idle,
        current_time_ms: 0,
        duration_ms: None,
        video_width: 0,
        video_height: 0,
        media_info: None,
        has_audio: false,
        has_video: false,
        buffered_ms: 0,
    }
}

impl Default for PlayerState {
    fn default() -> (r: Self)
        ensures
            r@ == idle_state(),
    {
        PlayerState {
            status: PlaybackStatus::Idle,
            current_time_ms: 0,
            duration_ms: None,
            video_width: 0,
            video_height: 0,
            media_info: None,
            has_audio: false,
            has_video: false,
            buffered_ms: 0,
        }
    }
}

/// Events emitted by the player.
#[derive(Debug)]
pub enum PlayerEvent {
    MediaLoaded { info: MediaInfo },
    StatusChanged { status: PlaybackStatus },
    TimeUpdate { current_ms: u64 },
    Seeking { target_ms: u64 },
    Seeked { actual_ms: u64 },
    BufferUpdate { buffered_ms: u64 },
    DownloadProgress { received_bytes: u64, total_bytes: u64 },
    Error { message: String, recoverable: bool },
    VideoResized { width: u32, height: u32 },
    PlaylistTrackChanged { index: usize },
    SyncStats { rendered: u64, dropped: u64, held: u64, skipped: u64 },
    Ended,
}

/// An event with its texts as sequences.
#[verifier::ext_equal]
pub enum EventView {
    MediaLoaded { info: InfoView },
    StatusChanged { status: PlaybackStatus },
    TimeUpdate { current_ms: u64 },
    Seeking { target_ms: u64 },
    Seeked { actual_ms: u64 },
    BufferUpdate { buffered_ms: u64 },
    DownloadProgress { received_bytes: u64, total_bytes: u64 },
    Error { message: Seq<char>, recoverable: bool },
    VideoResized { width: u32, height: u32 },
    PlaylistTrackChanged { index: usize },
    SyncStats { rendered: u64, dropped: u64, held: u64, skipped: u64 },
    Ended,
}

impl View for PlayerEvent {
    type V = EventView;

    open spec fn view(&self) -> EventView {
        match *self {
            PlayerEvent::MediaLoaded { info } => EventView::MediaLoaded { info: info@ },
            PlayerEvent::StatusChanged { status } => EventView::StatusChanged { status },
            PlayerEvent::TimeUpdate { current_ms } => EventView::TimeUpdate { current_ms },
            PlayerEvent::Seeking { target_ms } => EventView::Seeking { target_ms },
            PlayerEvent::Seeked { actual_ms } => EventView::Seeked { actual_ms },
            PlayerEvent::BufferUpdate { buffered_ms } => EventView::BufferUpdate { buffered_ms },
            PlayerEvent::DownloadProgress { received_bytes, total_bytes } => EventView::DownloadProgress {
                received_bytes,
                total_bytes,
            },
            PlayerEvent::Error { message, recoverable } => EventView::Error { message: message@, recoverable },
            PlayerEvent::VideoResized { width, height } => EventView::VideoResized { width, height },
            PlayerEvent::PlaylistTrackChanged { index } => EventView::PlaylistTrackChanged { index },
            PlayerEvent::SyncStats { rendered, dropped, held, skipped } => EventView::SyncStats {
                rendered,
                dropped,
                held,
                skipped,
            },
            PlayerEvent::Ended => EventView::Ended,
        }
    }
}

/// The views of several events.
pub open spec fn event_views(v: Seq<PlayerEvent>) -> Seq<EventView> {
    Seq::new(v.len(), |i: int| v[i]@)
}

/// Add an event to those to be emitted.
pub fn emit(events: &mut Vec<PlayerEvent>, e: PlayerEvent)
    ensures
        event_views(final(events)@) == event_views(old(events)@).push(e@),
{
    let ghost before = event_views(events@);
    let ghost view = e@;
    events.push(e);
    assert(event_views(events@) =~= before.push(view));
}

/// `n` in 64 bits without a sign.
pub open spec fn as_unsigned(n: i64) -> u64 {
    if n >= 0 { n as u64 } else { (n + 0x1_0000_0000_0000_0000) as u64 }
}

/// What consumers are told of the media: the first track of each kind.
pub open spec fn media_summary(m: MediaView) -> InfoView {
    let v = m.video_tracks;
    let a = m.audio_tracks;
    InfoView {
        duration_ms: match m.duration_us {
            Some(us) => Some(as_unsigned(crate::demux::ebml::quotient(us as int, 1000) as i64)),
            None => None,
        },
        video_codec: if v.len() > 0 { Some(v[0].codec_string) } else { None },
        audio_codec: if a.len() > 0 { Some(a[0].codec_string) } else { None },
        width: if v.len() > 0 { v[0].width } else { 0 },
        height: if v.len() > 0 { v[0].height } else { 0 },
        fps: if v.len() > 0 { v[0].fps } else { None },
        sample_rate: if a.len() > 0 { Some(a[0].sample_rate) } else { None },
        channels: if a.len() > 0 { Some(a[0].channels) } else { None },
    }
}

/// `n` in 64 bits without a sign.
fn to_unsigned(n: i64) -> (r: u64)
    ensures
        r == as_unsigned(n),
{
    if n >= 0 { n as u64 } else { (n as i128 + 0x1_0000_0000_0000_0000) as u64 }
}

/// An optional text once more.
fn copy_optional(s: &Option<String>) -> (r: Option<String>)
    ensures
        optional_text(r) == optional_text(*s),
{
    match s {
        Some(t) => Some(t.clone()),
        None => None,
    }
}

impl MediaInfo {
    /// What consumers are told of the media: the first track of each kind.
    pub fn summary(m: &crate::demux::types::MediaInfo) -> (r: Self)
        ensures
            r@ == media_summary(m@),
    {
        let video: bool = m.video_tracks.len() > 0;
        let audio: bool = m.audio_tracks.len() > 0;
        let r: MediaInfo = MediaInfo {
            duration_ms: match m.duration_us {
                Some(us) => Some(to_unsigned(crate::demux::ebml::divide(us, 1000))),
                None => None,
            },
            video_codec: if video { Some(m.video_tracks[0].codec_string.clone()) } else { None },
            audio_codec: if audio { Some(m.audio_tracks[0].codec_string.clone()) } else { None },
            width: if video { m.video_tracks[0].width } else { 0 },
            height: if video { m.video_tracks[0].height } else { 0 },
            fps: if video { m.video_tracks[0].fps } else { None },
            sample_rate: if audio { Some(m.audio_tracks[0].sample_rate) } else { None },
            channels: if audio { Some(m.audio_tracks[0].channels) } else { None },
        };
        assert(r@ =~= media_summary(m@));
        r
    }

    /// The same information once more.
    pub fn copy(&self) -> (r: Self)
        ensures
            r@ == self@,
    {
        MediaInfo {
            duration_ms: self.duration_ms,
            video_codec: copy_optional(&self.video_codec),
            audio_codec: copy_optional(&self.audio_codec),
            width: self.width,
            height: self.height,
            fps: self.fps,
            sample_rate: self.sample_rate,
            channels: self.channels,
        }
    }
}

/// What consumers are told of the media is what its header says of its first video and
/// audio tracks, and its duration in whole milliseconds.
pub proof fn law_media_is_summed_up(m: MediaView)
    ensures
        ({
            let i = media_summary(m);
            &&& m.duration_us is None <==> i.duration_ms is None
            &&& m.duration_us matches Some(us) ==> (us >= 0 ==> 1000 * i.duration_ms->Some_0 <= us < 1000 * (i.duration_ms->Some_0 + 1))
            &&& m.video_tracks.len() > 0 ==> i.width == m.video_tracks[0].width && i.height == m.video_tracks[0].height && i.video_codec == Some(
                m.video_tracks[0].codec_string,
            ) && i.fps == m.video_tracks[0].fps
            &&& m.video_tracks.len() == 0 ==> i.video_codec is None
            &&& m.audio_tracks.len() > 0 ==> i.audio_codec == Some(m.audio_tracks[0].codec_string) && i.sample_rate == Some(m.audio_tracks[0].sample_rate)
                && i.channels == Some(m.audio_tracks[0].channels)
            &&& m.audio_tracks.len() == 0 ==> i.audio_codec is None
        }),
{
}

} // verus!
