//! The state machine of playback: status, events and their rates.

use vstd::prelude::*;
use vstd::string::*;

use crate::demux::types::MediaView;
use crate::player::buffer::BufferConfig;
use crate::player::clock::{ms_as_ns, ms_to_ns, ns_as_ms, ns_to_ms, us_as_ns, us_to_ns};
use crate::player::types::{
    emit, event_views, idle_state, media_summary, EventView, MediaInfo, PlaybackStatus, PlayerEvent, PlayerState,
    StateView,
};

verus! {

/// Buffer updates come at most every 250 ms.
pub const BUFFER_UPDATE_NS: i64 = 250_000_000;

/// Progress events come at most every 500 ms.
pub const PROGRESS_NS: i64 = 500_000_000;

/// Buffering for longer than 10 s is reported.
pub const BUFFERING_TIMEOUT_NS: i64 = 10_000_000_000;

/// Sync statistics come every 60 ticks.
pub const STATS_TICKS: u64 = 60;

/// A download pauses when the buffer exceeds 256 MB.
pub const MAX_BUFFER_BYTES: usize = 268_435_456;

/// How playback begins.
#[derive(Debug, Clone, Copy, PartialEq, Eq, Structural)]
pub enum PlayKind {
    /// From the beginning.
    Fresh,
    /// From where it was paused.
    Resume,
}

/// A seek that has been accepted.
#[derive(Debug, Clone, Copy, PartialEq, Eq, Structural)]
pub struct SeekTicket {
    /// The number of this seek: a later one has another.
    pub generation: u32,
    /// Whether playback goes on after it.
    pub was_playing: bool,
    /// Whether another seek was under way, whose downloads are to be cancelled.
    pub interrupts: bool,
}

/// How data comes at the end of a tick.
#[derive(Debug, Clone, Copy, PartialEq, Eq, Structural)]
pub struct Supply {
    /// Decoded video frames are waiting.
    pub has_frames: bool,
    /// Encoded chunks are waiting.
    pub has_chunks: bool,
    /// There is data that has not been demuxed.
    pub has_data: bool,
    /// There is data to demux, or more to come.
    pub can_demux_more: bool,
    /// All data is there.
    pub complete: bool,
    /// The time of the next decoded frame.
    pub next_frame_us: Option<i64>,
}

/// What the supply leads to.
#[derive(Debug, Clone, Copy, PartialEq, Eq, Structural)]
pub enum SupplyAction {
    /// Go on.
    Continue,
    /// All is played: the loop ends.
    Ended,
    /// Playback resumes; where a position is given, the clock and the audio are
    /// set to it.
    Resume(Option<i64>),
}

/// The state of playback.
#[derive(Debug)]
pub struct Session {
    pub state: PlayerState,
    pub header_parsed: bool,
    pub last_progress_ns: i64,
    pub last_buffer_update_ns: i64,
    /// When buffering began.
    pub buffering_since_ns: Option<i64>,
    /// Ticks since the last sync statistics.
    pub stats_ticks: u64,
    /// Ticks so far.
    pub tick: u64,
    /// Incremented on each seek: a seek that finds it changed gives way.
    pub seek_generation: u32,
    /// Status before a seek started.
    pub pre_seek_status: Option<PlaybackStatus>,
}

/// The state of playback with the player state as a view.
#[verifier::ext_equal]
pub struct SessionView {
    pub state: StateView,
    pub header_parsed: bool,
    pub last_progress_ns: i64,
    pub last_buffer_update_ns: i64,
    pub buffering_since_ns: Option<i64>,
    pub stats_ticks: u64,
    pub tick: u64,
    pub seek_generation: u32,
    pub pre_seek_status: Option<PlaybackStatus>,
}

impl View for Session {
    type V = SessionView;

    open spec fn view(&self) -> SessionView {
        SessionView {
            state: self.state@,
            header_parsed: self.header_parsed,
            last_progress_ns: self.last_progress_ns,
            last_buffer_update_ns: self.last_buffer_update_ns,
            buffering_since_ns: self.buffering_since_ns,
            stats_ticks: self.stats_ticks,
            tick: self.tick,
            seek_generation: self.seek_generation,
            pre_seek_status: self.pre_seek_status,
        }
    }
}

/// The state of a player that was just made.
pub open spec fn fresh_session() -> SessionView {
    SessionView {
        state: idle_state(),
        header_parsed: false,
        last_progress_ns: 0,
        last_buffer_update_ns: 0,
        buffering_since_ns: None,
        stats_ticks: 0,
        tick: 0,
        seek_generation: 0,
        pre_seek_status: None,
    }
}

/// A state with another status.
pub open spec fn with_status(s: SessionView, status: PlaybackStatus) -> SessionView {
    SessionView { state: StateView { status, ..s.state }, ..s }
}

/// The event of a status.
pub open spec fn status_event(status: PlaybackStatus) -> EventView {
    EventView::StatusChanged { status }
}

/// Whether a status is that of playback going on.
pub open spec fn is_active(status: PlaybackStatus) -> bool {
    status == PlaybackStatus::Playing || status == PlaybackStatus::Buffering || status == PlaybackStatus::Seeking
}

/// Whether an event is due: the last came at least `every` ago.
pub open spec fn is_due(now_ns: i64, last_ns: i64, every: i64) -> bool {
    now_ns - last_ns >= every
}

/// Whether an event is due.
fn due(now_ns: i64, last_ns: i64, every: i64) -> (r: bool)
    ensures
        r == is_due(now_ns, last_ns, every),
{
    now_ns as i128 - last_ns as i128 >= every as i128
}

/// The message for an audio codec that cannot be decoded.
pub open spec fn no_audio_text(codec: Seq<char>) -> Seq<char> {
    "Audio codec '"@ + codec + "' not supported by WebCodecs — video-only playback"@
}

/// What is said when the media has been opened. `audio` says whether the first
/// audio track can be decoded.
pub open spec fn ready_events(m: MediaView, audio: bool) -> Seq<EventView> {
    let v: Seq<EventView> = if m.video_tracks.len() > 0 {
        seq![EventView::VideoResized { width: m.video_tracks[0].width, height: m.video_tracks[0].height }]
    } else {
        Seq::empty()
    };
    let a: Seq<EventView> = if m.audio_tracks.len() > 0 && !audio {
        seq![EventView::Error { message: no_audio_text(m.audio_tracks[0].codec_string), recoverable: true }]
    } else {
        Seq::empty()
    };
    v + a + seq![EventView::MediaLoaded { info: media_summary(m) }, status_event(PlaybackStatus::Ready)]
}

/// The state when the media has been opened.
pub open spec fn ready_state(s: StateView, m: MediaView, audio: bool) -> StateView {
    let video = m.video_tracks.len() > 0;
    StateView {
        status: PlaybackStatus::Ready,
        duration_ms: media_summary(m).duration_ms,
        media_info: Some(media_summary(m)),
        has_video: s.has_video || video,
        video_width: if video { m.video_tracks[0].width } else { s.video_width },
        video_height: if video { m.video_tracks[0].height } else { s.video_height },
        has_audio: if m.audio_tracks.len() > 0 { audio } else { s.has_audio },
        ..s
    }
}

/// Buffering without a frame: after 10 s that is told, where nothing is left to
/// decode or to demux, and the time begins anew.
pub open spec fn buffering_on(s: SessionView, p: Supply, wall_ns: i64) -> (SupplyAction, SessionView, Seq<EventView>) {
    match s.buffering_since_ns {
        Some(since) if wall_ns - since > BUFFERING_TIMEOUT_NS && !p.has_chunks && !p.has_data => (
            SupplyAction::Continue,
            SessionView { buffering_since_ns: Some(wall_ns), ..s },
            seq![
                EventView::Error {
                    message: "Buffering timeout: no data received for 10 seconds"@,
                    recoverable: true,
                },
            ],
        ),
        _ => (SupplyAction::Continue, s, Seq::empty()),
    }
}

/// Buffering with a frame: playback resumes, at the time of the frame.
pub open spec fn buffering_ends(s: SessionView, p: Supply) -> (SupplyAction, SessionView, Seq<EventView>) {
    let position = match p.next_frame_us {
        Some(us) => us_as_ns(us),
        None => ms_as_ns(s.state.current_time_ms),
    };
    let resumed = SessionView { buffering_since_ns: None, ..with_status(s, PlaybackStatus::Playing) };
    match s.buffering_since_ns {
        Some(_) => (
            SupplyAction::Resume(Some(position)),
            SessionView { state: StateView { current_time_ms: ns_as_ms(position), ..resumed.state }, ..resumed },
            seq![status_event(PlaybackStatus::Playing)],
        ),
        None => (SupplyAction::Resume(None), resumed, seq![status_event(PlaybackStatus::Playing)]),
    }
}

/// What the supply at the end of a tick leads to: the action, the state after it
/// and the events.
#[verifier::opaque]
pub open spec fn supply_step(s: SessionView, p: Supply, wall_ns: i64) -> (SupplyAction, SessionView, Seq<EventView>) {
    let starved = !p.has_frames && !p.has_chunks && !p.can_demux_more;
    if starved && p.complete {
        (
            SupplyAction::Ended,
            SessionView { buffering_since_ns: None, ..with_status(s, PlaybackStatus::Stopped) },
            seq![EventView::Ended, status_event(PlaybackStatus::Stopped)],
        )
    } else if s.state.status == PlaybackStatus::Buffering {
        if p.has_frames { buffering_ends(s, p) } else { buffering_on(s, p, wall_ns) }
    } else if starved {
        (
            SupplyAction::Continue,
            SessionView { buffering_since_ns: Some(wall_ns), ..with_status(s, PlaybackStatus::Buffering) },
            seq![status_event(PlaybackStatus::Buffering)],
        )
    } else {
        (SupplyAction::Continue, s, Seq::empty())
    }
}

/// Whether a download is to be paused: the buffer or the queue of frames is over
/// its limit; it goes on once the queue is short.
pub open spec fn pause_wanted(config: BufferConfig, buffer_bytes: usize, frames_waiting: usize, paused: bool) -> bool {
    if buffer_bytes > MAX_BUFFER_BYTES || frames_waiting > config.max_video_queue {
        true
    } else if frames_waiting < config.resume_video_queue {
        false
    } else {
        paused
    }
}

/// Back-pressure on a download.
pub fn backpressure(config: &BufferConfig, buffer_bytes: usize, frames_waiting: usize, paused: bool) -> (r: bool)
    ensures
        r == pause_wanted(*config, buffer_bytes, frames_waiting, paused),
{
    if buffer_bytes > MAX_BUFFER_BYTES {
        true
    } else if frames_waiting > config.max_video_queue {
        true
    } else if frames_waiting < config.resume_video_queue {
        false
    } else {
        paused
    }
}

/// Whether all data of a file is there: the download has ended, or, where windows
/// of it are fetched, covers it.
pub open spec fn all_there(data_len: usize, complete: bool, file_size: Option<u64>) -> bool {
    complete || (file_size matches Some(n) && data_len >= n)
}

impl Supply {
    /// What the buffers of a player mean for the supply: a download that goes on
    /// counts as more to come.
    pub fn of(frames_waiting: usize, chunks_waiting: usize, next_frame_us: Option<i64>, data_len: usize, demuxed_len: usize, download_complete: bool, file_size: Option<u64>) -> (r: Self)
        ensures
            r.has_frames == (frames_waiting > 0),
            r.has_chunks == (chunks_waiting > 0),
            r.complete == all_there(data_len, download_complete, file_size),
            r.has_data == (data_len > demuxed_len),
            r.can_demux_more == (r.has_data || !r.complete),
            r.next_frame_us == next_frame_us,
    {
        let complete: bool = download_complete || match file_size {
            Some(n) => data_len as u64 >= n,
            None => false,
        };
        Supply {
            has_frames: frames_waiting > 0,
            has_chunks: chunks_waiting > 0,
            has_data: data_len > demuxed_len,
            can_demux_more: data_len > demuxed_len || !complete,
            complete,
            next_frame_us,
        }
    }
}

impl Session {
    /// A player that was just made.
    pub fn new() -> (r: Self)
        ensures
            r@ == fresh_session(),
    {
        Session {
            state: PlayerState::default(),
            header_parsed: false,
                last_progress_ns: 0,
            last_buffer_update_ns: 0,
            buffering_since_ns: None,
            stats_ticks: 0,
            tick: 0,
            seek_generation: 0,
            pre_seek_status: None,
        }
    }

    /// Change the status and say so.
    pub fn change_status(&mut self, status: PlaybackStatus, events: &mut Vec<PlayerEvent>)
        ensures
            final(self)@ == with_status(old(self)@, status),
            event_views(final(events)@) == event_views(old(events)@).push(status_event(status)),
    {
        self.state.status = status;
        emit(events, PlayerEvent::StatusChanged { status });
        assert(self@ =~= with_status(old(self)@, status));
    }

    /// A load begins.
    pub fn begin_load(&mut self, events: &mut Vec<PlayerEvent>)
        ensures
            final(self)@ == (SessionView { header_parsed: false, ..with_status(old(self)@, PlaybackStatus::Loading) }),
            event_views(final(events)@) == event_views(old(events)@).push(status_event(PlaybackStatus::Loading)),
    {
        self.change_status(PlaybackStatus::Loading, events);
        self.header_parsed = false;
        assert(self@ =~= (SessionView { header_parsed: false, ..with_status(old(self)@, PlaybackStatus::Loading) }));
    }

    /// The media has been opened and its decoders configured: say what it is.
    /// `audio` says whether the first audio track can be decoded; one that cannot
    /// leaves playback without sound.
    pub fn media_ready(&mut self, media: &crate::demux::types::MediaInfo, audio: bool, events: &mut Vec<PlayerEvent>)
        ensures
            final(self)@ == (SessionView { state: ready_state(old(self)@.state, media@, audio), header_parsed: true, ..old(self)@ }),
            event_views(final(events)@) == event_views(old(events)@) + ready_events(media@, audio),
    {
        let ghost first = event_views(events@);
        let ghost m = media@;
        if media.video_tracks.len() > 0 {
            let width: u32 = media.video_tracks[0].width;
            let height: u32 = media.video_tracks[0].height;
            self.state.has_video = true;
            self.state.video_width = width;
            self.state.video_height = height;
            emit(events, PlayerEvent::VideoResized { width, height });
        }
        if media.audio_tracks.len() > 0 {
            self.state.has_audio = audio;
            if !audio {
                let mut message: String = String::from_str("Audio codec '");
                message.append(media.audio_tracks[0].codec_string.as_str());
                message.append("' not supported by WebCodecs — video-only playback");
                emit(events, PlayerEvent::Error { message, recoverable: true });
            }
        }
        let info: MediaInfo = MediaInfo::summary(media);
        self.state.duration_ms = info.duration_ms;
        self.state.media_info = Some(info.copy());
        self.state.status = PlaybackStatus::Ready;
        self.header_parsed = true;
        emit(events, PlayerEvent::MediaLoaded { info });
        emit(events, PlayerEvent::StatusChanged { status: PlaybackStatus::Ready });
        assert(event_views(events@) =~= first + ready_events(m, audio));
        assert(self@ =~= (SessionView { state: ready_state(old(self)@.state, m, audio), header_parsed: true, ..old(self)@ }));
    }

    /// Whether playback can start, and how: it must be ready or paused.
    pub fn check_play(&self) -> (r: Result<PlayKind, String>)
        ensures
            match self@.state.status {
                PlaybackStatus::Ready => r == Ok::<PlayKind, String>(PlayKind::Fresh),
                PlaybackStatus::Paused => r == Ok::<PlayKind, String>(PlayKind::Resume),
                _ => r matches Err(t) && t@ == "Cannot play in current state"@,
            },
    {
        match self.state.status {
            PlaybackStatus::Ready => Ok(PlayKind::Fresh),
            PlaybackStatus::Paused => Ok(PlayKind::Resume),
            _ => Err(String::from_str("Cannot play in current state")),
        }
    }

    /// Emit sync stats every 60 ticks (about once a second).
    pub fn report_stats(&mut self, stats: (u64, u64, u64, u64), events: &mut Vec<PlayerEvent>)
        ensures
            ({
                let n = old(self)@.stats_ticks.wrapping_add(1);
                &&& final(self)@ == (SessionView { stats_ticks: if n >= STATS_TICKS { 0 } else { n }, ..old(self)@ })
                &&& event_views(final(events)@) == if n >= STATS_TICKS {
                    event_views(old(events)@).push(EventView::SyncStats { rendered: stats.0, dropped: stats.1, held: stats.2, skipped: stats.3 })
                } else {
                    event_views(old(events)@)
                }
            }),
    {
        self.stats_ticks = self.stats_ticks.wrapping_add(1);
        if self.stats_ticks >= STATS_TICKS {
            self.stats_ticks = 0;
            emit(
                events,
                PlayerEvent::SyncStats { rendered: stats.0, dropped: stats.1, held: stats.2, skipped: stats.3 },
            );
        }
    }

    /// Update the time, and say so.
    pub fn update_time(&mut self, clock_ns: i64, events: &mut Vec<PlayerEvent>)
        ensures
            final(self)@ == (SessionView {
                state: StateView { current_time_ms: ns_as_ms(clock_ns), ..old(self)@.state },
                ..old(self)@
            }),
            event_views(final(events)@) == event_views(old(events)@).push(EventView::TimeUpdate { current_ms: ns_as_ms(clock_ns) }),
    {
        let ms: u64 = ns_to_ms(clock_ns);
        self.state.current_time_ms = ms;
        emit(events, PlayerEvent::TimeUpdate { current_ms: ms });
        assert(self@ =~= (SessionView { state: StateView { current_time_ms: ms, ..old(self)@.state }, ..old(self)@ }));
    }

    /// Buffer state management with timeout: playback ends when all is played,
    /// waits when nothing is there, and resumes with the first decoded frame.
    pub fn supply(&mut self, supply: &Supply, wall_ns: i64, events: &mut Vec<PlayerEvent>) -> (r: SupplyAction)
        ensures
            ({
                let (action, state, told) = supply_step(old(self)@, *supply, wall_ns);
                &&& r == action
                &&& final(self)@ == state
                &&& event_views(final(events)@) == event_views(old(events)@) + told
            }),
    {
        proof {
            reveal(supply_step);
        }
        let ghost first = event_views(events@);
        let ghost goal = supply_step(self@, *supply, wall_ns);
        assert(first + Seq::<EventView>::empty() =~= first);
        let starved: bool = !supply.has_frames && !supply.has_chunks && !supply.can_demux_more;
        if starved && supply.complete {
            self.buffering_since_ns = None;
            emit(events, PlayerEvent::Ended);
            self.change_status(PlaybackStatus::Stopped, events);
            assert(event_views(events@) =~= first + goal.2);
            assert(self@ =~= goal.1);
            return SupplyAction::Ended;
        }
        if self.state.status == PlaybackStatus::Buffering {
            if !supply.has_frames {
                if let Some(since) = self.buffering_since_ns {
                    if wall_ns as i128 - since as i128 > BUFFERING_TIMEOUT_NS as i128 && !supply.has_chunks && !supply.has_data {
                        emit(
                            events,
                            PlayerEvent::Error {
                                message: String::from_str("Buffering timeout: no data received for 10 seconds"),
                                recoverable: true,
                            },
                        );
                        self.buffering_since_ns = Some(wall_ns);
                        assert(event_views(events@) =~= first + goal.2);
                        assert(self@ =~= goal.1);
                    }
                }
                return SupplyAction::Continue;
            }
            let mut action: SupplyAction = SupplyAction::Resume(None);
            if self.buffering_since_ns.is_some() {
                let position: i64 = match supply.next_frame_us {
                    Some(us) => us_to_ns(us),
                    None => ms_to_ns(self.state.current_time_ms),
                };
                self.state.current_time_ms = ns_to_ms(position);
                action = SupplyAction::Resume(Some(position));
            }
            self.buffering_since_ns = None;
            self.change_status(PlaybackStatus::Playing, events);
            assert(event_views(events@) =~= first + goal.2);
            assert(self@ =~= goal.1);
            return action;
        }
        if starved {
            self.buffering_since_ns = Some(wall_ns);
            self.change_status(PlaybackStatus::Buffering, events);
            assert(event_views(events@) =~= first + goal.2);
            assert(self@ =~= goal.1);
        }
        SupplyAction::Continue
    }

    /// Say how much is buffered, at most four times a second.
    pub fn update_buffer(&mut self, buffered_bytes: u64, wall_ns: i64, events: &mut Vec<PlayerEvent>)
        ensures
            ({
                let told = is_due(wall_ns, old(self)@.last_buffer_update_ns, BUFFER_UPDATE_NS);
                &&& final(self)@ == (SessionView {
                    state: StateView { buffered_ms: buffered_bytes, ..old(self)@.state },
                    last_buffer_update_ns: if told { wall_ns } else { old(self)@.last_buffer_update_ns },
                    ..old(self)@
                })
                &&& event_views(final(events)@) == if told {
                    event_views(old(events)@).push(EventView::BufferUpdate { buffered_ms: buffered_bytes })
                } else {
                    event_views(old(events)@)
                }
            }),
    {
        self.state.buffered_ms = buffered_bytes;
        if due(wall_ns, self.last_buffer_update_ns, BUFFER_UPDATE_NS) {
            self.last_buffer_update_ns = wall_ns;
            emit(events, PlayerEvent::BufferUpdate { buffered_ms: buffered_bytes });
        }
        assert(self@ =~= (SessionView {
            state: StateView { buffered_ms: buffered_bytes, ..old(self)@.state },
            last_buffer_update_ns: if is_due(wall_ns, old(self)@.last_buffer_update_ns, BUFFER_UPDATE_NS) {
                wall_ns
            } else {
                old(self)@.last_buffer_update_ns
            },
            ..old(self)@
        }));
    }

    /// Say how far a download has come, at most twice a second.
    pub fn report_progress(&mut self, received_bytes: u64, total_bytes: u64, wall_ns: i64, events: &mut Vec<PlayerEvent>)
        ensures
            ({
                let told = is_due(wall_ns, old(self)@.last_progress_ns, PROGRESS_NS);
                &&& final(self)@ == (SessionView {
                    last_progress_ns: if told { wall_ns } else { old(self)@.last_progress_ns },
                    ..old(self)@
                })
                &&& event_views(final(events)@) == if told {
                    event_views(old(events)@).push(EventView::DownloadProgress { received_bytes, total_bytes })
                } else {
                    event_views(old(events)@)
                }
            }),
    {
        if due(wall_ns, self.last_progress_ns, PROGRESS_NS) {
            self.last_progress_ns = wall_ns;
            emit(events, PlayerEvent::DownloadProgress { received_bytes, total_bytes });
        }
    }

    /// Whether playback can be paused.
    pub fn can_pause(&self) -> (r: bool)
        ensures
            r == (self@.state.status == PlaybackStatus::Playing || self@.state.status == PlaybackStatus::Buffering),
    {
        self.state.status == PlaybackStatus::Playing || self.state.status == PlaybackStatus::Buffering
    }

    /// Stop playback and go back to the beginning.
    pub fn stop(&mut self, events: &mut Vec<PlayerEvent>)
        ensures
            ({
                let stopped = with_status(old(self)@, PlaybackStatus::Stopped);
                final(self)@ == (SessionView { state: StateView { current_time_ms: 0, ..stopped.state }, ..stopped })
            }),
            event_views(final(events)@) == event_views(old(events)@).push(status_event(PlaybackStatus::Stopped)),
    {
        self.state.current_time_ms = 0;
        self.change_status(PlaybackStatus::Stopped, events);
        assert(self@ =~= (SessionView {
            state: StateView { current_time_ms: 0, ..with_status(old(self)@, PlaybackStatus::Stopped).state },
            ..with_status(old(self)@, PlaybackStatus::Stopped)
        }));
    }

    /// A seek begins. It is refused before media is loaded.
    pub fn begin_seek(&mut self, time_ms: u64, events: &mut Vec<PlayerEvent>) -> (r: Result<SeekTicket, String>)
        ensures
            !old(self)@.header_parsed ==> (r matches Err(t) && t@ == "Cannot seek before media is loaded"@) && final(self)@ == old(self)@
                && event_views(final(events)@) == event_views(old(events)@),
            old(self)@.header_parsed ==> {
                let seeking = old(self)@.state.status == PlaybackStatus::Seeking;
                &&& r == Ok::<SeekTicket, String>(
                    SeekTicket {
                        generation: old(self)@.seek_generation.wrapping_add(1),
                        was_playing: is_active(old(self)@.state.status),
                        interrupts: seeking,
                    },
                )
                &&& final(self)@ == (SessionView {
                    seek_generation: old(self)@.seek_generation.wrapping_add(1),
                    pre_seek_status: if seeking { old(self)@.pre_seek_status } else { Some(old(self)@.state.status) },
                    ..with_status(old(self)@, PlaybackStatus::Seeking)
                })
                &&& event_views(final(events)@) == event_views(old(events)@) + seq![
                    status_event(PlaybackStatus::Seeking),
                    EventView::Seeking { target_ms: time_ms },
                ]
            },
    {
        if !self.header_parsed {
            return Err(String::from_str("Cannot seek before media is loaded"));
        }
        let ghost first = event_views(events@);
        let status: PlaybackStatus = self.state.status;
        self.seek_generation = self.seek_generation.wrapping_add(1);
        let interrupts: bool = status == PlaybackStatus::Seeking;
        let was_playing: bool = status == PlaybackStatus::Playing || status == PlaybackStatus::Buffering || interrupts;
        if !interrupts {
            self.pre_seek_status = Some(status);
        }
        self.change_status(PlaybackStatus::Seeking, events);
        emit(events, PlayerEvent::Seeking { target_ms: time_ms });
        assert(event_views(events@) =~= first + seq![
            status_event(PlaybackStatus::Seeking),
            EventView::Seeking { target_ms: time_ms },
        ]);
        assert(self@ =~= (SessionView {
            seek_generation: old(self)@.seek_generation.wrapping_add(1),
            pre_seek_status: if interrupts { old(self)@.pre_seek_status } else { Some(old(self)@.state.status) },
            ..with_status(old(self)@, PlaybackStatus::Seeking)
        }));
        Ok(SeekTicket { generation: self.seek_generation, was_playing, interrupts })
    }

    /// Whether a seek is still the last one.
    pub fn is_current(&self, ticket: &SeekTicket) -> (r: bool)
        ensures
            r == (self@.seek_generation == ticket.generation),
    {
        self.seek_generation == ticket.generation
    }

    /// A seek is done: playback goes through buffering, so that the decoders fill
    /// up before it resumes; without it the player is paused.
    pub fn end_seek(&mut self, ticket: &SeekTicket, actual_us: i64, wall_ns: i64, events: &mut Vec<PlayerEvent>)
        ensures
            ({
                let status = if ticket.was_playing { PlaybackStatus::Buffering } else { PlaybackStatus::Paused };
                let actual_ms = ns_as_ms(us_as_ns(actual_us));
                &&& final(self)@ == (SessionView {
                    state: StateView { current_time_ms: actual_ms, status, ..old(self)@.state },
                    buffering_since_ns: if ticket.was_playing { Some(wall_ns) } else { old(self)@.buffering_since_ns },
                    pre_seek_status: None,
                    ..old(self)@
                })
                &&& event_views(final(events)@) == event_views(old(events)@) + seq![
                    EventView::Seeked { actual_ms },
                    status_event(status),
                ]
            }),
    {
        let ghost first = event_views(events@);
        let actual_ms: u64 = ns_to_ms(us_to_ns(actual_us));
        self.state.current_time_ms = actual_ms;
        let status: PlaybackStatus = if ticket.was_playing { PlaybackStatus::Buffering } else { PlaybackStatus::Paused };
        if ticket.was_playing {
            self.buffering_since_ns = Some(wall_ns);
        }
        self.pre_seek_status = None;
        emit(events, PlayerEvent::Seeked { actual_ms });
        self.change_status(status, events);
        assert(event_views(events@) =~= first + seq![EventView::Seeked { actual_ms }, status_event(status)]);
        assert(self@ =~= (SessionView {
            state: StateView { current_time_ms: actual_ms, status, ..old(self)@.state },
            buffering_since_ns: if ticket.was_playing { Some(wall_ns) } else { old(self)@.buffering_since_ns },
            pre_seek_status: None,
            ..old(self)@
        }));
    }

    /// Forget the media before another track is loaded.
    pub fn reset_for_track(&mut self)
        ensures
            final(self)@ == (SessionView {
                state: StateView {
                    current_time_ms: 0,
                    has_video: false,
                    has_audio: false,
                    media_info: None,
                    duration_ms: None,
                    ..old(self)@.state
                },
                header_parsed: false,
                pre_seek_status: None,
                ..old(self)@
            }),
    {
        self.state.current_time_ms = 0;
        self.state.has_video = false;
        self.state.has_audio = false;
        self.state.media_info = None;
        self.state.duration_ms = None;
        self.header_parsed = false;
        self.pre_seek_status = None;
        assert(self@ =~= (SessionView {
            state: StateView {
                current_time_ms: 0,
                has_video: false,
                has_audio: false,
                media_info: None,
                duration_ms: None,
                ..old(self)@.state
            },
            header_parsed: false,
            pre_seek_status: None,
            ..old(self)@
        }));
    }

    /// Forget everything that was loaded.
    pub fn destroy(&mut self)
        ensures
            final(self)@ == (SessionView {
                state: idle_state(),
                header_parsed: false,
                pre_seek_status: None,
                ..old(self)@
            }),
    {
        self.state = PlayerState::default();
        self.header_parsed = false;
        self.pre_seek_status = None;
        assert(self@ =~= (SessionView {
            state: idle_state(),
            header_parsed: false,
            pre_seek_status: None,
            ..old(self)@
        }));
    }
}

// ---------------------------------------------------------------------------
// Laws
// ---------------------------------------------------------------------------

/// Playback ends only when nothing is left to show, to decode or to demux, and all
/// data is there; while a download goes on it never ends.
pub proof fn law_ends_only_when_played(s: SessionView, p: Supply, wall_ns: i64)
    ensures
        supply_step(s, p, wall_ns).0 == SupplyAction::Ended <==> !p.has_frames && !p.has_chunks && !p.can_demux_more && p.complete,
{
    reveal(supply_step);
}

/// Buffering gives way to playback only once a decoded frame is there.
pub proof fn law_resume_needs_frame(s: SessionView, p: Supply, wall_ns: i64)
    requires
        s.state.status == PlaybackStatus::Buffering,
    ensures
        supply_step(s, p, wall_ns).1.state.status == PlaybackStatus::Playing <==> p.has_frames,
{
    reveal(supply_step);
}

/// Buffering that lasts longer than 10 s with nothing left to show, to decode or to
/// demux is told as an error that playback can recover from, and the time begins
/// anew so that it is not told with every tick.
pub proof fn law_long_buffering_is_told(s: SessionView, p: Supply, wall_ns: i64)
    requires
        s.state.status == PlaybackStatus::Buffering,
        !p.has_frames,
        !p.has_chunks,
        !p.has_data,
        !p.complete || p.can_demux_more,
        s.buffering_since_ns matches Some(since) && wall_ns - since > BUFFERING_TIMEOUT_NS,
    ensures
        supply_step(s, p, wall_ns).2 == seq![
            EventView::Error { message: "Buffering timeout: no data received for 10 seconds"@, recoverable: true },
        ],
        supply_step(supply_step(s, p, wall_ns).1, p, wall_ns).2.len() == 0,
{
    reveal(supply_step);
}

/// A change of status is always told, and nothing else tells of one: the last
/// status told is the status.
pub proof fn law_status_is_told(s: SessionView, p: Supply, wall_ns: i64)
    ensures
        ({
            let (_, next, told) = supply_step(s, p, wall_ns);
            &&& next.state.status != s.state.status ==> told.len() > 0 && told.last() == status_event(next.state.status)
            &&& forall|i: int| 0 <= i < told.len() && (#[trigger] told[i]) is StatusChanged ==> told[i] == status_event(next.state.status)
        }),
{
    reveal(supply_step);
}

/// A seek that was overtaken by another is recognised, as long as fewer than all
/// numbers have been given out since.
pub proof fn law_overtaken_seek(s: SessionView, first: SeekTicket, n: nat)
    requires
        first.generation == s.seek_generation,
        0 < n < 0x1_0000_0000,
    ensures
        (s.seek_generation + n) % 0x1_0000_0000 != first.generation,
{
}

/// Between the two limits of the queue a download stays as it is: it neither
/// pauses nor resumes with every frame.
pub proof fn law_backpressure_is_steady(config: BufferConfig, buffer_bytes: usize, frames_waiting: usize, paused: bool)
    requires
        buffer_bytes <= MAX_BUFFER_BYTES,
        config.resume_video_queue <= frames_waiting <= config.max_video_queue,
    ensures
        pause_wanted(config, buffer_bytes, frames_waiting, paused) == paused,
{
}

/// Playback that runs out of data waits for it from then on, and says so; once a frame
/// is there it goes on with that frame, at the frame's own time.
pub proof fn law_buffering_and_back(s: SessionView, p: Supply, wall_ns: i64)
    ensures
        ({
            let (action, next, told) = supply_step(s, p, wall_ns);
            let starved = !p.has_frames && !p.has_chunks && !p.can_demux_more;
            &&& s.state.status != PlaybackStatus::Buffering && starved && !p.complete ==> {
                &&& next.state.status == PlaybackStatus::Buffering
                &&& next.buffering_since_ns == Some(wall_ns)
                &&& told.contains(EventView::StatusChanged { status: PlaybackStatus::Buffering })
            }
            &&& s.state.status != PlaybackStatus::Buffering && !starved ==> next == s && told.len() == 0
            &&& s.state.status == PlaybackStatus::Buffering && p.has_frames && s.buffering_since_ns is Some ==> {
                &&& next.state.status == PlaybackStatus::Playing
                &&& next.buffering_since_ns is None
                &&& told.contains(EventView::StatusChanged { status: PlaybackStatus::Playing })
                &&& p.next_frame_us matches Some(us) ==> (0 <= us * 1000 <= i64::MAX ==> {
                    &&& action matches SupplyAction::Resume(Some(ns)) && ns == us * 1000
                    &&& next.state.current_time_ms == us / 1000
                })
            }
            &&& starved && p.complete ==> next.state.status == PlaybackStatus::Stopped && told.contains(EventView::Ended)
        }),
{
    reveal(supply_step);
    let (action, next, told) = supply_step(s, p, wall_ns);
    if told.len() > 0 {
        assert(told.contains(told[0]));
    }
    if let Some(us) = p.next_frame_us {
        if 0 <= us * 1000 <= i64::MAX {
            assert((us * 1000) / 1_000_000 == us as int / 1000);
        }
    }
}

/// A download rests while more than 256 megabytes or too many frames wait, and goes on
/// once few frames do.
pub proof fn law_backpressure(config: BufferConfig, buffer_bytes: usize, frames_waiting: usize, paused: bool)
    requires
        config.resume_video_queue <= config.max_video_queue,
    ensures
        buffer_bytes > 256 * 1024 * 1024 || frames_waiting > config.max_video_queue ==> pause_wanted(config, buffer_bytes, frames_waiting, paused),
        buffer_bytes <= 256 * 1024 * 1024 && frames_waiting < config.resume_video_queue ==> !pause_wanted(config, buffer_bytes, frames_waiting, paused),
{
}

/// Media that was opened is told with the size of its first picture, and then as ready;
/// that the sound cannot be decoded is told before, and only where there is any.
pub proof fn law_ready_is_told(m: MediaView, audio: bool, s: StateView)
    ensures
        ({
            let e = ready_events(m, audio);
            let t = ready_state(s, m, audio);
            &&& e.len() >= 2
            &&& e.last() == (EventView::StatusChanged { status: PlaybackStatus::Ready })
            &&& e[e.len() - 2] is MediaLoaded
            &&& m.video_tracks.len() > 0 ==> e[0] == (EventView::VideoResized { width: m.video_tracks[0].width, height: m.video_tracks[0].height })
            &&& e.len() == 2 + (if m.video_tracks.len() > 0 { 1int } else { 0 }) + (if m.audio_tracks.len() > 0 && !audio { 1int } else { 0 })
            &&& m.audio_tracks.len() > 0 && !audio ==> (e[e.len() - 3] matches EventView::Error { recoverable, .. } && recoverable)
            &&& t.status == PlaybackStatus::Ready
            &&& m.video_tracks.len() > 0 ==> t.has_video && t.video_width == m.video_tracks[0].width && t.video_height == m.video_tracks[0].height
            &&& m.audio_tracks.len() > 0 ==> t.has_audio == audio
        }),
{
}

} // verus!
