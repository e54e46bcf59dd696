//! Playing, pausing, stopping, and changing tracks.

use vstd::prelude::*;
use vstd::string::*;

use crate::player::clock::{anchored, limited, ms_as_ns, ms_to_ns, position_at, PlaybackClock};
use crate::player::feed::FeedState;
use crate::player::mkv_part::MkvPartView;
use crate::player::session::{status_event, with_status, PlayKind, SessionView};
use crate::player::stream::{no_mp4, track_left, unplaced, StreamView};
use crate::player::sync::{fresh_sync, AVSync};
use crate::player::tick::{Core, CoreView};
use crate::player::types::{event_views, idle_state, PlaybackStatus, PlayerEvent, StateView};

verus! {

/// A feed without chunks.
pub open spec fn emptied(f: FeedState) -> FeedState {
    FeedState { queue: Seq::empty(), pending: None, dead_since_tick: 0, ..f }
}

/// The core once playback goes on: from where it was paused, or from the beginning
/// with the first frame setting the clock.
pub open spec fn playing(c: CoreView, kind: PlayKind, master_ns: i64) -> CoreView {
    let next = CoreView { session: with_status(c.session, PlaybackStatus::Playing), ..c };
    match kind {
        PlayKind::Resume => CoreView {
            clock: anchored(c.clock, master_ns, ms_as_ns(c.session.state.current_time_ms)),
            ..next
        },
        PlayKind::Fresh => CoreView {
            clock: PlaybackClock {
                start_ns: limited(master_ns - 0),
                synced_to_first_frame: false,
                skip_frames_before_us: None,
            },
            feed: FeedState { audio_skip_before_us: None, ..c.feed },
            ..next
        },
    }
}

/// The core once playback has been stopped.
pub open spec fn stopped(c: CoreView) -> CoreView {
    let s = with_status(c.session, PlaybackStatus::Stopped);
    CoreView {
        session: SessionView { state: StateView { current_time_ms: 0, ..s.state }, ..s },
        feed: emptied(c.feed),
        stream: StreamView { mkv: MkvPartView { demuxer: None, created_at: 0, ..c.stream.mkv }, ..c.stream },
        ..c
    }
}

/// The core before another track is loaded.
pub open spec fn between_tracks(c: CoreView) -> CoreView {
    CoreView {
        session: SessionView {
            state: StateView {
                current_time_ms: 0,
                has_video: false,
                has_audio: false,
                media_info: None,
                duration_ms: None,
                ..c.session.state
            },
            header_parsed: false,
            pre_seek_status: None,
            ..c.session
        },
        feed: emptied(c.feed),
        stream: track_left(c.stream),
        sync: fresh_sync(),
        ..c
    }
}

/// The core once its resources have been released.
pub open spec fn destroyed(c: CoreView) -> CoreView {
    CoreView {
        session: SessionView { state: idle_state(), header_parsed: false, pre_seek_status: None, ..c.session },
        feed: emptied(c.feed),
        stream: StreamView {
            format: None,
            mp4: no_mp4(),
            mkv: MkvPartView { frames_read: 0, last_ts_us: 0, ..c.stream.mkv },
            layout: unplaced(c.stream.layout),
            demuxed_len: 0,
            media: None,
            supports_range: false,
            ..c.stream
        },
        ..c
    }
}

impl Core {
    /// Playback begins or goes on; the media must be ready or paused.
    pub fn play(&mut self, kind: PlayKind, master_ns: i64, events: &mut Vec<PlayerEvent>)
        requires
            old(self).wf(),
        ensures
            final(self).wf(),
            final(self)@ == playing(old(self)@, kind, master_ns),
            event_views(final(events)@) == event_views(old(events)@).push(status_event(PlaybackStatus::Playing)),
    {
        let ghost c = self@;
        match kind {
            PlayKind::Resume => {
                self.clock.anchor(master_ns, ms_to_ns(self.session.state.current_time_ms));
            },
            PlayKind::Fresh => {
                self.clock.restart(master_ns, 0);
                self.feed.audio_skip_before_us = None;
            },
        }
        self.session.change_status(PlaybackStatus::Playing, events);
        assert(self@ =~= playing(c, kind, master_ns));
    }

    /// Playback is paused, where it goes on. Says whether it is.
    pub fn pause(&mut self, events: &mut Vec<PlayerEvent>) -> (r: bool)
        requires
            old(self).wf(),
        ensures
            final(self).wf(),
            r == (old(self)@.session.state.status == PlaybackStatus::Playing || old(self)@.session.state.status == PlaybackStatus::Buffering),
            final(self)@ == (if r {
                (CoreView { session: with_status(old(self)@.session, PlaybackStatus::Paused), ..old(self)@ })
            } else {
                old(self)@
            }),
            event_views(final(events)@) == if r {
                event_views(old(events)@).push(status_event(PlaybackStatus::Paused))
            } else {
                event_views(old(events)@)
            },
    {
        let ghost c = self@;
        if !self.session.can_pause() {
            return false;
        }
        self.session.change_status(PlaybackStatus::Paused, events);
        assert(self@ =~= (CoreView { session: with_status(c.session, PlaybackStatus::Paused), ..c }));
        true
    }

    /// Stop playback and go back to the beginning.
    pub fn stop(&mut self, events: &mut Vec<PlayerEvent>)
        requires
            old(self).wf(),
        ensures
            final(self).wf(),
            final(self)@ == stopped(old(self)@),
            event_views(final(events)@) == event_views(old(events)@).push(status_event(PlaybackStatus::Stopped)),
    {
        let ghost c = self@;
        self.feed.clear();
        self.stream.stop();
        self.session.stop(events);
        assert(self@ =~= stopped(c));
    }

    /// Forget the media before another track is loaded.
    pub fn reset_for_track(&mut self)
        requires
            old(self).wf(),
        ensures
            final(self).wf(),
            final(self)@ == between_tracks(old(self)@),
    {
        let ghost c = self@;
        self.session.reset_for_track();
        self.feed.clear();
        self.stream.reset_for_track();
        self.sync = AVSync::new();
        assert(self@ =~= between_tracks(c));
    }

    /// Forget everything that was loaded.
    pub fn destroy(&mut self)
        requires
            old(self).wf(),
        ensures
            final(self).wf(),
            final(self)@ == destroyed(old(self)@),
    {
        let ghost c = self@;
        self.session.destroy();
        self.feed.clear();
        self.stream.format = None;
        self.stream.mp4 = crate::player::mp4_part::Mp4Part::new();
        self.stream.mkv.frames_read = 0;
        self.stream.mkv.last_ts_us = 0;
        self.stream.layout.clear();
        self.stream.demuxed_len = 0;
        self.stream.media = None;
        self.stream.supports_range = false;
        assert(self@ =~= destroyed(c));
    }
}

/// Pausing and going on leaves the position where it was.
pub proof fn law_pause_keeps_position(c: CoreView, master_ns: i64)
    requires
        c.session.state.current_time_ms * 1_000_000 <= i64::MAX,
        i64::MIN <= master_ns - c.session.state.current_time_ms * 1_000_000,
    ensures
        crate::player::clock::ns_as_ms(
            crate::player::clock::position_at(playing(c, PlayKind::Resume, master_ns).clock, master_ns),
        ) == c.session.state.current_time_ms,
{
}

/// A player that was paused, stopped or destroyed no longer renders.
pub proof fn law_nothing_rendered_after_stop(c: CoreView)
    ensures
        !crate::player::session::is_active(stopped(c).session.state.status),
        !crate::player::session::is_active(destroyed(c).session.state.status),
{
}

/// Playback that begins anew begins with the start of the media, and playback that goes
/// on begins where it was: there the clock stands from then on.
pub proof fn law_play_position(c: CoreView, master_ns: i64)
    requires
        c.session.state.current_time_ms * 1_000_000 <= i64::MAX,
        i64::MIN <= master_ns - c.session.state.current_time_ms * 1_000_000,
    ensures
        position_at(playing(c, PlayKind::Fresh, master_ns).clock, master_ns) == 0,
        position_at(playing(c, PlayKind::Resume, master_ns).clock, master_ns) == c.session.state.current_time_ms * 1_000_000,
        playing(c, PlayKind::Fresh, master_ns).session.state.status == PlaybackStatus::Playing,
        playing(c, PlayKind::Resume, master_ns).session.state.status == PlaybackStatus::Playing,
        playing(c, PlayKind::Resume, master_ns).feed == c.feed,
        playing(c, PlayKind::Fresh, master_ns).feed.queue == c.feed.queue,
        stopped(c).session.state.status == PlaybackStatus::Stopped,
        stopped(c).session.state.current_time_ms == 0,
        stopped(c).feed.queue.len() == 0,
{
}

} // verus!
