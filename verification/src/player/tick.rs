//! One tick of the render loop, step by step. Decoding, drawing and sound are
//! done outside: a step says what is to be done next, and the following one is
//! told what came of it.

use vstd::prelude::*;
use vstd::string::*;

use crate::demux::types::{ChunkView, EncodedChunk};
use crate::player::buffer::{default_config, BufferConfig, SharedDownload};
use crate::player::clock::{anchored, is_stale, ns_as_ms, position_at, skipped_to, us_as_ns, PlaybackClock};
use crate::player::download::{drained, pending_sound, pending_views, PrefetchState};
use crate::player::feed::{
    empty_feed, from_keyframe, near_keyframe, next_fed, wants_keyframe, DecoderSignals, Feed, FeedAction, FeedState,
    FeedView, RECOVERY_TICKS,
};
use crate::player::mp4_part::part_order;
use crate::player::session::{
    all_there, backpressure, fresh_session, is_active, is_due, pause_wanted, supply_step, Session, SessionView, Supply,
    SupplyAction, BUFFER_UPDATE_NS, STATS_TICKS,
};
use crate::player::stream::{demuxed, no_stream, Stream, StreamView};
use crate::player::sync::{fresh_sync, sync_step, AVSync, SyncAction};
use crate::player::types::{event_views, EventView, PlaybackStatus, PlayerEvent, StateView};

verus! {

/// Where a tick stands.
#[derive(Debug, Clone, Copy, PartialEq, Eq, Structural)]
pub enum TickStage {
    /// Between two ticks.
    Idle,
    /// A new decoder is being made.
    Recovering,
    /// Chunks are fed to the decoders.
    Feeding,
    /// Frames from before a skip are discarded.
    Discarding,
    /// Frames are judged by their time.
    Judging,
    /// The frame that was chosen is to be drawn.
    Drawing,
    /// Statistics, then sound.
    Sounding,
    /// Time and supply.
    Supplying,
    /// Back-pressure and the last events.
    Closing,
}

/// What the decoders and the clocks say before a step.
#[derive(Debug, Clone, Copy, PartialEq, Eq, Structural)]
pub struct Signals {
    pub video_dead: bool,
    /// Decoded video frames in the output queue.
    pub frames_waiting: usize,
    /// Chunks pending in the video decoder.
    pub decodes_pending: u32,
    /// The time of the next decoded frame.
    pub next_frame_us: Option<i64>,
    pub audio_configured: bool,
    pub audio_dead: bool,
    /// The time of the window.
    pub wall_ns: i64,
    /// The time of the master clock.
    pub master_ns: i64,
}

/// What came of the last action.
#[derive(Debug)]
pub enum TickReply {
    /// It was done.
    Done,
    /// A new decoder could not be made or did not take the keyframe.
    NotRecovered,
    /// The video decoder refused the chunk.
    VideoFailed(String),
    /// The audio decoder refused the chunk.
    AudioFailed(String),
}

/// What came of the last action, as a view.
#[verifier::ext_equal]
pub enum ReplyView {
    Done,
    NotRecovered,
    VideoFailed(Seq<char>),
    AudioFailed(Seq<char>),
}

impl View for TickReply {
    type V = ReplyView;

    open spec fn view(&self) -> ReplyView {
        match self {
            TickReply::Done => ReplyView::Done,
            TickReply::NotRecovered => ReplyView::NotRecovered,
            TickReply::VideoFailed(s) => ReplyView::VideoFailed(s@),
            TickReply::AudioFailed(s) => ReplyView::AudioFailed(s@),
        }
    }
}

/// What is to be done next.
#[derive(Debug)]
pub enum TickAction {
    /// The tick is over; says whether there is another one.
    Over(bool),
    /// Replace the video decoder and feed it this keyframe.
    ReplaceDecoder(EncodedChunk),
    DecodeVideo(EncodedChunk),
    DecodeAudio(EncodedChunk),
    /// Take the next frame as the one to draw; an earlier one is discarded.
    KeepFrame,
    /// Discard the next frame.
    DropFrame,
    /// Discard all decoded frames.
    FlushFrames,
    /// Draw the frame that was kept, if any.
    Draw,
    /// Play the decoded sound.
    PumpAudio,
    /// Begin the schedule of sound anew at a position, and play.
    RestartAudio(i64),
}

/// What is to be done next, as a view.
#[verifier::ext_equal]
pub enum ActionView {
    Over(bool),
    ReplaceDecoder(ChunkView),
    DecodeVideo(ChunkView),
    DecodeAudio(ChunkView),
    KeepFrame,
    DropFrame,
    FlushFrames,
    Draw,
    PumpAudio,
    RestartAudio(i64),
}

impl View for TickAction {
    type V = ActionView;

    open spec fn view(&self) -> ActionView {
        match self {
            TickAction::Over(more) => ActionView::Over(*more),
            TickAction::ReplaceDecoder(c) => ActionView::ReplaceDecoder(c@),
            TickAction::DecodeVideo(c) => ActionView::DecodeVideo(c@),
            TickAction::DecodeAudio(c) => ActionView::DecodeAudio(c@),
            TickAction::KeepFrame => ActionView::KeepFrame,
            TickAction::DropFrame => ActionView::DropFrame,
            TickAction::FlushFrames => ActionView::FlushFrames,
            TickAction::Draw => ActionView::Draw,
            TickAction::PumpAudio => ActionView::PumpAudio,
            TickAction::RestartAudio(ns) => ActionView::RestartAudio(*ns),
        }
    }
}

/// All that a player keeps of playback.
pub struct Core {
    pub session: Session,
    pub stream: Stream,
    pub feed: Feed,
    pub clock: PlaybackClock,
    pub sync: AVSync,
    pub config: BufferConfig,
    pub stage: TickStage,
    /// The position that holds for the current tick.
    pub tick_clock_ns: i64,
}

/// All that a player keeps of playback, as views.
#[verifier::ext_equal]
pub struct CoreView {
    pub session: SessionView,
    pub stream: StreamView,
    pub feed: FeedState,
    pub clock: PlaybackClock,
    pub sync: AVSync,
    pub config: BufferConfig,
    pub stage: TickStage,
    pub tick_clock_ns: i64,
}

impl View for Core {
    type V = CoreView;

    open spec fn view(&self) -> CoreView {
        CoreView {
            session: self.session@,
            stream: self.stream@,
            feed: self.feed@,
            clock: self.clock,
            sync: self.sync,
            config: self.config,
            stage: self.stage,
            tick_clock_ns: self.tick_clock_ns,
        }
    }
}

/// A player that was just made.
pub open spec fn fresh_core() -> CoreView {
    CoreView {
        session: fresh_session(),
        stream: no_stream(),
        feed: empty_feed(),
        clock: PlaybackClock { start_ns: 0, synced_to_first_frame: false, skip_frames_before_us: None },
        sync: fresh_sync(),
        config: default_config(),
        stage: TickStage::Idle,
        tick_clock_ns: 0,
    }
}

/// A core at another stage.
pub open spec fn at(c: CoreView, stage: TickStage) -> CoreView {
    CoreView { stage, ..c }
}

/// A core after a step of demuxing.
#[verifier::opaque]
pub open spec fn core_demuxed(c: CoreView, data: Seq<u8>, order: Seq<u32>) -> CoreView {
    let (chunks, stream) = demuxed(c.stream, c.config.demux_batch_size, c.feed.queue.len() == 0, data, order);
    CoreView { stream, feed: FeedState { queue: c.feed.queue + chunks, ..c.feed }, ..c }
}

/// A core and its download after data that was fetched ahead has been taken, where
/// windows are fetched.
#[verifier::opaque]
pub open spec fn core_drained(c: CoreView, data: Seq<u8>, pending: Seq<(u64, Seq<u8>)>, order: Seq<u32>) -> (CoreView, Seq<u8>) {
    if c.stream.window is None {
        (c, data)
    } else {
        let (stream, d, total) = drained(c.stream, data, pending, pending.len());
        let next = CoreView { stream, ..c };
        (if total > 0 { core_demuxed(next, d, order) } else { next }, d)
    }
}

/// A core with more chunks queued, where they are few.
#[verifier::opaque]
pub open spec fn core_refilled(c: CoreView, data: Seq<u8>, order: Seq<u32>) -> CoreView {
    if c.feed.queue.len() < c.config.min_chunk_queue { core_demuxed(c, data, order) } else { c }
}

/// The tick at which a decoder is known to be dead.
pub open spec fn dead_since(f: FeedState, video_dead: bool, tick: u64) -> u64 {
    if !video_dead { 0 } else if f.dead_since_tick == 0 { tick } else { f.dead_since_tick }
}

/// Whether a dead decoder is given up.
pub open spec fn gives_up(f: FeedState, s: Signals, tick: u64) -> bool {
    s.video_dead && (s.frames_waiting == 0 || tick - dead_since(f, s.video_dead, tick) >= RECOVERY_TICKS)
}

/// The feed at the beginning of a tick.
#[verifier::opaque]
pub open spec fn feed_begun(f: FeedState, s: Signals, tick: u64) -> FeedState {
    FeedState {
        dead_since_tick: dead_since(f, s.video_dead, tick),
        pending: if gives_up(f, s, tick) { None } else { f.pending },
        decoded: 0,
        video_dead: s.video_dead,
        ..f
    }
}

/// The signals that feeding needs.
pub open spec fn feed_signals(s: Signals) -> DecoderSignals {
    DecoderSignals {
        frames_waiting: s.frames_waiting,
        decodes_pending: s.decodes_pending,
        audio_configured: s.audio_configured,
        audio_dead: s.audio_dead,
    }
}

/// A step: what is to be done, the core after it, and the events.
#[verifier::ext_equal]
pub struct StepView {
    pub action: ActionView,
    pub core: CoreView,
    pub events: Seq<EventView>,
    /// Whether the download is told to pause or to go on.
    pub presses: bool,
}

/// A step with events before its own.
pub open spec fn told(events: Seq<EventView>, s: StepView) -> StepView {
    StepView { events: events + s.events, ..s }
}

// ---------------------------------------------------------------------------
// Steps, from the last stage to the first
// ---------------------------------------------------------------------------

/// Whether a download is to be paused, at the end of a tick.
pub open spec fn paused_after(c: CoreView, s: Signals, data_len: usize, paused: bool) -> bool {
    pause_wanted(c.config, data_len, s.frames_waiting, paused)
}

/// The end of a tick: how much is buffered is told.
#[verifier::opaque]
pub open spec fn closed(c: CoreView, s: Signals, data_len: usize) -> StepView {
    let due = is_due(s.wall_ns, c.session.last_buffer_update_ns, BUFFER_UPDATE_NS);
    StepView {
        action: ActionView::Over(true),
        core: CoreView {
            session: SessionView {
                state: StateView { buffered_ms: data_len as u64, ..c.session.state },
                last_buffer_update_ns: if due { s.wall_ns } else { c.session.last_buffer_update_ns },
                ..c.session
            },
            stage: TickStage::Idle,
            ..c
        },
        events: if due { seq![EventView::BufferUpdate { buffered_ms: data_len as u64 }] } else { Seq::empty() },
        presses: true,
    }
}

/// The supply at the end of a tick.
#[verifier::opaque]
pub open spec fn supply_of(c: CoreView, s: Signals, data_len: usize, complete: bool) -> Supply {
    let there = all_there(
        data_len,
        complete,
        match c.stream.window {
            Some(w) => Some(w.file_size),
            None => None,
        },
    );
    Supply {
        has_frames: s.frames_waiting > 0,
        has_chunks: c.feed.queue.len() > 0,
        has_data: data_len > c.stream.demuxed_len,
        can_demux_more: data_len > c.stream.demuxed_len || !there,
        complete: there,
        next_frame_us: s.next_frame_us,
    }
}

/// Time is told, and the supply decides how playback goes on.
#[verifier::opaque]
pub open spec fn supplied(c: CoreView, s: Signals, data_len: usize, complete: bool) -> StepView {
    let ms = ns_as_ms(c.tick_clock_ns);
    let timed = SessionView { state: StateView { current_time_ms: ms, ..c.session.state }, ..c.session };
    let time_told: Seq<EventView> = seq![EventView::TimeUpdate { current_ms: ms }];
    let (action, session, supply_told) = supply_step(timed, supply_of(c, s, data_len, complete), s.wall_ns);
    let next = CoreView { session, ..c };
    let events = time_told + supply_told;
    match action {
        SupplyAction::Ended => StepView { action: ActionView::Over(false), core: at(next, TickStage::Idle), events, presses: false },
        SupplyAction::Resume(Some(position)) => {
            let synced = CoreView {
                clock: PlaybackClock { synced_to_first_frame: true, ..anchored(c.clock, s.master_ns, position) },
                ..next
            };
            if s.audio_configured {
                StepView { action: ActionView::RestartAudio(position), core: at(synced, TickStage::Closing), events, presses: false }
            } else {
                told(events, closed(synced, s, data_len))
            }
        },
        _ => told(events, closed(next, s, data_len)),
    }
}

/// Statistics are told now and then, and sound is played while playback goes on.
#[verifier::opaque]
pub open spec fn sounded(c: CoreView, s: Signals, data_len: usize, complete: bool) -> StepView {
    let n = c.session.stats_ticks.wrapping_add(1);
    let next = CoreView {
        session: SessionView { stats_ticks: if n >= STATS_TICKS { 0 } else { n }, ..c.session },
        ..c
    };
    let events: Seq<EventView> = if n >= STATS_TICKS {
        seq![
            EventView::SyncStats {
                rendered: c.sync.frames_rendered,
                dropped: c.sync.frames_dropped,
                held: c.sync.frames_held,
                skipped: c.sync.frames_skipped,
            },
        ]
    } else {
        Seq::empty()
    };
    if c.session.state.status == PlaybackStatus::Playing {
        StepView { action: ActionView::PumpAudio, core: at(next, TickStage::Supplying), events, presses: false }
    } else {
        told(events, supplied(next, s, data_len, complete))
    }
}

/// The frame that was chosen is drawn.
pub open spec fn drawn(c: CoreView) -> StepView {
    StepView { action: ActionView::Draw, core: at(c, TickStage::Sounding), events: Seq::empty(), presses: false }
}

/// The next frame is judged by its time.
#[verifier::opaque]
pub open spec fn judged(c: CoreView, s: Signals) -> StepView {
    match s.next_frame_us {
        None => drawn(c),
        Some(pts_us) => {
            let (action, sync) = sync_step(c.sync, us_as_ns(pts_us), c.tick_clock_ns);
            let next = CoreView { sync, ..c };
            match action {
                SyncAction::Render => StepView { action: ActionView::KeepFrame, core: at(next, TickStage::Judging), events: Seq::empty(), presses: false },
                SyncAction::Drop => StepView { action: ActionView::DropFrame, core: at(next, TickStage::Judging), events: Seq::empty(), presses: false },
                SyncAction::Hold => drawn(next),
                SyncAction::SkipToKeyframe => StepView {
                    action: ActionView::FlushFrames,
                    core: CoreView {
                        feed: FeedState { queue: from_keyframe(c.feed.queue), ..c.feed },
                        clock: skipped_to(c.clock, near_keyframe(c.feed.queue, c.tick_clock_ns)),
                        stage: TickStage::Drawing,
                        ..next
                    },
                    events: Seq::empty(),
                    presses: false,
                },
            }
        },
    }
}

/// Frames from before a skip are discarded; the first other one may set the clock.
#[verifier::opaque]
pub open spec fn discarded(c: CoreView, s: Signals) -> StepView {
    match s.next_frame_us {
        None => judged(c, s),
        Some(pts_us) => if is_stale(c.clock, pts_us) {
            StepView { action: ActionView::DropFrame, core: at(c, TickStage::Discarding), events: Seq::empty(), presses: false }
        } else {
            let open = PlaybackClock { skip_frames_before_us: None, ..c.clock };
            if open.synced_to_first_frame {
                judged(CoreView { clock: open, ..c }, s)
            } else {
                judged(
                    CoreView {
                        clock: PlaybackClock { synced_to_first_frame: true, ..anchored(open, s.master_ns, us_as_ns(pts_us)) },
                        tick_clock_ns: us_as_ns(pts_us),
                        ..c
                    },
                    s,
                )
            }
        },
    }
}

/// Chunks are fed to the decoders.
#[verifier::opaque]
pub open spec fn fed(c: CoreView, s: Signals) -> StepView {
    let (action, feed) = next_fed(c.feed, feed_signals(s), c.config.decode_batch_size);
    let next = CoreView { feed, stage: TickStage::Feeding, ..c };
    match action {
        FeedView::DecodeVideo(k) => StepView { action: ActionView::DecodeVideo(k), core: next, events: Seq::empty(), presses: false },
        FeedView::DecodeAudio(k) => StepView { action: ActionView::DecodeAudio(k), core: next, events: Seq::empty(), presses: false },
        FeedView::Done => discarded(
            CoreView {
                feed: FeedState { queue: feed.deferred + feed.queue, deferred: Seq::empty(), ..feed },
                tick_clock_ns: position_at(c.clock, s.master_ns),
                ..next
            },
            s,
        ),
    }
}

/// A decoder has answered, and feeding goes on.
#[verifier::opaque]
pub open spec fn fed_on(c: CoreView, s: Signals, reply: ReplyView) -> StepView {
    match reply {
        ReplyView::VideoFailed(m) => if wants_keyframe(m) {
            fed(c, s)
        } else {
            told(
                seq![EventView::Error { message: "Video decode error: "@ + m, recoverable: true }],
                fed(CoreView { feed: FeedState { video_dead: true, ..c.feed }, ..c }, s),
            )
        },
        ReplyView::AudioFailed(m) => told(
            seq![EventView::Error { message: "Audio decode error: "@ + m, recoverable: true }],
            fed(c, s),
        ),
        _ => fed(c, s),
    }
}

/// A new decoder has been made, or not, and feeding begins.
#[verifier::opaque]
pub open spec fn recovered_on(c: CoreView, s: Signals, reply: ReplyView) -> StepView {
    if reply is NotRecovered {
        fed(c, s)
    } else {
        fed(
            CoreView {
                feed: FeedState { dead_since_tick: 0, video_dead: false, ..c.feed },
                clock: PlaybackClock { synced_to_first_frame: false, ..c.clock },
                ..c
            },
            s,
        )
    }
}

/// A tick that renders begins: data is taken and demuxed, and a dead decoder is
/// given up or not.
#[verifier::opaque]
pub open spec fn begun(c: CoreView, s: Signals, data: Seq<u8>, pending: Seq<(u64, Seq<u8>)>, first: Seq<u32>, second: Seq<u32>) -> StepView {
    let tick = c.session.tick.wrapping_add(1);
    let counted = CoreView { session: SessionView { tick, ..c.session }, ..c };
    let (with_data, d) = core_drained(counted, data, pending, first);
    let full = core_refilled(with_data, d, second);
    let next = CoreView { feed: feed_begun(full.feed, s, tick), ..full };
    if gives_up(full.feed, s, tick) && full.feed.pending is Some {
        StepView {
            action: ActionView::ReplaceDecoder(full.feed.pending->Some_0),
            core: at(next, TickStage::Recovering),
            events: Seq::empty(),
            presses: false,
        }
    } else {
        fed(next, s)
    }
}

/// The download after a step.
pub open spec fn download_after(d: SharedDownload, c: CoreView, s: Signals, v: StepView) -> SharedDownload {
    if v.presses { SharedDownload { paused: paused_after(c, s, d.data.len(), d.paused), ..d } } else { d }
}

/// A step of a tick. `first` and `second` list the tracks of MP4 demuxers that are
/// made in it.
#[verifier::opaque]
pub open spec fn stepped(c: CoreView, s: Signals, reply: ReplyView, data: Seq<u8>, complete: bool, pending: Seq<(u64, Seq<u8>)>, first: Seq<u32>, second: Seq<u32>) -> StepView {
    let len = data.len() as usize;
    match c.stage {
        TickStage::Idle => if !is_active(c.session.state.status) {
            StepView { action: ActionView::Over(false), core: c, events: Seq::empty(), presses: false }
        } else if c.session.state.status == PlaybackStatus::Seeking {
            StepView { action: ActionView::Over(true), core: c, events: Seq::empty(), presses: false }
        } else {
            begun(c, s, data, pending, first, second)
        },
        TickStage::Recovering => recovered_on(c, s, reply),
        TickStage::Feeding => fed_on(c, s, reply),
        TickStage::Discarding => discarded(c, s),
        TickStage::Judging => judged(c, s),
        TickStage::Drawing => drawn(c),
        TickStage::Sounding => sounded(c, s, len, complete),
        TickStage::Supplying => supplied(c, s, len, complete),
        TickStage::Closing => closed(c, s, len),
    }
}

/// Whether a step of the given kind takes data that was fetched ahead.
pub open spec fn takes_pending(c: CoreView) -> bool {
    &&& c.stage == TickStage::Idle
    &&& c.session.state.status == PlaybackStatus::Playing || c.session.state.status == PlaybackStatus::Buffering
    &&& c.stream.window is Some
}

impl Core {
    /// The parts are valid.
    pub open spec fn wf(&self) -> bool {
        self.stream.wf() && self.sync.wf()
    }

    /// A player that was just made.
    pub fn new() -> (r: Self)
        ensures
            r.wf(),
            r@ == fresh_core(),
    {
        let r: Core = Core {
            session: Session::new(),
            stream: Stream::new(),
            feed: Feed::new(),
            clock: PlaybackClock::new(),
            sync: AVSync::new(),
            config: BufferConfig::new(),
            stage: TickStage::Idle,
            tick_clock_ns: 0,
        };
        assert(r@ =~= fresh_core());
        r
    }

    /// Set buffer configuration.
    pub fn set_config(&mut self, config: BufferConfig)
        requires
            old(self).wf(),
        ensures
            final(self).wf(),
            final(self)@ == (CoreView { config, ..old(self)@ }),
    {
        self.config = config;
        assert(self@ =~= (CoreView { config, ..old(self)@ }));
    }

    /// Demux more chunks from the download.
    pub fn demux_more(&mut self, data: &Vec<u8>)
        requires
            old(self).wf(),
        ensures
            final(self).wf(),
            final(self)@ == core_demuxed(old(self)@, data@, part_order(final(self)@.stream.mp4)),
            final(self)@.session == old(self)@.session,
    {
        proof {
            reveal(core_demuxed);
        }
        assert(self.feed@.queue.len() == self.feed.queue@.len());
        self.stream.try_demux_more(self.config.demux_batch_size, data, &mut self.feed.queue);
        assert(self@ =~= core_demuxed(old(self)@, data@, part_order(self@.stream.mp4)));
    }

    /// How much is buffered is told, and the download is paused or not.
    fn close(&mut self, s: &Signals, download: &mut SharedDownload, events: &mut Vec<PlayerEvent>) -> (r: TickAction)
        requires
            old(self).wf(),
        ensures
            final(self).wf(),
            ({
                let v = closed(old(self)@, *s, old(download).data.len());
                &&& r@ == v.action
                &&& final(self)@ == v.core
                &&& event_views(final(events)@) == event_views(old(events)@) + v.events
            }),
            closed(old(self)@, *s, old(download).data.len()).presses,
            *final(download) == (SharedDownload { paused: paused_after(old(self)@, *s, old(download).data.len(), old(download).paused), ..*old(download) }),
    {
        proof {
            reveal(closed);
        }
        let ghost before = self@;
        let ghost first = event_views(events@);
        let len: usize = download.data.len();
        download.paused = backpressure(&self.config, len, s.frames_waiting, download.paused);
        self.session.update_buffer(len as u64, s.wall_ns, events);
        self.stage = TickStage::Idle;
        assert(self@ =~= closed(before, *s, len).core);
        assert(event_views(events@) =~= first + closed(before, *s, len).events);
        TickAction::Over(true)
    }

    /// Time is told, and the supply decides how playback goes on.
    fn supply(&mut self, s: &Signals, download: &mut SharedDownload, events: &mut Vec<PlayerEvent>) -> (r: TickAction)
        requires
            old(self).wf(),
        ensures
            final(self).wf(),
            ({
                let v = supplied(old(self)@, *s, old(download).data.len(), old(download).complete);
                &&& r@ == v.action
                &&& final(self)@ == v.core
                &&& event_views(final(events)@) == event_views(old(events)@) + v.events
                &&& *final(download) == download_after(*old(download), old(self)@, *s, v)
            }),
    {
        proof {
            reveal(supplied);
        }
        let ghost before = self@;
        let ghost first = event_views(events@);
        let ghost v = supplied(before, *s, download.data.len(), download.complete);
        self.session.update_time(self.tick_clock_ns, events);
        let ghost timed = event_views(events@);
        let file_size: Option<u64> = match &self.stream.window {
            Some(w) => Some(w.file_size),
            None => None,
        };
        assert(self.feed@.queue.len() == self.feed.queue@.len());
        let supply: Supply = Supply::of(
            s.frames_waiting,
            self.feed.queue.len(),
            s.next_frame_us,
            download.data.len(),
            self.stream.demuxed_len,
            download.complete,
            file_size,
        );
        assert(supply == supply_of(before, *s, download.data.len(), download.complete)) by {
            reveal(supply_of);
        }
        let action: SupplyAction = self.session.supply(&supply, s.wall_ns, events);
        let ghost after = event_views(events@);
        match action {
            SupplyAction::Ended => {
                self.stage = TickStage::Idle;
                assert(self@ =~= v.core);
                assert(after =~= first + v.events);
                TickAction::Over(false)
            },
            SupplyAction::Resume(Some(position)) => {
                self.clock.anchor(s.master_ns, position);
                self.clock.synced_to_first_frame = true;
                if s.audio_configured {
                    self.stage = TickStage::Closing;
                    assert(self@ =~= v.core);
                    assert(after =~= first + v.events);
                    TickAction::RestartAudio(position)
                } else {
                    let r: TickAction = self.close(s, download, events);
                    assert(event_views(events@) =~= first + v.events);
                    r
                }
            },
            _ => {
                let r: TickAction = self.close(s, download, events);
                assert(event_views(events@) =~= first + v.events);
                r
            },
        }
    }

    /// Statistics are told now and then, and sound is played while playback goes
    /// on: while it is buffering, sound must not run ahead of the picture.
    fn sound(&mut self, s: &Signals, download: &mut SharedDownload, events: &mut Vec<PlayerEvent>) -> (r: TickAction)
        requires
            old(self).wf(),
        ensures
            final(self).wf(),
            ({
                let v = sounded(old(self)@, *s, old(download).data.len(), old(download).complete);
                &&& r@ == v.action
                &&& final(self)@ == v.core
                &&& event_views(final(events)@) == event_views(old(events)@) + v.events
                &&& *final(download) == download_after(*old(download), old(self)@, *s, v)
            }),
    {
        proof {
            reveal(sounded);
        }
        let ghost before = self@;
        let ghost first = event_views(events@);
        let ghost v = sounded(before, *s, download.data.len(), download.complete);
        let stats: (u64, u64, u64, u64) = self.sync.stats();
        self.session.report_stats(stats, events);
        if self.session.state.status == PlaybackStatus::Playing {
            self.stage = TickStage::Supplying;
            assert(self@ =~= v.core);
            assert(event_views(events@) =~= first + v.events);
            return TickAction::PumpAudio;
        }
        let r: TickAction = self.supply(s, download, events);
        assert(event_views(events@) =~= first + v.events);
        r
    }

    /// The next frame is judged by its time.
    fn judge(&mut self, s: &Signals) -> (r: TickAction)
        requires
            old(self).wf(),
        ensures
            final(self).wf(),
            r@ == judged(old(self)@, *s).action,
            final(self)@ == judged(old(self)@, *s).core,
            judged(old(self)@, *s).events == Seq::<EventView>::empty(),
            !judged(old(self)@, *s).presses,
    {
        proof {
            reveal(judged);
        }
        let ghost before = self@;
        if let Some(pts_us) = s.next_frame_us {
            match self.clock.decide(&mut self.sync, &mut self.feed, pts_us, self.tick_clock_ns) {
                SyncAction::Render => {
                    self.stage = TickStage::Judging;
                    assert(self@ =~= judged(before, *s).core);
                    return TickAction::KeepFrame;
                },
                SyncAction::Drop => {
                    self.stage = TickStage::Judging;
                    assert(self@ =~= judged(before, *s).core);
                    return TickAction::DropFrame;
                },
                SyncAction::SkipToKeyframe => {
                    self.stage = TickStage::Drawing;
                    assert(self@ =~= judged(before, *s).core);
                    return TickAction::FlushFrames;
                },
                SyncAction::Hold => {},
            }
        }
        self.stage = TickStage::Sounding;
        assert(self@ =~= judged(before, *s).core);
        TickAction::Draw
    }

    /// Frames from before a skip are discarded; the first other one may set the
    /// clock.
    fn discard(&mut self, s: &Signals) -> (r: TickAction)
        requires
            old(self).wf(),
        ensures
            final(self).wf(),
            r@ == discarded(old(self)@, *s).action,
            final(self)@ == discarded(old(self)@, *s).core,
            discarded(old(self)@, *s).events == Seq::<EventView>::empty(),
            !discarded(old(self)@, *s).presses,
    {
        proof {
            reveal(discarded);
        }
        let ghost before = self@;
        if let Some(pts_us) = s.next_frame_us {
            if self.clock.discard_stale(pts_us) {
                self.stage = TickStage::Discarding;
                assert(self@ =~= discarded(before, *s).core);
                return TickAction::DropFrame;
            }
            if let Some(position) = self.clock.sync_to_frame(pts_us, s.master_ns) {
                self.tick_clock_ns = position;
            }
        }
        self.judge(s)
    }

    /// Chunks are fed to the decoders.
    fn feed_next(&mut self, s: &Signals) -> (r: TickAction)
        requires
            old(self).wf(),
        ensures
            final(self).wf(),
            r@ == fed(old(self)@, *s).action,
            final(self)@ == fed(old(self)@, *s).core,
            fed(old(self)@, *s).events == Seq::<EventView>::empty(),
            !fed(old(self)@, *s).presses,
    {
        proof {
            reveal(fed);
        }
        let ghost before = self@;
        let signals: DecoderSignals = DecoderSignals {
            frames_waiting: s.frames_waiting,
            decodes_pending: s.decodes_pending,
            audio_configured: s.audio_configured,
            audio_dead: s.audio_dead,
        };
        self.stage = TickStage::Feeding;
        match self.feed.next(signals, self.config.decode_batch_size) {
            FeedAction::DecodeVideo(c) => {
                assert(self@ =~= fed(before, *s).core);
                TickAction::DecodeVideo(c)
            },
            FeedAction::DecodeAudio(c) => {
                assert(self@ =~= fed(before, *s).core);
                TickAction::DecodeAudio(c)
            },
            FeedAction::Done => {
                self.feed.finish();
                self.tick_clock_ns = self.clock.position_ns(s.master_ns);
                self.discard(s)
            },
        }
    }

    /// A tick that renders begins.
    fn begin(&mut self, s: &Signals, download: &mut SharedDownload, prefetch: &mut PrefetchState) -> (r: TickAction)
        requires
            old(self).wf(),
            pending_sound(old(prefetch).pending_data@),
        ensures
            final(self).wf(),
            exists|first: Seq<u32>, second: Seq<u32>| {
                let v = #[trigger] begun(old(self)@, *s, old(download).data@, pending_views(old(prefetch).pending_data@), first, second);
                r@ == v.action && final(self)@ == v.core && v.events == Seq::<EventView>::empty() && !v.presses
            },
            old(self)@.stream.window is None ==> *final(download) == *old(download) && *final(prefetch) == *old(prefetch),
            old(self)@.stream.window is Some ==> {
                &&& final(download).data@ == drained(
                    old(self)@.stream,
                    old(download).data@,
                    pending_views(old(prefetch).pending_data@),
                    old(prefetch).pending_data@.len(),
                ).1
                &&& *final(download) == (SharedDownload { data: final(download).data, ..*old(download) })
                &&& *final(prefetch) == (PrefetchState { pending_data: final(prefetch).pending_data, ..*old(prefetch) })
                &&& final(prefetch).pending_data@.len() == 0
            },
    {
        proof {
            reveal(begun);
        }
        let ghost before = self@;
        let ghost pending_before = pending_views(prefetch.pending_data@);
        let ghost data_before = download.data@;
        self.session.tick = self.session.tick.wrapping_add(1);
        let ghost tick = before.session.tick.wrapping_add(1);
        let ghost counted = CoreView { session: SessionView { tick, ..before.session }, ..before };
        assert(self@ =~= counted);
        let ghost mut order1: Seq<u32> = Seq::empty();
        if self.stream.window.is_some() {
            let pending: Vec<(u64, Vec<u8>)> = prefetch.take_pending();
            let total: usize = self.stream.drain_prefetch(pending, &mut download.data);
            let ghost taken = self@;
            if total > 0 {
                self.demux_more(&download.data);
                proof {
                    order1 = part_order(self@.stream.mp4);
                }
            }
            assert(self@ =~= core_drained(counted, data_before, pending_before, order1).0) by {
                reveal(core_drained);
            }
        }
        assert(self@ =~= core_drained(counted, data_before, pending_before, order1).0 && download.data@ == core_drained(
            counted,
            data_before,
            pending_before,
            order1,
        ).1) by {
            reveal(core_drained);
        }
        let ghost filled = self@;
        let ghost mut order2: Seq<u32> = Seq::empty();
        assert(self.feed@.queue.len() == self.feed.queue@.len());
        if self.feed.queue.len() < self.config.min_chunk_queue {
            self.demux_more(&download.data);
            proof {
                order2 = part_order(self@.stream.mp4);
            }
        }
        assert(self@ == core_refilled(filled, download.data@, order2)) by {
            reveal(core_refilled);
        }
        let ghost full = self@;
        let keyframe: Option<EncodedChunk> = self.feed.begin(s.video_dead, s.frames_waiting, self.session.tick);
        assert(full.session.tick == tick);
        assert(self@ =~= (CoreView { feed: feed_begun(full.feed, *s, tick), ..full })) by {
            reveal(feed_begun);
        }
        let ghost v = begun(before, *s, data_before, pending_before, order1, order2);
        match keyframe {
            Some(c) => {
                self.stage = TickStage::Recovering;
                assert(self@ =~= v.core);
                TickAction::ReplaceDecoder(c)
            },
            None => self.feed_next(s),
        }
    }

    /// Take a step of a tick: `reply` says what came of the last action. The tick
    /// goes on until its action says that it is over.
    pub fn step(&mut self, s: &Signals, reply: TickReply, download: &mut SharedDownload, prefetch: &mut PrefetchState, events: &mut Vec<PlayerEvent>) -> (r: TickAction)
        requires
            old(self).wf(),
            pending_sound(old(prefetch).pending_data@),
        ensures
            final(self).wf(),
            exists|first: Seq<u32>, second: Seq<u32>| {
                let v = #[trigger] stepped(
                    old(self)@,
                    *s,
                    reply@,
                    old(download).data@,
                    old(download).complete,
                    pending_views(old(prefetch).pending_data@),
                    first,
                    second,
                );
                &&& r@ == v.action
                &&& final(self)@ == v.core
                &&& event_views(final(events)@) == event_views(old(events)@) + v.events
                &&& !takes_pending(old(self)@) ==> *final(download) == download_after(*old(download), old(self)@, *s, v)
            },
            !takes_pending(old(self)@) ==> *final(prefetch) == *old(prefetch),
            takes_pending(old(self)@) ==> {
                &&& final(download).data@ == drained(
                    old(self)@.stream,
                    old(download).data@,
                    pending_views(old(prefetch).pending_data@),
                    old(prefetch).pending_data@.len(),
                ).1
                &&& *final(download) == (SharedDownload { data: final(download).data, ..*old(download) })
                &&& *final(prefetch) == (PrefetchState { pending_data: final(prefetch).pending_data, ..*old(prefetch) })
                &&& final(prefetch).pending_data@.len() == 0
            },
    {
        proof {
            reveal(stepped);
            reveal(recovered_on);
            reveal(fed_on);
        }
        let ghost before = self@;
        let ghost first = event_views(events@);
        let ghost none: Seq<u32> = Seq::empty();
        let ghost pending = pending_views(prefetch.pending_data@);
        let ghost v = stepped(before, *s, reply@, download.data@, download.complete, pending, none, none);
        assert(first + Seq::<EventView>::empty() =~= first);
        match self.stage {
            TickStage::Idle => match self.session.state.status {
                PlaybackStatus::Seeking => {
                    assert(self@ == v.core);
                    TickAction::Over(true)
                },
                PlaybackStatus::Playing | PlaybackStatus::Buffering => {
                    let r: TickAction = self.begin(s, download, prefetch);
                    proof {
                        let (a, b) = choose|a: Seq<u32>, b: Seq<u32>| {
                            let w = #[trigger] begun(before, *s, old(download).data@, pending, a, b);
                            r@ == w.action && self@ == w.core && w.events == Seq::<EventView>::empty() && !w.presses
                        };
                        assert(stepped(before, *s, reply@, old(download).data@, old(download).complete, pending, a, b) == begun(
                            before,
                            *s,
                            old(download).data@,
                            pending,
                            a,
                            b,
                        ));
                    }
                    r
                },
                _ => {
                    assert(self@ == v.core);
                    TickAction::Over(false)
                },
            },
            TickStage::Recovering => {
                match reply {
                    TickReply::NotRecovered => {},
                    _ => {
                        self.feed.recovered();
                        self.clock.synced_to_first_frame = false;
                    },
                }
                let r: TickAction = self.feed_next(s);
                assert(self@ == v.core);
                assert(r@ == v.action);
                assert(v.events == Seq::<EventView>::empty() && !v.presses);
                r
            },
            TickStage::Feeding => {
                match &reply {
                    TickReply::VideoFailed(m) => {
                        if let Some(e) = self.feed.video_failed(m.as_str()) {
                            events.push(e);
                            assert(event_views(events@) =~= first.push(e@));
                        }
                    },
                    TickReply::AudioFailed(m) => {
                        let e: PlayerEvent = Feed::audio_failed(m.as_str());
                        events.push(e);
                        assert(event_views(events@) =~= first.push(e@));
                    },
                    _ => {},
                }
                let r: TickAction = self.feed_next(s);
                assert(event_views(events@) =~= first + v.events);
                assert(self@ == v.core);
                assert(r@ == v.action && !v.presses);
                r
            },
            TickStage::Discarding => {
                let r: TickAction = self.discard(s);
                assert(self@ == v.core);
                r
            },
            TickStage::Judging => {
                let r: TickAction = self.judge(s);
                assert(self@ == v.core);
                r
            },
            TickStage::Drawing => {
                self.stage = TickStage::Sounding;
                assert(self@ =~= v.core);
                TickAction::Draw
            },
            TickStage::Sounding => {
                let r: TickAction = self.sound(s, download, events);
                assert(self@ == v.core);
                r
            },
            TickStage::Supplying => {
                let r: TickAction = self.supply(s, download, events);
                assert(self@ == v.core);
                r
            },
            TickStage::Closing => {
                let r: TickAction = self.close(s, download, events);
                assert(self@ == v.core);
                assert(r@ == v.action && v.presses);
                r
            },
        }
    }
}

// ---------------------------------------------------------------------------
// Laws
// ---------------------------------------------------------------------------

/// While a seek is under way, a tick does nothing and the loop goes on; once
/// playback has stopped or is paused, the loop ends.
pub proof fn law_tick_gate(c: CoreView, s: Signals, reply: ReplyView, data: Seq<u8>, complete: bool, pending: Seq<(u64, Seq<u8>)>, first: Seq<u32>, second: Seq<u32>)
    requires
        c.stage == TickStage::Idle,
        c.session.state.status != PlaybackStatus::Playing,
        c.session.state.status != PlaybackStatus::Buffering,
    ensures
        ({
            let v = stepped(c, s, reply, data, complete, pending, first, second);
            &&& v.core == c
            &&& v.events.len() == 0
            &&& v.action == ActionView::Over(c.session.state.status == PlaybackStatus::Seeking)
        }),
{
    reveal(stepped);
}

proof fn lemma_feeding_is_silent(c: CoreView, s: Signals)
    ensures
        !(fed(c, s).action is PumpAudio),
        !(discarded(c, s).action is PumpAudio),
        !(judged(c, s).action is PumpAudio),
{
    assert forall|x: CoreView| !(#[trigger] judged(x, s).action is PumpAudio) by {
        reveal(judged);
    }
    assert forall|x: CoreView| !(#[trigger] discarded(x, s).action is PumpAudio) by {
        reveal(discarded);
    }
    reveal(fed);
}

proof fn lemma_supply_is_silent(c: CoreView, s: Signals, data_len: usize, complete: bool)
    ensures
        !(supplied(c, s, data_len, complete).action is PumpAudio),
        !(closed(c, s, data_len).action is PumpAudio),
{
    assert forall|x: CoreView| !(#[trigger] closed(x, s, data_len).action is PumpAudio) by {
        reveal(closed);
    }
    reveal(supplied);
}

/// Sound is played only while playback goes on: never while buffering or seeking.
pub proof fn law_no_sound_while_buffering(c: CoreView, s: Signals, reply: ReplyView, data: Seq<u8>, complete: bool, pending: Seq<(u64, Seq<u8>)>, first: Seq<u32>, second: Seq<u32>)
    requires
        stepped(c, s, reply, data, complete, pending, first, second).action == ActionView::PumpAudio,
    ensures
        c.session.state.status == PlaybackStatus::Playing,
        stepped(c, s, reply, data, complete, pending, first, second).core.session.state.status == PlaybackStatus::Playing,
{
    reveal(stepped);
    reveal(recovered_on);
    reveal(fed_on);
    reveal(begun);
    assert forall|x: CoreView| !(#[trigger] fed(x, s).action is PumpAudio) by {
        lemma_feeding_is_silent(x, s);
    }
    lemma_feeding_is_silent(c, s);
    lemma_supply_is_silent(c, s, data.len() as usize, complete);
    reveal(sounded);
    if c.stage == TickStage::Sounding && c.session.state.status != PlaybackStatus::Playing {
        let n = c.session.stats_ticks.wrapping_add(1);
        let next = CoreView {
            session: SessionView { stats_ticks: if n >= STATS_TICKS { 0 } else { n }, ..c.session },
            ..c
        };
        lemma_supply_is_silent(next, s, data.len() as usize, complete);
    }
}

/// A decoder that still has frames waiting is not replaced before the time is up.
pub proof fn law_frames_drain_before_recovery(f: FeedState, s: Signals, tick: u64)
    requires
        s.frames_waiting > 0,
        tick - dead_since(f, s.video_dead, tick) < RECOVERY_TICKS,
    ensures
        !gives_up(f, s, tick),
        feed_begun(f, s, tick).pending == f.pending,
{
    reveal(feed_begun);
}

/// A frame is kept for drawing where it is within the threshold of the clock, and
/// waits where it is early; where it is late, it is dropped, or all that wait are.
pub proof fn law_frames_are_judged_by_clock(c: CoreView, s: Signals)
    requires
        c.sync.wf(),
        s.next_frame_us matches Some(us) && i64::MIN <= us * 1000 <= i64::MAX,
    ensures
        ({
            let v = judged(c, s);
            let ahead = s.next_frame_us->Some_0 * 1000 + c.sync.start_offset_ns - c.tick_clock_ns;
            &&& v.action == ActionView::KeepFrame <==> -c.sync.threshold_ns <= ahead <= c.sync.threshold_ns
            &&& v.action == ActionView::Draw <==> ahead > c.sync.threshold_ns
            &&& (v.action == ActionView::DropFrame || v.action == ActionView::FlushFrames) <==> ahead < -c.sync.threshold_ns
            &&& v.events.len() == 0
            &&& v.core.session == c.session
        }),
{
    reveal(judged);
}

/// The first frame sets the clock to its own time; frames from before the place that
/// is skipped to are dropped, and one from behind it ends the skipping.
pub proof fn law_first_frame_sets_clock(c: CoreView, s: Signals)
    requires
        s.next_frame_us matches Some(us) && i64::MIN <= us * 1000 <= i64::MAX && i64::MIN <= s.master_ns - us * 1000 <= i64::MAX,
    ensures
        ({
            let us = s.next_frame_us->Some_0;
            let v = discarded(c, s);
            let stale = c.clock.skip_frames_before_us matches Some(min) && us < min;
            &&& stale ==> v.action == ActionView::DropFrame && v.core.clock == c.clock
            &&& !stale && !c.clock.synced_to_first_frame ==> position_at(v.core.clock, s.master_ns) == us * 1000
            &&& !stale && c.clock.synced_to_first_frame ==> v.core.clock.start_ns == c.clock.start_ns
        }),
{
    reveal(discarded);
    reveal(judged);
}

/// The time is told in every tick, in whole milliseconds, and kept; where playback ends
/// no other tick is asked for.
pub proof fn law_time_is_told(c: CoreView, s: Signals, data_len: usize, complete: bool)
    requires
        c.tick_clock_ns >= 0,
    ensures
        ({
            let v = supplied(c, s, data_len, complete);
            let ended = s.frames_waiting == 0 && c.feed.queue.len() == 0 && data_len <= c.stream.demuxed_len && (complete || (c.stream.window matches Some(w) && data_len
                >= w.file_size));
            &&& v.events.len() > 0
            &&& v.events[0] matches EventView::TimeUpdate { current_ms } && current_ms * 1_000_000 <= c.tick_clock_ns < (current_ms + 1) * 1_000_000
            &&& ended <==> v.action == ActionView::Over(false)
            &&& ended ==> v.core.session.state.status == PlaybackStatus::Stopped
        }),
{
    reveal(supplied);
    reveal(supply_of);
    reveal(supply_step);
    reveal(closed);
}

/// How much is buffered is kept in every tick, and told four times a second at most.
pub proof fn law_buffer_is_told(c: CoreView, s: Signals, data_len: usize)
    ensures
        ({
            let v = closed(c, s, data_len);
            &&& v.core.session.state.buffered_ms == data_len
            &&& s.wall_ns - c.session.last_buffer_update_ns >= 250_000_000 ==> v.events == seq![EventView::BufferUpdate { buffered_ms: data_len as u64 }]
                && v.core.session.last_buffer_update_ns == s.wall_ns
            &&& s.wall_ns - c.session.last_buffer_update_ns < 250_000_000 ==> v.events.len() == 0 && v.core.session.last_buffer_update_ns
                == c.session.last_buffer_update_ns
            &&& v.action == ActionView::Over(true)
        }),
{
    reveal(closed);
}

/// How many frames were rendered, dropped, held and skipped is told once in sixty
/// ticks.
pub proof fn law_stats_are_told(c: CoreView, s: Signals, data_len: usize, complete: bool)
    requires
        c.session.stats_ticks < 60,
        c.session.state.status == PlaybackStatus::Playing,
    ensures
        ({
            let v = sounded(c, s, data_len, complete);
            &&& c.session.stats_ticks < 59 ==> v.events.len() == 0 && v.core.session.stats_ticks == c.session.stats_ticks + 1
            &&& c.session.stats_ticks == 59 ==> v.core.session.stats_ticks == 0 && v.events == seq![
                EventView::SyncStats {
                    rendered: c.sync.frames_rendered,
                    dropped: c.sync.frames_dropped,
                    held: c.sync.frames_held,
                    skipped: c.sync.frames_skipped,
                },
            ]
            &&& v.action == ActionView::PumpAudio
        }),
{
    reveal(sounded);
}

/// Demuxing puts chunks behind the queue and takes none off it.
pub proof fn law_queue_grows_behind(c: CoreView, data: Seq<u8>, order: Seq<u32>)
    ensures
        ({
            let v = core_demuxed(c, data, order);
            &&& v.feed.queue.len() >= c.feed.queue.len()
            &&& v.feed.queue.take(c.feed.queue.len() as int) == c.feed.queue
            &&& v.session == c.session && v.clock == c.clock && v.sync == c.sync
        }),
{
    reveal(core_demuxed);
    let v = core_demuxed(c, data, order);
    assert(v.feed.queue.take(c.feed.queue.len() as int) =~= c.feed.queue);
}

} // verus!
