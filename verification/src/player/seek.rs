//! A seek, step by step. Requests, decoders and sound are outside: a step says
//! what is to be done next, and the following one is told what came of it.

use vstd::prelude::*;
use vstd::string::*;

use crate::demux::isomp4::Mp4Input;
use crate::demux::mp4::{cursor_tracks, first_samples, lemma_first_samples, names_tracks, order_of};
use crate::demux::types::{ContainerFormat, MediaView};
use crate::player::buffer::SharedDownload;
use crate::player::clock::{limited, ns_as_ms, position_at, us_as_ns, us_to_ns, PlaybackClock};
use crate::player::feed::FeedState;
use crate::player::mp4_part::{download_input, lemma_drain_tracks, opened, part_order, resumed};
use crate::player::range_seek::{
    as_new, estimate_range, estimate_texts, estimated_range, extended, law_place_keeps_offsets, mkv_window_sought, needs_probe,
    needs_range_seek, place_at, placed, running, seek_plan, wants_range, window_sought, window_with, NewDownload,
    SeekEnd, SeekEndView, SeekPlan, SeekSource,
};
use crate::player::session::{is_active, status_event, with_status, SeekTicket, SessionView};
use crate::player::stream::{seek_begun, seek_input, sought_in, Stream, StreamView};
use crate::player::sync::{fresh_sync, AVSync};
use crate::player::tick::{core_demuxed, Core, CoreView};
use crate::player::types::{event_views, EventView, PlaybackStatus, PlayerEvent, StateView};

verus! {

/// Where a seek stands.
#[derive(Debug, Clone, Copy, PartialEq, Eq, Structural)]
pub enum SeekStage {
    /// The decoders are being made anew.
    Resetting,
    /// The size of the file is asked for.
    AskingSize,
    /// A single byte is asked for.
    TryingByte,
    /// The window that the index gives is fetched.
    FetchingWindow,
    /// The range that an estimate gives is fetched, of an MKV file.
    FetchingMkv,
    /// The range that an estimate gives is fetched, of an MP4 file.
    FetchingMp4,
    /// A new download takes the place of the old one.
    Installing,
    /// As before, and then the demuxer is moved within it.
    Filling,
    /// The sound begins anew.
    Sounding,
    /// The sound goes on.
    Resuming,
    Over,
}

/// A seek under way.
#[derive(Debug)]
pub struct Seek {
    pub ticket: SeekTicket,
    pub timestamp_us: i64,
    pub stage: SeekStage,
    /// What is fetched by the index.
    pub plan: SeekPlan,
    /// What is fetched by an estimate, `(first, last)`.
    pub range: (u64, u64),
    /// The size of the file when that was estimated.
    pub size: u64,
    /// Where playback goes on, or why it does not.
    pub actual: Result<i64, String>,
}

/// A seek under way, as a view.
#[verifier::ext_equal]
pub struct SeekView {
    pub ticket: SeekTicket,
    pub timestamp_us: i64,
    pub stage: SeekStage,
    pub plan: SeekPlan,
    pub range: (u64, u64),
    pub size: u64,
    pub actual: Result<i64, Seq<char>>,
}

impl View for Seek {
    type V = SeekView;

    open spec fn view(&self) -> SeekView {
        SeekView {
            ticket: self.ticket,
            timestamp_us: self.timestamp_us,
            stage: self.stage,
            plan: self.plan,
            range: self.range,
            size: self.size,
            actual: match self.actual {
                Ok(us) => Ok(us),
                Err(e) => Err(e@),
            },
        }
    }
}

/// What a seek is told before a step.
#[derive(Debug, Clone, Copy, PartialEq, Eq, Structural)]
pub struct SeekSignals {
    pub has_url: bool,
    pub audio_configured: bool,
    pub wall_ns: i64,
    pub master_ns: i64,
}

/// What came of the last action.
#[derive(Debug)]
pub enum SeekReply {
    Done,
    Failed(String),
    /// The bytes that were asked for.
    Bytes(Vec<u8>),
    /// The size of the file, 0 where it is not told, and whether ranges of it can
    /// be asked for.
    Size(u64, bool),
}

/// What came of the last action, as a view.
#[verifier::ext_equal]
pub enum SeekReplyView {
    Done,
    Failed(Seq<char>),
    Bytes(Seq<u8>),
    Size(u64, bool),
}

impl View for SeekReply {
    type V = SeekReplyView;

    open spec fn view(&self) -> SeekReplyView {
        match self {
            SeekReply::Done => SeekReplyView::Done,
            SeekReply::Failed(s) => SeekReplyView::Failed(s@),
            SeekReply::Bytes(b) => SeekReplyView::Bytes(b@),
            SeekReply::Size(n, r) => SeekReplyView::Size(*n, *r),
        }
    }
}

/// What is to be done next.
pub enum SeekAction {
    /// The seek is over.
    Over(Result<(), String>),
    /// Ask for the size of the file.
    AskSize,
    /// Fetch the bytes from the first to the last offset.
    Fetch(u64, u64),
    /// Put this download in the place of the old one, which is cancelled, and
    /// download into it from the offset on, where there is one.
    Install(SharedDownload, Option<u64>),
    /// Begin the schedule of sound anew at a position.
    RestartAudio(i64),
    /// Let the sound go on.
    ResumeAudio,
}

/// What is to be done next, as a view.
#[verifier::ext_equal]
pub enum SeekActionView {
    Over(Result<(), Seq<char>>),
    AskSize,
    Fetch(u64, u64),
    Install(NewDownload, Option<u64>),
    RestartAudio(i64),
    ResumeAudio,
}

impl View for SeekAction {
    type V = SeekActionView;

    open spec fn view(&self) -> SeekActionView {
        match *self {
            SeekAction::Over(Ok(())) => SeekActionView::Over(Ok(())),
            SeekAction::Over(Err(e)) => SeekActionView::Over(Err(e@)),
            SeekAction::AskSize => SeekActionView::AskSize,
            SeekAction::Fetch(a, b) => SeekActionView::Fetch(a, b),
            SeekAction::Install(d, from) => SeekActionView::Install(as_new(d), from),
            SeekAction::RestartAudio(ns) => SeekActionView::RestartAudio(ns),
            SeekAction::ResumeAudio => SeekActionView::ResumeAudio,
        }
    }
}

/// What a seek changes of the download: its data, its size and whether it is
/// cancelled.
#[verifier::ext_equal]
pub struct DownloadView {
    pub data: Seq<u8>,
    pub content_length: u64,
    pub complete: bool,
    pub cancelled: bool,
}

impl View for SharedDownload {
    type V = DownloadView;

    open spec fn view(&self) -> DownloadView {
        DownloadView {
            data: self.data@,
            content_length: self.content_length,
            complete: self.complete,
            cancelled: self.cancelled,
        }
    }
}

/// A step of a seek: what is to be done, and what is left. Where the header of an
/// MP4 file was read to move in the download, `opened` is what it was read from.
#[verifier::ext_equal]
pub struct SeekStep {
    pub action: SeekActionView,
    pub core: CoreView,
    pub seek: SeekView,
    pub download: DownloadView,
    pub events: Seq<EventView>,
    pub opened: Option<Mp4Input>,
}

/// A time in milliseconds as microseconds.
pub open spec fn ms_as_us(ms: u64) -> i64 {
    limited(ms * 1000)
}

/// No plan.
pub open spec fn no_plan() -> SeekPlan {
    SeekPlan {
        keyframe_offset: 0,
        keyframe_us: 0,
        fetch_start: 0,
        fetch_end: 0,
        file_size: 0,
        source: SeekSource::Download,
    }
}

/// A seek that has been accepted.
pub open spec fn fresh_seek(ticket: SeekTicket, time_ms: u64) -> SeekView {
    SeekView {
        ticket,
        timestamp_us: ms_as_us(time_ms),
        stage: SeekStage::Resetting,
        plan: no_plan(),
        range: (0, 0),
        size: 0,
        actual: Ok(0),
    }
}

/// The core when a seek begins: chunks and demuxers are from before it.
pub open spec fn core_seek_begun(c: CoreView) -> CoreView {
    CoreView {
        session: SessionView {
            seek_generation: c.session.seek_generation.wrapping_add(1),
            pre_seek_status: if c.session.state.status == PlaybackStatus::Seeking {
                c.session.pre_seek_status
            } else {
                Some(c.session.state.status)
            },
            ..with_status(c.session, PlaybackStatus::Seeking)
        },
        feed: FeedState { queue: Seq::empty(), pending: None, dead_since_tick: 0, ..c.feed },
        stream: seek_begun(c.stream),
        ..c
    }
}

/// The end of a seek that failed, or gave way.
pub open spec fn over(c: CoreView, k: SeekView, d: DownloadView, r: Result<(), Seq<char>>) -> SeekStep {
    SeekStep {
        action: SeekActionView::Over(r),
        core: c,
        seek: SeekView { stage: SeekStage::Over, ..k },
        download: d,
        events: Seq::empty(),
        opened: None,
    }
}

/// A step that waits for something outside.
pub open spec fn waits(c: CoreView, k: SeekView, d: DownloadView, stage: SeekStage, action: SeekActionView) -> SeekStep {
    SeekStep { action, core: c, seek: SeekView { stage, ..k }, download: d, events: Seq::empty(), opened: None }
}

/// The seek is done: the status after it is told.
#[verifier::opaque]
pub open spec fn ended(c: CoreView, k: SeekView, d: DownloadView, s: SeekSignals, actual_us: i64) -> SeekStep {
    let status = if k.ticket.was_playing { PlaybackStatus::Buffering } else { PlaybackStatus::Paused };
    let actual_ms = ns_as_ms(us_as_ns(actual_us));
    SeekStep {
        action: SeekActionView::Over(Ok(())),
        core: CoreView {
            session: SessionView {
                state: StateView { current_time_ms: actual_ms, status, ..c.session.state },
                buffering_since_ns: if k.ticket.was_playing { Some(s.wall_ns) } else { c.session.buffering_since_ns },
                pre_seek_status: None,
                ..c.session
            },
            ..c
        },
        seek: SeekView { stage: SeekStage::Over, ..k },
        download: d,
        events: seq![EventView::Seeked { actual_ms }, status_event(status)],
        opened: None,
    }
}

/// The sound goes on, where playback does.
#[verifier::opaque]
pub open spec fn sound_on(c: CoreView, k: SeekView, d: DownloadView, s: SeekSignals, actual_us: i64) -> SeekStep {
    if k.ticket.was_playing && s.audio_configured {
        waits(c, k, d, SeekStage::Resuming, SeekActionView::ResumeAudio)
    } else {
        ended(c, k, d, s, actual_us)
    }
}

/// The demuxer stands at the target: chunks are demuxed, and the clock is set.
#[verifier::opaque]
pub open spec fn arrived(c: CoreView, k: SeekView, d: DownloadView, s: SeekSignals, actual_us: i64, order: Seq<u32>) -> SeekStep {
    let filled = core_demuxed(CoreView { stream: StreamView { demuxed_len: 0, ..c.stream }, ..c }, d.data, order);
    let next = CoreView {
        clock: PlaybackClock {
            start_ns: limited(s.master_ns - us_as_ns(actual_us)),
            synced_to_first_frame: false,
            skip_frames_before_us: None,
        },
        sync: AVSync {
            has_audio: filled.sync.has_audio,
            threshold_ns: filled.sync.threshold_ns,
            fps: filled.sync.fps,
            ..fresh_sync()
        },
        feed: FeedState { audio_skip_before_us: Some(actual_us), ..filled.feed },
        ..filled
    };
    let found = SeekView { actual: Ok(actual_us), ..k };
    if s.audio_configured {
        waits(next, found, d, SeekStage::Sounding, SeekActionView::RestartAudio(us_as_ns(actual_us)))
    } else {
        sound_on(next, found, d, s, actual_us)
    }
}

/// The demuxer is moved within the download. The tracks of one that is made for
/// that stand in the order `first`.
#[verifier::opaque]
pub open spec fn sought_here(c: CoreView, k: SeekView, d: DownloadView, s: SeekSignals, first: Seq<u32>, second: Seq<u32>) -> SeekStep {
    let (r, stream) = sought_in(c.stream, k.timestamp_us, d.data, first);
    SeekStep {
        opened: seek_input(c.stream, d.data),
        ..match r {
            Err(t) => over(CoreView { stream, ..c }, k, d, Err(t)),
            Ok(us) => arrived(CoreView { stream, ..c }, k, d, s, us, second),
        }
    }
}

/// A seek in fetched bytes has ended: its download is installed. `stops` says
/// whether the old one is cancelled where there is none.
pub open spec fn installed(c: CoreView, k: SeekView, d: DownloadView, end: SeekEndView, stops: bool) -> SeekStep {
    match end.download {
        Some(n) => waits(
            c,
            SeekView { actual: end.result, ..k },
            DownloadView { cancelled: true, ..d },
            SeekStage::Installing,
            SeekActionView::Install(n, end.resume_from),
        ),
        None => over(c, k, DownloadView { cancelled: d.cancelled || stops, ..d }, match end.result {
            Err(t) => Err(t),
            Ok(_) => Ok(()),
        }),
    }
}

/// A seek by the index, in bytes that are there.
#[verifier::opaque]
pub open spec fn sought_in_window(c: CoreView, k: SeekView, d: DownloadView, order: Seq<u32>) -> SeekStep {
    let (end, stream) = window_sought(c.stream, k.plan, k.timestamp_us, d.data, order);
    installed(CoreView { stream, ..c }, k, d, end, true)
}

/// A seek by the index.
#[verifier::opaque]
pub open spec fn by_index(c: CoreView, k: SeekView, d: DownloadView, s: SeekSignals, first: Seq<u32>, second: Seq<u32>) -> SeekStep {
    if !s.has_url {
        over(c, k, d, Err("No URL for Range seek"@))
    } else if c.stream.format is None {
        over(c, k, d, Err("No demuxer format for seek"@))
    } else {
        let plan = seek_plan(c.stream, k.timestamp_us, d.data.len() as int, d.content_length);
        let planned = SeekView { plan, ..k };
        if plan.source == SeekSource::Download {
            sought_here(c, planned, d, s, first, second)
        } else if plan.source == SeekSource::Fetch && plan.fetch_start < plan.fetch_end {
            waits(
                c,
                planned,
                d,
                SeekStage::FetchingWindow,
                SeekActionView::Fetch(plan.fetch_start, (plan.fetch_end - 1) as u64),
            )
        } else {
            sought_in_window(c, planned, d, first)
        }
    }
}

/// The duration that the header told.
pub open spec fn duration_of(m: Option<MediaView>) -> Option<i64> {
    match m {
        Some(i) => i.duration_us,
        None => None,
    }
}

/// A seek by an estimate, or within the download where the target is there.
#[verifier::opaque]
pub open spec fn by_estimate(c: CoreView, k: SeekView, d: DownloadView, s: SeekSignals, first: Seq<u32>, second: Seq<u32>) -> SeekStep {
    let duration = duration_of(c.stream.media);
    if !wants_range(k.timestamp_us, duration, d.data.len() as usize, d.complete, d.content_length, c.stream.supports_range) {
        sought_here(c, k, d, s, first, second)
    } else if !s.has_url {
        over(c, k, d, Err("No URL for Range seek"@))
    } else {
        let range = estimate_range(k.timestamp_us, duration->Some_0, d.content_length);
        let ranged = SeekView { range, size: d.content_length, ..k };
        match c.stream.format {
            None => over(c, ranged, d, Err("No demuxer format for Range seek"@)),
            Some(ContainerFormat::Unknown) => over(c, ranged, d, Err("Unsupported format for Range seek"@)),
            Some(ContainerFormat::Mp4) => if range.0 > d.data.len() {
                waits(c, ranged, d, SeekStage::FetchingMp4, SeekActionView::Fetch(range.0, range.1))
            } else {
                sought_here(
                    CoreView { stream: StreamView { demuxed_len: 0, ..c.stream }, ..c },
                    ranged,
                    d,
                    s,
                    first,
                    second,
                )
            },
            Some(_) => if c.stream.mkv.header is None {
                over(c, ranged, d, Err(estimate_texts().no_header))
            } else {
                waits(c, ranged, d, SeekStage::FetchingMkv, SeekActionView::Fetch(range.0, range.1))
            },
        }
    }
}

/// The decoders are there: the way of the seek is chosen.
#[verifier::opaque]
pub open spec fn chosen(c: CoreView, k: SeekView, d: DownloadView, s: SeekSignals, first: Seq<u32>, second: Seq<u32>) -> SeekStep {
    if c.stream.index.len() > 0 {
        if c.stream.supports_range { by_index(c, k, d, s, first, second) } else { sought_here(c, k, d, s, first, second) }
    } else if duration_of(c.stream.media) matches Some(n) && n > 0 && !d.complete
        && (d.content_length == 0 || !c.stream.supports_range) && s.has_url {
        waits(c, k, d, SeekStage::AskingSize, SeekActionView::AskSize)
    } else {
        by_estimate(c, k, d, s, first, second)
    }
}

/// The bytes that the index asked for have come.
#[verifier::opaque]
pub open spec fn window_come(c: CoreView, k: SeekView, d: DownloadView, bytes: Seq<u8>, order: Seq<u32>) -> SeekStep {
    if k.plan.fetch_start + bytes.len() > u64::MAX {
        over(c, k, d, Err("Range response is too long"@))
    } else {
        sought_in_window(
            CoreView {
                stream: StreamView { window: window_with(c.stream.window, k.plan.fetch_start, bytes), ..c.stream },
                ..c
            },
            k,
            DownloadView {
                data: if c.stream.format == Some(ContainerFormat::Mp4) {
                    extended(d.data, k.plan.fetch_start, bytes)
                } else {
                    d.data
                },
                ..d
            },
            order,
        )
    }
}

/// The bytes that an estimate asked for have come, of an MKV file.
#[verifier::opaque]
pub open spec fn mkv_come(c: CoreView, k: SeekView, d: DownloadView, bytes: Seq<u8>) -> SeekStep {
    if k.range.1 >= k.size {
        over(c, k, d, Err("Range is outside the file"@))
    } else {
        let (end, stream) = mkv_window_sought(
            c.stream,
            bytes,
            k.timestamp_us,
            k.timestamp_us,
            k.size,
            (k.range.1 + 1) as u64,
            k.range.1 + 1 >= k.size,
            estimate_texts(),
        );
        installed(CoreView { stream, ..c }, k, d, end, false)
    }
}

/// The bytes that an estimate asked for have come, of an MP4 file: they are put
/// into the download at their offset, in place of what has come there meanwhile, and
/// the rest is downloaded behind them.
#[verifier::opaque]
pub open spec fn mp4_come(c: CoreView, k: SeekView, d: DownloadView, s: SeekSignals, bytes: Seq<u8>, first: Seq<u32>, second: Seq<u32>) -> SeekStep {
    if k.range.0 > usize::MAX {
        over(c, k, d, Err("Range does not fit the download"@))
    } else {
        let data = placed(d.data, k.range.0 as int, bytes);
        if k.range.1 + 1 < k.size {
            waits(
                c,
                k,
                DownloadView { data: Seq::empty(), cancelled: true, ..d },
                SeekStage::Filling,
                SeekActionView::Install(running(data, k.size, false), Some((k.range.1 + 1) as u64)),
            )
        } else {
            sought_here(
                CoreView { stream: StreamView { demuxed_len: 0, ..c.stream }, ..c },
                k,
                DownloadView { data, cancelled: true, ..d },
                s,
                first,
                second,
            )
        }
    }
}

/// It is known whether ranges of the file can be asked for, and its size, where
/// `size` is not zero.
#[verifier::opaque]
pub open spec fn ranges_known(c: CoreView, k: SeekView, d: DownloadView, s: SeekSignals, ranges: bool, size: u64, first: Seq<u32>, second: Seq<u32>) -> SeekStep {
    by_estimate(
        CoreView { stream: StreamView { supports_range: c.stream.supports_range || ranges, ..c.stream }, ..c },
        k,
        DownloadView { content_length: if size > 0 { size } else { d.content_length }, ..d },
        s,
        first,
        second,
    )
}

/// The size of the file was asked for.
pub open spec fn size_come(c: CoreView, k: SeekView, d: DownloadView, s: SeekSignals, reply: SeekReplyView, first: Seq<u32>, second: Seq<u32>) -> SeekStep {
    match reply {
        SeekReplyView::Size(n, ranges) => ranges_known(c, k, d, s, ranges, n, first, second),
        _ => waits(c, k, d, SeekStage::TryingByte, SeekActionView::Fetch(0, 0)),
    }
}

/// A single byte was asked for: where one comes, ranges can be asked for.
pub open spec fn byte_come(c: CoreView, k: SeekView, d: DownloadView, s: SeekSignals, reply: SeekReplyView, first: Seq<u32>, second: Seq<u32>) -> SeekStep {
    ranges_known(c, k, d, s, reply matches SeekReplyView::Bytes(b) && b.len() > 0, 0, first, second)
}

/// A step of a seek. One that finds that another seek has begun gives way.
#[verifier::opaque]
pub open spec fn seek_stepped(c: CoreView, k: SeekView, d: DownloadView, s: SeekSignals, reply: SeekReplyView, first: Seq<u32>, second: Seq<u32>) -> SeekStep {
    if c.session.seek_generation != k.ticket.generation {
        over(c, k, d, Ok(()))
    } else {
        match (k.stage, reply) {
            (SeekStage::AskingSize, _) => size_come(c, k, d, s, reply, first, second),
            (SeekStage::TryingByte, _) => byte_come(c, k, d, s, reply, first, second),
            (SeekStage::Over, _) => over(c, k, d, Ok(())),
            (_, SeekReplyView::Failed(t)) => over(c, k, d, Err(t)),
            (SeekStage::Resetting, _) => chosen(c, k, d, s, first, second),
            (SeekStage::FetchingWindow, SeekReplyView::Bytes(b)) => window_come(c, k, d, b, first),
            (SeekStage::FetchingMkv, SeekReplyView::Bytes(b)) => mkv_come(c, k, d, b),
            (SeekStage::FetchingMp4, SeekReplyView::Bytes(b)) => mp4_come(c, k, d, s, b, first, second),
            (SeekStage::Installing, _) => match k.actual {
                Ok(us) => arrived(c, k, d, s, us, first),
                Err(t) => over(c, k, d, Err(t)),
            },
            (SeekStage::Filling, _) => sought_here(
                CoreView { stream: StreamView { demuxed_len: 0, ..c.stream }, ..c },
                k,
                d,
                s,
                first,
                second,
            ),
            (SeekStage::Sounding, _) => match k.actual {
                Ok(us) => sound_on(c, k, d, s, us),
                Err(t) => over(c, k, d, Err(t)),
            },
            (SeekStage::Resuming, _) => match k.actual {
                Ok(us) => ended(c, k, d, s, us),
                Err(t) => over(c, k, d, Err(t)),
            },
            _ => over(c, k, d, Err("No data was fetched"@)),
        }
    }
}

/// A time in milliseconds as microseconds.
fn ms_to_us(ms: u64) -> (r: i64)
    ensures
        r == ms_as_us(ms),
{
    let n: u128 = ms as u128 * 1000;
    if n > 0x7fff_ffff_ffff_ffff { i64::MAX } else { n as i64 }
}

/// The end of a seek, with an error.
fn fail(k: &mut Seek, text: &str) -> (r: SeekAction)
    ensures
        r@ == SeekActionView::Over(Err(text@)),
        final(k)@ == (SeekView { stage: SeekStage::Over, ..old(k)@ }),
{
    k.stage = SeekStage::Over;
    SeekAction::Over(Err(String::from_str(text)))
}

/// The duration that the header told.
fn told_duration(stream: &Stream) -> (r: Option<i64>)
    ensures
        r == duration_of(stream@.media),
{
    match &stream.media {
        Some(i) => i.duration_us,
        None => None,
    }
}

/// Whether a call did what a step says: its result, what it left, and the events
/// that it added. The tracks of an MP4 header that was read stand in the order
/// `order`, which holds each of them once.
pub open spec fn did(v: SeekStep, order: Seq<u32>, r: SeekAction, core: Core, k: Seek, was: SharedDownload, is: SharedDownload, before: Seq<PlayerEvent>, after: Seq<PlayerEvent>) -> bool {
    &&& r@ == v.action
    &&& v.opened matches Some(input) ==> order_of(input, order)
    &&& core@ == v.core
    &&& core.wf()
    &&& k@ == v.seek
    &&& is@ == v.download
    &&& is.error == was.error
    &&& is.paused == was.paused
    &&& event_views(after) == event_views(before) + v.events
}

/// No header is read where the sound goes on.
proof fn lemma_sound_opens_nothing(c: CoreView, k: SeekView, d: DownloadView, s: SeekSignals, actual_us: i64)
    ensures
        sound_on(c, k, d, s, actual_us).opened is None,
{
    reveal(sound_on);
    reveal(ended);
}

impl Core {
    /// A seek begins. It is refused before media is loaded.
    pub fn begin_seek(&mut self, time_ms: u64, events: &mut Vec<PlayerEvent>) -> (r: Result<Seek, String>)
        requires
            old(self).wf(),
        ensures
            final(self).wf(),
            !old(self)@.session.header_parsed ==> (r matches Err(t) && t@ == "Cannot seek before media is loaded"@) && final(self)@ == old(self)@
                && event_views(final(events)@) == event_views(old(events)@),
            old(self)@.session.header_parsed ==> {
                &&& r matches Ok(k) && k@ == fresh_seek(
                    SeekTicket {
                        generation: old(self)@.session.seek_generation.wrapping_add(1),
                        was_playing: is_active(old(self)@.session.state.status),
                        interrupts: old(self)@.session.state.status == PlaybackStatus::Seeking,
                    },
                    time_ms,
                )
                &&& final(self)@ == core_seek_begun(old(self)@)
                &&& event_views(final(events)@) == event_views(old(events)@) + seq![
                    status_event(PlaybackStatus::Seeking),
                    EventView::Seeking { target_ms: time_ms },
                ]
            },
    {
        let ghost before = self@;
        match self.session.begin_seek(time_ms, events) {
            Err(e) => {
                assert(self@ =~= before);
                Err(e)
            },
            Ok(ticket) => {
                self.feed.clear();
                self.stream.begin_seek();
                assert(self@ =~= core_seek_begun(before));
                Ok(
                    Seek {
                        ticket,
                        timestamp_us: ms_to_us(time_ms),
                        stage: SeekStage::Resetting,
                        plan: SeekPlan {
                            keyframe_offset: 0,
                            keyframe_us: 0,
                            fetch_start: 0,
                            fetch_end: 0,
                            file_size: 0,
                            source: SeekSource::Download,
                        },
                        range: (0, 0),
                        size: 0,
                        actual: Ok(0),
                    },
                )
            },
        }
    }

    /// The seek is done: the status after it is told.
    fn seek_end(&mut self, k: &mut Seek, s: &SeekSignals, download: &mut SharedDownload, actual_us: i64, events: &mut Vec<PlayerEvent>) -> (r: SeekAction)
        requires
            old(self).wf(),
        ensures
            did(ended(old(self)@, old(k)@, old(download)@, *s, actual_us), Seq::empty(), r, *final(self), *final(k), *old(download), *final(download), old(events)@, final(events)@),
    {
        proof {
            reveal(ended);
        }
        let ghost v = ended(self@, k@, download@, *s, actual_us);
        self.session.end_seek(&k.ticket, actual_us, s.wall_ns, events);
        k.stage = SeekStage::Over;
        assert(self@ =~= v.core);
        assert(k@ =~= v.seek);
        SeekAction::Over(Ok(()))
    }

    /// The sound goes on, where playback does.
    fn seek_sound(&mut self, k: &mut Seek, s: &SeekSignals, download: &mut SharedDownload, actual_us: i64, events: &mut Vec<PlayerEvent>) -> (r: SeekAction)
        requires
            old(self).wf(),
        ensures
            did(sound_on(old(self)@, old(k)@, old(download)@, *s, actual_us), Seq::empty(), r, *final(self), *final(k), *old(download), *final(download), old(events)@, final(events)@),
    {
        proof {
            reveal(sound_on);
        }
        let ghost before = event_views(events@);
        assert(before + Seq::<EventView>::empty() =~= before);
        if k.ticket.was_playing && s.audio_configured {
            let ghost v = sound_on(self@, k@, download@, *s, actual_us);
            k.stage = SeekStage::Resuming;
            assert(k@ =~= v.seek);
            SeekAction::ResumeAudio
        } else {
            self.seek_end(k, s, download, actual_us, events)
        }
    }

    /// The demuxer stands at the target: chunks are demuxed, and the clock is set.
    fn seek_arrive(&mut self, k: &mut Seek, s: &SeekSignals, download: &mut SharedDownload, actual_us: i64, events: &mut Vec<PlayerEvent>) -> (r: SeekAction)
        requires
            old(self).wf(),
        ensures
            exists|order: Seq<u32>| did(
                #[trigger] arrived(old(self)@, old(k)@, old(download)@, *s, actual_us, order),
                order,
                r,
                *final(self),
                *final(k),
                *old(download),
                *final(download),
                old(events)@,
                final(events)@,
            ),
    {
        proof {
            reveal(arrived);
        }
        let ghost before = event_views(events@);
        assert(before + Seq::<EventView>::empty() =~= before);
        let ghost c = self@;
        self.stream.demuxed_len = 0;
        assert(self@ =~= (CoreView { stream: StreamView { demuxed_len: 0, ..c.stream }, ..c }));
        self.demux_more(&download.data);
        let ghost order = part_order(self@.stream.mp4);
        let ghost v = arrived(c, k@, download@, *s, actual_us, order);
        let ghost filled = self@;
        let position: i64 = us_to_ns(actual_us);
        self.clock.restart(s.master_ns, position);
        self.sync.reset();
        self.feed.audio_skip_before_us = Some(actual_us);
        k.actual = Ok(actual_us);
        let ghost next = CoreView {
            clock: PlaybackClock {
                start_ns: limited(s.master_ns - us_as_ns(actual_us)),
                synced_to_first_frame: false,
                skip_frames_before_us: None,
            },
            sync: AVSync {
                has_audio: filled.sync.has_audio,
                threshold_ns: filled.sync.threshold_ns,
                fps: filled.sync.fps,
                ..fresh_sync()
            },
            feed: FeedState { audio_skip_before_us: Some(actual_us), ..filled.feed },
            ..filled
        };
        assert(self@ =~= next);
        if s.audio_configured {
            k.stage = SeekStage::Sounding;
            assert(k@ =~= v.seek);
            let r: SeekAction = SeekAction::RestartAudio(position);
            assert(did(v, order, r, *self, *k, *old(download), *download, old(events)@, events@));
            r
        } else {
            let ghost found = k@;
            let r: SeekAction = self.seek_sound(k, s, download, actual_us, events);
            proof {
                lemma_sound_opens_nothing(next, found, old(download)@, *s, actual_us);
            }
            assert(did(v, order, r, *self, *k, *old(download), *download, old(events)@, events@));
            r
        }
    }

    /// The demuxer is moved within the download.
    fn seek_here(&mut self, k: &mut Seek, s: &SeekSignals, download: &mut SharedDownload, events: &mut Vec<PlayerEvent>) -> (r: SeekAction)
        requires
            old(self).wf(),
        ensures
            exists|first: Seq<u32>, second: Seq<u32>| did(
                #[trigger] sought_here(old(self)@, old(k)@, old(download)@, *s, first, second),
                first,
                r,
                *final(self),
                *final(k),
                *old(download),
                *final(download),
                old(events)@,
                final(events)@,
            ),
    {
        proof {
            reveal(sought_here);
        }
        let ghost c = self@;
        let ghost before = event_views(events@);
        assert(before + Seq::<EventView>::empty() =~= before);
        let done: Result<i64, String> = self.stream.seek_demuxer(k.timestamp_us, &download.data);
        let ghost first = part_order(self@.stream.mp4);
        assert(self@ =~= (CoreView { stream: sought_in(c.stream, k.timestamp_us, download.data@, first).1, ..c }));
        match done {
            Err(e) => {
                let ghost v = sought_here(c, k@, download@, *s, first, first);
                let r: SeekAction = fail(k, e.as_str());
                assert(did(v, first, r, *self, *k, *old(download), *download, old(events)@, events@));
                r
            },
            Ok(us) => {
                let ghost mid = self@;
                let r: SeekAction = self.seek_arrive(k, s, download, us, events);
                proof {
                    let second = choose|order: Seq<u32>| did(
                        #[trigger] arrived(mid, old(k)@, old(download)@, *s, us, order),
                        order,
                        r,
                        *self,
                        *k,
                        *old(download),
                        *download,
                        old(events)@,
                        events@,
                    );
                    let v = sought_here(c, old(k)@, old(download)@, *s, first, second);
                    assert(v == (SeekStep { opened: v.opened, ..arrived(mid, old(k)@, old(download)@, *s, us, second) }));
                    assert(did(v, first, r, *self, *k, *old(download), *download, old(events)@, events@));
                }
                r
            },
        }
    }

    /// A seek in fetched bytes has ended: its download is installed.
    fn seek_install(&mut self, k: &mut Seek, download: &mut SharedDownload, end: SeekEnd, stops: bool, events: &mut Vec<PlayerEvent>) -> (r: SeekAction)
        requires
            old(self).wf(),
        ensures
            did(installed(old(self)@, old(k)@, old(download)@, end@, stops), Seq::empty(), r, *final(self), *final(k), *old(download), *final(download), old(events)@, final(events)@),
    {
        let ghost v = installed(self@, k@, download@, end@, stops);
        let ghost before = event_views(events@);
        assert(before + Seq::<EventView>::empty() =~= before);
        match end.download {
            Some(n) => {
                download.cancelled = true;
                k.actual = end.result;
                k.stage = SeekStage::Installing;
                assert(k@ =~= v.seek);
                assert(download@ =~= v.download);
                SeekAction::Install(n, end.resume_from)
            },
            None => {
                if stops {
                    download.cancelled = true;
                }
                assert(download@ =~= v.download);
                k.stage = SeekStage::Over;
                assert(k@ =~= v.seek);
                match end.result {
                    Ok(_) => SeekAction::Over(Ok(())),
                    Err(e) => SeekAction::Over(Err(e)),
                }
            },
        }
    }

    /// A seek by the index, in bytes that are there.
    fn seek_window(&mut self, k: &mut Seek, download: &mut SharedDownload, events: &mut Vec<PlayerEvent>) -> (r: SeekAction)
        requires
            old(self).wf(),
        ensures
            exists|order: Seq<u32>| did(
                #[trigger] sought_in_window(old(self)@, old(k)@, old(download)@, order),
                order,
                r,
                *final(self),
                *final(k),
                *old(download),
                *final(download),
                old(events)@,
                final(events)@,
            ),
    {
        proof {
            reveal(sought_in_window);
        }
        let ghost c = self@;
        let plan: SeekPlan = k.plan;
        let end: SeekEnd = self.stream.seek_in_window(&plan, k.timestamp_us, &download.data);
        let ghost order = part_order(self@.stream.mp4);
        let ghost shown = end@;
        assert(self@ =~= (CoreView { stream: window_sought(c.stream, plan, k.timestamp_us, download.data@, order).1, ..c }));
        let ghost mid = self@;
        let r: SeekAction = self.seek_install(k, download, end, true, events);
        assert(sought_in_window(c, old(k)@, old(download)@, order) == installed(mid, old(k)@, old(download)@, shown, true));
        r
    }

    /// A seek by the index.
    fn seek_by_index(&mut self, k: &mut Seek, s: &SeekSignals, download: &mut SharedDownload, events: &mut Vec<PlayerEvent>) -> (r: SeekAction)
        requires
            old(self).wf(),
        ensures
            exists|first: Seq<u32>, second: Seq<u32>| did(
                #[trigger] by_index(old(self)@, old(k)@, old(download)@, *s, first, second),
                first,
                r,
                *final(self),
                *final(k),
                *old(download),
                *final(download),
                old(events)@,
                final(events)@,
            ),
    {
        proof {
            reveal(by_index);
        }
        let ghost c = self@;
        let ghost k0 = k@;
        let ghost d = download@;
        let ghost none: Seq<u32> = Seq::empty();
        let ghost before = event_views(events@);
        assert(before + Seq::<EventView>::empty() =~= before);
        if !s.has_url {
            let r: SeekAction = fail(k, "No URL for Range seek");
            assert(did(by_index(c, k0, d, *s, none, none), none, r, *self, *k, *old(download), *download, old(events)@, events@));
            return r;
        }
        if self.stream.format.is_none() {
            let r: SeekAction = fail(k, "No demuxer format for seek");
            assert(did(by_index(c, k0, d, *s, none, none), none, r, *self, *k, *old(download), *download, old(events)@, events@));
            return r;
        }
        let plan: SeekPlan = self.stream.plan_seek(k.timestamp_us, download.data.len(), download.content_length);
        k.plan = plan;
        let ghost planned = SeekView { plan, ..k0 };
        assert(k@ =~= planned);
        if plan.source == SeekSource::Download {
            let r: SeekAction = self.seek_here(k, s, download, events);
            proof {
                let (a, b) = choose|a: Seq<u32>, b: Seq<u32>| did(
                    #[trigger] sought_here(c, planned, d, *s, a, b), a, r, *self, *k, *old(download), *download, old(events)@, events@,
                );
                assert(by_index(c, k0, d, *s, a, b) == sought_here(c, planned, d, *s, a, b));
            }
            return r;
        }
        if plan.source == SeekSource::Fetch && plan.fetch_start < plan.fetch_end {
            k.stage = SeekStage::FetchingWindow;
            let r: SeekAction = SeekAction::Fetch(plan.fetch_start, plan.fetch_end - 1);
            assert(k@ =~= by_index(c, k0, d, *s, none, none).seek);
            assert(did(by_index(c, k0, d, *s, none, none), none, r, *self, *k, *old(download), *download, old(events)@, events@));
            return r;
        }
        let r: SeekAction = self.seek_window(k, download, events);
        proof {
            let a = choose|a: Seq<u32>| did(
                #[trigger] sought_in_window(c, planned, d, a), a, r, *self, *k, *old(download), *download, old(events)@, events@,
            );
            assert(by_index(c, k0, d, *s, a, none) == sought_in_window(c, planned, d, a));
        }
        r
    }

    /// A seek by an estimate, or within the download where the target is there.
    fn seek_by_estimate(&mut self, k: &mut Seek, s: &SeekSignals, download: &mut SharedDownload, events: &mut Vec<PlayerEvent>) -> (r: SeekAction)
        requires
            old(self).wf(),
        ensures
            exists|first: Seq<u32>, second: Seq<u32>| did(
                #[trigger] by_estimate(old(self)@, old(k)@, old(download)@, *s, first, second),
                first,
                r,
                *final(self),
                *final(k),
                *old(download),
                *final(download),
                old(events)@,
                final(events)@,
            ),
    {
        proof {
            reveal(by_estimate);
        }
        let ghost c = self@;
        let ghost k0 = k@;
        let ghost d = download@;
        let ghost none: Seq<u32> = Seq::empty();
        let ghost before = event_views(events@);
        assert(before + Seq::<EventView>::empty() =~= before);
        let ghost v = by_estimate(c, k0, d, *s, none, none);
        let duration: Option<i64> = told_duration(&self.stream);
        let far: bool = needs_range_seek(
            k.timestamp_us,
            duration,
            download.data.len(),
            download.complete,
            download.content_length,
            self.stream.supports_range,
        );
        if !far {
            let r: SeekAction = self.seek_here(k, s, download, events);
            proof {
                let (a, b) = choose|a: Seq<u32>, b: Seq<u32>| did(
                    #[trigger] sought_here(c, k0, d, *s, a, b), a, r, *self, *k, *old(download), *download, old(events)@, events@,
                );
                assert(by_estimate(c, k0, d, *s, a, b) == sought_here(c, k0, d, *s, a, b));
            }
            return r;
        }
        if !s.has_url {
            let r: SeekAction = fail(k, "No URL for Range seek");
            assert(did(v, none, r, *self, *k, *old(download), *download, old(events)@, events@));
            return r;
        }
        let total: i64 = match duration {
            Some(n) => n,
            None => 1,
        };
        let range: (u64, u64) = estimated_range(k.timestamp_us, total, download.content_length);
        k.range = range;
        k.size = download.content_length;
        let ghost ranged = SeekView { range, size: d.content_length, ..k0 };
        assert(k@ =~= ranged);
        match self.stream.format {
            None => {
                let r: SeekAction = fail(k, "No demuxer format for Range seek");
                assert(did(v, none, r, *self, *k, *old(download), *download, old(events)@, events@));
                r
            },
            Some(ContainerFormat::Unknown) => {
                let r: SeekAction = fail(k, "Unsupported format for Range seek");
                assert(did(v, none, r, *self, *k, *old(download), *download, old(events)@, events@));
                r
            },
            Some(ContainerFormat::Mp4) => {
                if range.0 > download.data.len() as u64 {
                    k.stage = SeekStage::FetchingMp4;
                    let r: SeekAction = SeekAction::Fetch(range.0, range.1);
                    assert(k@ =~= v.seek);
                    assert(did(v, none, r, *self, *k, *old(download), *download, old(events)@, events@));
                    return r;
                }
                self.stream.demuxed_len = 0;
                let ghost mid = CoreView { stream: StreamView { demuxed_len: 0, ..c.stream }, ..c };
                assert(self@ =~= mid);
                let r: SeekAction = self.seek_here(k, s, download, events);
                proof {
                    let (a, b) = choose|a: Seq<u32>, b: Seq<u32>| did(
                        #[trigger] sought_here(mid, ranged, d, *s, a, b), a, r, *self, *k, *old(download), *download, old(events)@, events@,
                    );
                    assert(by_estimate(c, k0, d, *s, a, b) == sought_here(mid, ranged, d, *s, a, b));
                }
                r
            },
            Some(_) => {
                if self.stream.mkv.header.is_none() {
                    let r: SeekAction = fail(k, "No MKV header saved for Range seek");
                    assert(did(v, none, r, *self, *k, *old(download), *download, old(events)@, events@));
                    return r;
                }
                k.stage = SeekStage::FetchingMkv;
                let r: SeekAction = SeekAction::Fetch(range.0, range.1);
                assert(k@ =~= v.seek);
                assert(did(v, none, r, *self, *k, *old(download), *download, old(events)@, events@));
                r
            },
        }
    }

    /// The decoders are there: the way of the seek is chosen.
    fn seek_choose(&mut self, k: &mut Seek, s: &SeekSignals, download: &mut SharedDownload, events: &mut Vec<PlayerEvent>) -> (r: SeekAction)
        requires
            old(self).wf(),
        ensures
            exists|first: Seq<u32>, second: Seq<u32>| did(
                #[trigger] chosen(old(self)@, old(k)@, old(download)@, *s, first, second),
                first,
                r,
                *final(self),
                *final(k),
                *old(download),
                *final(download),
                old(events)@,
                final(events)@,
            ),
    {
        proof {
            reveal(chosen);
        }
        let ghost c = self@;
        let ghost k0 = k@;
        let ghost d = download@;
        let ghost none: Seq<u32> = Seq::empty();
        let ghost before = event_views(events@);
        assert(before + Seq::<EventView>::empty() =~= before);
        if !self.stream.index.is_empty() {
            if self.stream.supports_range {
                let r: SeekAction = self.seek_by_index(k, s, download, events);
                proof {
                    let (a, b) = choose|a: Seq<u32>, b: Seq<u32>| did(
                        #[trigger] by_index(c, k0, d, *s, a, b), a, r, *self, *k, *old(download), *download, old(events)@, events@,
                    );
                    assert(chosen(c, k0, d, *s, a, b) == by_index(c, k0, d, *s, a, b));
                }
                return r;
            }
            let r: SeekAction = self.seek_here(k, s, download, events);
            proof {
                let (a, b) = choose|a: Seq<u32>, b: Seq<u32>| did(
                    #[trigger] sought_here(c, k0, d, *s, a, b), a, r, *self, *k, *old(download), *download, old(events)@, events@,
                );
                assert(chosen(c, k0, d, *s, a, b) == sought_here(c, k0, d, *s, a, b));
            }
            return r;
        }
        let duration: Option<i64> = told_duration(&self.stream);
        if needs_probe(duration, download.complete, download.content_length, self.stream.supports_range) && s.has_url {
            k.stage = SeekStage::AskingSize;
            let r: SeekAction = SeekAction::AskSize;
            assert(k@ =~= chosen(c, k0, d, *s, none, none).seek);
            assert(did(chosen(c, k0, d, *s, none, none), none, r, *self, *k, *old(download), *download, old(events)@, events@));
            return r;
        }
        let r: SeekAction = self.seek_by_estimate(k, s, download, events);
        proof {
            let (a, b) = choose|a: Seq<u32>, b: Seq<u32>| did(
                #[trigger] by_estimate(c, k0, d, *s, a, b), a, r, *self, *k, *old(download), *download, old(events)@, events@,
            );
            assert(chosen(c, k0, d, *s, a, b) == by_estimate(c, k0, d, *s, a, b));
        }
        r
    }

    /// The bytes that the index asked for have come.
    fn seek_window_come(&mut self, k: &mut Seek, download: &mut SharedDownload, bytes: Vec<u8>, events: &mut Vec<PlayerEvent>) -> (r: SeekAction)
        requires
            old(self).wf(),
        ensures
            exists|order: Seq<u32>| did(
                #[trigger] window_come(old(self)@, old(k)@, old(download)@, bytes@, order),
                order,
                r,
                *final(self),
                *final(k),
                *old(download),
                *final(download),
                old(events)@,
                final(events)@,
            ),
    {
        proof {
            reveal(window_come);
        }
        let ghost c = self@;
        let ghost k0 = k@;
        let ghost d = download@;
        let ghost come = bytes@;
        let ghost none: Seq<u32> = Seq::empty();
        let ghost before = event_views(events@);
        assert(before + Seq::<EventView>::empty() =~= before);
        let plan: SeekPlan = k.plan;
        if bytes.len() as u64 > u64::MAX - plan.fetch_start {
            let r: SeekAction = fail(k, "Range response is too long");
            assert(did(window_come(c, k0, d, come, none), none, r, *self, *k, *old(download), *download, old(events)@, events@));
            return r;
        }
        self.stream.take_fetched(&plan, bytes, &mut download.data);
        let ghost c1 = CoreView {
            stream: StreamView { window: window_with(c.stream.window, plan.fetch_start, come), ..c.stream },
            ..c
        };
        let ghost d1 = DownloadView {
            data: if c.stream.format == Some(ContainerFormat::Mp4) {
                extended(d.data, plan.fetch_start, come)
            } else {
                d.data
            },
            ..d
        };
        assert(self@ =~= c1);
        assert(download@ =~= d1);
        let ghost mid = *download;
        let r: SeekAction = self.seek_window(k, download, events);
        proof {
            let a = choose|a: Seq<u32>| did(
                #[trigger] sought_in_window(c1, k0, d1, a), a, r, *self, *k, mid, *download, old(events)@, events@,
            );
            assert(window_come(c, k0, d, come, a) == sought_in_window(c1, k0, d1, a));
            assert(did(window_come(c, k0, d, come, a), a, r, *self, *k, *old(download), *download, old(events)@, events@));
        }
        r
    }

    /// The bytes that an estimate asked for have come, of an MKV file.
    fn seek_mkv_come(&mut self, k: &mut Seek, download: &mut SharedDownload, bytes: Vec<u8>, events: &mut Vec<PlayerEvent>) -> (r: SeekAction)
        requires
            old(self).wf(),
        ensures
            did(mkv_come(old(self)@, old(k)@, old(download)@, bytes@), Seq::empty(), r, *final(self), *final(k), *old(download), *final(download), old(events)@, final(events)@),
    {
        proof {
            reveal(mkv_come);
        }
        let ghost c = self@;
        let ghost before = event_views(events@);
        assert(before + Seq::<EventView>::empty() =~= before);
        let last: u64 = k.range.1;
        if last >= k.size {
            return fail(k, "Range is outside the file");
        }
        let end: SeekEnd = self.stream.seek_mkv_estimated(&bytes, last, k.timestamp_us, k.size);
        assert(self@ =~= (CoreView { stream: self@.stream, ..c }));
        self.seek_install(k, download, end, false, events)
    }

    /// The bytes that an estimate asked for have come, of an MP4 file.
    fn seek_mp4_come(&mut self, k: &mut Seek, s: &SeekSignals, download: &mut SharedDownload, bytes: Vec<u8>, events: &mut Vec<PlayerEvent>) -> (r: SeekAction)
        requires
            old(self).wf(),
        ensures
            exists|first: Seq<u32>, second: Seq<u32>| did(
                #[trigger] mp4_come(old(self)@, old(k)@, old(download)@, *s, bytes@, first, second),
                first,
                r,
                *final(self),
                *final(k),
                *old(download),
                *final(download),
                old(events)@,
                final(events)@,
            ),
    {
        proof {
            reveal(mp4_come);
        }
        let ghost c = self@;
        let ghost k0 = k@;
        let ghost d = download@;
        let ghost come = bytes@;
        let ghost none: Seq<u32> = Seq::empty();
        let ghost before = event_views(events@);
        assert(before + Seq::<EventView>::empty() =~= before);
        let ghost v = mp4_come(c, k0, d, *s, come, none, none);
        let (start, last): (u64, u64) = k.range;
        if start > usize::MAX as u64 {
            let r: SeekAction = fail(k, "Range does not fit the download");
            assert(did(v, none, r, *self, *k, *old(download), *download, old(events)@, events@));
            return r;
        }
        place_at(&mut download.data, start as usize, bytes);
        download.cancelled = true;
        if last < k.size && last + 1 < k.size {
            let mut next: SharedDownload = SharedDownload::new();
            next.data.append(&mut download.data);
            next.content_length = k.size;
            assert(next.data@ =~= placed(d.data, start as int, come));
            k.stage = SeekStage::Filling;
            assert(k@ =~= v.seek);
            assert(download@ =~= v.download);
            let r: SeekAction = SeekAction::Install(next, Some(last + 1));
            assert(did(v, none, r, *self, *k, *old(download), *download, old(events)@, events@));
            return r;
        }
        self.stream.demuxed_len = 0;
        let ghost c1 = CoreView { stream: StreamView { demuxed_len: 0, ..c.stream }, ..c };
        let ghost d1 = DownloadView { data: placed(d.data, start as int, come), cancelled: true, ..d };
        assert(self@ =~= c1);
        assert(download@ =~= d1);
        let ghost mid = *download;
        let r: SeekAction = self.seek_here(k, s, download, events);
        proof {
            let (a, b) = choose|a: Seq<u32>, b: Seq<u32>| did(
                #[trigger] sought_here(c1, k0, d1, *s, a, b), a, r, *self, *k, mid, *download, old(events)@, events@,
            );
            assert(mp4_come(c, k0, d, *s, come, a, b) == sought_here(c1, k0, d1, *s, a, b));
            assert(did(mp4_come(c, k0, d, *s, come, a, b), a, r, *self, *k, *old(download), *download, old(events)@, events@));
        }
        r
    }

    /// It is known whether ranges of the file can be asked for.
    fn seek_ranges_known(&mut self, k: &mut Seek, s: &SeekSignals, download: &mut SharedDownload, ranges: bool, size: u64, events: &mut Vec<PlayerEvent>) -> (r: SeekAction)
        requires
            old(self).wf(),
        ensures
            exists|first: Seq<u32>, second: Seq<u32>| did(
                #[trigger] ranges_known(old(self)@, old(k)@, old(download)@, *s, ranges, size, first, second),
                first,
                r,
                *final(self),
                *final(k),
                *old(download),
                *final(download),
                old(events)@,
                final(events)@,
            ),
    {
        proof {
            reveal(ranges_known);
        }
        let ghost c = self@;
        let ghost d = download@;
        if ranges {
            self.stream.supports_range = true;
        }
        if size > 0 {
            download.content_length = size;
        }
        let ghost c1 = CoreView { stream: StreamView { supports_range: c.stream.supports_range || ranges, ..c.stream }, ..c };
        let ghost d1 = DownloadView { content_length: if size > 0 { size } else { d.content_length }, ..d };
        assert(self@ =~= c1);
        assert(download@ =~= d1);
        let ghost mid = *download;
        let r: SeekAction = self.seek_by_estimate(k, s, download, events);
        proof {
            let (a, b) = choose|a: Seq<u32>, b: Seq<u32>| did(
                #[trigger] by_estimate(c1, old(k)@, d1, *s, a, b), a, r, *self, *k, mid, *download, old(events)@, events@,
            );
            assert(did(ranges_known(c, old(k)@, d, *s, ranges, size, a, b), a, r, *self, *k, *old(download), *download, old(events)@, events@));
        }
        r
    }

    /// Take a step of a seek: `reply` says what came of the last action. The seek
    /// goes on until its action says that it is over.
    #[verifier::rlimit(40)]
    pub fn seek_step(&mut self, k: &mut Seek, s: &SeekSignals, reply: SeekReply, download: &mut SharedDownload, events: &mut Vec<PlayerEvent>) -> (r: SeekAction)
        requires
            old(self).wf(),
        ensures
            exists|first: Seq<u32>, second: Seq<u32>| did(
                #[trigger] seek_stepped(old(self)@, old(k)@, old(download)@, *s, reply@, first, second),
                first,
                r,
                *final(self),
                *final(k),
                *old(download),
                *final(download),
                old(events)@,
                final(events)@,
            ),
    {
        proof {
            reveal(seek_stepped);
        }
        let ghost c = self@;
        let ghost k0 = k@;
        let ghost d = download@;
        let ghost said = reply@;
        let ghost none: Seq<u32> = Seq::empty();
        let ghost v = seek_stepped(c, k0, d, *s, said, none, none);
        let ghost before = event_views(events@);
        assert(before + Seq::<EventView>::empty() =~= before);
        if !self.session.is_current(&k.ticket) || k.stage == SeekStage::Over {
            k.stage = SeekStage::Over;
            let r: SeekAction = SeekAction::Over(Ok(()));
            assert(k@ =~= v.seek);
            assert(did(v, none, r, *self, *k, *old(download), *download, old(events)@, events@));
            return r;
        }
        if k.stage == SeekStage::AskingSize {
            match reply {
                SeekReply::Size(n, ranges) => {
                    let r: SeekAction = self.seek_ranges_known(k, s, download, ranges, n, events);
                    proof {
                        let (a, b) = choose|a: Seq<u32>, b: Seq<u32>| did(
                            #[trigger] ranges_known(c, k0, d, *s, ranges, n, a, b),
                            a,
                            r, *self, *k, *old(download), *download, old(events)@, events@,
                        );
                        assert(did(seek_stepped(c, k0, d, *s, said, a, b), a, r, *self, *k, *old(download), *download, old(events)@, events@));
                    }
                    return r;
                },
                _ => {
                    k.stage = SeekStage::TryingByte;
                    let r: SeekAction = SeekAction::Fetch(0, 0);
                    assert(k@ =~= v.seek);
                    assert(did(v, none, r, *self, *k, *old(download), *download, old(events)@, events@));
                    return r;
                },
            }
        }
        if k.stage == SeekStage::TryingByte {
            let ranges: bool = match &reply {
                SeekReply::Bytes(b) => b.len() > 0,
                _ => false,
            };
            let r: SeekAction = self.seek_ranges_known(k, s, download, ranges, 0, events);
            proof {
                let (a, b) = choose|a: Seq<u32>, b: Seq<u32>| did(
                    #[trigger] ranges_known(c, k0, d, *s, ranges, 0, a, b),
                    a,
                    r, *self, *k, *old(download), *download, old(events)@, events@,
                );
                assert(did(seek_stepped(c, k0, d, *s, said, a, b), a, r, *self, *k, *old(download), *download, old(events)@, events@));
            }
            return r;
        }
        match (k.stage, reply) {
            (_, SeekReply::Failed(t)) => {
                let r: SeekAction = fail(k, t.as_str());
                assert(did(v, none, r, *self, *k, *old(download), *download, old(events)@, events@));
                r
            },
            (SeekStage::Resetting, _) => {
                let r: SeekAction = self.seek_choose(k, s, download, events);
                proof {
                    let (a, b) = choose|a: Seq<u32>, b: Seq<u32>| did(
                        #[trigger] chosen(c, k0, d, *s, a, b), a, r, *self, *k, *old(download), *download, old(events)@, events@,
                    );
                    assert(seek_stepped(c, k0, d, *s, said, a, b) == chosen(c, k0, d, *s, a, b));
                }
                r
            },
            (SeekStage::FetchingWindow, SeekReply::Bytes(bytes)) => {
                let r: SeekAction = self.seek_window_come(k, download, bytes, events);
                proof {
                    let a = choose|a: Seq<u32>| did(
                        #[trigger] window_come(c, k0, d, bytes@, a), a, r, *self, *k, *old(download), *download, old(events)@, events@,
                    );
                    assert(seek_stepped(c, k0, d, *s, said, a, none) == window_come(c, k0, d, bytes@, a));
                }
                r
            },
            (SeekStage::FetchingMkv, SeekReply::Bytes(bytes)) => {
                let r: SeekAction = self.seek_mkv_come(k, download, bytes, events);
                assert(seek_stepped(c, k0, d, *s, said, none, none) == mkv_come(c, k0, d, bytes@));
                r
            },
            (SeekStage::FetchingMp4, SeekReply::Bytes(bytes)) => {
                let r: SeekAction = self.seek_mp4_come(k, s, download, bytes, events);
                proof {
                    let (a, b) = choose|a: Seq<u32>, b: Seq<u32>| did(
                        #[trigger] mp4_come(c, k0, d, *s, bytes@, a, b), a, r, *self, *k, *old(download), *download, old(events)@, events@,
                    );
                    assert(seek_stepped(c, k0, d, *s, said, a, b) == mp4_come(c, k0, d, *s, bytes@, a, b));
                }
                r
            },
            (SeekStage::Filling, _) => {
                self.stream.demuxed_len = 0;
                let ghost c1 = CoreView { stream: StreamView { demuxed_len: 0, ..c.stream }, ..c };
                assert(self@ =~= c1);
                let r: SeekAction = self.seek_here(k, s, download, events);
                proof {
                    let (a, b) = choose|a: Seq<u32>, b: Seq<u32>| did(
                        #[trigger] sought_here(c1, k0, d, *s, a, b), a, r, *self, *k, *old(download), *download, old(events)@, events@,
                    );
                    assert(seek_stepped(c, k0, d, *s, said, a, b) == sought_here(c1, k0, d, *s, a, b));
                }
                r
            },
            (stage, _) => {
                let actual: Result<i64, String> = match &k.actual {
                    Ok(us) => Ok(*us),
                    Err(e) => Err(e.clone()),
                };
                match (stage, actual) {
                    (SeekStage::Installing, Ok(us)) => {
                        let r: SeekAction = self.seek_arrive(k, s, download, us, events);
                        proof {
                            let a = choose|a: Seq<u32>| did(
                                #[trigger] arrived(c, k0, d, *s, us, a), a, r, *self, *k, *old(download), *download, old(events)@, events@,
                            );
                            assert(seek_stepped(c, k0, d, *s, said, a, none) == arrived(c, k0, d, *s, us, a));
                        }
                        r
                    },
                    (SeekStage::Sounding, Ok(us)) => {
                        let r: SeekAction = self.seek_sound(k, s, download, us, events);
                        assert(seek_stepped(c, k0, d, *s, said, none, none) == sound_on(c, k0, d, *s, us));
                        r
                    },
                    (SeekStage::Resuming, Ok(us)) => {
                        let r: SeekAction = self.seek_end(k, s, download, us, events);
                        assert(seek_stepped(c, k0, d, *s, said, none, none) == ended(c, k0, d, *s, us));
                        r
                    },
                    (SeekStage::Installing, Err(e)) | (SeekStage::Sounding, Err(e)) | (SeekStage::Resuming, Err(e)) => {
                        let r: SeekAction = fail(k, e.as_str());
                        assert(did(v, none, r, *self, *k, *old(download), *download, old(events)@, events@));
                        r
                    },
                    _ => {
                        let r: SeekAction = fail(k, "No data was fetched");
                        assert(did(v, none, r, *self, *k, *old(download), *download, old(events)@, events@));
                        r
                    },
                }
            },
        }
    }
}

// ---------------------------------------------------------------------------
// Laws
// ---------------------------------------------------------------------------

/// A seek that has been overtaken by another changes nothing.
pub proof fn law_overtaken_seek_gives_way(c: CoreView, k: SeekView, d: DownloadView, s: SeekSignals, reply: SeekReplyView, first: Seq<u32>, second: Seq<u32>)
    requires
        c.session.seek_generation != k.ticket.generation,
    ensures
        ({
            let v = seek_stepped(c, k, d, s, reply, first, second);
            &&& v.action == SeekActionView::Over(Ok(()))
            &&& v.core == c
            &&& v.download == d
            &&& v.events.len() == 0
        }),
{
    reveal(seek_stepped);
}

/// After a seek within the download of an MP4 file playback goes on with each video
/// and audio track of its header: each has one cursor.
pub proof fn law_seek_keeps_tracks(c: CoreView, k: SeekView, d: DownloadView, s: SeekSignals, first: Seq<u32>, second: Seq<u32>)
    requires
        seek_input(c.stream, d.data) matches Some(input) && order_of(input, first),
    ensures
        ({
            let v = sought_here(c, k, d, s, first, second);
            &&& v.opened == seek_input(c.stream, d.data)
            &&& v.core.stream.mp4.cursors matches Some(x) && names_tracks(v.opened->Some_0, x)
        }),
{
    reveal(sought_here);
    reveal(arrived);
    reveal(sound_on);
    reveal(ended);
    let input = download_input(d.data, c.stream.layout);
    let (r, stream) = sought_in(c.stream, k.timestamp_us, d.data, first);
    let w = stream.mp4.demuxer->Some_0;
    lemma_first_samples(input, first, first.len());
    assert(cursor_tracks(w.cursors) =~= cursor_tracks(first_samples(input, first, first.len())));
    assert(names_tracks(input, w.cursors));
    let batch = c.config.demux_batch_size;
    lemma_drain_tracks(w, batch as nat);
    lemma_drain_tracks(resumed(opened(d.data, c.stream.layout, second), Some(w.cursors)), batch as nat);
    reveal(core_demuxed);
    let moved = CoreView { stream: StreamView { demuxed_len: 0, ..stream }, ..c };
    let filled = core_demuxed(moved, d.data, second);
    assert(filled.stream.mp4.cursors matches Some(x) && cursor_tracks(x) == cursor_tracks(w.cursors));
    assert(sought_here(c, k, d, s, first, second).core.stream == filled.stream);
}

/// A seek that is done tells the position and the status, and leaves playback
/// buffering where it was going on, and paused where not.
pub proof fn law_seek_restores_status(c: CoreView, k: SeekView, d: DownloadView, s: SeekSignals, actual_us: i64)
    ensures
        ({
            let v = ended(c, k, d, s, actual_us);
            let status = if k.ticket.was_playing { PlaybackStatus::Buffering } else { PlaybackStatus::Paused };
            &&& v.core.session.state.status == status
            &&& v.events == seq![EventView::Seeked { actual_ms: ns_as_ms(us_as_ns(actual_us)) }, status_event(status)]
            &&& v.core.session.state.current_time_ms == ns_as_ms(us_as_ns(actual_us))
        }),
{
    reveal(ended);
}

/// After a seek the clock stands at the position that was reached, the first frame
/// will set it once more, and sound from before that position is dropped, as long
/// as the distance to the master clock fits a machine word.
pub proof fn law_clock_starts_at_target(c: CoreView, k: SeekView, d: DownloadView, s: SeekSignals, actual_us: i64, order: Seq<u32>)
    requires
        i64::MIN <= s.master_ns - us_as_ns(actual_us) <= i64::MAX,
    ensures
        ({
            let v = arrived(c, k, d, s, actual_us, order).core;
            &&& position_at(v.clock, s.master_ns) == us_as_ns(actual_us)
            &&& !v.clock.synced_to_first_frame
            &&& v.clock.skip_frames_before_us is None
            &&& v.feed.audio_skip_before_us == Some(actual_us)
        }),
{
    reveal(arrived);
    reveal(sound_on);
    reveal(ended);
}

/// A seek by the index asks for the window of its plan, where that is not there.
pub proof fn law_seek_fetches_plan(c: CoreView, k: SeekView, d: DownloadView, s: SeekSignals, first: Seq<u32>, second: Seq<u32>)
    requires
        s.has_url,
        c.stream.format is Some,
    ensures
        ({
            let p = seek_plan(c.stream, k.timestamp_us, d.data.len() as int, d.content_length);
            let v = by_index(c, k, d, s, first, second);
            p.source == SeekSource::Fetch && p.fetch_start < p.fetch_end ==> {
                &&& v.action == SeekActionView::Fetch(p.fetch_start, (p.fetch_end - 1) as u64)
                &&& v.seek.plan == p
                &&& v.core == c
                &&& v.download == d
            }
        }),
{
    reveal(by_index);
}

/// After a seek by an estimate the bytes of an MP4 file stand at their offsets in the
/// download, and the rest is downloaded from behind them on.
pub proof fn law_estimated_bytes_are_placed(c: CoreView, k: SeekView, d: DownloadView, s: SeekSignals, bytes: Seq<u8>, first: Seq<u32>, second: Seq<u32>)
    requires
        k.range.0 <= usize::MAX,
        k.range.1 + 1 < k.size,
    ensures
        ({
            let v = mp4_come(c, k, d, s, bytes, first, second);
            &&& v.action matches SeekActionView::Install(n, Some(from)) && {
                &&& from == k.range.1 + 1
                &&& n.data.len() == k.range.0 + bytes.len()
                &&& n.data.skip(k.range.0 as int) == bytes
                &&& n.content_length == k.size
                &&& !n.complete
            }
            &&& v.download.cancelled
        }),
{
    reveal(mp4_come);
    law_place_keeps_offsets(d.data, k.range.0 as int, bytes);
}

/// A time to seek to in milliseconds is a thousand times as many microseconds.
pub proof fn law_target_in_microseconds(ms: u64)
    requires
        ms * 1000 <= i64::MAX,
    ensures
        ms_as_us(ms) == ms * 1000,
{
}

/// A seek that begins leaves nothing of what was queued or decoded from before it, is
/// told apart from all before it, and keeps what playback is to come back to.
pub proof fn law_seek_begins_anew(c: CoreView)
    ensures
        ({
            let b = core_seek_begun(c);
            &&& b.feed.queue.len() == 0
            &&& b.feed.pending is None
            &&& b.stream.mp4.demuxer is None
            &&& b.session.state.status == PlaybackStatus::Seeking
            &&& b.session.seek_generation != c.session.seek_generation
            &&& c.session.state.status != PlaybackStatus::Seeking ==> b.session.pre_seek_status == Some(c.session.state.status)
            &&& b.session.state.current_time_ms == c.session.state.current_time_ms
            &&& b.stream.index == c.stream.index
        }),
{
}

} // verus!
