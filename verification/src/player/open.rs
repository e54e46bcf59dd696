//! Loading a file, step by step. Requests and decoders are outside: a step says
//! what is to be done next, and the following one is told what came of it.
//!
//! 1. The first bytes tell the format, the file size and whether ranges of the
//!    file can be asked for.
//! 2. Where they can, only metadata is fetched (moov for MP4, header for MKV), and
//!    a seek index is built from it.
//! 3. The decoders are configured.
//! 4. An initial window is fetched, and the rest follows in the background.
//! 5. Where ranges cannot be asked for, the file is downloaded from the start.

use vstd::prelude::*;
use vstd::string::*;

use crate::demux::boxes::{boxes_from, find_in, find_moov, locate_moov, moov_from, moov_kind, MoovLocation};
use crate::demux::detect::format_of;
use crate::demux::ebml::without_seekhead;
use crate::demux::isomp4::Mp4Input;
use crate::demux::mkv::{fresh_mkv, mkv_duration, mkv_parsed};
use crate::demux::mp4::{mp4_info, order_of};
use crate::demux::types::{copy_bytes, ContainerFormat, DemuxError, DemuxFault, MediaInfo, MediaView};
use crate::demux::walk::mp4_fault;
use crate::player::buffer::SharedDownload;
use crate::player::feed::FeedState;
use crate::player::load::{
    after_probe, after_size, end_input, end_opened, initial_range, initial_window, larger_header, moov_end, moov_end_of,
    mp4_opened, next_header_size, no_windows, open_way, plain_input, probe_next, tail_start, way_of, OpenWay, ProbeNext,
    MKV_INITIAL, TAIL_SIZE,
};
use crate::player::mp4_part::part_order;
use crate::player::range_seek::{at_most, window_with};
use crate::player::seek::DownloadView;
use crate::player::session::{is_due, ready_events, ready_state, status_event, with_status, SessionView, PROGRESS_NS};
use crate::player::stream::{header_in, load_begun, mkv_header_taken, truncated_input, Header, StreamView};
use crate::player::sync::{threshold_for, AVSync};
use crate::player::tick::{core_demuxed, Core, CoreView};
use crate::player::types::{event_views, EventView, PlaybackStatus, PlayerEvent, StateView};

verus! {

/// Where a load stands.
#[derive(Debug, Clone, Copy, PartialEq, Eq, Structural)]
pub enum LoadStage {
    /// The first bytes are asked for.
    Probing,
    /// The size of the file is asked for.
    AskingSize,
    /// The bytes up to the end of the moov box are fetched.
    FetchingMoov,
    /// The end of the file is searched for the moov box.
    FetchingTail,
    /// The moov box is fetched from the end of the file.
    FetchingEnd,
    /// The header of an MKV file is fetched.
    FetchingHeader,
    /// The decoders are being configured.
    Configuring,
    /// The initial window is fetched.
    FetchingInitial,
    /// The file is opened, and its size and its server are not known yet.
    Opening,
    /// The file is opened again, to be read until its header is there.
    Reopening,
    /// The file is read until its header is there.
    Reading,
    /// The file is opened to go on in the background.
    Continuing,
    /// The rest is handed to the background.
    Leaving,
    Over,
}

/// How a load goes on once the decoders are configured.
#[derive(Debug, Clone, Copy, PartialEq, Eq, Structural)]
pub enum LoadWay {
    /// An initial window is fetched.
    Windows,
    /// The file is opened to go on in the background.
    Continue,
    /// The open file goes on in the background.
    Read,
}

/// A load under way.
#[derive(Debug)]
pub struct Load {
    pub stage: LoadStage,
    pub way: LoadWay,
    pub file_size: u64,
    /// The first bytes.
    pub probe: Vec<u8>,
    /// The end of the moov box.
    pub moov_end: u64,
    /// How much of an MKV file is tried.
    pub header_size: u64,
    /// The format of the header that was found.
    pub format: ContainerFormat,
}

/// A load under way, as a view.
#[verifier::ext_equal]
pub struct LoadView {
    pub stage: LoadStage,
    pub way: LoadWay,
    pub file_size: u64,
    pub probe: Seq<u8>,
    pub moov_end: u64,
    pub header_size: u64,
    pub format: ContainerFormat,
}

impl View for Load {
    type V = LoadView;

    open spec fn view(&self) -> LoadView {
        LoadView {
            stage: self.stage,
            way: self.way,
            file_size: self.file_size,
            probe: self.probe@,
            moov_end: self.moov_end,
            header_size: self.header_size,
            format: self.format,
        }
    }
}

/// Why a load failed.
#[derive(Debug)]
pub enum LoadError {
    Text(String),
    /// The MP4 header cannot be parsed.
    Mp4(DemuxError),
}

/// Why a load failed, as a view.
#[verifier::ext_equal]
pub enum LoadFault {
    Text(Seq<char>),
    Mp4(DemuxFault),
}

impl View for LoadError {
    type V = LoadFault;

    open spec fn view(&self) -> LoadFault {
        match self {
            LoadError::Text(s) => LoadFault::Text(s@),
            LoadError::Mp4(e) => LoadFault::Mp4(e@),
        }
    }
}

/// What came of the last action.
#[derive(Debug)]
pub enum LoadReply {
    Done,
    Failed(String),
    /// The bytes that were asked for.
    Bytes(Vec<u8>),
    /// The first bytes, whether they are a part of the file, and the size that was
    /// told.
    Probed(Vec<u8>, bool, u64),
    /// The size of the file, and whether ranges of it can be asked for.
    Size(u64, bool),
    /// The decoders are configured for this media; says whether the first audio
    /// track can be decoded.
    Configured(MediaInfo, bool),
}

/// What came of the last action, as a view.
#[verifier::ext_equal]
pub enum LoadReplyView {
    Done,
    Failed(Seq<char>),
    Bytes(Seq<u8>),
    Probed(Seq<u8>, bool, u64),
    Size(u64, bool),
    Configured(MediaView, bool),
}

impl View for LoadReply {
    type V = LoadReplyView;

    open spec fn view(&self) -> LoadReplyView {
        match self {
            LoadReply::Done => LoadReplyView::Done,
            LoadReply::Failed(s) => LoadReplyView::Failed(s@),
            LoadReply::Bytes(b) => LoadReplyView::Bytes(b@),
            LoadReply::Probed(b, p, n) => LoadReplyView::Probed(b@, *p, *n),
            LoadReply::Size(n, r) => LoadReplyView::Size(*n, *r),
            LoadReply::Configured(i, a) => LoadReplyView::Configured(i@, *a),
        }
    }
}

/// What is to be done next.
pub enum LoadAction {
    /// The load is over.
    Over(Result<(), LoadError>),
    /// Ask for the size of the file.
    AskSize,
    /// Fetch the bytes from the first to the last offset.
    Fetch(u64, u64),
    /// Configure the decoders for a header.
    Configure(Header),
    /// Open the file from the start.
    Open,
    /// Open the file from an offset on.
    OpenFrom(u64),
    /// Read on in the open file.
    Read,
    /// Let the open file go on in the background.
    Leave,
    /// Download the file in the background from an offset on.
    StreamFrom(u64),
}

/// What is to be done next, as a view. Of a header its media, its format and its
/// duration.
#[verifier::ext_equal]
pub enum LoadActionView {
    Over(Result<(), LoadFault>),
    AskSize,
    Fetch(u64, u64),
    Configure(MediaView, ContainerFormat, Option<u64>),
    Open,
    OpenFrom(u64),
    Read,
    Leave,
    StreamFrom(u64),
}

impl View for LoadAction {
    type V = LoadActionView;

    open spec fn view(&self) -> LoadActionView {
        match *self {
            LoadAction::Over(Ok(())) => LoadActionView::Over(Ok(())),
            LoadAction::Over(Err(e)) => LoadActionView::Over(Err(e@)),
            LoadAction::AskSize => LoadActionView::AskSize,
            LoadAction::Fetch(a, b) => LoadActionView::Fetch(a, b),
            LoadAction::Configure(h) => LoadActionView::Configure(h.info@, h.format, h.duration_bits),
            LoadAction::Open => LoadActionView::Open,
            LoadAction::OpenFrom(n) => LoadActionView::OpenFrom(n),
            LoadAction::Read => LoadActionView::Read,
            LoadAction::Leave => LoadActionView::Leave,
            LoadAction::StreamFrom(n) => LoadActionView::StreamFrom(n),
        }
    }
}

/// A step of a load: what is to be done, and what is left. Where the header of an
/// MP4 file was read, `opened` is what it was read from.
#[verifier::ext_equal]
pub struct LoadStep {
    pub action: LoadActionView,
    pub core: CoreView,
    pub load: LoadView,
    pub download: DownloadView,
    pub events: Seq<EventView>,
    pub opened: Option<Mp4Input>,
}

/// A load at its beginning.
pub open spec fn fresh_load() -> LoadView {
    LoadView {
        stage: LoadStage::Probing,
        way: LoadWay::Windows,
        file_size: 0,
        probe: Seq::empty(),
        moov_end: 0,
        header_size: 0,
        format: ContainerFormat::Unknown,
    }
}

/// The core when a load begins.
pub open spec fn core_load_begun(c: CoreView) -> CoreView {
    CoreView {
        session: SessionView { header_parsed: false, ..with_status(c.session, PlaybackStatus::Loading) },
        feed: FeedState { queue: Seq::empty(), pending: None, dead_since_tick: 0, ..c.feed },
        stream: load_begun(c.stream),
        ..c
    }
}

/// The end of a load.
pub open spec fn load_over(c: CoreView, k: LoadView, d: DownloadView, r: Result<(), LoadFault>) -> LoadStep {
    LoadStep {
        action: LoadActionView::Over(r),
        core: c,
        load: LoadView { stage: LoadStage::Over, ..k },
        download: d,
        events: Seq::empty(),
        opened: None,
    }
}

/// A step that waits for something outside.
pub open spec fn load_waits(c: CoreView, k: LoadView, d: DownloadView, stage: LoadStage, action: LoadActionView) -> LoadStep {
    LoadStep { action, core: c, load: LoadView { stage, ..k }, download: d, events: Seq::empty(), opened: None }
}

/// The decoders are to be configured.
pub open spec fn configures(c: CoreView, k: LoadView, d: DownloadView, way: LoadWay, info: MediaView, format: ContainerFormat, bits: Option<u64>, opened: Option<Mp4Input>) -> LoadStep {
    LoadStep {
        opened,
        ..load_waits(c, LoadView { way, format, ..k }, d, LoadStage::Configuring, LoadActionView::Configure(info, format, bits))
    }
}

/// What the header in the data is read from, where it is that of an MP4 file.
pub open spec fn header_input(s: StreamView, data: Seq<u8>) -> Option<Mp4Input> {
    if format_of(data) == ContainerFormat::Mp4 { Some(truncated_input(s.layout, data)) } else { None }
}

/// The duration of the header in the data, in ticks.
pub open spec fn header_bits(data: Seq<u8>) -> Option<u64> {
    if format_of(data) == ContainerFormat::Mp4 { None } else { mkv_duration(without_seekhead(data)) }
}

/// The file is downloaded from the start: its header may be in the data already.
#[verifier::opaque]
pub open spec fn linear(c: CoreView, k: LoadView, d: DownloadView, order: Seq<u32>) -> LoadStep {
    let (info, stream) = header_in(c.stream, d.data, order);
    let next = CoreView { stream, ..c };
    match info {
        Some(i) => configures(next, k, d, LoadWay::Continue, i, format_of(d.data), header_bits(d.data), header_input(stream, d.data)),
        None => if d.data.len() > 0 && c.stream.supports_range {
            load_waits(next, k, d, LoadStage::Reopening, LoadActionView::OpenFrom(d.data.len() as u64))
        } else {
            load_waits(next, k, DownloadView { data: Seq::empty(), ..d }, LoadStage::Reopening, LoadActionView::Open)
        },
    }
}

/// An MP4 file with its moov box in the header bytes is opened.
#[verifier::opaque]
pub open spec fn mp4_header(c: CoreView, k: LoadView, d: DownloadView, header: Seq<u8>, order: Seq<u32>) -> LoadStep {
    match mp4_fault(plain_input(header)) {
        Some(t) => load_over(c, k, d, Err(LoadFault::Mp4(DemuxFault::InvalidData("MP4 parse error: "@ + t)))),
        None => configures(
            CoreView {
                stream: mp4_opened(c.stream, header, k.probe, at_most(k.moov_end as int, usize::MAX as int), k.file_size, order),
                ..c
            },
            k,
            DownloadView { data: header, ..d },
            LoadWay::Windows,
            mp4_info(plain_input(header), order),
            ContainerFormat::Mp4,
            None,
            Some(plain_input(header)),
        ),
    }
}

/// Where the end of a file begins that is searched for moov.
pub open spec fn tail_of(file_size: u64) -> u64 {
    (file_size - at_most(TAIL_SIZE as int, file_size as int)) as u64
}

/// The last offset before `end`.
pub open spec fn last_before(end: u64) -> u64 {
    if end > 0 { (end - 1) as u64 } else { 0 }
}

/// The moov box of an MP4 file is looked for.
#[verifier::opaque]
pub open spec fn mp4_probed(c: CoreView, k: LoadView, d: DownloadView, order: Seq<u32>) -> LoadStep {
    match moov_from(boxes_from(k.probe, 0), 0, None, k.file_size) {
        MoovLocation::Found { offset, size } => {
            let end = moov_end_of(offset, size);
            let found = LoadView { moov_end: end, ..k };
            if end <= k.probe.len() {
                mp4_header(c, found, d, k.probe, order)
            } else {
                load_waits(c, found, d, LoadStage::FetchingMoov, LoadActionView::Fetch(0, last_before(end)))
            }
        },
        MoovLocation::AtEnd { moov_offset } => load_waits(
            CoreView { stream: StreamView { window: Some(no_windows(k.file_size)), ..c.stream }, ..c },
            k,
            DownloadView { data: k.probe, ..d },
            LoadStage::FetchingEnd,
            LoadActionView::Fetch(moov_offset, last_before(k.file_size)),
        ),
        MoovLocation::Unknown => load_waits(
            c,
            k,
            d,
            LoadStage::FetchingTail,
            LoadActionView::Fetch(tail_of(k.file_size), last_before(k.file_size)),
        ),
    }
}

/// How much of an MKV file is tried, within the file.
pub open spec fn header_try(size: u64, file_size: u64) -> u64 {
    at_most(size as int, file_size as int) as u64
}

/// An MKV file is opened by its header bytes, where they can be parsed.
#[verifier::opaque]
pub open spec fn mkv_open(c: CoreView, k: LoadView, d: DownloadView, header: Seq<u8>) -> Option<LoadStep> {
    match mkv_parsed(fresh_mkv(), without_seekhead(header)) {
        Ok(m) => Some(
            configures(
                CoreView {
                    stream: StreamView { window: Some(no_windows(k.file_size)), ..mkv_header_taken(c.stream, header, m) },
                    ..c
                },
                k,
                DownloadView { data: header, ..d },
                LoadWay::Windows,
                m.media_info->Some_0,
                ContainerFormat::Mkv,
                mkv_duration(without_seekhead(header)),
                None,
            ),
        ),
        Err(_) => None,
    }
}

/// The header of an MKV file is looked for: in the first bytes where they are
/// enough, else it is fetched.
#[verifier::opaque]
pub open spec fn mkv_try(c: CoreView, k: LoadView, d: DownloadView, order: Seq<u32>) -> LoadStep
    decreases 20_000_000 - k.header_size, 1int,
{
    let size = header_try(k.header_size, k.file_size);
    if k.probe.len() < size {
        load_waits(c, k, d, LoadStage::FetchingHeader, LoadActionView::Fetch(0, last_before(size)))
    } else {
        mkv_header_come(c, k, d, k.probe.take(size as int), order)
    }
}

/// The header bytes of an MKV file are there. Where the header is not all in them,
/// four times as much is tried, up to a limit.
#[verifier::opaque]
pub open spec fn mkv_header_come(c: CoreView, k: LoadView, d: DownloadView, header: Seq<u8>, order: Seq<u32>) -> LoadStep
    decreases 20_000_000 - k.header_size, 0int,
{
    match mkv_open(c, k, d, header) {
        Some(v) => v,
        None => match larger_header(k.header_size, k.file_size) {
            Some(n) if k.header_size < n <= 20_000_000 => mkv_try(c, LoadView { header_size: n, ..k }, d, order),
            _ => linear(c, k, DownloadView { data: header, ..d }, order),
        },
    }
}

/// The size of the file is known and ranges of it can be asked for: its format
/// decides.
#[verifier::opaque]
pub open spec fn windows(c: CoreView, k: LoadView, d: DownloadView, order: Seq<u32>) -> LoadStep {
    match way_of(k.probe) {
        OpenWay::Mp4 => mp4_probed(c, k, d, order),
        OpenWay::Mkv => mkv_try(c, LoadView { header_size: MKV_INITIAL, ..k }, d, order),
        OpenWay::Linear => linear(c, k, DownloadView { data: k.probe, ..d }, order),
    }
}

/// What follows once it is known whether ranges can be asked for.
pub open spec fn probe_follows(c: CoreView, k: LoadView, d: DownloadView, next: ProbeNext, order: Seq<u32>) -> LoadStep {
    match next {
        ProbeNext::AskSize => load_waits(c, k, d, LoadStage::AskingSize, LoadActionView::AskSize),
        ProbeNext::Windows(n) => windows(c, LoadView { file_size: n, ..k }, DownloadView { content_length: n, ..d }, order),
        ProbeNext::Linear => linear(c, k, DownloadView { data: k.probe, ..d }, order),
    }
}

/// The first bytes have come, or could not be had.
#[verifier::opaque]
pub open spec fn probed(c: CoreView, k: LoadView, d: DownloadView, reply: LoadReplyView, order: Seq<u32>) -> LoadStep {
    match reply {
        LoadReplyView::Probed(bytes, partial, total) => {
            let next = probe_next(partial, bytes.len() as u64, total);
            probe_follows(
                CoreView { stream: StreamView { supports_range: partial, ..c.stream }, ..c },
                LoadView { probe: bytes, ..k },
                DownloadView { content_length: if next is Linear { total } else { d.content_length }, ..d },
                next,
                order,
            )
        },
        _ => load_waits(c, k, d, LoadStage::Opening, LoadActionView::Open),
    }
}

/// The size of the file was asked for.
#[verifier::opaque]
pub open spec fn size_told(c: CoreView, k: LoadView, d: DownloadView, reply: LoadReplyView, order: Seq<u32>) -> LoadStep {
    match reply {
        LoadReplyView::Size(n, _) if n > 0 => probe_follows(c, k, d, ProbeNext::Windows(n), order),
        _ => probe_follows(c, k, d, ProbeNext::Linear, order),
    }
}

/// The moov box has come from the end of the file.
#[verifier::opaque]
pub open spec fn end_come(c: CoreView, k: LoadView, d: DownloadView, moov: Seq<u8>, order: Seq<u32>) -> LoadStep {
    let (info, stream) = end_opened(c.stream, d.data, k.probe, moov, order);
    let next = CoreView { stream, ..c };
    match info {
        Some(i) => configures(next, k, d, LoadWay::Windows, i, ContainerFormat::Mp4, None, Some(end_input(stream.layout, d.data))),
        None => linear(next, k, DownloadView { data: if d.data.len() == 0 { k.probe } else { d.data }, ..d }, order),
    }
}

/// The end of the file has come: where it holds the moov box, that is fetched.
#[verifier::opaque]
pub open spec fn tail_come(c: CoreView, k: LoadView, d: DownloadView, tail: Seq<u8>, order: Seq<u32>) -> LoadStep {
    if find_in(tail, moov_kind()) is Some {
        load_waits(
            CoreView { stream: StreamView { window: Some(no_windows(k.file_size)), ..c.stream }, ..c },
            k,
            DownloadView { data: k.probe, ..d },
            LoadStage::FetchingEnd,
            LoadActionView::Fetch(tail_of(k.file_size), last_before(k.file_size)),
        )
    } else {
        linear(c, k, DownloadView { data: if d.data.len() == 0 { k.probe } else { d.data }, ..d }, order)
    }
}

/// The rest of the file is downloaded in the background.
#[verifier::opaque]
pub open spec fn streamed(c: CoreView, k: LoadView, d: DownloadView, order: Seq<u32>) -> LoadStep {
    let next = core_demuxed(c, d.data, order);
    if d.data.len() >= k.file_size {
        load_over(next, k, DownloadView { complete: true, ..d }, Ok(()))
    } else {
        load_waits(next, k, d, LoadStage::Leaving, LoadActionView::StreamFrom(d.data.len() as u64))
    }
}

/// The initial window is fetched, where it is not there.
#[verifier::opaque]
pub open spec fn initial(c: CoreView, k: LoadView, d: DownloadView, order: Seq<u32>) -> LoadStep {
    match initial_range(d.data.len() as u64, k.file_size) {
        Some((a, b)) => load_waits(c, k, d, LoadStage::FetchingInitial, LoadActionView::Fetch(a, b)),
        None => streamed(c, k, d, order),
    }
}

/// The initial window has come.
#[verifier::opaque]
pub open spec fn initial_come(c: CoreView, k: LoadView, d: DownloadView, bytes: Seq<u8>, order: Seq<u32>) -> LoadStep {
    if d.data.len() + bytes.len() > u64::MAX {
        load_over(c, k, d, Err(LoadFault::Text("Range response is too long"@)))
    } else {
        streamed(
            CoreView {
                stream: StreamView { window: window_with(c.stream.window, d.data.len() as u64, bytes), ..c.stream },
                ..c
            },
            k,
            DownloadView { data: d.data + bytes, ..d },
            order,
        )
    }
}

/// The core once the decoders are configured.
#[verifier::opaque]
pub open spec fn core_ready(c: CoreView, info: MediaView, audio: bool, format: ContainerFormat) -> CoreView {
    let fps = if info.video_tracks.len() > 0 { info.video_tracks[0].fps } else { None };
    let paced = match fps {
        Some(r) => AVSync { fps, threshold_ns: threshold_for(fps), ..c.sync },
        None => c.sync,
    };
    CoreView {
        session: SessionView { state: ready_state(c.session.state, info, audio), header_parsed: true, ..c.session },
        stream: StreamView { media: Some(info), format: Some(format), ..c.stream },
        sync: if info.audio_tracks.len() > 0 { AVSync { has_audio: audio, ..paced } } else { paced },
        ..c
    }
}

/// A step with events before its own.
pub open spec fn load_told(events: Seq<EventView>, v: LoadStep) -> LoadStep {
    LoadStep { events: events + v.events, ..v }
}

/// The decoders are configured: the load goes on.
#[verifier::opaque]
pub open spec fn went_on(c: CoreView, k: LoadView, d: DownloadView, first: Seq<u32>, second: Seq<u32>) -> LoadStep {
    match k.way {
        LoadWay::Windows => if k.format == ContainerFormat::Mp4 {
            initial(c, k, d, second)
        } else {
            initial(core_demuxed(c, d.data, first), k, d, second)
        },
        LoadWay::Continue => {
            let next = core_demuxed(c, d.data, first);
            if next.stream.supports_range && d.data.len() > 0 {
                load_waits(next, k, d, LoadStage::Continuing, LoadActionView::OpenFrom(d.data.len() as u64))
            } else {
                load_waits(next, k, d, LoadStage::Continuing, LoadActionView::Open)
            }
        },
        LoadWay::Read => {
            let next = core_demuxed(c, d.data, first);
            if d.complete {
                load_over(next, k, d, Ok(()))
            } else {
                load_waits(next, k, d, LoadStage::Leaving, LoadActionView::Leave)
            }
        },
    }
}

/// The decoders are configured for the media.
#[verifier::opaque]
pub open spec fn configured(c: CoreView, k: LoadView, d: DownloadView, info: MediaView, audio: bool, first: Seq<u32>, second: Seq<u32>) -> LoadStep {
    load_told(ready_events(info, audio), went_on(core_ready(c, info, audio, k.format), k, d, first, second))
}

/// More of the file has come, or its end: its header may be there.
#[verifier::opaque]
pub open spec fn read_on(c: CoreView, k: LoadView, d: DownloadView, ends: bool, order: Seq<u32>) -> LoadStep {
    let (info, stream) = header_in(c.stream, d.data, order);
    let next = CoreView { stream, ..c };
    match info {
        Some(i) => configures(next, k, d, LoadWay::Read, i, format_of(d.data), header_bits(d.data), header_input(stream, d.data)),
        None => if ends {
            load_over(
                CoreView { session: SessionView { state: StateView { status: PlaybackStatus::Error, ..c.session.state }, ..c.session }, ..next },
                k,
                d,
                Err(LoadFault::Text("Download complete but container header could not be parsed"@)),
            )
        } else {
            load_waits(next, k, d, LoadStage::Reading, LoadActionView::Read)
        },
    }
}

/// More of the file has come: that is told now and then.
#[verifier::opaque]
pub open spec fn chunk_come(c: CoreView, k: LoadView, d: DownloadView, wall_ns: i64, bytes: Seq<u8>, order: Seq<u32>) -> LoadStep {
    let data = d.data + bytes;
    let due = is_due(wall_ns, c.session.last_progress_ns, PROGRESS_NS);
    load_told(
        if due {
            seq![EventView::DownloadProgress { received_bytes: data.len() as u64, total_bytes: d.content_length }]
        } else {
            Seq::empty()
        },
        read_on(
            CoreView {
                session: SessionView { last_progress_ns: if due { wall_ns } else { c.session.last_progress_ns }, ..c.session },
                ..c
            },
            k,
            DownloadView { data, ..d },
            false,
            order,
        ),
    )
}

/// Bytes that were asked for have come.
#[verifier::opaque]
pub open spec fn bytes_come(c: CoreView, k: LoadView, d: DownloadView, wall_ns: i64, b: Seq<u8>, order: Seq<u32>) -> LoadStep {
    match k.stage {
        LoadStage::FetchingMoov => mp4_header(c, k, d, b, order),
        LoadStage::FetchingTail => tail_come(c, k, d, b, order),
        LoadStage::FetchingEnd => end_come(c, k, d, b, order),
        LoadStage::FetchingHeader => mkv_header_come(c, k, d, b, order),
        LoadStage::FetchingInitial => initial_come(c, k, d, b, order),
        LoadStage::Reading => chunk_come(c, k, d, wall_ns, b, order),
        _ => load_over(c, k, d, Err(LoadFault::Text("No data was asked for"@))),
    }
}

/// Something other than bytes was asked for, and is done.
#[verifier::opaque]
pub open spec fn request_done(c: CoreView, k: LoadView, d: DownloadView, reply: LoadReplyView, order: Seq<u32>) -> LoadStep {
    match (k.stage, reply) {
        (LoadStage::Opening, LoadReplyView::Size(n, ranges)) => load_waits(
            CoreView { stream: StreamView { supports_range: ranges, ..c.stream }, ..c },
            k,
            DownloadView { content_length: n, ..d },
            LoadStage::Reading,
            LoadActionView::Read,
        ),
        (LoadStage::Reopening, _) => load_waits(c, k, d, LoadStage::Reading, LoadActionView::Read),
        (LoadStage::Reading, _) => read_on(c, k, DownloadView { complete: true, ..d }, true, order),
        (LoadStage::Continuing, _) => if d.complete {
            load_over(c, k, d, Ok(()))
        } else {
            load_waits(c, k, d, LoadStage::Leaving, LoadActionView::Leave)
        },
        (LoadStage::Leaving, _) => load_over(c, k, d, Ok(())),
        _ => load_over(c, k, d, Err(LoadFault::Text("No data was fetched"@))),
    }
}

/// A step of a load.
#[verifier::opaque]
pub open spec fn load_stepped(c: CoreView, k: LoadView, d: DownloadView, wall_ns: i64, reply: LoadReplyView, first: Seq<u32>, second: Seq<u32>) -> LoadStep {
    match (k.stage, reply) {
        (LoadStage::Over, _) => load_over(c, k, d, Ok(())),
        (LoadStage::Probing, _) => probed(c, k, d, reply, first),
        (LoadStage::AskingSize, _) => size_told(c, k, d, reply, first),
        (_, LoadReplyView::Failed(t)) => load_over(c, k, d, Err(LoadFault::Text(t))),
        (_, LoadReplyView::Bytes(b)) => bytes_come(c, k, d, wall_ns, b, first),
        (LoadStage::Configuring, LoadReplyView::Configured(i, a)) => configured(c, k, d, i, a, first, second),
        _ => request_done(c, k, d, reply, first),
    }
}

/// Whether a call did what a step says: its result, what it left, and the events
/// that it added. The tracks of an MP4 header that was read stand in the order
/// `order`, which holds each of them once.
pub open spec fn load_did(v: LoadStep, order: Seq<u32>, r: LoadAction, core: Core, k: Load, was: SharedDownload, is: SharedDownload, before: Seq<PlayerEvent>, after: Seq<PlayerEvent>) -> bool {
    &&& r@ == v.action
    &&& v.opened matches Some(input) ==> order_of(input, order)
    &&& core@ == v.core
    &&& core.wf()
    &&& k@ == v.load
    &&& is@ == v.download
    &&& is.error == was.error
    &&& is.paused == was.paused
    &&& event_views(after) == event_views(before) + v.events
}

/// The last offset before `end`.
fn before(end: u64) -> (r: u64)
    ensures
        r == last_before(end),
{
    if end > 0 { end - 1 } else { 0 }
}

/// The end of a load, with an error.
fn give_up(k: &mut Load, text: &str) -> (r: LoadAction)
    ensures
        r@ == LoadActionView::Over(Err(LoadFault::Text(text@))),
        final(k)@ == (LoadView { stage: LoadStage::Over, ..old(k)@ }),
{
    k.stage = LoadStage::Over;
    assert(k@ =~= (LoadView { stage: LoadStage::Over, ..old(k)@ }));
    LoadAction::Over(Err(LoadError::Text(String::from_str(text))))
}

/// The stream after a header has been looked for does not depend on the order of
/// its tracks, nor does it whether there is one.
proof fn lemma_header_stream(s: StreamView, data: Seq<u8>, order: Seq<u32>)
    ensures
        header_in(s, data, order).1 == header_in(s, data, Seq::empty()).1,
        header_in(s, data, order).0 is Some == header_in(s, data, Seq::empty()).0 is Some,
{
}

/// The stream after a moov box from the end has been tried does not depend on the
/// order of its tracks where it tells nothing, nor does it whether it does.
proof fn lemma_end_stream(s: StreamView, data: Seq<u8>, initial: Seq<u8>, moov: Seq<u8>, order: Seq<u32>)
    ensures
        end_opened(s, data, initial, moov, order).0 is Some == end_opened(s, data, initial, moov, Seq::empty()).0 is Some,
        end_opened(s, data, initial, moov, order).0 is None ==> end_opened(s, data, initial, moov, order).1 == end_opened(
            s,
            data,
            initial,
            moov,
            Seq::empty(),
        ).1,
{
}

/// No header is read where the initial window is fetched.
proof fn lemma_initial_opens_nothing(c: CoreView, k: LoadView, d: DownloadView, order: Seq<u32>)
    ensures
        initial(c, k, d, order).opened is None,
{
    reveal(initial);
    reveal(streamed);
}

impl Core {
    /// A load begins: its first action is to fetch the first bytes.
    pub fn begin_load(&mut self, events: &mut Vec<PlayerEvent>) -> (r: Load)
        requires
            old(self).wf(),
        ensures
            final(self).wf(),
            final(self)@ == core_load_begun(old(self)@),
            r@ == fresh_load(),
            event_views(final(events)@) == event_views(old(events)@).push(status_event(PlaybackStatus::Loading)),
    {
        let ghost before = self@;
        self.session.begin_load(events);
        self.feed.clear();
        self.stream.begin_load();
        assert(self@ =~= core_load_begun(before));
        let r: Load = Load {
            stage: LoadStage::Probing,
            way: LoadWay::Windows,
            file_size: 0,
            probe: Vec::new(),
            moov_end: 0,
            header_size: 0,
            format: ContainerFormat::Unknown,
        };
        assert(r@ =~= fresh_load());
        r
    }

    /// The file is downloaded from the start.
    fn load_linear(&mut self, k: &mut Load, download: &mut SharedDownload, events: &mut Vec<PlayerEvent>) -> (r: LoadAction)
        requires
            old(self).wf(),
        ensures
            exists|order: Seq<u32>| load_did(
                #[trigger] linear(old(self)@, old(k)@, old(download)@, order),
                order,
                r,
                *final(self),
                *final(k),
                *old(download),
                *final(download),
                old(events)@,
                final(events)@,
            ),
    {
        proof {
            reveal(linear);
        }
        let ghost c = self@;
        let ghost k0 = k@;
        let ghost d = download@;
        let ghost none: Seq<u32> = Seq::empty();
        let ghost before_events = event_views(events@);
        assert(before_events + Seq::<EventView>::empty() =~= before_events);
        match self.stream.try_parse_header(&download.data) {
            Some(h) => {
                k.way = LoadWay::Continue;
                k.format = h.format;
                k.stage = LoadStage::Configuring;
                let ghost shown = h;
                let r: LoadAction = LoadAction::Configure(h);
                proof {
                    let order = choose|order: Seq<u32>| {
                        &&& #[trigger] header_in(c.stream, d.data, order).0 == Some(shown.info@)
                        &&& format_of(d.data) == ContainerFormat::Mp4 ==> order_of(truncated_input(self.stream@.layout, d.data), order)
                    };
                    lemma_header_stream(c.stream, d.data, order);
                    let v = linear(c, k0, d, order);
                    assert(self@ =~= v.core);
                    assert(k@ =~= v.load);
                    assert(load_did(v, order, r, *self, *k, *old(download), *download, old(events)@, events@));
                }
                r
            },
            None => {
                let ghost v = linear(c, k0, d, none);
                k.stage = LoadStage::Reopening;
                assert(self@ =~= v.core);
                assert(k@ =~= v.load);
                if download.data.len() > 0 && self.stream.supports_range {
                    let r: LoadAction = LoadAction::OpenFrom(download.data.len() as u64);
                    assert(load_did(v, none, r, *self, *k, *old(download), *download, old(events)@, events@));
                    r
                } else {
                    download.data.clear();
                    let r: LoadAction = LoadAction::Open;
                    assert(download@ =~= v.download);
                    assert(load_did(v, none, r, *self, *k, *old(download), *download, old(events)@, events@));
                    r
                }
            },
        }
    }

    /// An MP4 file with its moov box in the header bytes is opened.
    fn load_mp4_header(&mut self, k: &mut Load, download: &mut SharedDownload, header: Vec<u8>, events: &mut Vec<PlayerEvent>) -> (r: LoadAction)
        requires
            old(self).wf(),
        ensures
            exists|order: Seq<u32>| load_did(
                #[trigger] mp4_header(old(self)@, old(k)@, old(download)@, header@, order),
                order,
                r,
                *final(self),
                *final(k),
                *old(download),
                *final(download),
                old(events)@,
                final(events)@,
            ),
    {
        proof {
            reveal(mp4_header);
        }
        let ghost c = self@;
        let ghost k0 = k@;
        let ghost d = download@;
        let ghost none: Seq<u32> = Seq::empty();
        let ghost before_events = event_views(events@);
        assert(before_events + Seq::<EventView>::empty() =~= before_events);
        let end: usize = if k.moov_end > usize::MAX as u64 { usize::MAX } else { k.moov_end as usize };
        match self.stream.open_mp4(&header, &k.probe, end, k.file_size) {
            Err(e) => {
                k.stage = LoadStage::Over;
                let ghost v = mp4_header(c, k0, d, header@, none);
                let r: LoadAction = LoadAction::Over(Err(LoadError::Mp4(e)));
                assert(self@ =~= v.core);
                assert(k@ =~= v.load);
                assert(load_did(v, none, r, *self, *k, *old(download), *download, old(events)@, events@));
                r
            },
            Ok(h) => {
                let ghost bytes = header@;
                download.data = header;
                k.way = LoadWay::Windows;
                k.format = ContainerFormat::Mp4;
                k.stage = LoadStage::Configuring;
                let ghost shown = h;
                let r: LoadAction = LoadAction::Configure(h);
                proof {
                    let order = choose|order: Seq<u32>| {
                        &&& order_of(plain_input(bytes), order)
                        &&& shown.info@ == mp4_info(plain_input(bytes), order)
                        &&& self.stream@ == #[trigger] mp4_opened(c.stream, bytes, k0.probe, end as int, k0.file_size, order)
                    };
                    let v = mp4_header(c, k0, d, bytes, order);
                    assert(self@ =~= v.core);
                    assert(k@ =~= v.load);
                    assert(download@ =~= v.download);
                    assert(load_did(v, order, r, *self, *k, *old(download), *download, old(events)@, events@));
                }
                r
            },
        }
    }

    /// The moov box of an MP4 file is looked for.
    fn load_mp4(&mut self, k: &mut Load, download: &mut SharedDownload, events: &mut Vec<PlayerEvent>) -> (r: LoadAction)
        requires
            old(self).wf(),
        ensures
            exists|order: Seq<u32>| load_did(
                #[trigger] mp4_probed(old(self)@, old(k)@, old(download)@, order),
                order,
                r,
                *final(self),
                *final(k),
                *old(download),
                *final(download),
                old(events)@,
                final(events)@,
            ),
    {
        proof {
            reveal(mp4_probed);
        }
        let ghost c = self@;
        let ghost k0 = k@;
        let ghost d = download@;
        let ghost none: Seq<u32> = Seq::empty();
        let ghost before_events = event_views(events@);
        assert(before_events + Seq::<EventView>::empty() =~= before_events);
        let ghost v = mp4_probed(c, k0, d, none);
        match locate_moov(k.probe.as_slice(), k.file_size) {
            MoovLocation::Found { offset, size } => {
                let end: u64 = moov_end(offset, size);
                k.moov_end = end;
                let ghost found = LoadView { moov_end: end, ..k0 };
                assert(k@ =~= found);
                if end <= k.probe.len() as u64 {
                    let header: Vec<u8> = copy_bytes(&k.probe);
                    let r: LoadAction = self.load_mp4_header(k, download, header, events);
                    proof {
                        let order = choose|order: Seq<u32>| load_did(
                            #[trigger] mp4_header(c, found, d, k0.probe, order),
                            order,
                            r,
                            *self,
                            *k,
                            *old(download),
                            *download,
                            old(events)@,
                            events@,
                        );
                        assert(mp4_probed(c, k0, d, order) == mp4_header(c, found, d, k0.probe, order));
                        assert(load_did(mp4_probed(c, k0, d, order), order, r, *self, *k, *old(download), *download, old(events)@, events@));
                    }
                    r
                } else {
                    k.stage = LoadStage::FetchingMoov;
                    let r: LoadAction = LoadAction::Fetch(0, before(end));
                    assert(k@ =~= v.load);
                    assert(load_did(v, none, r, *self, *k, *old(download), *download, old(events)@, events@));
                    r
                }
            },
            MoovLocation::AtEnd { moov_offset } => {
                self.stream.begin_windows(k.file_size);
                download.data = copy_bytes(&k.probe);
                k.stage = LoadStage::FetchingEnd;
                let r: LoadAction = LoadAction::Fetch(moov_offset, before(k.file_size));
                assert(self@ =~= v.core);
                assert(k@ =~= v.load);
                assert(download@ =~= v.download);
                assert(load_did(v, none, r, *self, *k, *old(download), *download, old(events)@, events@));
                r
            },
            MoovLocation::Unknown => {
                k.stage = LoadStage::FetchingTail;
                let r: LoadAction = LoadAction::Fetch(tail_start(k.file_size), before(k.file_size));
                assert(k@ =~= v.load);
                assert(load_did(v, none, r, *self, *k, *old(download), *download, old(events)@, events@));
                r
            },
        }
    }

    /// An MKV file is opened by its header bytes, where they can be parsed.
    fn load_mkv_header(&mut self, k: &mut Load, download: &mut SharedDownload, header: &Vec<u8>) -> (r: Option<LoadAction>)
        requires
            old(self).wf(),
        ensures
            final(self).wf(),
            final(download).error == old(download).error,
            final(download).paused == old(download).paused,
            match (r, mkv_open(old(self)@, old(k)@, old(download)@, header@)) {
                (Some(a), Some(v)) => a@ == v.action && final(self)@ == v.core && final(k)@ == v.load && final(download)@ == v.download
                    && v.events == Seq::<EventView>::empty(),
                (None, None) => final(self)@ == old(self)@ && *final(k) == *old(k) && final(download)@ == old(download)@,
                _ => false,
            },
    {
        proof {
            reveal(mkv_open);
        }
        let ghost c = self@;
        let ghost k0 = k@;
        let ghost d = download@;
        match self.stream.open_mkv(header, k.file_size) {
            Err(_) => {
                assert(self@ =~= c);
                None
            },
            Ok(h) => {
                download.data = copy_bytes(header);
                k.way = LoadWay::Windows;
                k.format = ContainerFormat::Mkv;
                k.stage = LoadStage::Configuring;
                proof {
                    let v = mkv_open(c, k0, d, header@)->Some_0;
                    assert(self@ =~= v.core);
                    assert(k@ =~= v.load);
                    assert(download@ =~= v.download);
                }
                Some(LoadAction::Configure(h))
            },
        }
    }

    /// The header of an MKV file is looked for.
    fn load_mkv(&mut self, k: &mut Load, download: &mut SharedDownload, events: &mut Vec<PlayerEvent>) -> (r: LoadAction)
        requires
            old(self).wf(),
        ensures
            exists|order: Seq<u32>| load_did(
                #[trigger] mkv_try(old(self)@, old(k)@, old(download)@, order),
                order,
                r,
                *final(self),
                *final(k),
                *old(download),
                *final(download),
                old(events)@,
                final(events)@,
            ),
        decreases 20_000_000 - old(k).header_size, 1int,
    {
        proof {
            reveal(mkv_try);
        }
        let ghost c = self@;
        let ghost k0 = k@;
        let ghost d = download@;
        let ghost none: Seq<u32> = Seq::empty();
        let ghost before_events = event_views(events@);
        assert(before_events + Seq::<EventView>::empty() =~= before_events);
        let size: u64 = if k.header_size < k.file_size { k.header_size } else { k.file_size };
        if (k.probe.len() as u64) < size {
            k.stage = LoadStage::FetchingHeader;
            let ghost v = mkv_try(c, k0, d, none);
            let r: LoadAction = LoadAction::Fetch(0, before(size));
            assert(k@ =~= v.load);
            assert(load_did(v, none, r, *self, *k, *old(download), *download, old(events)@, events@));
            return r;
        }
        let header: Vec<u8> = vstd::slice::slice_to_vec(vstd::slice::slice_subrange(k.probe.as_slice(), 0, size as usize));
        let ghost bytes = k0.probe.take(size as int);
        assert(header@ =~= bytes);
        let r: LoadAction = self.load_mkv_come(k, download, header, events);
        proof {
            let order = choose|order: Seq<u32>| load_did(
                #[trigger] mkv_header_come(c, k0, d, bytes, order),
                order,
                r,
                *self,
                *k,
                *old(download),
                *download,
                old(events)@,
                events@,
            );
            assert(mkv_try(c, k0, d, order) == mkv_header_come(c, k0, d, bytes, order)) by {
                reveal(mkv_header_come);
            }
            assert(load_did(mkv_try(c, k0, d, order), order, r, *self, *k, *old(download), *download, old(events)@, events@));
        }
        r
    }

    /// The header bytes of an MKV file are there.
    fn load_mkv_come(&mut self, k: &mut Load, download: &mut SharedDownload, header: Vec<u8>, events: &mut Vec<PlayerEvent>) -> (r: LoadAction)
        requires
            old(self).wf(),
        ensures
            exists|order: Seq<u32>| load_did(
                #[trigger] mkv_header_come(old(self)@, old(k)@, old(download)@, header@, order),
                order,
                r,
                *final(self),
                *final(k),
                *old(download),
                *final(download),
                old(events)@,
                final(events)@,
            ),
        decreases 20_000_000 - old(k).header_size, 0int,
    {
        proof {
            reveal(mkv_header_come);
        }
        let ghost c = self@;
        let ghost k0 = k@;
        let ghost d = download@;
        let ghost none: Seq<u32> = Seq::empty();
        let ghost before_events = event_views(events@);
        assert(before_events + Seq::<EventView>::empty() =~= before_events);
        let ghost bytes = header@;
        if let Some(r) = self.load_mkv_header(k, download, &header) {
            let ghost v = mkv_header_come(c, k0, d, bytes, none);
            assert(v.opened is None) by {
                reveal(mkv_open);
            }
            assert(load_did(v, none, r, *self, *k, *old(download), *download, old(events)@, events@));
            return r;
        }
        let ghost mid = *download;
        if let Some(n) = next_header_size(k.header_size, k.file_size) {
            if n > k.header_size && n <= 20_000_000 {
                k.header_size = n;
                let ghost larger = LoadView { header_size: n, ..k0 };
                assert(k@ =~= larger);
                let r: LoadAction = self.load_mkv(k, download, events);
                proof {
                    let order = choose|order: Seq<u32>| load_did(
                        #[trigger] mkv_try(c, larger, d, order),
                        order,
                        r,
                        *self,
                        *k,
                        mid,
                        *download,
                        old(events)@,
                        events@,
                    );
                    assert(mkv_header_come(c, k0, d, bytes, order) == mkv_try(c, larger, d, order)) by {
                        reveal(mkv_try);
                    }
                    assert(load_did(mkv_header_come(c, k0, d, bytes, order), order, r, *self, *k, *old(download), *download, old(events)@, events@));
                }
                return r;
            }
        }
        download.data = header;
        let ghost d1 = DownloadView { data: bytes, ..d };
        assert(download@ =~= d1);
        let ghost mid2 = *download;
        let r: LoadAction = self.load_linear(k, download, events);
        proof {
            let order = choose|order: Seq<u32>| load_did(
                #[trigger] linear(c, k0, d1, order),
                order,
                r,
                *self,
                *k,
                mid2,
                *download,
                old(events)@,
                events@,
            );
            assert(mkv_header_come(c, k0, d, bytes, order) == linear(c, k0, d1, order));
            assert(load_did(mkv_header_come(c, k0, d, bytes, order), order, r, *self, *k, *old(download), *download, old(events)@, events@));
        }
        r
    }

    /// The size of the file is known and ranges of it can be asked for.
    fn load_windows(&mut self, k: &mut Load, download: &mut SharedDownload, events: &mut Vec<PlayerEvent>) -> (r: LoadAction)
        requires
            old(self).wf(),
        ensures
            exists|order: Seq<u32>| load_did(
                #[trigger] windows(old(self)@, old(k)@, old(download)@, order),
                order,
                r,
                *final(self),
                *final(k),
                *old(download),
                *final(download),
                old(events)@,
                final(events)@,
            ),
    {
        proof {
            reveal(windows);
        }
        let ghost c = self@;
        let ghost k0 = k@;
        let ghost d = download@;
        let ghost none: Seq<u32> = Seq::empty();
        let ghost before_events = event_views(events@);
        assert(before_events + Seq::<EventView>::empty() =~= before_events);
        match open_way(&k.probe) {
            OpenWay::Mp4 => {
                let r: LoadAction = self.load_mp4(k, download, events);
                proof {
                    let order = choose|order: Seq<u32>| load_did(
                        #[trigger] mp4_probed(c, k0, d, order),
                        order,
                        r,
                        *self,
                        *k,
                        *old(download),
                        *download,
                        old(events)@,
                        events@,
                    );
                    assert(windows(c, k0, d, order) == mp4_probed(c, k0, d, order));
                    assert(load_did(windows(c, k0, d, order), order, r, *self, *k, *old(download), *download, old(events)@, events@));
                }
                r
            },
            OpenWay::Mkv => {
                k.header_size = MKV_INITIAL;
                let ghost k1 = LoadView { header_size: MKV_INITIAL, ..k0 };
                assert(k@ =~= k1);
                let r: LoadAction = self.load_mkv(k, download, events);
                proof {
                    let order = choose|order: Seq<u32>| load_did(
                        #[trigger] mkv_try(c, k1, d, order),
                        order,
                        r,
                        *self,
                        *k,
                        *old(download),
                        *download,
                        old(events)@,
                        events@,
                    );
                    assert(windows(c, k0, d, order) == mkv_try(c, k1, d, order));
                    assert(load_did(windows(c, k0, d, order), order, r, *self, *k, *old(download), *download, old(events)@, events@));
                }
                r
            },
            OpenWay::Linear => {
                download.data = copy_bytes(&k.probe);
                let ghost d1 = DownloadView { data: k0.probe, ..d };
                assert(download@ =~= d1);
                let ghost mid = *download;
                let r: LoadAction = self.load_linear(k, download, events);
                proof {
                    let order = choose|order: Seq<u32>| load_did(
                        #[trigger] linear(c, k0, d1, order),
                        order,
                        r,
                        *self,
                        *k,
                        mid,
                        *download,
                        old(events)@,
                        events@,
                    );
                    assert(windows(c, k0, d, order) == linear(c, k0, d1, order));
                    assert(load_did(windows(c, k0, d, order), order, r, *self, *k, *old(download), *download, old(events)@, events@));
                }
                r
            },
        }
    }

    /// What follows once it is known whether ranges can be asked for.
    fn load_follow(&mut self, k: &mut Load, download: &mut SharedDownload, next: ProbeNext, events: &mut Vec<PlayerEvent>) -> (r: LoadAction)
        requires
            old(self).wf(),
        ensures
            exists|order: Seq<u32>| load_did(
                #[trigger] probe_follows(old(self)@, old(k)@, old(download)@, next, order),
                order,
                r,
                *final(self),
                *final(k),
                *old(download),
                *final(download),
                old(events)@,
                final(events)@,
            ),
    {
        let ghost c = self@;
        let ghost k0 = k@;
        let ghost d = download@;
        let ghost none: Seq<u32> = Seq::empty();
        let ghost before_events = event_views(events@);
        assert(before_events + Seq::<EventView>::empty() =~= before_events);
        match next {
            ProbeNext::AskSize => {
                k.stage = LoadStage::AskingSize;
                let ghost v = probe_follows(c, k0, d, next, none);
                let r: LoadAction = LoadAction::AskSize;
                assert(k@ =~= v.load);
                assert(load_did(v, none, r, *self, *k, *old(download), *download, old(events)@, events@));
                r
            },
            ProbeNext::Windows(n) => {
                k.file_size = n;
                download.content_length = n;
                let ghost k1 = LoadView { file_size: n, ..k0 };
                let ghost d1 = DownloadView { content_length: n, ..d };
                assert(k@ =~= k1);
                assert(download@ =~= d1);
                let ghost mid = *download;
                let r: LoadAction = self.load_windows(k, download, events);
                proof {
                    let order = choose|order: Seq<u32>| load_did(
                        #[trigger] windows(c, k1, d1, order),
                        order,
                        r,
                        *self,
                        *k,
                        mid,
                        *download,
                        old(events)@,
                        events@,
                    );
                    assert(probe_follows(c, k0, d, next, order) == windows(c, k1, d1, order));
                    assert(load_did(probe_follows(c, k0, d, next, order), order, r, *self, *k, *old(download), *download, old(events)@, events@));
                }
                r
            },
            ProbeNext::Linear => {
                download.data = copy_bytes(&k.probe);
                let ghost d1 = DownloadView { data: k0.probe, ..d };
                assert(download@ =~= d1);
                let ghost mid = *download;
                let r: LoadAction = self.load_linear(k, download, events);
                proof {
                    let order = choose|order: Seq<u32>| load_did(
                        #[trigger] linear(c, k0, d1, order),
                        order,
                        r,
                        *self,
                        *k,
                        mid,
                        *download,
                        old(events)@,
                        events@,
                    );
                    assert(probe_follows(c, k0, d, next, order) == linear(c, k0, d1, order));
                    assert(load_did(probe_follows(c, k0, d, next, order), order, r, *self, *k, *old(download), *download, old(events)@, events@));
                }
                r
            },
        }
    }

    /// The first bytes have come, or could not be had.
    fn load_probed(&mut self, k: &mut Load, download: &mut SharedDownload, reply: LoadReply, events: &mut Vec<PlayerEvent>) -> (r: LoadAction)
        requires
            old(self).wf(),
        ensures
            exists|order: Seq<u32>| load_did(
                #[trigger] probed(old(self)@, old(k)@, old(download)@, reply@, order),
                order,
                r,
                *final(self),
                *final(k),
                *old(download),
                *final(download),
                old(events)@,
                final(events)@,
            ),
    {
        proof {
            reveal(probed);
        }
        let ghost c = self@;
        let ghost k0 = k@;
        let ghost d = download@;
        let ghost none: Seq<u32> = Seq::empty();
        let ghost before_events = event_views(events@);
        assert(before_events + Seq::<EventView>::empty() =~= before_events);
        let ghost said = reply@;
        match reply {
            LoadReply::Probed(bytes, partial, total) => {
                self.stream.supports_range = partial;
                let next: ProbeNext = after_probe(partial, bytes.len() as u64, total);
                if next == ProbeNext::Linear {
                    download.content_length = total;
                }
                let ghost come = bytes@;
                k.probe = bytes;
                let ghost c1 = CoreView { stream: StreamView { supports_range: partial, ..c.stream }, ..c };
                let ghost k1 = LoadView { probe: come, ..k0 };
                let ghost d1 = DownloadView { content_length: if next is Linear { total } else { d.content_length }, ..d };
                assert(self@ =~= c1);
                assert(k@ =~= k1);
                assert(download@ =~= d1);
                let ghost mid = *download;
                let r: LoadAction = self.load_follow(k, download, next, events);
                proof {
                    let order = choose|order: Seq<u32>| load_did(
                        #[trigger] probe_follows(c1, k1, d1, next, order),
                        order,
                        r,
                        *self,
                        *k,
                        mid,
                        *download,
                        old(events)@,
                        events@,
                    );
                    assert(probed(c, k0, d, said, order) == probe_follows(c1, k1, d1, next, order));
                    assert(load_did(probed(c, k0, d, said, order), order, r, *self, *k, *old(download), *download, old(events)@, events@));
                }
                r
            },
            _ => {
                k.stage = LoadStage::Opening;
                let ghost v = probed(c, k0, d, said, none);
                let r: LoadAction = LoadAction::Open;
                assert(k@ =~= v.load);
                assert(load_did(v, none, r, *self, *k, *old(download), *download, old(events)@, events@));
                r
            },
        }
    }

    /// The size of the file was asked for.
    fn load_size_told(&mut self, k: &mut Load, download: &mut SharedDownload, reply: LoadReply, events: &mut Vec<PlayerEvent>) -> (r: LoadAction)
        requires
            old(self).wf(),
        ensures
            exists|order: Seq<u32>| load_did(
                #[trigger] size_told(old(self)@, old(k)@, old(download)@, reply@, order),
                order,
                r,
                *final(self),
                *final(k),
                *old(download),
                *final(download),
                old(events)@,
                final(events)@,
            ),
    {
        proof {
            reveal(size_told);
        }
        let ghost c = self@;
        let ghost k0 = k@;
        let ghost d = download@;
        let ghost none: Seq<u32> = Seq::empty();
        let ghost before_events = event_views(events@);
        assert(before_events + Seq::<EventView>::empty() =~= before_events);
        let ghost said = reply@;
        let next: ProbeNext = after_size(
            match reply {
                LoadReply::Size(n, _) => Some(n),
                _ => None,
            },
        );
        assert(size_told(c, k0, d, said, none) == probe_follows(c, k0, d, next, none));
        let r: LoadAction = self.load_follow(k, download, next, events);
        proof {
            let order = choose|order: Seq<u32>| load_did(
                #[trigger] probe_follows(c, k0, d, next, order),
                order,
                r,
                *self,
                *k,
                *old(download),
                *download,
                old(events)@,
                events@,
            );
            assert(size_told(c, k0, d, said, order) == probe_follows(c, k0, d, next, order));
            assert(load_did(size_told(c, k0, d, said, order), order, r, *self, *k, *old(download), *download, old(events)@, events@));
        }
        r
    }

    /// The moov box has come from the end of the file.
    fn load_end_come(&mut self, k: &mut Load, download: &mut SharedDownload, moov: Vec<u8>, events: &mut Vec<PlayerEvent>) -> (r: LoadAction)
        requires
            old(self).wf(),
        ensures
            exists|order: Seq<u32>| load_did(
                #[trigger] end_come(old(self)@, old(k)@, old(download)@, moov@, order),
                order,
                r,
                *final(self),
                *final(k),
                *old(download),
                *final(download),
                old(events)@,
                final(events)@,
            ),
    {
        proof {
            reveal(end_come);
        }
        let ghost c = self@;
        let ghost k0 = k@;
        let ghost d = download@;
        let ghost none: Seq<u32> = Seq::empty();
        let ghost before_events = event_views(events@);
        assert(before_events + Seq::<EventView>::empty() =~= before_events);
        let ghost come = moov@;
        if let Some(h) = self.stream.open_moov_at_end(&download.data, &k.probe, moov) {
            k.way = LoadWay::Windows;
            k.format = ContainerFormat::Mp4;
            k.stage = LoadStage::Configuring;
            let ghost shown = h;
            let r: LoadAction = LoadAction::Configure(h);
            proof {
                let order = choose|order: Seq<u32>| {
                    &&& order_of(end_input(self.stream@.layout, d.data), order)
                    &&& (Some(shown.info@), self.stream@) == #[trigger] end_opened(c.stream, d.data, k0.probe, come, order)
                };
                let v = end_come(c, k0, d, come, order);
                assert(self@ =~= v.core);
                assert(k@ =~= v.load);
                assert(load_did(v, order, r, *self, *k, *old(download), *download, old(events)@, events@));
            }
            return r;
        }
        let ghost c1 = CoreView { stream: end_opened(c.stream, d.data, k0.probe, come, none).1, ..c };
        assert(self@ =~= c1);
        if download.data.len() == 0 {
            download.data = copy_bytes(&k.probe);
        }
        let ghost d1 = DownloadView { data: if d.data.len() == 0 { k0.probe } else { d.data }, ..d };
        assert(download@ =~= d1);
        let ghost mid = *download;
        let r: LoadAction = self.load_linear(k, download, events);
        proof {
            let order = choose|order: Seq<u32>| load_did(
                #[trigger] linear(c1, k0, d1, order),
                order,
                r,
                *self,
                *k,
                mid,
                *download,
                old(events)@,
                events@,
            );
            lemma_end_stream(c.stream, d.data, k0.probe, come, order);
            assert(end_come(c, k0, d, come, order) == linear(c1, k0, d1, order));
            assert(load_did(end_come(c, k0, d, come, order), order, r, *self, *k, *old(download), *download, old(events)@, events@));
        }
        r
    }

    /// The end of the file has come.
    fn load_tail_come(&mut self, k: &mut Load, download: &mut SharedDownload, tail: Vec<u8>, events: &mut Vec<PlayerEvent>) -> (r: LoadAction)
        requires
            old(self).wf(),
        ensures
            exists|order: Seq<u32>| load_did(
                #[trigger] tail_come(old(self)@, old(k)@, old(download)@, tail@, order),
                order,
                r,
                *final(self),
                *final(k),
                *old(download),
                *final(download),
                old(events)@,
                final(events)@,
            ),
    {
        proof {
            reveal(tail_come);
        }
        let ghost c = self@;
        let ghost k0 = k@;
        let ghost d = download@;
        let ghost none: Seq<u32> = Seq::empty();
        let ghost before_events = event_views(events@);
        assert(before_events + Seq::<EventView>::empty() =~= before_events);
        let ghost come = tail@;
        if find_moov(tail.as_slice()).is_some() {
            let ghost v = tail_come(c, k0, d, come, none);
            self.stream.begin_windows(k.file_size);
            download.data = copy_bytes(&k.probe);
            k.stage = LoadStage::FetchingEnd;
            let r: LoadAction = LoadAction::Fetch(tail_start(k.file_size), before(k.file_size));
            assert(self@ =~= v.core);
            assert(k@ =~= v.load);
            assert(download@ =~= v.download);
            assert(load_did(v, none, r, *self, *k, *old(download), *download, old(events)@, events@));
            return r;
        }
        if download.data.len() == 0 {
            download.data = copy_bytes(&k.probe);
        }
        let ghost d1 = DownloadView { data: if d.data.len() == 0 { k0.probe } else { d.data }, ..d };
        assert(download@ =~= d1);
        let ghost mid = *download;
        let r: LoadAction = self.load_linear(k, download, events);
        proof {
            let order = choose|order: Seq<u32>| load_did(
                #[trigger] linear(c, k0, d1, order),
                order,
                r,
                *self,
                *k,
                mid,
                *download,
                old(events)@,
                events@,
            );
            assert(tail_come(c, k0, d, come, order) == linear(c, k0, d1, order));
            assert(load_did(tail_come(c, k0, d, come, order), order, r, *self, *k, *old(download), *download, old(events)@, events@));
        }
        r
    }

    /// The rest of the file is downloaded in the background.
    fn load_stream(&mut self, k: &mut Load, download: &mut SharedDownload, events: &mut Vec<PlayerEvent>) -> (r: LoadAction)
        requires
            old(self).wf(),
        ensures
            exists|order: Seq<u32>| load_did(
                #[trigger] streamed(old(self)@, old(k)@, old(download)@, order),
                order,
                r,
                *final(self),
                *final(k),
                *old(download),
                *final(download),
                old(events)@,
                final(events)@,
            ),
    {
        proof {
            reveal(streamed);
        }
        let ghost c = self@;
        let ghost k0 = k@;
        let ghost d = download@;
        let ghost none: Seq<u32> = Seq::empty();
        let ghost before_events = event_views(events@);
        assert(before_events + Seq::<EventView>::empty() =~= before_events);
        self.demux_more(&download.data);
        let ghost order = part_order(self@.stream.mp4);
        let ghost v = streamed(c, k0, d, order);
        let len: u64 = download.data.len() as u64;
        if len >= k.file_size {
            download.complete = true;
            k.stage = LoadStage::Over;
            let r: LoadAction = LoadAction::Over(Ok(()));
            assert(k@ =~= v.load);
            assert(download@ =~= v.download);
            assert(load_did(v, order, r, *self, *k, *old(download), *download, old(events)@, events@));
            r
        } else {
            k.stage = LoadStage::Leaving;
            let r: LoadAction = LoadAction::StreamFrom(len);
            assert(k@ =~= v.load);
            assert(load_did(v, order, r, *self, *k, *old(download), *download, old(events)@, events@));
            r
        }
    }

    /// The initial window is fetched, where it is not there.
    fn load_initial(&mut self, k: &mut Load, download: &mut SharedDownload, events: &mut Vec<PlayerEvent>) -> (r: LoadAction)
        requires
            old(self).wf(),
        ensures
            exists|order: Seq<u32>| load_did(
                #[trigger] initial(old(self)@, old(k)@, old(download)@, order),
                order,
                r,
                *final(self),
                *final(k),
                *old(download),
                *final(download),
                old(events)@,
                final(events)@,
            ),
    {
        proof {
            reveal(initial);
        }
        let ghost c = self@;
        let ghost k0 = k@;
        let ghost d = download@;
        let ghost none: Seq<u32> = Seq::empty();
        let ghost before_events = event_views(events@);
        assert(before_events + Seq::<EventView>::empty() =~= before_events);
        match initial_window(download.data.len() as u64, k.file_size) {
            Some((first, last)) => {
                k.stage = LoadStage::FetchingInitial;
                let ghost v = initial(c, k0, d, none);
                let r: LoadAction = LoadAction::Fetch(first, last);
                assert(k@ =~= v.load);
                assert(load_did(v, none, r, *self, *k, *old(download), *download, old(events)@, events@));
                r
            },
            None => {
                let r: LoadAction = self.load_stream(k, download, events);
                proof {
                    let order = choose|order: Seq<u32>| load_did(
                        #[trigger] streamed(c, k0, d, order),
                        order,
                        r,
                        *self,
                        *k,
                        *old(download),
                        *download,
                        old(events)@,
                        events@,
                    );
                    assert(initial(c, k0, d, order) == streamed(c, k0, d, order));
                    assert(load_did(initial(c, k0, d, order), order, r, *self, *k, *old(download), *download, old(events)@, events@));
                }
                r
            },
        }
    }

    /// The initial window has come.
    fn load_initial_come(&mut self, k: &mut Load, download: &mut SharedDownload, bytes: Vec<u8>, events: &mut Vec<PlayerEvent>) -> (r: LoadAction)
        requires
            old(self).wf(),
        ensures
            exists|order: Seq<u32>| load_did(
                #[trigger] initial_come(old(self)@, old(k)@, old(download)@, bytes@, order),
                order,
                r,
                *final(self),
                *final(k),
                *old(download),
                *final(download),
                old(events)@,
                final(events)@,
            ),
    {
        proof {
            reveal(initial_come);
        }
        let ghost c = self@;
        let ghost k0 = k@;
        let ghost d = download@;
        let ghost none: Seq<u32> = Seq::empty();
        let ghost before_events = event_views(events@);
        assert(before_events + Seq::<EventView>::empty() =~= before_events);
        let ghost come = bytes@;
        let len: u64 = download.data.len() as u64;
        if bytes.len() as u64 > u64::MAX - len {
            let ghost v = initial_come(c, k0, d, come, none);
            let r: LoadAction = give_up(k, "Range response is too long");
            assert(load_did(v, none, r, *self, *k, *old(download), *download, old(events)@, events@));
            return r;
        }
        let mut more: Vec<u8> = copy_bytes(&bytes);
        download.data.append(&mut more);
        self.stream.keep_window(len, bytes);
        let ghost c1 = CoreView {
            stream: StreamView { window: window_with(c.stream.window, len, come), ..c.stream },
            ..c
        };
        let ghost d1 = DownloadView { data: d.data + come, ..d };
        assert(self@ =~= c1);
        assert(download@ =~= d1);
        let ghost mid = *download;
        let r: LoadAction = self.load_stream(k, download, events);
        proof {
            let order = choose|order: Seq<u32>| load_did(
                #[trigger] streamed(c1, k0, d1, order),
                order,
                r,
                *self,
                *k,
                mid,
                *download,
                old(events)@,
                events@,
            );
            assert(initial_come(c, k0, d, come, order) == streamed(c1, k0, d1, order));
            assert(load_did(initial_come(c, k0, d, come, order), order, r, *self, *k, *old(download), *download, old(events)@, events@));
        }
        r
    }

    /// The decoders are configured: what the header said is kept and told.
    fn load_ready(&mut self, k: &Load, info: MediaInfo, audio: bool, events: &mut Vec<PlayerEvent>)
        requires
            old(self).wf(),
        ensures
            final(self).wf(),
            final(self)@ == core_ready(old(self)@, info@, audio, k.format),
            event_views(final(events)@) == event_views(old(events)@) + ready_events(info@, audio),
    {
        proof {
            reveal(core_ready);
        }
        let ghost c = self@;
        let ghost told = info@;
        self.session.media_ready(&info, audio, events);
        if info.video_tracks.len() > 0 && info.video_tracks[0].fps.is_some() {
            self.sync.set_fps(info.video_tracks[0].fps);
        }
        if info.audio_tracks.len() > 0 {
            self.sync.set_has_audio(audio);
        }
        self.stream.adopt(info, k.format);
        assert(self@ =~= core_ready(c, told, audio, k.format));
    }

    /// The decoders are configured: the load goes on.
    fn load_go_on(&mut self, k: &mut Load, download: &mut SharedDownload, events: &mut Vec<PlayerEvent>) -> (r: LoadAction)
        requires
            old(self).wf(),
        ensures
            exists|first: Seq<u32>, second: Seq<u32>| load_did(
                #[trigger] went_on(old(self)@, old(k)@, old(download)@, first, second),
                first,
                r,
                *final(self),
                *final(k),
                *old(download),
                *final(download),
                old(events)@,
                final(events)@,
            ),
    {
        proof {
            reveal(went_on);
        }
        let ghost c = self@;
        let ghost k0 = k@;
        let ghost d = download@;
        let ghost none: Seq<u32> = Seq::empty();
        let ghost before_events = event_views(events@);
        assert(before_events + Seq::<EventView>::empty() =~= before_events);
        if k.way == LoadWay::Windows && k.format == ContainerFormat::Mp4 {
            let r: LoadAction = self.load_initial(k, download, events);
            proof {
                let second = choose|order: Seq<u32>| load_did(
                    #[trigger] initial(c, k0, d, order),
                    order,
                    r,
                    *self,
                    *k,
                    *old(download),
                    *download,
                    old(events)@,
                    events@,
                );
                lemma_initial_opens_nothing(c, k0, d, second);
                assert(went_on(c, k0, d, none, second) == initial(c, k0, d, second));
            }
            return r;
        }
        self.demux_more(&download.data);
        let ghost first = part_order(self@.stream.mp4);
        let ghost c1 = core_demuxed(c, d.data, first);
        let ghost v = went_on(c, k0, d, first, none);
        match k.way {
            LoadWay::Windows => {
                let r: LoadAction = self.load_initial(k, download, events);
                proof {
                    let second = choose|order: Seq<u32>| load_did(
                        #[trigger] initial(c1, k0, d, order),
                        order,
                        r,
                        *self,
                        *k,
                        *old(download),
                        *download,
                        old(events)@,
                        events@,
                    );
                    lemma_initial_opens_nothing(c1, k0, d, second);
                    assert(went_on(c, k0, d, first, second) == initial(c1, k0, d, second));
                }
                r
            },
            LoadWay::Continue => {
                k.stage = LoadStage::Continuing;
                assert(k@ =~= v.load);
                let len: usize = download.data.len();
                let r: LoadAction = if self.stream.supports_range && len > 0 {
                    LoadAction::OpenFrom(len as u64)
                } else {
                    LoadAction::Open
                };
                assert(load_did(v, first, r, *self, *k, *old(download), *download, old(events)@, events@));
                r
            },
            LoadWay::Read => {
                if download.complete {
                    k.stage = LoadStage::Over;
                    assert(k@ =~= v.load);
                    let r: LoadAction = LoadAction::Over(Ok(()));
                    assert(load_did(v, first, r, *self, *k, *old(download), *download, old(events)@, events@));
                    r
                } else {
                    k.stage = LoadStage::Leaving;
                    assert(k@ =~= v.load);
                    let r: LoadAction = LoadAction::Leave;
                    assert(load_did(v, first, r, *self, *k, *old(download), *download, old(events)@, events@));
                    r
                }
            },
        }
    }

    /// The decoders are configured for the media.
    fn load_configured(&mut self, k: &mut Load, download: &mut SharedDownload, info: MediaInfo, audio: bool, events: &mut Vec<PlayerEvent>) -> (r: LoadAction)
        requires
            old(self).wf(),
        ensures
            exists|first: Seq<u32>, second: Seq<u32>| load_did(
                #[trigger] configured(old(self)@, old(k)@, old(download)@, info@, audio, first, second),
                first,
                r,
                *final(self),
                *final(k),
                *old(download),
                *final(download),
                old(events)@,
                final(events)@,
            ),
    {
        proof {
            reveal(configured);
        }
        let ghost c = self@;
        let ghost k0 = k@;
        let ghost d = download@;
        let ghost none: Seq<u32> = Seq::empty();
        let ghost before_events = event_views(events@);
        assert(before_events + Seq::<EventView>::empty() =~= before_events);
        let ghost media = info@;
        self.load_ready(k, info, audio, events);
        let ghost c1 = self@;
        let ghost mid = events@;
        let r: LoadAction = self.load_go_on(k, download, events);
        proof {
            let (a, b) = choose|a: Seq<u32>, b: Seq<u32>| load_did(
                #[trigger] went_on(c1, k0, d, a, b),
                a,
                r,
                *self,
                *k,
                *old(download),
                *download,
                mid,
                events@,
            );
            let v = configured(c, k0, d, media, audio, a, b);
            assert(v == load_told(ready_events(media, audio), went_on(c1, k0, d, a, b)));
            assert(event_views(events@) =~= before_events + v.events);
            assert(load_did(v, a, r, *self, *k, *old(download), *download, old(events)@, events@));
        }
        r
    }

    /// More of the file has come, or its end.
    fn load_read_on(&mut self, k: &mut Load, download: &mut SharedDownload, ends: bool, events: &mut Vec<PlayerEvent>) -> (r: LoadAction)
        requires
            old(self).wf(),
        ensures
            exists|order: Seq<u32>| load_did(
                #[trigger] read_on(old(self)@, old(k)@, old(download)@, ends, order),
                order,
                r,
                *final(self),
                *final(k),
                *old(download),
                *final(download),
                old(events)@,
                final(events)@,
            ),
    {
        proof {
            reveal(read_on);
        }
        let ghost c = self@;
        let ghost k0 = k@;
        let ghost d = download@;
        let ghost none: Seq<u32> = Seq::empty();
        let ghost before_events = event_views(events@);
        assert(before_events + Seq::<EventView>::empty() =~= before_events);
        match self.stream.try_parse_header(&download.data) {
            Some(h) => {
                k.way = LoadWay::Read;
                k.format = h.format;
                k.stage = LoadStage::Configuring;
                let ghost shown = h;
                let r: LoadAction = LoadAction::Configure(h);
                proof {
                    let order = choose|order: Seq<u32>| {
                        &&& #[trigger] header_in(c.stream, d.data, order).0 == Some(shown.info@)
                        &&& format_of(d.data) == ContainerFormat::Mp4 ==> order_of(truncated_input(self.stream@.layout, d.data), order)
                    };
                    lemma_header_stream(c.stream, d.data, order);
                    let v = read_on(c, k0, d, ends, order);
                    assert(self@ =~= v.core);
                    assert(k@ =~= v.load);
                    assert(load_did(v, order, r, *self, *k, *old(download), *download, old(events)@, events@));
                }
                r
            },
            None => {
                let ghost v = read_on(c, k0, d, ends, none);
                if ends {
                    self.session.state.status = PlaybackStatus::Error;
                    let r: LoadAction = give_up(k, "Download complete but container header could not be parsed");
                    assert(self@ =~= v.core);
                    assert(load_did(v, none, r, *self, *k, *old(download), *download, old(events)@, events@));
                    r
                } else {
                    k.stage = LoadStage::Reading;
                    let r: LoadAction = LoadAction::Read;
                    assert(self@ =~= v.core);
                    assert(k@ =~= v.load);
                    assert(load_did(v, none, r, *self, *k, *old(download), *download, old(events)@, events@));
                    r
                }
            },
        }
    }

    /// More of the file has come: that is told now and then.
    fn load_chunk_come(&mut self, k: &mut Load, download: &mut SharedDownload, wall_ns: i64, bytes: Vec<u8>, events: &mut Vec<PlayerEvent>) -> (r: LoadAction)
        requires
            old(self).wf(),
        ensures
            exists|order: Seq<u32>| load_did(
                #[trigger] chunk_come(old(self)@, old(k)@, old(download)@, wall_ns, bytes@, order),
                order,
                r,
                *final(self),
                *final(k),
                *old(download),
                *final(download),
                old(events)@,
                final(events)@,
            ),
    {
        proof {
            reveal(chunk_come);
        }
        let ghost c = self@;
        let ghost k0 = k@;
        let ghost d = download@;
        let ghost none: Seq<u32> = Seq::empty();
        let ghost before_events = event_views(events@);
        assert(before_events + Seq::<EventView>::empty() =~= before_events);
        let ghost come = bytes@;
        let mut more: Vec<u8> = bytes;
        download.data.append(&mut more);
        let ghost d1 = DownloadView { data: d.data + come, ..d };
        assert(download@ =~= d1);
        self.session.report_progress(download.data.len() as u64, download.content_length, wall_ns, events);
        let ghost due = is_due(wall_ns, c.session.last_progress_ns, PROGRESS_NS);
        let ghost c1 = CoreView {
            session: SessionView { last_progress_ns: if due { wall_ns } else { c.session.last_progress_ns }, ..c.session },
            ..c
        };
        assert(self@ =~= c1);
        let ghost mid = *download;
        let ghost mid_events = events@;
        let r: LoadAction = self.load_read_on(k, download, false, events);
        proof {
            let order = choose|order: Seq<u32>| load_did(
                #[trigger] read_on(c1, k0, d1, false, order),
                order,
                r,
                *self,
                *k,
                mid,
                *download,
                mid_events,
                events@,
            );
            let v = chunk_come(c, k0, d, wall_ns, come, order);
            assert(event_views(events@) =~= before_events + v.events);
            assert(load_did(v, order, r, *self, *k, *old(download), *download, old(events)@, events@));
        }
        r
    }

    /// Bytes that were asked for have come.
    fn load_bytes_come(&mut self, k: &mut Load, download: &mut SharedDownload, wall_ns: i64, bytes: Vec<u8>, events: &mut Vec<PlayerEvent>) -> (r: LoadAction)
        requires
            old(self).wf(),
        ensures
            exists|order: Seq<u32>| load_did(
                #[trigger] bytes_come(old(self)@, old(k)@, old(download)@, wall_ns, bytes@, order),
                order,
                r,
                *final(self),
                *final(k),
                *old(download),
                *final(download),
                old(events)@,
                final(events)@,
            ),
    {
        proof {
            reveal(bytes_come);
        }
        let ghost c = self@;
        let ghost k0 = k@;
        let ghost d = download@;
        let ghost none: Seq<u32> = Seq::empty();
        let ghost before_events = event_views(events@);
        assert(before_events + Seq::<EventView>::empty() =~= before_events);
        let ghost b = bytes@;
        match k.stage {
            LoadStage::FetchingMoov => {
                let r: LoadAction = self.load_mp4_header(k, download, bytes, events);
                proof {
                    let order = choose|order: Seq<u32>| load_did(
                        #[trigger] mp4_header(c, k0, d, b, order),
                        order,
                        r,
                        *self,
                        *k,
                        *old(download),
                        *download,
                        old(events)@,
                        events@,
                    );
                    assert(bytes_come(c, k0, d, wall_ns, b, order) == mp4_header(c, k0, d, b, order));
                    assert(load_did(bytes_come(c, k0, d, wall_ns, b, order), order, r, *self, *k, *old(download), *download, old(events)@, events@));
                }
                r
            },
            LoadStage::FetchingTail => {
                let r: LoadAction = self.load_tail_come(k, download, bytes, events);
                proof {
                    let order = choose|order: Seq<u32>| load_did(
                        #[trigger] tail_come(c, k0, d, b, order),
                        order,
                        r,
                        *self,
                        *k,
                        *old(download),
                        *download,
                        old(events)@,
                        events@,
                    );
                    assert(bytes_come(c, k0, d, wall_ns, b, order) == tail_come(c, k0, d, b, order));
                    assert(load_did(bytes_come(c, k0, d, wall_ns, b, order), order, r, *self, *k, *old(download), *download, old(events)@, events@));
                }
                r
            },
            LoadStage::FetchingEnd => {
                let r: LoadAction = self.load_end_come(k, download, bytes, events);
                proof {
                    let order = choose|order: Seq<u32>| load_did(
                        #[trigger] end_come(c, k0, d, b, order),
                        order,
                        r,
                        *self,
                        *k,
                        *old(download),
                        *download,
                        old(events)@,
                        events@,
                    );
                    assert(bytes_come(c, k0, d, wall_ns, b, order) == end_come(c, k0, d, b, order));
                    assert(load_did(bytes_come(c, k0, d, wall_ns, b, order), order, r, *self, *k, *old(download), *download, old(events)@, events@));
                }
                r
            },
            LoadStage::FetchingHeader => {
                let r: LoadAction = self.load_mkv_come(k, download, bytes, events);
                proof {
                    let order = choose|order: Seq<u32>| load_did(
                        #[trigger] mkv_header_come(c, k0, d, b, order),
                        order,
                        r,
                        *self,
                        *k,
                        *old(download),
                        *download,
                        old(events)@,
                        events@,
                    );
                    assert(bytes_come(c, k0, d, wall_ns, b, order) == mkv_header_come(c, k0, d, b, order));
                    assert(load_did(bytes_come(c, k0, d, wall_ns, b, order), order, r, *self, *k, *old(download), *download, old(events)@, events@));
                }
                r
            },
            LoadStage::FetchingInitial => {
                let r: LoadAction = self.load_initial_come(k, download, bytes, events);
                proof {
                    let order = choose|order: Seq<u32>| load_did(
                        #[trigger] initial_come(c, k0, d, b, order),
                        order,
                        r,
                        *self,
                        *k,
                        *old(download),
                        *download,
                        old(events)@,
                        events@,
                    );
                    assert(bytes_come(c, k0, d, wall_ns, b, order) == initial_come(c, k0, d, b, order));
                    assert(load_did(bytes_come(c, k0, d, wall_ns, b, order), order, r, *self, *k, *old(download), *download, old(events)@, events@));
                }
                r
            },
            LoadStage::Reading => {
                let r: LoadAction = self.load_chunk_come(k, download, wall_ns, bytes, events);
                proof {
                    let order = choose|order: Seq<u32>| load_did(
                        #[trigger] chunk_come(c, k0, d, wall_ns, b, order),
                        order,
                        r,
                        *self,
                        *k,
                        *old(download),
                        *download,
                        old(events)@,
                        events@,
                    );
                    assert(bytes_come(c, k0, d, wall_ns, b, order) == chunk_come(c, k0, d, wall_ns, b, order));
                    assert(load_did(bytes_come(c, k0, d, wall_ns, b, order), order, r, *self, *k, *old(download), *download, old(events)@, events@));
                }
                r
            },
            _ => {
                let ghost v = bytes_come(c, k0, d, wall_ns, b, none);
                let r: LoadAction = give_up(k, "No data was asked for");
                assert(load_did(v, none, r, *self, *k, *old(download), *download, old(events)@, events@));
                r
            },
        }
    }

    /// Something other than bytes was asked for, and is done.
    fn load_request_done(&mut self, k: &mut Load, download: &mut SharedDownload, reply: LoadReply, events: &mut Vec<PlayerEvent>) -> (r: LoadAction)
        requires
            old(self).wf(),
        ensures
            exists|order: Seq<u32>| load_did(
                #[trigger] request_done(old(self)@, old(k)@, old(download)@, reply@, order),
                order,
                r,
                *final(self),
                *final(k),
                *old(download),
                *final(download),
                old(events)@,
                final(events)@,
            ),
    {
        proof {
            reveal(request_done);
        }
        let ghost c = self@;
        let ghost k0 = k@;
        let ghost d = download@;
        let ghost none: Seq<u32> = Seq::empty();
        let ghost before_events = event_views(events@);
        assert(before_events + Seq::<EventView>::empty() =~= before_events);
        let ghost said = reply@;
        let ghost v = request_done(c, k0, d, said, none);
        match k.stage {
            LoadStage::Opening => {
                if let LoadReply::Size(n, ranges) = reply {
                    self.stream.supports_range = ranges;
                    download.content_length = n;
                    assert(self@ =~= v.core);
                    assert(download@ =~= v.download);
                    k.stage = LoadStage::Reading;
                    let r: LoadAction = LoadAction::Read;
                    assert(k@ =~= v.load);
                    assert(load_did(v, none, r, *self, *k, *old(download), *download, old(events)@, events@));
                    r
                } else {
                    let r: LoadAction = give_up(k, "No data was fetched");
                    assert(load_did(v, none, r, *self, *k, *old(download), *download, old(events)@, events@));
                    r
                }
            },
            LoadStage::Reopening => {
                k.stage = LoadStage::Reading;
                let r: LoadAction = LoadAction::Read;
                assert(k@ =~= v.load);
                assert(load_did(v, none, r, *self, *k, *old(download), *download, old(events)@, events@));
                r
            },
            LoadStage::Reading => {
                download.complete = true;
                let ghost d1 = DownloadView { complete: true, ..d };
                assert(download@ =~= d1);
                let ghost mid = *download;
                let r: LoadAction = self.load_read_on(k, download, true, events);
                proof {
                    let order = choose|order: Seq<u32>| load_did(
                        #[trigger] read_on(c, k0, d1, true, order),
                        order,
                        r,
                        *self,
                        *k,
                        mid,
                        *download,
                        old(events)@,
                        events@,
                    );
                    assert(request_done(c, k0, d, said, order) == read_on(c, k0, d1, true, order));
                    assert(load_did(request_done(c, k0, d, said, order), order, r, *self, *k, *old(download), *download, old(events)@, events@));
                }
                r
            },
            LoadStage::Continuing => {
                if download.complete {
                    k.stage = LoadStage::Over;
                    let r: LoadAction = LoadAction::Over(Ok(()));
                    assert(k@ =~= v.load);
                    assert(load_did(v, none, r, *self, *k, *old(download), *download, old(events)@, events@));
                    r
                } else {
                    k.stage = LoadStage::Leaving;
                    let r: LoadAction = LoadAction::Leave;
                    assert(k@ =~= v.load);
                    assert(load_did(v, none, r, *self, *k, *old(download), *download, old(events)@, events@));
                    r
                }
            },
            LoadStage::Leaving => {
                k.stage = LoadStage::Over;
                let r: LoadAction = LoadAction::Over(Ok(()));
                assert(k@ =~= v.load);
                assert(load_did(v, none, r, *self, *k, *old(download), *download, old(events)@, events@));
                r
            },
            _ => {
                let r: LoadAction = give_up(k, "No data was fetched");
                assert(load_did(v, none, r, *self, *k, *old(download), *download, old(events)@, events@));
                r
            },
        }
    }

    /// Take a step of a load: `reply` says what came of the last action. The load
    /// goes on until its action says that it is over.
    pub fn load_step(&mut self, k: &mut Load, download: &mut SharedDownload, wall_ns: i64, reply: LoadReply, events: &mut Vec<PlayerEvent>) -> (r: LoadAction)
        requires
            old(self).wf(),
        ensures
            exists|first: Seq<u32>, second: Seq<u32>| load_did(
                #[trigger] load_stepped(old(self)@, old(k)@, old(download)@, wall_ns, reply@, first, second),
                first,
                r,
                *final(self),
                *final(k),
                *old(download),
                *final(download),
                old(events)@,
                final(events)@,
            ),
    {
        proof {
            reveal(load_stepped);
        }
        let ghost c = self@;
        let ghost k0 = k@;
        let ghost d = download@;
        let ghost none: Seq<u32> = Seq::empty();
        let ghost before_events = event_views(events@);
        assert(before_events + Seq::<EventView>::empty() =~= before_events);
        let ghost said = reply@;
        let ghost v = load_stepped(c, k0, d, wall_ns, said, none, none);
        match (k.stage, reply) {
            (LoadStage::Over, _) => {
                k.stage = LoadStage::Over;
                let r: LoadAction = LoadAction::Over(Ok(()));
                assert(k@ =~= v.load);
                assert(load_did(v, none, r, *self, *k, *old(download), *download, old(events)@, events@));
                r
            },
            (LoadStage::Probing, reply) => {
                let r: LoadAction = self.load_probed(k, download, reply, events);
                proof {
                    let order = choose|order: Seq<u32>| load_did(
                        #[trigger] probed(c, k0, d, said, order),
                        order,
                        r,
                        *self,
                        *k,
                        *old(download),
                        *download,
                        old(events)@,
                        events@,
                    );
                    assert(load_stepped(c, k0, d, wall_ns, said, order, none) == probed(c, k0, d, said, order));
                    assert(load_did(load_stepped(c, k0, d, wall_ns, said, order, none), order, r, *self, *k, *old(download), *download, old(events)@, events@));
                }
                r
            },
            (LoadStage::AskingSize, reply) => {
                let r: LoadAction = self.load_size_told(k, download, reply, events);
                proof {
                    let order = choose|order: Seq<u32>| load_did(
                        #[trigger] size_told(c, k0, d, said, order),
                        order,
                        r,
                        *self,
                        *k,
                        *old(download),
                        *download,
                        old(events)@,
                        events@,
                    );
                    assert(load_stepped(c, k0, d, wall_ns, said, order, none) == size_told(c, k0, d, said, order));
                    assert(load_did(load_stepped(c, k0, d, wall_ns, said, order, none), order, r, *self, *k, *old(download), *download, old(events)@, events@));
                }
                r
            },
            (_, LoadReply::Failed(t)) => {
                let r: LoadAction = give_up(k, t.as_str());
                assert(load_did(v, none, r, *self, *k, *old(download), *download, old(events)@, events@));
                r
            },
            (_, LoadReply::Bytes(b)) => {
                let r: LoadAction = self.load_bytes_come(k, download, wall_ns, b, events);
                proof {
                    let order = choose|order: Seq<u32>| load_did(
                        #[trigger] bytes_come(c, k0, d, wall_ns, b@, order),
                        order,
                        r,
                        *self,
                        *k,
                        *old(download),
                        *download,
                        old(events)@,
                        events@,
                    );
                    assert(load_stepped(c, k0, d, wall_ns, said, order, none) == bytes_come(c, k0, d, wall_ns, b@, order));
                    assert(load_did(load_stepped(c, k0, d, wall_ns, said, order, none), order, r, *self, *k, *old(download), *download, old(events)@, events@));
                }
                r
            },
            (LoadStage::Configuring, LoadReply::Configured(info, audio)) => {
                let r: LoadAction = self.load_configured(k, download, info, audio, events);
                proof {
                    let (a, b) = choose|a: Seq<u32>, b: Seq<u32>| load_did(
                        #[trigger] configured(c, k0, d, info@, audio, a, b),
                        a,
                        r,
                        *self,
                        *k,
                        *old(download),
                        *download,
                        old(events)@,
                        events@,
                    );
                    assert(load_stepped(c, k0, d, wall_ns, said, a, b) == configured(c, k0, d, info@, audio, a, b));
                }
                r
            },
            (_, reply) => {
                let r: LoadAction = self.load_request_done(k, download, reply, events);
                proof {
                    let order = choose|order: Seq<u32>| load_did(
                        #[trigger] request_done(c, k0, d, said, order),
                        order,
                        r,
                        *self,
                        *k,
                        *old(download),
                        *download,
                        old(events)@,
                        events@,
                    );
                    assert(load_stepped(c, k0, d, wall_ns, said, order, none) == request_done(c, k0, d, said, order));
                    assert(load_did(load_stepped(c, k0, d, wall_ns, said, order, none), order, r, *self, *k, *old(download), *download, old(events)@, events@));
                }
                r
            },
        }
    }
}

// ---------------------------------------------------------------------------
// Laws
// ---------------------------------------------------------------------------

/// A load that fails or is over is told as such once, and no further step changes
/// anything.
pub proof fn law_load_stays_over(c: CoreView, k: LoadView, d: DownloadView, wall_ns: i64, reply: LoadReplyView, first: Seq<u32>, second: Seq<u32>)
    requires
        k.stage == LoadStage::Over,
    ensures
        load_stepped(c, k, d, wall_ns, reply, first, second) == load_over(c, k, d, Ok(())),
{
    reveal(load_stepped);
}

/// The decoders are configured before the media is said to be ready, and it is
/// ready then.
pub proof fn law_ready_after_configuration(c: CoreView, k: LoadView, d: DownloadView, wall_ns: i64, info: MediaView, audio: bool, first: Seq<u32>, second: Seq<u32>)
    requires
        k.stage == LoadStage::Configuring,
    ensures
        ({
            let v = load_stepped(c, k, d, wall_ns, LoadReplyView::Configured(info, audio), first, second);
            &&& v.events.len() >= ready_events(info, audio).len()
            &&& v.events.take(ready_events(info, audio).len() as int) == ready_events(info, audio)
            &&& core_ready(c, info, audio, k.format).session.state.status == PlaybackStatus::Ready
            &&& core_ready(c, info, audio, k.format).session.header_parsed
        }),
{
    reveal(load_stepped);
    reveal(configured);
    reveal(core_ready);
    let w = went_on(core_ready(c, info, audio, k.format), k, d, first, second);
    let e = ready_events(info, audio);
    assert((e + w.events).take(e.len() as int) =~= e);
}

/// A moov box that the first bytes tell of is fetched with all that is before it; one at
/// the end of the file from there to the end; and one that is not known of is looked for
/// in the last 64 KB.
pub proof fn law_moov_is_fetched(c: CoreView, k: LoadView, d: DownloadView, order: Seq<u32>)
    requires
        k.file_size > 0,
    ensures
        ({
            let v = mp4_probed(c, k, d, order);
            match moov_from(boxes_from(k.probe, 0), 0, None, k.file_size) {
                MoovLocation::Found { offset, size } => k.probe.len() < offset + size <= u64::MAX ==> v.action == LoadActionView::Fetch(
                    0,
                    (offset + size - 1) as u64,
                ) && v.load.moov_end == offset + size && v.load.stage == LoadStage::FetchingMoov,
                MoovLocation::AtEnd { moov_offset } => v.action == LoadActionView::Fetch(moov_offset, (k.file_size - 1) as u64) && v.load.stage
                    == LoadStage::FetchingEnd && v.download.data == k.probe,
                MoovLocation::Unknown => (v.action matches LoadActionView::Fetch(a, b) && b == k.file_size - 1 && (a == 0 ==> k.file_size <= 64 * 1024) && (a > 0
                    ==> b + 1 - a == 64 * 1024)) && v.load.stage == LoadStage::FetchingTail,
            }
        }),
{
    reveal(mp4_probed);
}

/// The header of an MKV file is asked for from the start, as much as is tried, within
/// the file.
pub proof fn law_mkv_header_is_fetched(c: CoreView, k: LoadView, d: DownloadView, order: Seq<u32>)
    requires
        k.probe.len() < k.header_size,
        k.probe.len() < k.file_size,
    ensures
        ({
            let v = mkv_try(c, k, d, order);
            &&& v.action matches LoadActionView::Fetch(a, b) && a == 0 && (b == k.header_size - 1 || b == k.file_size - 1) && b < k.header_size && b
                < k.file_size
            &&& v.core == c
        }),
{
    reveal(mkv_try);
}

/// Once the header has been read, the rest of the file is downloaded from where the data
/// ends; a load whose data is all there is over.
pub proof fn law_rest_is_downloaded(c: CoreView, k: LoadView, d: DownloadView, order: Seq<u32>)
    requires
        d.data.len() <= u64::MAX,
    ensures
        ({
            let v = streamed(c, k, d, order);
            &&& v.download.data == d.data
            &&& d.data.len() >= k.file_size ==> v.action == LoadActionView::Over(Ok(())) && v.download.complete
            &&& d.data.len() < k.file_size ==> v.action == LoadActionView::StreamFrom(d.data.len() as u64)
        }),
{
    reveal(streamed);
}

/// Bytes that come while a file is read from its start are put behind those that are
/// there.
pub proof fn law_pieces_are_put_together(c: CoreView, k: LoadView, d: DownloadView, wall_ns: i64, bytes: Seq<u8>, order: Seq<u32>)
    ensures
        chunk_come(c, k, d, wall_ns, bytes, order).download.data == d.data + bytes,
{
    reveal(chunk_come);
    reveal(read_on);
}

} // verus!
