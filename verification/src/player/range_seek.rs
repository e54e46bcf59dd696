//! Seeking with data that is fetched on demand.

use vstd::prelude::*;
use vstd::string::*;

use crate::demux::boxes::{build_range_header, range_header};
use crate::demux::ebml::find_cluster_offset;
use crate::demux::isomp4::Mp4Input;
use crate::demux::mkv::{mkv_sought, MkvDemuxer};
use crate::demux::mp4::{mp4_parsed, mp4_sought, Mp4Demuxer};
use crate::demux::types::{copy_bytes, fault_text, keyframe_for, ContainerFormat, DemuxFault};
use crate::demux::walk::mp4_fault;
use crate::player::buffer::{has_all, inserted, range_bytes, RangeView, SegmentView, SharedDownload};
use crate::player::mkv_part::{opened, MkvPartView};
use crate::player::mp4_part::{part_order, Mp4PartView};
use crate::player::stream::{first_cluster, Stream, StreamView};

verus! {

/// How much is fetched around a keyframe: 5 MB.
pub const SEEK_WINDOW: u64 = 5_242_880;

/// How much is fetched before it, for Cluster headers: 64 KB.
pub const SEEK_MARGIN: u64 = 65_536;

/// How much data behind a keyframe is enough to play from it: 512 KB.
pub const SEEK_ENOUGH: u64 = 524_288;

/// How much is fetched before an estimated position: 2 MB.
pub const ESTIMATE_MARGIN: u64 = 2_097_152;

/// How much is fetched from there: 5 MB.
pub const ESTIMATE_WINDOW: u64 = 5_242_880;

/// Where the data of a seek comes from.
#[derive(Debug, Clone, Copy, PartialEq, Eq, Structural)]
pub enum SeekSource {
    /// It is in the download.
    Download,
    /// It is in a window that was fetched before.
    Window,
    /// It has to be fetched.
    Fetch,
}

/// What a seek needs.
#[derive(Debug, Clone, Copy, PartialEq, Eq, Structural)]
pub struct SeekPlan {
    /// The keyframe to play from; the start of the file where the index has none.
    pub keyframe_offset: u64,
    pub keyframe_us: i64,
    /// The range of the file that is needed, `[fetch_start, fetch_end)`.
    pub fetch_start: u64,
    pub fetch_end: u64,
    pub file_size: u64,
    pub source: SeekSource,
}

/// The smaller of two numbers.
pub open spec fn at_most(n: int, max: int) -> int {
    if n < max { n } else { max }
}

/// The difference of two numbers, not below zero.
pub open spec fn less(n: int, m: int) -> int {
    if n > m { n - m } else { 0 }
}

/// The size of the file.
pub open spec fn file_size_of(s: StreamView, content_length: u64) -> u64 {
    match s.window {
        Some(w) => w.file_size,
        None => content_length,
    }
}

/// What a seek to `timestamp_us` needs.
pub open spec fn seek_plan(s: StreamView, timestamp_us: i64, data_len: int, content_length: u64) -> SeekPlan {
    let (offset, time): (u64, i64) = match keyframe_for(s.index, timestamp_us as int) {
        Some(e) => (e.byte_offset, e.timestamp_us),
        None => (0, 0),
    };
    let file_size = file_size_of(s, content_length);
    let fetch_start = less(offset as int, SEEK_MARGIN as int);
    SeekPlan {
        keyframe_offset: offset,
        keyframe_us: time,
        fetch_start: fetch_start as u64,
        fetch_end: at_most(fetch_start + SEEK_WINDOW, file_size as int) as u64,
        file_size,
        source: if data_len > offset + SEEK_ENOUGH {
            SeekSource::Download
        } else if s.window matches Some(w) && has_all(w.segs, fetch_start, at_most(offset + SEEK_ENOUGH, file_size as int)) {
            SeekSource::Window
        } else {
            SeekSource::Fetch
        },
    }
}

/// What a seek leaves: the position that playback goes on from, or why there is
/// none; the download that takes the place of the old one, where one does; and the
/// offset from which the rest of the file is to be downloaded into it.
pub struct SeekEnd {
    pub result: Result<i64, String>,
    pub download: Option<SharedDownload>,
    pub resume_from: Option<u64>,
}

/// A download that takes the place of another, as a view.
#[verifier::ext_equal]
pub struct NewDownload {
    pub data: Seq<u8>,
    pub content_length: u64,
    pub complete: bool,
    /// It is not cancelled, not paused, and has not failed.
    pub runs: bool,
}

/// A download as a new one.
pub open spec fn as_new(d: SharedDownload) -> NewDownload {
    NewDownload {
        data: d.data@,
        content_length: d.content_length,
        complete: d.complete,
        runs: !d.cancelled && !d.paused && d.error is None,
    }
}

/// A new download that runs.
pub open spec fn running(data: Seq<u8>, content_length: u64, complete: bool) -> NewDownload {
    NewDownload { data, content_length, complete, runs: true }
}

/// What a seek leaves, as a view.
#[verifier::ext_equal]
pub struct SeekEndView {
    pub result: Result<i64, Seq<char>>,
    pub download: Option<NewDownload>,
    pub resume_from: Option<u64>,
}

impl View for SeekEnd {
    type V = SeekEndView;

    open spec fn view(&self) -> SeekEndView {
        SeekEndView {
            result: match self.result {
                Ok(us) => Ok(us),
                Err(e) => Err(e@),
            },
            download: match self.download {
                Some(d) => Some(as_new(d)),
                None => None,
            },
            resume_from: self.resume_from,
        }
    }
}

/// A seek that failed and changed no download.
pub open spec fn refused(text: Seq<char>) -> SeekEndView {
    SeekEndView { result: Err(text), download: None, resume_from: None }
}

/// Where the rest of a file is downloaded from, behind `end`.
pub open spec fn rest_from(end: u64, file_size: u64) -> Option<u64> {
    if end < file_size { Some(end) } else { None }
}

/// The bytes of the range that a seek needs.
pub open spec fn seek_bytes(s: StreamView, plan: SeekPlan, data: Seq<u8>) -> Seq<u8> {
    match s.window {
        Some(w) => range_bytes(w.segs, plan.fetch_start as int, at_most(plan.fetch_end as int, plan.file_size as int)),
        None => {
            let end = at_most(plan.fetch_end as int, data.len() as int);
            if plan.fetch_start < end { data.subrange(plan.fetch_start as int, end) } else { Seq::empty() }
        },
    }
}

/// The input that fetched bytes make, behind a header that is put before them.
pub open spec fn window_input(s: StreamView, plan: SeekPlan, data: Seq<u8>) -> Mp4Input {
    let header = range_header(s.layout, data);
    Mp4Input {
        bytes: header + seek_bytes(s, plan, data),
        size: header.len() as u64,
        virtual_base: plan.fetch_start,
        header_end: header.len() as u64,
    }
}

/// A seek in an MP4 file, in bytes that were fetched.
pub open spec fn mp4_window_sought(s: StreamView, plan: SeekPlan, timestamp_us: i64, data: Seq<u8>, order: Seq<u32>) -> (SeekEndView, StreamView) {
    let input = window_input(s, plan, data);
    if seek_bytes(s, plan, data).len() == 0 {
        (refused("No MP4 data available at seek target"@), s)
    } else {
        match mp4_fault(input) {
            Some(t) => (
                refused("MP4 Range seek parse error: "@ + fault_text(DemuxFault::InvalidData("MP4 Range parse error: "@ + t))),
                s,
            ),
            None => {
                let d = mp4_sought(mp4_parsed(input, order, input.bytes.len() as u64), timestamp_us).1;
                (
                    SeekEndView {
                        result: Ok(plan.keyframe_us),
                        download: Some(running(Seq::empty(), plan.file_size, plan.fetch_end >= plan.file_size)),
                        resume_from: rest_from(plan.fetch_end, plan.file_size),
                    },
                    StreamView {
                        mp4: Mp4PartView { demuxer: Some(d), cursors: Some(d.cursors), cache_len: 0 },
                        demuxed_len: 0,
                        ..s
                    },
                )
            },
        }
    }
}

/// What the two ways to seek in an MKV file say when they fail.
pub struct SeekTexts {
    pub no_header: Seq<char>,
    pub no_data: Seq<char>,
    pub no_cluster: Seq<char>,
    pub parse: Seq<char>,
    pub seek: Seq<char>,
}

/// The place of the first Cluster, if there is one.
pub open spec fn cluster_in(bytes: Seq<u8>) -> Option<int> {
    if exists|i: int| first_cluster(bytes, i) { Some(choose|i: int| first_cluster(bytes, i)) } else { None }
}

/// The stream when a spliced download takes the place of the old one.
pub open spec fn mkv_rewound(s: StreamView) -> StreamView {
    StreamView {
        mkv: MkvPartView { demuxer: None, frames_read: 0, last_ts_us: 0, created_at: 0, scanned: 0, ..s.mkv },
        demuxed_len: 0,
        ..s
    }
}

/// A seek in an MKV file, in bytes that were fetched: the header is put before
/// them, from their first Cluster on. `actual_us` is the position that playback
/// goes on from, `end` the offset behind the bytes.
pub open spec fn mkv_window_sought(s: StreamView, bytes: Seq<u8>, timestamp_us: i64, actual_us: i64, file_size: u64, end: u64, complete: bool, texts: SeekTexts) -> (SeekEndView, StreamView) {
    match s.mkv.header {
        None => (refused(texts.no_header), s),
        Some(h) => if bytes.len() == 0 {
            (refused(texts.no_data), s)
        } else {
            match cluster_in(bytes) {
                None => (refused(texts.no_cluster), s),
                Some(i) => {
                    let spliced = h + bytes.skip(i);
                    let r = mkv_rewound(s);
                    match opened(spliced) {
                        Err(f) => (
                            SeekEndView {
                                result: Err(texts.parse + fault_text(f)),
                                download: Some(running(spliced, file_size, false)),
                                resume_from: None,
                            },
                            r,
                        ),
                        Ok(v) => match mkv_sought(v, timestamp_us) {
                            (Err(f), _) => (
                                SeekEndView {
                                    result: Err(texts.seek + fault_text(f)),
                                    download: Some(running(spliced, file_size, false)),
                                    resume_from: None,
                                },
                                r,
                            ),
                            (Ok(()), w) => (
                                SeekEndView {
                                    result: Ok(actual_us),
                                    download: Some(running(spliced, file_size, complete)),
                                    resume_from: rest_from(end, file_size),
                                },
                                StreamView {
                                    mkv: MkvPartView {
                                        demuxer: Some(w),
                                        frames_read: w.frames_read,
                                        created_at: spliced.len() as int,
                                        ..r.mkv
                                    },
                                    ..r
                                },
                            ),
                        },
                    }
                },
            }
        },
    }
}

/// The texts of a seek by the index.
pub open spec fn index_texts() -> SeekTexts {
    SeekTexts {
        no_header: "No MKV header saved for seek"@,
        no_data: "No data available at seek target"@,
        no_cluster: "No MKV Cluster found at seek target"@,
        parse: "MKV seek parse error: "@,
        seek: "MKV seek error: "@,
    }
}

/// The texts of a seek by an estimate.
pub open spec fn estimate_texts() -> SeekTexts {
    SeekTexts {
        no_header: "No MKV header saved for Range seek"@,
        no_data: "Range request returned empty data"@,
        no_cluster: "No MKV Cluster found in Range data"@,
        parse: "MKV Range seek parse error: "@,
        seek: "MKV Range seek error: "@,
    }
}

/// A seek by the index, in bytes that are there.
pub open spec fn window_sought(s: StreamView, plan: SeekPlan, timestamp_us: i64, data: Seq<u8>, order: Seq<u32>) -> (SeekEndView, StreamView) {
    match s.format {
        None => (refused("No demuxer format for seek"@), s),
        Some(ContainerFormat::Mp4) => mp4_window_sought(s, plan, timestamp_us, data, order),
        Some(ContainerFormat::Unknown) => (refused("Unsupported format for seek"@), s),
        Some(_) => mkv_window_sought(
            s,
            seek_bytes(s, plan, data),
            timestamp_us,
            plan.keyframe_us,
            plan.file_size,
            plan.fetch_end,
            false,
            index_texts(),
        ),
    }
}

/// A download with fetched bytes put behind it, where they touch it.
pub open spec fn extended(data: Seq<u8>, offset: u64, bytes: Seq<u8>) -> Seq<u8> {
    if offset <= data.len() && data.len() - offset < bytes.len() {
        data + bytes.skip(data.len() - offset)
    } else {
        data
    }
}

/// The windows with fetched bytes among them.
pub open spec fn window_with(w: Option<RangeView>, offset: u64, bytes: Seq<u8>) -> Option<RangeView> {
    match w {
        Some(r) => Some(RangeView { segs: inserted(r.segs, r.max_bytes as int, SegmentView { offset, data: bytes }), ..r }),
        None => None,
    }
}

// ---------------------------------------------------------------------------
// Estimates
// ---------------------------------------------------------------------------

/// The byte offset that a time corresponds to, in proportion.
pub open spec fn estimated_byte(timestamp_us: i64, duration_us: i64, content_length: u64) -> u64 {
    if timestamp_us <= 0 || duration_us <= 0 {
        0
    } else {
        at_most(timestamp_us * content_length / duration_us as int, u64::MAX as int) as u64
    }
}

/// The byte offset that a time corresponds to, in proportion.
pub fn estimate_byte(timestamp_us: i64, duration_us: i64, content_length: u64) -> (r: u64)
    ensures
        r == estimated_byte(timestamp_us, duration_us, content_length),
{
    if timestamp_us <= 0 || duration_us <= 0 {
        return 0;
    }
    assert(timestamp_us * content_length <= 0x7fff_ffff_ffff_ffff * 0xffff_ffff_ffff_ffff) by (nonlinear_arith)
        requires
            0 <= timestamp_us <= 0x7fff_ffff_ffff_ffff,
            0 <= content_length <= 0xffff_ffff_ffff_ffff,
    ;
    let n: u128 = (timestamp_us as u128) * (content_length as u128) / (duration_us as u128);
    if n > 0xffff_ffff_ffff_ffff { u64::MAX } else { n as u64 }
}

/// Whether the target of a seek is not downloaded yet: by its estimate it lies
/// behind nine tenths of the data. Without a duration, a file size or range
/// requests there is no estimate.
pub open spec fn wants_range(timestamp_us: i64, duration_us: Option<i64>, data_len: usize, complete: bool, content_length: u64, supports_range: bool) -> bool {
    &&& !complete
    &&& duration_us matches Some(d) && d > 0
    &&& supports_range
    &&& content_length > 0
    &&& estimated_byte(timestamp_us, duration_us->Some_0, content_length) > data_len as int * 9 / 10
}

/// Check if a seek target requires a Range request (data not yet buffered).
pub fn needs_range_seek(timestamp_us: i64, duration_us: Option<i64>, data_len: usize, complete: bool, content_length: u64, supports_range: bool) -> (r: bool)
    ensures
        r == wants_range(timestamp_us, duration_us, data_len, complete, content_length, supports_range),
{
    if complete || !supports_range || content_length == 0 {
        return false;
    }
    match duration_us {
        Some(d) => {
            if d <= 0 {
                return false;
            }
            let estimate: u64 = estimate_byte(timestamp_us, d, content_length);
            let limit: u128 = data_len as u128 * 9 / 10;
            estimate as u128 > limit
        },
        None => false,
    }
}

/// Whether a HEAD request is needed before a seek can be estimated.
pub fn needs_probe(duration_us: Option<i64>, complete: bool, content_length: u64, supports_range: bool) -> (r: bool)
    ensures
        r == (!complete && (duration_us matches Some(d) && d > 0) && (content_length == 0 || !supports_range)),
{
    !complete && (match duration_us {
        Some(d) => d > 0,
        None => false,
    }) && (content_length == 0 || !supports_range)
}

/// The range to fetch for an estimated seek, `(first, last)`: from 2 MB before the
/// estimate, 5 MB and one byte long, within the file.
pub open spec fn estimate_range(timestamp_us: i64, duration_us: i64, content_length: u64) -> (u64, u64) {
    let first = less(estimated_byte(timestamp_us, duration_us, content_length) as int, ESTIMATE_MARGIN as int);
    (first as u64, at_most(first + ESTIMATE_WINDOW, content_length - 1) as u64)
}

/// The range to fetch for an estimated seek.
pub fn estimated_range(timestamp_us: i64, duration_us: i64, content_length: u64) -> (r: (u64, u64))
    requires
        content_length > 0,
    ensures
        r == estimate_range(timestamp_us, duration_us, content_length),
{
    let estimate: u64 = estimate_byte(timestamp_us, duration_us, content_length);
    let first: u64 = if estimate > ESTIMATE_MARGIN { estimate - ESTIMATE_MARGIN } else { 0 };
    let last: u64 = if first < u64::MAX - ESTIMATE_WINDOW && first + ESTIMATE_WINDOW < content_length - 1 {
        first + ESTIMATE_WINDOW
    } else {
        content_length - 1
    };
    (first, last)
}

/// A download with fetched bytes at their offset, and zeros before them.
pub open spec fn zero_filled(data: Seq<u8>, offset: int, bytes: Seq<u8>) -> Seq<u8> {
    data + Seq::new((offset - data.len()) as nat, |i: int| 0u8) + bytes
}

/// Put fetched bytes into a download at their offset, behind zeros: this preserves
/// absolute byte offsets.
pub fn fill_to(data: &mut Vec<u8>, offset: usize, bytes: Vec<u8>)
    requires
        old(data).len() <= offset,
    ensures
        final(data)@ == zero_filled(old(data)@, offset as int, bytes@),
{
    let ghost before = data@;
    let ghost added = bytes@;
    while data.len() < offset
        invariant
            before.len() <= data.len() <= offset,
            data@ =~= before + Seq::new((data.len() - before.len()) as nat, |i: int| 0u8),
        decreases offset - data.len(),
    {
        data.push(0);
    }
    let mut more: Vec<u8> = bytes;
    data.append(&mut more);
    assert(data@ =~= zero_filled(before, offset as int, added));
}

/// A download with fetched bytes at their offset, and nothing behind them: what is
/// there from that offset on gives way.
pub open spec fn placed(data: Seq<u8>, offset: int, bytes: Seq<u8>) -> Seq<u8> {
    zero_filled(if data.len() > offset { data.take(offset) } else { data }, offset, bytes)
}

/// Put fetched bytes into a download at their offset, in place of what is there from
/// that offset on.
pub fn place_at(data: &mut Vec<u8>, offset: usize, bytes: Vec<u8>)
    ensures
        final(data)@ == placed(old(data)@, offset as int, bytes@),
{
    if data.len() > offset {
        data.truncate(offset);
    }
    fill_to(data, offset, bytes);
}

/// Put fetched bytes behind a download, where they touch it.
pub fn extend_download(data: &mut Vec<u8>, offset: u64, bytes: &Vec<u8>)
    ensures
        final(data)@ == extended(old(data)@, offset, bytes@),
{
    let len: u64 = data.len() as u64;
    if offset <= len && len - offset < bytes.len() as u64 {
        let ghost before = data@;
        let part: &[u8] = vstd::slice::slice_subrange(bytes.as_slice(), (len - offset) as usize, bytes.len());
        let mut more: Vec<u8> = vstd::slice::slice_to_vec(part);
        data.append(&mut more);
        assert(data@ =~= extended(before, offset, bytes@));
    }
}

/// A download that holds some data.
fn new_download(data: Vec<u8>, content_length: u64, complete: bool) -> (r: SharedDownload)
    ensures
        r.data@ == data@,
        r.content_length == content_length,
        r.complete == complete,
        r.error is None,
        !r.paused,
        !r.cancelled,
{
    let mut r: SharedDownload = SharedDownload::new();
    r.data = data;
    r.content_length = content_length;
    r.complete = complete;
    r
}

/// A seek that failed and changed no download.
fn refuse(text: &str) -> (r: SeekEnd)
    ensures
        r@ == refused(text@),
{
    SeekEnd { result: Err(String::from_str(text)), download: None, resume_from: None }
}

/// Two texts as one.
fn joined_text(a: &str, b: &str) -> (r: String)
    ensures
        r@ == a@ + b@,
{
    let mut r: String = String::from_str(a);
    r.append(b);
    r
}

impl Stream {
    /// What a seek to `timestamp_us` needs: the keyframe that the index gives, and
    /// where its data comes from.
    pub fn plan_seek(&self, timestamp_us: i64, data_len: usize, content_length: u64) -> (r: SeekPlan)
        requires
            self.wf(),
        ensures
            r == seek_plan(self@, timestamp_us, data_len as int, content_length),
    {
        let (offset, time): (u64, i64) = match self.index.lookup_keyframe(timestamp_us) {
            Some(e) => (e.byte_offset, e.timestamp_us),
            None => (0, 0),
        };
        let file_size: u64 = match &self.window {
            Some(w) => w.file_size,
            None => content_length,
        };
        let fetch_start: u64 = if offset > SEEK_MARGIN { offset - SEEK_MARGIN } else { 0 };
        let fetch_end: u64 = if fetch_start < file_size && SEEK_WINDOW < file_size - fetch_start {
            fetch_start + SEEK_WINDOW
        } else {
            file_size
        };
        let enough: u64 = if offset < file_size && SEEK_ENOUGH < file_size - offset { offset + SEEK_ENOUGH } else { file_size };
        let here: bool = data_len as u64 > offset && data_len as u64 - offset > SEEK_ENOUGH;
        let stored: bool = match &self.window {
            Some(w) => w.has_range(fetch_start, enough),
            None => false,
        };
        SeekPlan {
            keyframe_offset: offset,
            keyframe_us: time,
            fetch_start,
            fetch_end,
            file_size,
            source: if here {
                SeekSource::Download
            } else if stored {
                SeekSource::Window
            } else {
                SeekSource::Fetch
            },
        }
    }

    /// Keep fetched bytes among the windows.
    pub fn keep_window(&mut self, offset: u64, bytes: Vec<u8>)
        requires
            old(self).wf(),
            offset + bytes.len() <= u64::MAX,
        ensures
            final(self).wf(),
            final(self)@ == (StreamView { window: window_with(old(self)@.window, offset, bytes@), ..old(self)@ }),
    {
        let ghost before = self@;
        if let Some(w) = &mut self.window {
            w.insert(offset, bytes);
        }
        assert(self@ =~= (StreamView { window: window_with(before.window, offset, bytes@), ..before }));
    }

    /// Take the bytes that were fetched for a seek. Those of an MP4 file go into
    /// the download too, where they touch it; a gap is never filled.
    pub fn take_fetched(&mut self, plan: &SeekPlan, bytes: Vec<u8>, data: &mut Vec<u8>)
        requires
            old(self).wf(),
            plan.fetch_start + bytes.len() <= u64::MAX,
        ensures
            final(self).wf(),
            final(self)@ == (StreamView { window: window_with(old(self)@.window, plan.fetch_start, bytes@), ..old(self)@ }),
            final(data)@ == if old(self)@.format == Some(ContainerFormat::Mp4) {
                extended(old(data)@, plan.fetch_start, bytes@)
            } else {
                old(data)@
            },
    {
        if let Some(f) = self.format {
            if f == ContainerFormat::Mp4 {
                extend_download(data, plan.fetch_start, &bytes);
            }
        }
        self.keep_window(plan.fetch_start, bytes);
    }

    /// The bytes of the range that a seek needs.
    fn bytes_for(&self, plan: &SeekPlan, data: &Vec<u8>) -> (r: Vec<u8>)
        requires
            self.wf(),
        ensures
            r@ == seek_bytes(self@, *plan, data@),
    {
        match &self.window {
            Some(w) => {
                let end: u64 = if plan.fetch_end < plan.file_size { plan.fetch_end } else { plan.file_size };
                w.range_or_empty(plan.fetch_start, end)
            },
            None => {
                let len: u64 = data.len() as u64;
                let end: u64 = if plan.fetch_end < len { plan.fetch_end } else { len };
                if plan.fetch_start < end {
                    vstd::slice::slice_to_vec(
                        vstd::slice::slice_subrange(data.as_slice(), plan.fetch_start as usize, end as usize),
                    )
                } else {
                    Vec::new()
                }
            },
        }
    }

    /// Seek by the index in bytes that were fetched, now or before. The download
    /// is replaced by one that goes on behind them.
    pub fn seek_in_window(&mut self, plan: &SeekPlan, timestamp_us: i64, data: &Vec<u8>) -> (r: SeekEnd)
        requires
            old(self).wf(),
        ensures
            final(self).wf(),
            (r@, final(self)@) == window_sought(old(self)@, *plan, timestamp_us, data@, part_order(final(self)@.mp4)),
    {
        match self.format {
            None => refuse("No demuxer format for seek"),
            Some(ContainerFormat::Mp4) => self.seek_mp4_window(plan, timestamp_us, data),
            Some(ContainerFormat::Unknown) => refuse("Unsupported format for seek"),
            Some(_) => {
                let bytes: Vec<u8> = self.bytes_for(plan, data);
                if self.mkv.header.is_none() {
                    return refuse("No MKV header saved for seek");
                }
                if bytes.len() == 0 {
                    return refuse("No data available at seek target");
                }
                match find_cluster(&bytes) {
                    None => refuse("No MKV Cluster found at seek target"),
                    Some(i) => {
                        let mut end: SeekEnd = self.seek_mkv_spliced(
                            &bytes,
                            i,
                            timestamp_us,
                            plan.file_size,
                            "MKV seek parse error: ",
                            "MKV seek error: ",
                            Ghost(index_texts()),
                        );
                        if end.result.is_ok() {
                            end.result = Ok(plan.keyframe_us);
                            if plan.fetch_end < plan.file_size {
                                end.resume_from = Some(plan.fetch_end);
                            }
                        }
                        end
                    },
                }
            },
        }
    }

    /// Seek in an MP4 file: a header is put before the fetched bytes, and offsets
    /// in the file lead into them.
    fn seek_mp4_window(&mut self, plan: &SeekPlan, timestamp_us: i64, data: &Vec<u8>) -> (r: SeekEnd)
        requires
            old(self).wf(),
        ensures
            final(self).wf(),
            (r@, final(self)@) == mp4_window_sought(old(self)@, *plan, timestamp_us, data@, part_order(final(self)@.mp4)),
    {
        let ghost before = self@;
        let mut bytes: Vec<u8> = self.bytes_for(plan, data);
        if bytes.len() == 0 {
            return refuse("No MP4 data available at seek target");
        }
        let mut buffer: Vec<u8> = build_range_header(&self.layout, data);
        let header_end: u64 = buffer.len() as u64;
        buffer.append(&mut bytes);
        let ghost input = window_input(before, *plan, data@);
        assert(buffer@ =~= input.bytes);
        let mut d: Mp4Demuxer = Mp4Demuxer::new();
        match d.parse_header_range(buffer, plan.fetch_start, header_end) {
            Err(e) => SeekEnd {
                result: Err(joined_text("MP4 Range seek parse error: ", e.message().as_str())),
                download: None,
                resume_from: None,
            },
            Ok(_) => {
                let ghost order = d@.order;
                match d.seek_to_keyframe(timestamp_us) {
                    Ok(()) => {},
                    Err(_) => {},
                }
                self.mp4.cursors = Some(d.sample_positions());
                self.mp4.demuxer = Some(d);
                self.mp4.cache_len = 0;
                self.demuxed_len = 0;
                let r: SeekEnd = SeekEnd {
                    result: Ok(plan.keyframe_us),
                    download: Some(new_download(Vec::new(), plan.file_size, plan.fetch_end >= plan.file_size)),
                    resume_from: if plan.fetch_end < plan.file_size { Some(plan.fetch_end) } else { None },
                };
                assert(self@ =~= mp4_window_sought(before, *plan, timestamp_us, data@, order).1);
                assert(r@ =~= mp4_window_sought(before, *plan, timestamp_us, data@, order).0);
                r
            },
        }
    }

    /// Put the header before the bytes from a Cluster on, and seek there. The
    /// result leaves open where playback goes on and what is downloaded next.
    fn seek_mkv_spliced(&mut self, bytes: &Vec<u8>, cluster: usize, timestamp_us: i64, file_size: u64, parse: &str, seek: &str, texts: Ghost<SeekTexts>) -> (r: SeekEnd)
        requires
            old(self).wf(),
            old(self).mkv.header is Some,
            bytes.len() > 0,
            cluster <= bytes.len(),
            cluster_in(bytes@) == Some(cluster as int),
            parse@ == texts@.parse,
            seek@ == texts@.seek,
        ensures
            final(self).wf(),
            ({
                let (end, next) = mkv_window_sought(old(self)@, bytes@, timestamp_us, timestamp_us, file_size, file_size, false, texts@);
                r@ == end && final(self)@ == next
            }),
    {
        let ghost before = self@;
        let ghost goal = mkv_window_sought(before, bytes@, timestamp_us, timestamp_us, file_size, file_size, false, texts@);
        let mut spliced: Vec<u8> = match &self.mkv.header {
            Some(h) => copy_bytes(h),
            None => Vec::new(),
        };
        let part: &[u8] = vstd::slice::slice_subrange(bytes.as_slice(), cluster, bytes.len());
        let mut rest: Vec<u8> = vstd::slice::slice_to_vec(part);
        spliced.append(&mut rest);
        assert(spliced@ =~= before.mkv.header->Some_0 + bytes@.skip(cluster as int));
        self.mkv.rewind();
        self.demuxed_len = 0;
        assert(self@ =~= mkv_rewound(before));
        let len: usize = spliced.len();
        let mut d: MkvDemuxer = MkvDemuxer::new();
        match d.parse_header_streaming(spliced.as_slice()) {
            Err(e) => {
                let r: SeekEnd = SeekEnd {
                    result: Err(joined_text(parse, e.message().as_str())),
                    download: Some(new_download(spliced, file_size, false)),
                    resume_from: None,
                };
                assert(r@ =~= goal.0);
                r
            },
            Ok(_) => match d.seek_to_keyframe(timestamp_us) {
                Err(e) => {
                    let r: SeekEnd = SeekEnd {
                        result: Err(joined_text(seek, e.message().as_str())),
                        download: Some(new_download(spliced, file_size, false)),
                        resume_from: None,
                    };
                    assert(r@ =~= goal.0);
                    r
                },
                Ok(()) => {
                    self.mkv.frames_read = d.frames_read();
                    self.mkv.demuxer = Some(d);
                    self.mkv.created_at = len;
                    let r: SeekEnd = SeekEnd {
                        result: Ok(timestamp_us),
                        download: Some(new_download(spliced, file_size, false)),
                        resume_from: None,
                    };
                    assert(self@ =~= goal.1);
                    assert(r@ =~= goal.0);
                    r
                },
            },
        }
    }

    /// Seek in an MKV file in bytes that were fetched by an estimate, the last of
    /// which is at the offset `last`.
    pub fn seek_mkv_estimated(&mut self, bytes: &Vec<u8>, last: u64, timestamp_us: i64, content_length: u64) -> (r: SeekEnd)
        requires
            old(self).wf(),
            last < content_length,
        ensures
            final(self).wf(),
            (r@, final(self)@) == mkv_window_sought(
                old(self)@,
                bytes@,
                timestamp_us,
                timestamp_us,
                content_length,
                (last + 1) as u64,
                last + 1 >= content_length,
                estimate_texts(),
            ),
    {
        if self.mkv.header.is_none() {
            return refuse("No MKV header saved for Range seek");
        }
        if bytes.len() == 0 {
            return refuse("Range request returned empty data");
        }
        match find_cluster(bytes) {
            None => refuse("No MKV Cluster found in Range data"),
            Some(i) => {
                let mut end: SeekEnd = self.seek_mkv_spliced(
                    bytes,
                    i,
                    timestamp_us,
                    content_length,
                    "MKV Range seek parse error: ",
                    "MKV Range seek error: ",
                    Ghost(estimate_texts()),
                );
                if end.result.is_ok() {
                    if last + 1 < content_length {
                        end.resume_from = Some(last + 1);
                    } else if let Some(d) = &mut end.download {
                        d.complete = true;
                    }
                }
                end
            },
        }
    }
}

/// The place of the first Cluster, if there is one.
fn find_cluster(bytes: &Vec<u8>) -> (r: Option<usize>)
    ensures
        match r {
            Some(i) => cluster_in(bytes@) == Some(i as int) && i <= bytes.len(),
            None => cluster_in(bytes@) is None,
        },
{
    match find_cluster_offset(bytes.as_slice()) {
        Some(i) => {
            proof {
                assert(first_cluster(bytes@, i as int));
                let k = choose|k: int| first_cluster(bytes@, k);
                if k < i {
                    assert(!crate::demux::ebml::cluster_at(bytes@, k));
                }
                if k > i {
                    assert(!crate::demux::ebml::cluster_at(bytes@, i as int));
                }
            }
            Some(i)
        },
        None => {
            assert forall|i: int| !first_cluster(bytes@, i) by {}
            None
        },
    }
}

// ---------------------------------------------------------------------------
// Laws
// ---------------------------------------------------------------------------

/// The range that a seek fetches holds the keyframe, where the keyframe is in the
/// file, and is 5 MB long at most.
pub proof fn law_plan_holds_keyframe(s: StreamView, timestamp_us: i64, data_len: int, content_length: u64)
    requires
        data_len >= 0,
        seek_plan(s, timestamp_us, data_len, content_length).keyframe_offset < file_size_of(s, content_length),
    ensures
        ({
            let p = seek_plan(s, timestamp_us, data_len, content_length);
            p.fetch_start <= p.keyframe_offset < p.fetch_end <= p.file_size && p.fetch_end - p.fetch_start <= SEEK_WINDOW
        }),
{
}

/// Behind a seek by the index a download runs that goes on exactly where the fetched
/// bytes end, or there is no more to fetch.
pub proof fn law_seek_resumes_behind(s: StreamView, plan: SeekPlan, timestamp_us: i64, data: Seq<u8>, order: Seq<u32>)
    requires
        window_sought(s, plan, timestamp_us, data, order).0.result is Ok,
    ensures
        ({
            let end = window_sought(s, plan, timestamp_us, data, order).0;
            &&& end.download matches Some(d) && d.runs
            &&& end.result == Ok::<i64, Seq<char>>(plan.keyframe_us)
            &&& end.resume_from == rest_from(plan.fetch_end, plan.file_size)
        }),
{
}

/// A seek that is refused leaves the stream as it was.
pub proof fn law_refused_seek_changes_nothing(s: StreamView, plan: SeekPlan, timestamp_us: i64, data: Seq<u8>, order: Seq<u32>)
    requires
        window_sought(s, plan, timestamp_us, data, order).0.download is None,
    ensures
        window_sought(s, plan, timestamp_us, data, order).1 == s,
        window_sought(s, plan, timestamp_us, data, order).0.result is Err,
{
}

/// Filling up a download keeps what is there, and puts fetched bytes at their
/// offset in the file.
pub proof fn law_fill_keeps_offsets(data: Seq<u8>, offset: int, bytes: Seq<u8>)
    requires
        data.len() <= offset,
    ensures
        zero_filled(data, offset, bytes).take(data.len() as int) == data,
        zero_filled(data, offset, bytes).skip(offset) == bytes,
        zero_filled(data, offset, bytes).len() == offset + bytes.len(),
{
    assert(zero_filled(data, offset, bytes).take(data.len() as int) =~= data);
    assert(zero_filled(data, offset, bytes).skip(offset) =~= bytes);
}

/// Fetched bytes come to stand at their offset in the file, whatever has come there
/// meanwhile, and what is before them stays.
pub proof fn law_place_keeps_offsets(data: Seq<u8>, offset: int, bytes: Seq<u8>)
    requires
        0 <= offset,
    ensures
        placed(data, offset, bytes).len() == offset + bytes.len(),
        placed(data, offset, bytes).skip(offset) == bytes,
        forall|i: int| 0 <= i < offset && i < data.len() ==> placed(data, offset, bytes)[i] == data[i],
        forall|i: int| data.len() <= i < offset ==> placed(data, offset, bytes)[i] == 0,
{
    law_fill_keeps_offsets(if data.len() > offset { data.take(offset) } else { data }, offset, bytes);
}

/// Extending a download keeps what is there, and adds only bytes at their own
/// offsets.
pub proof fn law_extend_keeps_offsets(data: Seq<u8>, offset: u64, bytes: Seq<u8>)
    ensures
        ({
            let e = extended(data, offset, bytes);
            &&& e.len() >= data.len()
            &&& e.take(data.len() as int) == data
            &&& forall|i: int| data.len() <= i < e.len() ==> #[trigger] e[i] == bytes[i - offset]
        }),
{
    assert(extended(data, offset, bytes).take(data.len() as int) =~= data);
}

/// An estimate is in proportion: the offset is to the size of the file as the time is
/// to its duration.
pub proof fn law_estimate_in_proportion(timestamp_us: i64, duration_us: i64, content_length: u64)
    requires
        0 <= timestamp_us <= duration_us,
        0 < duration_us,
    ensures
        ({
            let b = estimated_byte(timestamp_us, duration_us, content_length);
            &&& b <= content_length
            &&& b * duration_us <= timestamp_us * content_length < (b + 1) * duration_us
        }),
{
    let n = timestamp_us * content_length;
    let d = duration_us as int;
    vstd::arithmetic::div_mod::lemma_fundamental_div_mod(n, d);
    vstd::arithmetic::div_mod::lemma_mod_bound(n, d);
    let q = n / d;
    assert(q * d <= n < (q + 1) * d) by (nonlinear_arith)
        requires
            n == d * q + n % d,
            0 <= n % d < d,
    ;
    assert(n <= d * content_length) by (nonlinear_arith)
        requires
            n == timestamp_us * content_length,
            timestamp_us <= d,
            0 <= content_length,
    ;
    assert(q <= content_length) by (nonlinear_arith)
        requires
            q * d <= n,
            n <= d * content_length,
            d > 0,
    ;
    assert(0 <= q) by (nonlinear_arith)
        requires
            n < (q + 1) * d,
            0 <= n,
            d > 0,
    ;
    if timestamp_us == 0 {
        assert(n == 0) by (nonlinear_arith)
            requires
                timestamp_us == 0,
                n == timestamp_us * content_length,
        ;
    }
}

/// What an estimate asks for begins two megabytes before the estimated offset, or with
/// the file, holds five megabytes and a byte, and ends within the file.
pub proof fn law_estimate_holds_target(timestamp_us: i64, duration_us: i64, content_length: u64)
    requires
        0 <= timestamp_us < duration_us,
        0 < content_length,
    ensures
        ({
            let b = estimated_byte(timestamp_us, duration_us, content_length);
            let (first, last) = estimate_range(timestamp_us, duration_us, content_length);
            &&& first <= b
            &&& first > 0 ==> b - first == 2 * 1024 * 1024
            &&& last < content_length
            &&& last - first <= 5 * 1024 * 1024
            &&& last - first == 5 * 1024 * 1024 || last == content_length - 1
            &&& b < content_length ==> b <= last
        }),
{
    law_estimate_in_proportion(timestamp_us, duration_us, content_length);
}

/// A plan aims at the entry that the index has for the target, or at the start. It
/// fetches from 64 KB before that, five megabytes at most; it fetches nothing where the
/// download holds the keyframe and half a megabyte behind it.
pub proof fn law_plan_by_index(s: StreamView, timestamp_us: i64, data_len: int, content_length: u64)
    ensures
        ({
            let p = seek_plan(s, timestamp_us, data_len, content_length);
            &&& keyframe_for(s.index, timestamp_us as int) matches Some(e) ==> p.keyframe_offset == e.byte_offset && p.keyframe_us == e.timestamp_us
            &&& keyframe_for(s.index, timestamp_us as int) is None ==> p.keyframe_offset == 0 && p.keyframe_us == 0
            &&& p.fetch_start > 0 ==> p.keyframe_offset - p.fetch_start == 64 * 1024
            &&& p.fetch_start == 0 ==> p.keyframe_offset <= 64 * 1024
            &&& p.fetch_end == p.fetch_start + 5 * 1024 * 1024 || p.fetch_end == p.file_size
            &&& p.fetch_end <= p.file_size
            &&& p.source == SeekSource::Download <==> data_len - p.keyframe_offset > 512 * 1024
        }),
{
}

/// A seek in an MKV file by fetched bytes leaves a download of the header of the file
/// and the fetched bytes from their first Cluster on.
pub proof fn law_splice_begins_with_cluster(s: StreamView, bytes: Seq<u8>, timestamp_us: i64, actual_us: i64, file_size: u64, end: u64, complete: bool, texts: SeekTexts)
    requires
        mkv_window_sought(s, bytes, timestamp_us, actual_us, file_size, end, complete, texts).0.download is Some,
    ensures
        ({
            let d = mkv_window_sought(s, bytes, timestamp_us, actual_us, file_size, end, complete, texts).0.download->Some_0;
            let h = s.mkv.header->Some_0;
            let n = h.len() as int;
            &&& s.mkv.header is Some
            &&& d.data.len() >= n + 4
            &&& d.data.take(n) == h
            &&& d.data[n] == 0x1F && d.data[n + 1] == 0x43 && d.data[n + 2] == 0xB6 && d.data[n + 3] == 0x75
            &&& d.data.skip(n) == bytes.skip(bytes.len() - (d.data.len() - n))
            &&& d.content_length == file_size
        }),
{
    let h = s.mkv.header->Some_0;
    let i = choose|i: int| first_cluster(bytes, i);
    assert(first_cluster(bytes, i));
    let data = h + bytes.skip(i);
    let n = h.len() as int;
    assert(data.take(n) =~= h);
    assert(data.skip(n) =~= bytes.skip(i));
    assert(data[n] == bytes[i] && data[n + 1] == bytes[i + 1] && data[n + 2] == bytes[i + 2] && data[n + 3] == bytes[i + 3]);
}

} // verus!
