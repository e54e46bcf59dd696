//! Opening a file: what is fetched first, and how its header is found.

use vstd::prelude::*;
use vstd::string::*;

use crate::demux::boxes::{
    build_header_buffer, header_buffer, layout_moov_at_end, layout_with_moov, LayoutView,
};
use crate::demux::detect::{detect_format, format_of};
use crate::demux::ebml::without_seekhead;
use crate::demux::isomp4::Mp4Input;
use crate::demux::mkv::{fresh_mkv, mkv_duration, mkv_parsed, MkvDemuxer};
use crate::demux::mp4::{index_from, mp4_info, order_of, Mp4Demuxer};
use crate::demux::types::{
    sorted_by, ContainerFormat, DemuxError, DemuxFault, MediaView, SeekEntry, SeekKey,
};
use crate::demux::walk::mp4_fault;
use crate::player::buffer::{RangeBuffer, RangeView};
use crate::player::range_seek::at_most;
use crate::player::stream::{mkv_header_taken, Header, Stream, StreamView};
use crate::text::{chars_of, decimal, law_decimals_are_read_back, number_of, read_number};

verus! {

/// The last byte of the first request: 64 KB are asked for.
pub const PROBE_LAST: u64 = 65_535;

/// Fewer bytes do not tell the format.
pub const MIN_PROBE: usize = 12;

/// How much of an MKV file is tried first: 256 KB.
pub const MKV_INITIAL: u64 = 262_144;

/// How much of an MKV file is tried at most: 16 MB.
pub const MKV_MAX: u64 = 16_777_216;

/// How much is fetched before playback starts: 2 MB.
pub const INITIAL_WINDOW: u64 = 2_097_152;

/// How much of the end of an MP4 file is searched for moov: 64 KB.
pub const TAIL_SIZE: u64 = 65_536;

/// What follows from the answer to the first request.
#[derive(Debug, Clone, Copy, PartialEq, Eq, Structural)]
pub enum ProbeNext {
    /// The answer is partial but does not tell the file size: ask for it.
    AskSize,
    /// Fetch windows of a file of this size.
    Windows(u64),
    /// Download the file from the start.
    Linear,
}

/// What follows from the answer to the first request. A partial answer whose total
/// is not more than what it holds tells its own length, not that of the file.
pub open spec fn probe_next(is_partial: bool, data_len: u64, total_size: u64) -> ProbeNext {
    if is_partial && (total_size == 0 || total_size <= data_len) {
        ProbeNext::AskSize
    } else if is_partial && total_size > 0 {
        ProbeNext::Windows(total_size)
    } else {
        ProbeNext::Linear
    }
}

/// What follows from the answer to the first request.
pub fn after_probe(is_partial: bool, data_len: u64, total_size: u64) -> (r: ProbeNext)
    ensures
        r == probe_next(is_partial, data_len, total_size),
{
    if is_partial && (total_size == 0 || total_size <= data_len) {
        ProbeNext::AskSize
    } else if is_partial {
        ProbeNext::Windows(total_size)
    } else {
        ProbeNext::Linear
    }
}

/// What follows from the answer to a request for the size.
pub fn after_size(content_length: Option<u64>) -> (r: ProbeNext)
    ensures
        r == match content_length {
            Some(n) if n > 0 => ProbeNext::Windows(n),
            _ => ProbeNext::Linear,
        },
{
    match content_length {
        Some(n) => if n > 0 { ProbeNext::Windows(n) } else { ProbeNext::Linear },
        None => ProbeNext::Linear,
    }
}

/// The size of a file that a header tells of a part of it, such as
/// "bytes 0-65535/1000000": the number behind the last slash.
pub open spec fn total_told(s: Seq<char>) -> Option<u64> {
    let slash = last_slash(s, s.len() as int);
    if slash < 0 { None } else { number_of(s.skip(slash + 1)) }
}

/// The last slash before `end`; -1 where there is none.
pub open spec fn last_slash(s: Seq<char>, end: int) -> int
    decreases end,
{
    if end <= 0 {
        -1
    } else if s[end - 1] == '/' {
        end - 1
    } else {
        last_slash(s, end - 1)
    }
}

/// The size of a file that a Content-Range header tells.
pub fn range_total(header: &str) -> (r: Option<u64>)
    ensures
        r == total_told(header@),
{
    let chars: Vec<char> = chars_of(header);
    let mut end: usize = chars.len();
    while end > 0
        invariant
            end <= chars.len(),
            chars@ == header@,
            last_slash(header@, header@.len() as int) == last_slash(header@, end as int),
        decreases end,
    {
        if chars[end - 1] == '/' {
            return read_number(&chars, end);
        }
        end = end - 1;
    }
    None
}

/// The length that a Content-Length header tells.
pub fn length_told(header: &str) -> (r: Option<u64>)
    ensures
        r == number_of(header@),
{
    let chars: Vec<char> = chars_of(header);
    assert(chars@.skip(0) =~= header@);
    read_number(&chars, 0)
}

/// How a file is opened, by its first bytes.
#[derive(Debug, Clone, Copy, PartialEq, Eq, Structural)]
pub enum OpenWay {
    Mp4,
    Mkv,
    Linear,
}

/// How a file is opened, by its first bytes.
pub open spec fn way_of(probe: Seq<u8>) -> OpenWay {
    if probe.len() < MIN_PROBE {
        OpenWay::Linear
    } else {
        match format_of(probe) {
            ContainerFormat::Mp4 => OpenWay::Mp4,
            ContainerFormat::Unknown => OpenWay::Linear,
            _ => OpenWay::Mkv,
        }
    }
}

/// How a file is opened, by its first bytes.
pub fn open_way(probe: &Vec<u8>) -> (r: OpenWay)
    ensures
        r == way_of(probe@),
{
    if probe.len() < MIN_PROBE {
        return OpenWay::Linear;
    }
    match detect_format(probe.as_slice()) {
        ContainerFormat::Mp4 => OpenWay::Mp4,
        ContainerFormat::Unknown => OpenWay::Linear,
        _ => OpenWay::Mkv,
    }
}

/// The end of the moov box that was found, which the header bytes must reach; it
/// is fetched where the first bytes do not.
pub open spec fn moov_end_of(offset: u64, size: u64) -> u64 {
    at_most(offset + size, u64::MAX as int) as u64
}

/// The end of the moov box that was found.
pub fn moov_end(offset: u64, size: u64) -> (r: u64)
    ensures
        r == moov_end_of(offset, size),
{
    if size <= u64::MAX - offset { offset + size } else { u64::MAX }
}

/// How much of an MKV file is tried after a failure with `size` bytes: four times
/// as much, within the file and the limit.
pub open spec fn larger_header(size: u64, file_size: u64) -> Option<u64> {
    if size * 4 > MKV_MAX || size * 4 > file_size { None } else { Some((size * 4) as u64) }
}

/// How much of an MKV file is tried after a failure.
pub fn next_header_size(size: u64, file_size: u64) -> (r: Option<u64>)
    ensures
        r == larger_header(size, file_size),
{
    if size > MKV_MAX || size * 4 > MKV_MAX || size * 4 > file_size { None } else { Some(size * 4) }
}

/// The range to fetch before playback starts, behind the data that is there.
pub open spec fn initial_range(data_len: u64, file_size: u64) -> Option<(u64, u64)> {
    let end = at_most(data_len + INITIAL_WINDOW, file_size as int);
    if data_len < end { Some((data_len, (end - 1) as u64)) } else { None }
}

/// The range to fetch before playback starts, `(first, last)`.
pub fn initial_window(data_len: u64, file_size: u64) -> (r: Option<(u64, u64)>)
    ensures
        r == initial_range(data_len, file_size),
{
    if data_len >= file_size {
        return None;
    }
    let end: u64 = if INITIAL_WINDOW < file_size - data_len { data_len + INITIAL_WINDOW } else { file_size };
    Some((data_len, end - 1))
}

/// Where the end of a file begins that is searched for moov.
pub fn tail_start(file_size: u64) -> (r: u64)
    ensures
        r == file_size - at_most(TAIL_SIZE as int, file_size as int),
{
    if file_size > TAIL_SIZE { file_size - TAIL_SIZE } else { 0 }
}

/// The input that bytes from the start of a file make.
pub open spec fn plain_input(bytes: Seq<u8>) -> Mp4Input {
    Mp4Input { bytes, size: bytes.len() as u64, virtual_base: 0, header_end: 0 }
}

/// Windows of a file, none of them fetched.
pub open spec fn no_windows(file_size: u64) -> RangeView {
    RangeView { segs: Seq::empty(), file_size, max_bytes: 67_108_864 }
}

/// The seek index of an MP4 header.
pub open spec fn mp4_index(input: Mp4Input, order: Seq<u32>) -> Seq<SeekEntry> {
    sorted_by(index_from(input, order, 0), SeekKey::Timestamp)
}

/// The stream once an MP4 file with moov in its header bytes has been opened.
pub open spec fn mp4_opened(s: StreamView, header: Seq<u8>, probe: Seq<u8>, moov_end: int, file_size: u64, order: Seq<u32>) -> StreamView {
    StreamView {
        index: mp4_index(plain_input(header), order),
        layout: layout_with_moov(s.layout, header, probe, moov_end),
        window: Some(no_windows(file_size)),
        ..s
    }
}

/// The buffer that initial bytes and a moov box from the end of the file make.
pub open spec fn end_input(l: LayoutView, data: Seq<u8>) -> Mp4Input {
    plain_input(header_buffer(data, l.moov, l.mdat_offset, l.mdat_header_size))
}

/// What a moov box from the end of a file tells, and the stream after it. Where it
/// tells nothing, it is not kept.
pub open spec fn end_opened(s: StreamView, data: Seq<u8>, initial: Seq<u8>, moov: Seq<u8>, order: Seq<u32>) -> (Option<MediaView>, StreamView) {
    if moov.len() == 0 {
        (None, s)
    } else {
        match layout_moov_at_end(s.layout, initial, moov) {
            None => (None, s),
            Some(l) => {
                let input = end_input(l, data);
                let failed = StreamView { layout: LayoutView { moov: None, ..l }, ..s };
                if format_of(input.bytes) != ContainerFormat::Mp4 || mp4_fault(input) is Some {
                    (None, failed)
                } else {
                    (Some(mp4_info(input, order)), StreamView { layout: l, index: mp4_index(input, order), ..s })
                }
            },
        }
    }
}

impl Stream {
    /// Open an MP4 file whose moov box lies in the header bytes and ends at
    /// `moov_end`.
    pub fn open_mp4(&mut self, header: &Vec<u8>, probe: &Vec<u8>, moov_end: usize, file_size: u64) -> (r: Result<Header, DemuxError>)
        requires
            old(self).wf(),
        ensures
            final(self).wf(),
            match (r, mp4_fault(plain_input(header@))) {
                (Err(e), Some(t)) => e@ == DemuxFault::InvalidData("MP4 parse error: "@ + t) && final(self)@ == old(self)@,
                (Ok(h), None) => h.format == ContainerFormat::Mp4 && h.duration_bits is None && exists|order: Seq<u32>| {
                    &&& order_of(plain_input(header@), order)
                    &&& h.info@ == mp4_info(plain_input(header@), order)
                    &&& final(self)@ == #[trigger] mp4_opened(old(self)@, header@, probe@, moov_end as int, file_size, order)
                },
                _ => false,
            },
    {
        let ghost before = self@;
        let mut d: Mp4Demuxer = Mp4Demuxer::new();
        match d.parse_header(header.as_slice()) {
            Err(e) => Err(e),
            Ok(info) => {
                self.index = d.build_seek_index();
                self.layout.learn(header.as_slice(), probe.as_slice(), moov_end);
                self.window = Some(RangeBuffer::new(file_size));
                assert(self@ =~= mp4_opened(before, header@, probe@, moov_end as int, file_size, d@.order));
                Ok(Header { info, format: ContainerFormat::Mp4, duration_bits: None })
            },
        }
    }

    /// Windows of the file will be fetched.
    pub fn begin_windows(&mut self, file_size: u64)
        requires
            old(self).wf(),
        ensures
            final(self).wf(),
            final(self)@ == (StreamView { window: Some(no_windows(file_size)), ..old(self)@ }),
    {
        self.window = Some(RangeBuffer::new(file_size));
        assert(self@ =~= (StreamView { window: Some(no_windows(file_size)), ..old(self)@ }));
    }

    /// Open an MP4 file whose moov box was fetched from its end: the initial bytes
    /// tell where mdat is, and moov is put behind the download. Gives nothing
    /// where that cannot be parsed.
    pub fn open_moov_at_end(&mut self, data: &Vec<u8>, initial: &Vec<u8>, moov: Vec<u8>) -> (r: Option<Header>)
        requires
            old(self).wf(),
        ensures
            final(self).wf(),
            match r {
                Some(h) => h.format == ContainerFormat::Mp4 && h.duration_bits is None && exists|order: Seq<u32>| {
                    &&& order_of(end_input(final(self)@.layout, data@), order)
                    &&& (Some(h.info@), final(self)@) == #[trigger] end_opened(old(self)@, data@, initial@, moov@, order)
                },
                None => (None::<MediaView>, final(self)@) == end_opened(old(self)@, data@, initial@, moov@, Seq::empty()),
            },
    {
        let ghost before = self@;
        let ghost fetched = moov@;
        if moov.len() == 0 {
            return None;
        }
        if !self.layout.learn_at_end(initial.as_slice(), moov) {
            assert(self@ =~= before);
            return None;
        }
        let ghost l = self@.layout;
        let buffer: Vec<u8> = build_header_buffer(data, &self.layout);
        assert(buffer@ == end_input(l, data@).bytes);
        if detect_format(buffer.as_slice()) != ContainerFormat::Mp4 {
            self.layout.moov = None;
            assert(self@ =~= end_opened(before, data@, initial@, fetched, Seq::empty()).1);
            return None;
        }
        let mut d: Mp4Demuxer = Mp4Demuxer::new();
        match d.parse_header(buffer.as_slice()) {
            Err(_) => {
                self.layout.moov = None;
                assert(self@ =~= end_opened(before, data@, initial@, fetched, Seq::empty()).1);
                None
            },
            Ok(info) => {
                self.index = d.build_seek_index();
                assert(self@ =~= end_opened(before, data@, initial@, fetched, d@.order).1);
                Some(Header { info, format: ContainerFormat::Mp4, duration_bits: None })
            },
        }
    }

    /// Open an MKV file by its header bytes.
    pub fn open_mkv(&mut self, header: &Vec<u8>, file_size: u64) -> (r: Result<Header, DemuxError>)
        requires
            old(self).wf(),
        ensures
            final(self).wf(),
            match (r, mkv_parsed(fresh_mkv(), without_seekhead(header@))) {
                (Err(e), Err(f)) => e@ == f && final(self)@ == old(self)@,
                (Ok(h), Ok(d)) => {
                    &&& h.format == ContainerFormat::Mkv
                    &&& Some(h.info@) == d.media_info
                    &&& h.duration_bits == mkv_duration(without_seekhead(header@))
                    &&& final(self)@ == (StreamView {
                        window: Some(no_windows(file_size)),
                        ..mkv_header_taken(old(self)@, header@, d)
                    })
                },
                _ => false,
            },
    {
        let ghost before = self@;
        let mut d: MkvDemuxer = MkvDemuxer::new();
        match d.parse_header_streaming(header.as_slice()) {
            Err(e) => Err(e),
            Ok(info) => {
                self.take_mkv_header(header, &d);
                self.window = Some(RangeBuffer::new(file_size));
                assert(self@ =~= (StreamView {
                    window: Some(no_windows(file_size)),
                    ..mkv_header_taken(before, header@, d@)
                }));
                Ok(Header { info, format: ContainerFormat::Mkv, duration_bits: d.duration_bits() })
            },
        }
    }
}

/// Trying larger headers ends: after the fourth size there is no other.
pub proof fn law_header_sizes_end(file_size: u64)
    ensures
        larger_header(MKV_MAX, file_size) is None,
        larger_header(MKV_INITIAL, file_size) matches Some(a) ==> a == 1_048_576 && (larger_header(a, file_size) matches Some(b) ==> b
            == 4_194_304 && (larger_header(b, file_size) matches Some(c) ==> c == MKV_MAX)),
{
}

/// The size of a file is the number behind the last slash, as in "bytes 0-65535/1000000":
/// a number that was written there is read back.
pub proof fn law_total_is_read_back(before: Seq<char>, n: u64)
    ensures
        total_told(before + seq!['/'] + decimal(n as nat)) == Some(n),
{
    let d = decimal(n as nat);
    let s = before + seq!['/'] + d;
    law_decimals_are_read_back(n as nat);
    assert forall|j: int| before.len() < j < s.len() implies #[trigger] s[j] != '/' by {
        assert(s[j] == d[j - before.len() - 1]);
    }
    lemma_last_slash(s, s.len() as int, before.len() as int);
    assert(s.skip(before.len() as int + 1) =~= d);
}

proof fn lemma_last_slash(s: Seq<char>, end: int, at: int)
    requires
        0 <= at < end <= s.len(),
        s[at] == '/',
        forall|j: int| at < j < end ==> #[trigger] s[j] != '/',
    ensures
        last_slash(s, end) == at,
    decreases end,
{
    if end - 1 > at {
        lemma_last_slash(s, end - 1, at);
    }
}

/// The window that follows the header begins where the download ends, holds two
/// megabytes at most, and ends within the file; none is asked for at the end of it.
pub proof fn law_initial_window(data_len: u64, file_size: u64)
    ensures
        data_len < file_size <==> initial_range(data_len, file_size) is Some,
        initial_range(data_len, file_size) matches Some((a, b)) ==> {
            &&& a == data_len
            &&& a <= b < file_size
            &&& b + 1 - a == 2 * 1024 * 1024 || (b == file_size - 1 && b + 1 - a < 2 * 1024 * 1024)
        },
        larger_header(data_len, file_size) matches Some(n) ==> n == 4 * data_len && n <= file_size && n <= 16 * 1024 * 1024,
        larger_header(data_len, file_size) is None ==> 4 * data_len > file_size || 4 * data_len > 16 * 1024 * 1024,
{
}

/// A server that answers with a part of the file and tells its size is asked for parts;
/// where it tells no size, or no more than what came, the size is asked for; and from
/// one that answers with the whole file that is read on.
pub proof fn law_probe_decides(is_partial: bool, data_len: u64, total_size: u64)
    ensures
        !is_partial ==> probe_next(is_partial, data_len, total_size) is Linear,
        is_partial && total_size > data_len ==> (probe_next(is_partial, data_len, total_size) matches ProbeNext::Windows(n) && n == total_size),
        is_partial && total_size <= data_len ==> probe_next(is_partial, data_len, total_size) is AskSize,
{
}

} // verus!
