//! The demuxing side of a player: what is known of the file, and the demuxers of
//! its download.

use std::collections::VecDeque;

use vstd::prelude::*;
use vstd::string::*;

use crate::demux::boxes::{
    box_header_size, find_in, find_mdat, header_size_at, mdat_kind, patch_mdat, with_mdat_size, LayoutView, Mp4Layout,
};
use crate::demux::detect::{detect_format, format_of};
use crate::demux::ebml::{cluster_at, find_cluster_offset, without_seekhead};
use crate::demux::isomp4::Mp4Input;
use crate::demux::mkv::{fresh_mkv, mkv_duration, mkv_parsed, MkvDemuxer, MkvView};
use crate::demux::mp4::{mp4_info, order_of, Mp4Demuxer};
use crate::demux::types::{
    chunk_views, copy_bytes, ChunkView, ContainerFormat, EncodedChunk, MediaInfo, MediaView, SeekEntry,
    SeekIndex,
};
use crate::demux::walk::mp4_fault;
use crate::player::buffer::{RangeBuffer, RangeView};
use crate::player::mkv_part::{mkv_demuxed, mkv_part_sought, MkvPart, MkvPartView};
use crate::player::mp4_part::{mp4_demuxed, mp4_part_sought, part_input, part_order, Mp4Part, Mp4PartView};

verus! {

/// What is known of a file and how far its download has been demuxed.
pub struct Stream {
    pub format: Option<ContainerFormat>,
    pub mp4: Mp4Part,
    pub mkv: MkvPart,
    /// Where the boxes of an MP4 file are.
    pub layout: Mp4Layout,
    /// Keyframe timestamps and their byte offsets.
    pub index: SeekIndex,
    /// Windows of the file that were fetched; none in linear mode.
    pub window: Option<RangeBuffer>,
    /// Data length at the last demuxing (avoid re-demuxing same data).
    pub demuxed_len: usize,
    /// What the header said.
    pub media: Option<MediaInfo>,
    /// Whether the server supports HTTP Range requests.
    pub supports_range: bool,
}

/// What is known of a file, as views.
#[verifier::ext_equal]
pub struct StreamView {
    pub format: Option<ContainerFormat>,
    pub mp4: Mp4PartView,
    pub mkv: MkvPartView,
    pub layout: LayoutView,
    pub index: Seq<SeekEntry>,
    pub window: Option<RangeView>,
    pub demuxed_len: int,
    pub media: Option<MediaView>,
    pub supports_range: bool,
}

impl View for Stream {
    type V = StreamView;

    open spec fn view(&self) -> StreamView {
        StreamView {
            format: self.format,
            mp4: self.mp4@,
            mkv: self.mkv@,
            layout: self.layout@,
            index: self.index@,
            window: match self.window {
                Some(w) => Some(w@),
                None => None,
            },
            demuxed_len: self.demuxed_len as int,
            media: match self.media {
                Some(m) => Some(m@),
                None => None,
            },
            supports_range: self.supports_range,
        }
    }
}

/// No MP4 demuxer.
pub open spec fn no_mp4() -> Mp4PartView {
    Mp4PartView { demuxer: None, cursors: None, cache_len: 0 }
}

/// No MKV demuxer and no header.
pub open spec fn no_mkv() -> MkvPartView {
    MkvPartView { demuxer: None, frames_read: 0, last_ts_us: 0, header: None, created_at: 0, scanned: 0, scale_ns: 1_000_000 }
}

/// A layout without the place of mdat and moov.
pub open spec fn unplaced(l: LayoutView) -> LayoutView {
    LayoutView { mdat_offset: 0, mdat_header_size: 0, ftyp: l.ftyp, moov: None }
}

/// Nothing is known.
pub open spec fn no_stream() -> StreamView {
    StreamView {
        format: None,
        mp4: no_mp4(),
        mkv: no_mkv(),
        layout: LayoutView { mdat_offset: 0, mdat_header_size: 0, ftyp: None, moov: None },
        index: Seq::empty(),
        window: None,
        demuxed_len: 0,
        media: None,
        supports_range: false,
    }
}

/// The stream at the beginning of a load. What does not depend on the file's data
/// is forgotten by a change of tracks.
pub open spec fn load_begun(s: StreamView) -> StreamView {
    StreamView {
        mp4: no_mp4(),
        mkv: MkvPartView { demuxer: None, frames_read: 0, last_ts_us: 0, scanned: 0, ..s.mkv },
        layout: unplaced(s.layout),
        index: Seq::empty(),
        window: None,
        demuxed_len: 0,
        ..s
    }
}

/// The stream before another track is loaded.
pub open spec fn track_left(s: StreamView) -> StreamView {
    StreamView {
        format: None,
        mp4: no_mp4(),
        mkv: no_mkv(),
        layout: unplaced(s.layout),
        window: None,
        demuxed_len: 0,
        media: None,
        ..s
    }
}

/// The stream when a seek begins: demuxers hold data from before it.
pub open spec fn seek_begun(s: StreamView) -> StreamView {
    StreamView { mp4: no_mp4(), mkv: MkvPartView { demuxer: None, ..s.mkv }, ..s }
}

/// The stream after a step of demuxing, and the chunks that it gives.
pub open spec fn demuxed(s: StreamView, batch: usize, idle: bool, data: Seq<u8>, order: Seq<u32>) -> (Seq<ChunkView>, StreamView) {
    match s.format {
        None => (Seq::empty(), s),
        Some(ContainerFormat::Mp4) => {
            let (chunks, part, looked) = mp4_demuxed(s.mp4, batch, idle, data, s.layout, order);
            (chunks, StreamView { mp4: part, demuxed_len: if looked { data.len() as int } else { s.demuxed_len }, ..s })
        },
        Some(ContainerFormat::Unknown) => (Seq::empty(), StreamView { demuxed_len: data.len() as int, ..s }),
        Some(_) => {
            let (chunks, part, index, looked) = mkv_demuxed(s.mkv, batch, s.index, data, s.demuxed_len);
            (
                chunks,
                StreamView { mkv: part, index, demuxed_len: if looked { data.len() as int } else { s.demuxed_len }, ..s },
            )
        },
    }
}

/// The time that a seek within the download comes to, and the stream after it.
pub open spec fn sought_in(s: StreamView, timestamp_us: i64, data: Seq<u8>, order: Seq<u32>) -> (Result<i64, Seq<char>>, StreamView) {
    match s.format {
        None => (Err("No demuxer format set"@), s),
        Some(ContainerFormat::Mp4) => {
            let (r, part) = mp4_part_sought(s.mp4, timestamp_us, data, s.layout, order);
            (r, StreamView { mp4: part, ..s })
        },
        Some(ContainerFormat::Unknown) => (Err("Unsupported format for seek"@), s),
        Some(_) => {
            let (r, part) = mkv_part_sought(s.mkv, timestamp_us, data);
            (r, StreamView { mkv: part, ..s })
        },
    }
}

/// What a seek within the download reads the header of an MP4 file from; none where
/// it reads none.
pub open spec fn seek_input(s: StreamView, data: Seq<u8>) -> Option<Mp4Input> {
    if s.format == Some(ContainerFormat::Mp4) { part_input(s.mp4, data, s.layout) } else { None }
}

// ---------------------------------------------------------------------------
// Headers
// ---------------------------------------------------------------------------

/// A header that was parsed.
pub struct Header {
    pub info: MediaInfo,
    pub format: ContainerFormat,
    /// The duration of an MKV file in ticks, a double-precision number by its
    /// bits.
    pub duration_bits: Option<u64>,
}

/// A layout with the place of mdat in the data, where it was not known.
pub open spec fn mdat_placed(l: LayoutView, data: Seq<u8>) -> LayoutView {
    match find_in(data, mdat_kind()) {
        Some(b) if l.mdat_offset == 0 => LayoutView {
            mdat_offset: b.offset,
            mdat_header_size: header_size_at(data, b.offset),
            ..l
        },
        _ => l,
    }
}

/// The input that a truncated MP4 file makes: its mdat box ends with the data.
pub open spec fn truncated_input(l: LayoutView, data: Seq<u8>) -> Mp4Input {
    let bytes = if l.mdat_offset > 0 && l.mdat_header_size > 0 {
        with_mdat_size(data, l.mdat_offset, l.mdat_header_size)
    } else {
        data
    };
    Mp4Input { bytes, size: bytes.len() as u64, virtual_base: 0, header_end: 0 }
}

/// The place of the first Cluster.
pub open spec fn first_cluster(data: Seq<u8>, i: int) -> bool {
    data.len() > 4 && 0 <= i && cluster_at(data, i) && forall|j: int| 0 <= j < i ==> !cluster_at(data, j)
}

/// The bytes before the first Cluster; `or` where there is none.
pub open spec fn bytes_before_cluster(data: Seq<u8>, or: Option<Seq<u8>>) -> Option<Seq<u8>> {
    if exists|i: int| first_cluster(data, i) {
        Some(data.take(choose|i: int| first_cluster(data, i)))
    } else {
        or
    }
}

/// The stream once an MKV header has been parsed from the data.
pub open spec fn mkv_header_taken(s: StreamView, data: Seq<u8>, d: MkvView) -> StreamView {
    StreamView {
        mkv: MkvPartView {
            header: bytes_before_cluster(data, s.mkv.header),
            scale_ns: d.scale_ns,
            scanned: data.len() as int,
            ..s.mkv
        },
        index: d.seek_index,
        ..s
    }
}

/// Whether a header can be parsed from the downloaded data, and what it says.
/// `order` lists the tracks of an MP4 file.
pub open spec fn header_in(s: StreamView, data: Seq<u8>, order: Seq<u32>) -> (Option<MediaView>, StreamView) {
    if data.len() < 12 {
        (None, s)
    } else {
        match format_of(data) {
            ContainerFormat::Unknown => (None, s),
            ContainerFormat::Mp4 => {
                let placed = StreamView { layout: mdat_placed(s.layout, data), ..s };
                let input = truncated_input(placed.layout, data);
                if mp4_fault(input) is Some {
                    (None, placed)
                } else {
                    (Some(mp4_info(input, order)), placed)
                }
            },
            _ => match mkv_parsed(fresh_mkv(), without_seekhead(data)) {
                Err(_) => (None, s),
                Ok(d) => (d.media_info, mkv_header_taken(s, data, d)),
            },
        }
    }
}

/// The bytes before the first Cluster; `or` where there is none.
fn header_before_cluster(data: &Vec<u8>, or: Option<Vec<u8>>) -> (r: Option<Vec<u8>>)
    ensures
        crate::demux::boxes::bytes_view(r) == bytes_before_cluster(data@, crate::demux::boxes::bytes_view(or)),
{
    match find_cluster_offset(data.as_slice()) {
        Some(i) => {
            assert(first_cluster(data@, i as int));
            let k = Ghost(choose|k: int| first_cluster(data@, k));
            assert(k@ == i) by {
                if k@ < i {
                    assert(!cluster_at(data@, k@));
                }
                if k@ > i {
                    assert(!cluster_at(data@, i as int));
                }
            }
            let part: &[u8] = vstd::slice::slice_subrange(data.as_slice(), 0, i);
            assert(part@ =~= data@.take(i as int));
            Some(vstd::slice::slice_to_vec(part))
        },
        None => {
            assert forall|i: int| !first_cluster(data@, i) by {}
            or
        },
    }
}

impl Stream {
    /// The demuxers and the windows are valid.
    pub open spec fn wf(&self) -> bool {
        &&& self.mp4.wf()
        &&& self.mkv.wf()
        &&& self.window matches Some(w) ==> w.wf()
    }

    /// Nothing is known.
    pub fn new() -> (r: Self)
        ensures
            r.wf(),
            r@ == no_stream(),
    {
        let r: Stream = Stream {
            format: None,
            mp4: Mp4Part::new(),
            mkv: MkvPart::new(),
            layout: Mp4Layout::new(),
            index: SeekIndex::new(),
            window: None,
            demuxed_len: 0,
            media: None,
            supports_range: false,
        };
        assert(r@ =~= no_stream());
        r
    }

    /// A load begins.
    pub fn begin_load(&mut self)
        requires
            old(self).wf(),
        ensures
            final(self).wf(),
            final(self)@ == load_begun(old(self)@),
    {
        self.mp4 = Mp4Part::new();
        self.mkv.demuxer = None;
        self.mkv.frames_read = 0;
        self.mkv.last_ts_us = 0;
        self.mkv.scanned = 0;
        self.layout.clear();
        self.index = SeekIndex::new();
        self.window = None;
        self.demuxed_len = 0;
        assert(self@ =~= load_begun(old(self)@));
    }

    /// Another track will be loaded.
    pub fn reset_for_track(&mut self)
        ensures
            final(self).wf(),
            final(self)@ == track_left(old(self)@),
    {
        self.format = None;
        self.mp4 = Mp4Part::new();
        self.mkv = MkvPart::new();
        self.layout.clear();
        self.window = None;
        self.demuxed_len = 0;
        self.media = None;
        assert(self@ =~= track_left(old(self)@));
    }

    /// A seek begins: demuxers hold data from before it.
    pub fn begin_seek(&mut self)
        requires
            old(self).wf(),
        ensures
            final(self).wf(),
            final(self)@ == seek_begun(old(self)@),
    {
        self.mp4 = Mp4Part::new();
        self.mkv.demuxer = None;
        assert(self@ =~= seek_begun(old(self)@));
    }

    /// Playback stops.
    pub fn stop(&mut self)
        requires
            old(self).wf(),
        ensures
            final(self).wf(),
            final(self)@ == (StreamView { mkv: MkvPartView { demuxer: None, created_at: 0, ..old(self)@.mkv }, ..old(self)@ }),
    {
        self.mkv.demuxer = None;
        self.mkv.created_at = 0;
        assert(self@ =~= (StreamView { mkv: MkvPartView { demuxer: None, created_at: 0, ..old(self)@.mkv }, ..old(self)@ }));
    }

    /// Keep what the header said, once the decoders have been configured for it.
    pub fn adopt(&mut self, info: MediaInfo, format: ContainerFormat)
        requires
            old(self).wf(),
        ensures
            final(self).wf(),
            final(self)@ == (StreamView { media: Some(info@), format: Some(format), ..old(self)@ }),
    {
        self.media = Some(info);
        self.format = Some(format);
        assert(self@ =~= (StreamView { media: Some(info@), format: Some(format), ..old(self)@ }));
    }

    /// Demux more encoded chunks from the download into the queue, `batch` in one go.
    pub fn try_demux_more(&mut self, batch: usize, data: &Vec<u8>, queue: &mut VecDeque<EncodedChunk>)
        requires
            old(self).wf(),
        ensures
            final(self).wf(),
            ({
                let (chunks, next) = demuxed(old(self)@, batch, old(queue)@.len() == 0, data@, part_order(final(self)@.mp4));
                &&& final(self)@ == next
                &&& chunk_views(final(queue)@) == chunk_views(old(queue)@) + chunks
            }),
    {
        let ghost before = self@;
        let ghost first = chunk_views(queue@);
        assert(first + Seq::<ChunkView>::empty() =~= first);
        let looked: bool = match self.format {
            None => {
                return ;
            },
            Some(ContainerFormat::Mp4) => self.mp4.demux(batch, data, &self.layout, queue),
            Some(ContainerFormat::Unknown) => true,
            Some(_) => self.mkv.demux(batch, &mut self.index, data, self.demuxed_len, queue),
        };
        if looked {
            self.demuxed_len = data.len();
        }
        assert(self@ =~= demuxed(before, batch, old(queue)@.len() == 0, data@, part_order(self@.mp4)).1);
    }

    /// Seek the demuxer to the nearest keyframe before `timestamp_us`. Gives the
    /// time that was seeked to.
    pub fn seek_demuxer(&mut self, timestamp_us: i64, data: &Vec<u8>) -> (r: Result<i64, String>)
        requires
            old(self).wf(),
        ensures
            final(self).wf(),
            ({
                let (done, next) = sought_in(old(self)@, timestamp_us, data@, part_order(final(self)@.mp4));
                &&& seek_input(old(self)@, data@) matches Some(input) ==> order_of(input, part_order(final(self)@.mp4))
                &&& final(self)@ == next
                &&& match (r, done) {
                    (Ok(us), Ok(t)) => us == t,
                    (Err(e), Err(t)) => e@ == t,
                    _ => false,
                }
            }),
    {
        let ghost before = self@;
        let r: Result<i64, String> = match self.format {
            None => Err(String::from_str("No demuxer format set")),
            Some(ContainerFormat::Mp4) => self.mp4.seek(timestamp_us, data, &self.layout),
            Some(ContainerFormat::Unknown) => Err(String::from_str("Unsupported format for seek")),
            Some(_) => self.mkv.seek(timestamp_us, data),
        };
        assert(self@ =~= sought_in(before, timestamp_us, data@, part_order(self@.mp4)).1);
        r
    }

    /// Take over an MKV header that was parsed from the data.
    pub(crate) fn take_mkv_header(&mut self, data: &Vec<u8>, d: &MkvDemuxer)
        requires
            old(self).wf(),
        ensures
            final(self).wf(),
            final(self)@ == mkv_header_taken(old(self)@, data@, d@),
    {
        let kept: Option<Vec<u8>> = self.mkv.header.take();
        self.mkv.header = header_before_cluster(data, kept);
        self.mkv.scale_ns = d.timestamp_scale_ns();
        self.mkv.scanned = data.len();
        self.index = d.build_seek_index();
        assert(self@ =~= mkv_header_taken(old(self)@, data@, d@));
    }

    /// Try to parse the container header from current download data. Gives nothing
    /// where more data is needed.
    pub fn try_parse_header(&mut self, data: &Vec<u8>) -> (r: Option<Header>)
        requires
            old(self).wf(),
        ensures
            final(self).wf(),
            final(self)@ == header_in(old(self)@, data@, Seq::empty()).1,
            match r {
                Some(h) => {
                    &&& exists|order: Seq<u32>| #[trigger] header_in(old(self)@, data@, order).0 == Some(h.info@)
                        && (format_of(data@) == ContainerFormat::Mp4 ==> order_of(truncated_input(final(self)@.layout, data@), order))
                    &&& h.format == format_of(data@)
                    &&& h.duration_bits == if format_of(data@) == ContainerFormat::Mp4 {
                        None
                    } else {
                        mkv_duration(without_seekhead(data@))
                    }
                },
                None => header_in(old(self)@, data@, Seq::empty()).0 is None,
            },
    {
        let ghost before = self@;
        if data.len() < 12 {
            return None;
        }
        let format: ContainerFormat = detect_format(data.as_slice());
        match format {
            ContainerFormat::Unknown => None,
            ContainerFormat::Mp4 => {
                if self.layout.mdat_offset == 0 {
                    if let Some(b) = find_mdat(data.as_slice()) {
                        self.layout.mdat_offset = b.offset as usize;
                        self.layout.mdat_header_size = box_header_size(data.as_slice(), b.offset as usize);
                    }
                }
                assert(self@ =~= (StreamView { layout: mdat_placed(before.layout, data@), ..before }));
                let mut bytes: Vec<u8> = copy_bytes(data);
                if self.layout.mdat_offset > 0 && self.layout.mdat_header_size > 0 {
                    patch_mdat(&mut bytes, self.layout.mdat_offset, self.layout.mdat_header_size);
                }
                assert(bytes@ == truncated_input(self@.layout, data@).bytes);
                let mut d: Mp4Demuxer = Mp4Demuxer::new();
                match d.parse_header(bytes.as_slice()) {
                    Err(_) => None,
                    Ok(info) => {
                        assert(self@ =~= header_in(before, data@, d@.order).1);
                        assert(header_in(before, data@, d@.order).0 == Some(info@));
                        Some(Header { info, format, duration_bits: None })
                    },
                }
            },
            _ => {
                let mut d: MkvDemuxer = MkvDemuxer::new();
                match d.parse_header_streaming(data.as_slice()) {
                    Err(_) => None,
                    Ok(info) => {
                        self.take_mkv_header(data, &d);
                        assert(self@ =~= header_in(before, data@, Seq::empty()).1);
                        assert(header_in(before, data@, Seq::empty()).0 == Some(info@));
                        Some(Header { info, format, duration_bits: d.duration_bits() })
                    },
                }
            },
        }
    }
}

/// The header of an MKV file is all that stands before its first Cluster.
pub proof fn law_header_ends_at_cluster(data: Seq<u8>, or: Option<Seq<u8>>, i: int)
    requires
        first_cluster(data, i),
    ensures
        bytes_before_cluster(data, or) == Some(data.take(i)),
        data[i] == 0x1F && data[i + 1] == 0x43 && data[i + 2] == 0xB6 && data[i + 3] == 0x75,
{
    let k = choose|k: int| first_cluster(data, k);
    assert(first_cluster(data, k));
    if k < i {
        assert(cluster_at(data, k));
    } else if i < k {
        assert(cluster_at(data, i));
    }
}

/// A seek within the download moves the demuxer of the file's format, and nothing else;
/// without a format that is known it is refused.
pub proof fn law_seek_by_format(s: StreamView, timestamp_us: i64, data: Seq<u8>, order: Seq<u32>)
    ensures
        ({
            let (r, t) = sought_in(s, timestamp_us, data, order);
            &&& s.format is None || s.format == Some(ContainerFormat::Unknown) ==> r is Err && t == s
            &&& s.format == Some(ContainerFormat::Mp4) ==> t.mkv == s.mkv
            &&& s.format == Some(ContainerFormat::Mkv) ==> t.mp4 == s.mp4
            &&& t.index == s.index && t.layout == s.layout && t.window == s.window && t.format == s.format
        }),
{
}

} // verus!
