//! The `mp4` crate as this library uses it, over bytes that are read through a
//! limit.

use std::cell::Cell;
use std::io::{Read, Seek, SeekFrom};
use std::rc::Rc;

use vstd::prelude::*;

use crate::demux::track::{
    delta_from, elapsed_from, sample_offset, sample_size, sample_sound, AacConfig, AvcConfig, ChunkRun, MediaKind,
    SampleSizes, TimeRun, TrackKind, TrackView,
};
use crate::demux::walk::header_sound;

verus! {

/// The error of std's readers.
#[verifier::external_type_specification]
#[verifier::external_body]
pub struct ExIoError(std::io::Error);

/// Where std's readers are told to go.
#[verifier::external_type_specification]
pub struct ExSeekFrom(std::io::SeekFrom);

/// A cell of std.
#[verifier::external_type_specification]
#[verifier::external_body]
#[verifier::reject_recursive_types(T)]
pub struct ExCell<T: ?Sized>(std::cell::Cell<T>);

/// An MP4 reader of the `mp4` crate.
#[verifier::external_type_specification]
#[verifier::external_body]
#[verifier::reject_recursive_types(R)]
pub struct ExMp4Reader<R>(mp4::Mp4Reader<R>);

/// `Cell::new` around a number.
#[verifier::external_body]
fn new_cell(n: u64) -> (c: Cell<u64>) {
    Cell::new(n)
}

/// `Cell::get`: what was last put into the cell, through any of its handles.
#[verifier::external_body]
fn get_cell(c: &Rc<Cell<u64>>) -> (n: u64) {
    c.get()
}

/// `std::io::Error::from` on the kind of an invalid argument.
#[verifier::external_body]
fn invalid_seek() -> (e: std::io::Error) {
    std::io::Error::from(std::io::ErrorKind::InvalidInput)
}

// ---------------------------------------------------------------------------
// Reading through a limit
// ---------------------------------------------------------------------------

/// A cursor that limits reads to a configurable byte boundary.
///
/// During MP4 header parsing, the synthetic buffer is `[download_data][moov]`.
/// After parsing, the read limit is set to the length of the download so that
/// sample reads beyond the actual mdat data fail with EOF instead of reading moov
/// bytes as if they were sample data (which would produce corrupt frames).
///
/// The limit is shared, so that it can change after the cursor has been handed to
/// a reader.
///
/// For Range-based seeking, the buffer is
/// `[header (ftyp + mdat_header_empty + moov)] [range_data]`: positions from
/// `virtual_base` on are file offsets, mapped to the place of `range_data`.
pub struct LimitedCursor {
    pub data: Vec<u8>,
    pub pos: u64,
    /// Reads at positions from this value on return EOF.
    pub limit: Rc<Cell<u64>>,
    /// File offset where range_data starts in the original file; 0 where
    /// positions are not mapped.
    pub virtual_base: u64,
    /// Byte offset in the buffer where range_data begins.
    pub header_end: u64,
}

/// The position in the buffer that stands for a file offset.
pub open spec fn mapped(virtual_base: u64, header_end: u64, offset: u64) -> Option<u64> {
    if virtual_base > 0 && offset >= virtual_base {
        if header_end + (offset - virtual_base) <= u64::MAX {
            Some((header_end + (offset - virtual_base)) as u64)
        } else {
            None
        }
    } else {
        Some(offset)
    }
}

/// `base` moved by `delta`, where that is a position.
pub open spec fn moved(base: int, delta: int) -> Option<u64> {
    if 0 <= base + delta <= u64::MAX {
        Some((base + delta) as u64)
    } else {
        None
    }
}

/// Where a seek leads.
pub open spec fn seek_target(c: LimitedCursor, to: SeekFrom) -> Option<u64> {
    match to {
        SeekFrom::Start(offset) => mapped(c.virtual_base, c.header_end, offset),
        SeekFrom::End(delta) => moved(c.data.len() as int, delta as int),
        SeekFrom::Current(delta) => moved(c.pos as int, delta as int),
    }
}

/// The smaller of two numbers.
pub open spec fn least(a: int, b: int) -> int {
    if a < b { a } else { b }
}

/// How many bytes can be read at a position under a limit.
pub open spec fn bytes_left(len: int, pos: int, limit: int) -> int {
    if pos < least(len, limit) { least(len, limit) - pos } else { 0 }
}

/// `base` moved by `delta`, where that is a position.
fn move_by(base: u64, delta: i64) -> (r: Option<u64>)
    ensures
        r == moved(base as int, delta as int),
{
    let n: i128 = base as i128 + delta as i128;
    if 0 <= n && n <= 0xffff_ffff_ffff_ffff { Some(n as u64) } else { None }
}

impl LimitedCursor {
    /// A cursor over `data` and the handle of its limit.
    pub fn new(data: Vec<u8>) -> (r: (Self, Rc<Cell<u64>>))
        ensures
            r.0.data@ == data@,
            r.0.pos == 0,
            r.0.limit == r.1,
            r.0.virtual_base == 0,
            r.0.header_end == 0,
    {
        Self::new_with_offset(data, 0, 0)
    }

    /// Create a cursor with virtual offset support for Range-seeked MP4 data.
    ///
    /// Buffer layout: `[header_data (ftyp+mdat_hdr+moov)][range_data]`
    /// - `virtual_base`: file offset where `range_data` starts in the original file
    /// - `header_end`: physical position in buffer where `range_data` begins
    pub fn new_with_offset(data: Vec<u8>, virtual_base: u64, header_end: u64) -> (r: (Self, Rc<Cell<u64>>))
        ensures
            r.0.data@ == data@,
            r.0.pos == 0,
            r.0.limit == r.1,
            r.0.virtual_base == virtual_base,
            r.0.header_end == header_end,
    {
        let limit: Rc<Cell<u64>> = Rc::new(new_cell(u64::MAX));
        let cursor: LimitedCursor = LimitedCursor { data, pos: 0, limit: limit.clone(), virtual_base, header_end };
        (cursor, limit)
    }

    /// Read what is there below the limit.
    pub fn read_below(&mut self, buf: &mut [u8], limit: u64) -> (n: usize)
        ensures
            n == least(old(buf).len() as int, bytes_left(old(self).data.len() as int, old(self).pos as int, limit as int)),
            final(buf).len() == old(buf).len(),
            forall|i: int| 0 <= i < n ==> final(buf)[i] == old(self).data[old(self).pos + i],
            forall|i: int| n <= i < old(buf).len() ==> final(buf)[i] == old(buf)[i],
            *final(self) == (LimitedCursor { pos: (old(self).pos + n) as u64, ..*old(self) }),
    {
        let len: u64 = self.data.len() as u64;
        let end: u64 = if len < limit { len } else { limit };
        if self.pos >= end {
            return 0;
        }
        let left: u64 = end - self.pos;
        let n: usize = if (buf.len() as u64) < left { buf.len() } else { left as usize };
        let ghost first = buf@;
        let mut i: usize = 0;
        while i < n
            invariant
                i <= n <= buf.len(),
                buf.len() == first.len(),
                self.pos + n <= self.data.len(),
                self.data == old(self).data,
                self.pos == old(self).pos,
                forall|j: int| 0 <= j < i ==> buf[j] == self.data[self.pos + j],
                forall|j: int| i <= j < buf.len() ==> buf[j] == first[j],
            decreases n - i,
        {
            buf[i] = self.data[self.pos as usize + i];
            i = i + 1;
        }
        self.pos = self.pos + n as u64;
        n
    }
}

impl Read for LimitedCursor {
    fn read(&mut self, buf: &mut [u8]) -> (r: std::io::Result<usize>)
        ensures
            r matches Ok(n) && {
                &&& n <= old(buf).len()
                &&& n > 0 ==> old(self).pos + n <= old(self).data.len()
                &&& final(buf).len() == old(buf).len()
                &&& forall|i: int| 0 <= i < n ==> final(buf)[i] == old(self).data[old(self).pos + i]
                &&& forall|i: int| n <= i < old(buf).len() ==> final(buf)[i] == old(buf)[i]
                &&& *final(self) == (LimitedCursor { pos: (old(self).pos + n) as u64, ..*old(self) })
            },
    {
        let limit: u64 = get_cell(&self.limit);
        Ok(self.read_below(buf, limit))
    }
}

impl Seek for LimitedCursor {
    fn seek(&mut self, pos: SeekFrom) -> (r: std::io::Result<u64>)
        ensures
            match r {
                Ok(n) => seek_target(*old(self), pos) == Some(n) && *final(self) == (LimitedCursor { pos: n, ..*old(self) }),
                Err(_) => seek_target(*old(self), pos) is None && *final(self) == *old(self),
            },
    {
        let target: Option<u64> = match pos {
            SeekFrom::Start(offset) => if self.virtual_base > 0 && offset >= self.virtual_base {
                let behind: u64 = offset - self.virtual_base;
                if behind <= u64::MAX - self.header_end { Some(self.header_end + behind) } else { None }
            } else {
                Some(offset)
            },
            SeekFrom::End(delta) => move_by(self.data.len() as u64, delta),
            SeekFrom::Current(delta) => move_by(self.pos, delta),
        };
        match target {
            Some(n) => {
                self.pos = n;
                Ok(n)
            },
            None => Err(invalid_seek()),
        }
    }
}

// ---------------------------------------------------------------------------
// The reader
// ---------------------------------------------------------------------------

/// What a reader is opened on: the buffer, how much of it is the file's header
/// region, and how positions are mapped.
#[verifier::ext_equal]
pub struct Mp4Input {
    pub bytes: Seq<u8>,
    pub size: u64,
    pub virtual_base: u64,
    pub header_end: u64,
}

/// An open reader: its input, and the cell that limits it.
pub struct Mp4Source {
    pub input: Mp4Input,
    pub limit: Rc<Cell<u64>>,
}

/// A sample as the reader hands it out.
pub struct Mp4Sample {
    pub start_time: u64,
    pub duration: u32,
    pub is_sync: bool,
    pub bytes: Vec<u8>,
}

/// A sample with its bytes as a sequence.
#[verifier::ext_equal]
pub struct SampleView {
    pub start_time: u64,
    pub duration: u32,
    pub is_sync: bool,
    pub bytes: Seq<u8>,
}

impl View for Mp4Sample {
    type V = SampleView;

    open spec fn view(&self) -> SampleView {
        SampleView {
            start_time: self.start_time,
            duration: self.duration,
            is_sync: self.is_sync,
            bytes: self.bytes@,
        }
    }
}

/// What an open reader stands on.
pub uninterp spec fn mp4_source(r: mp4::Mp4Reader<LimitedCursor>) -> Mp4Source;

/// The error that reading the header in a buffer gives; none where it gives none.
pub uninterp spec fn mp4_open_fault(input: Mp4Input) -> Option<Seq<char>>;

/// The tracks of an MP4 header by their numbers.
pub uninterp spec fn mp4_tracks(input: Mp4Input) -> Map<u32, TrackView>;

/// The duration of the movie and its time scale.
pub uninterp spec fn mp4_movie(input: Mp4Input) -> (u64, u32);

/// A sample of a fragmented track, or of a track whose table of sync samples is
/// out of order.
pub uninterp spec fn mp4_sample(input: Mp4Input, limit: u64, track_id: u32, sample_id: u32) -> Option<SampleView>;

/// Whether numbers stand in ascending order.
pub open spec fn ascending(s: Seq<u32>) -> bool {
    forall|i: int, j: int| 0 <= i <= j < s.len() ==> (#[trigger] s[i]) <= (#[trigger] s[j])
}

/// Whether a track has plain tables: no fragments, and sync samples in order.
pub open spec fn plain_track(t: TrackView) -> bool {
    t.fragments.len() == 0 && (t.stss matches Some(s) ==> ascending(s))
}

/// `n` bytes of a buffer from `pos` on, where they are there below the limit.
pub open spec fn limited_bytes(bytes: Seq<u8>, limit: u64, pos: int, n: int) -> Option<Seq<u8>> {
    if n == 0 {
        Some(Seq::empty())
    } else if pos + n <= bytes.len() && pos + n <= limit {
        Some(bytes.subrange(pos, pos + n))
    } else {
        None
    }
}

/// The sample of a track that can be read under a limit.
pub open spec fn sample_of(input: Mp4Input, limit: u64, t: TrackView, track_id: u32, sample_id: u32) -> Option<SampleView> {
    if !plain_track(t) {
        mp4_sample(input, limit, track_id, sample_id)
    } else {
        match mapped(input.virtual_base, input.header_end, sample_offset(t, sample_id as int)->Some_0 as u64) {
            None => None,
            Some(pos) => match limited_bytes(input.bytes, limit, pos as int, sample_size(t, sample_id as int)->Some_0) {
                None => None,
                Some(bytes) => Some(
                    SampleView {
                        start_time: elapsed_from(t.stts, 0, sample_id - 1, 0),
                        duration: delta_from(t.stts, 0, sample_id - 1),
                        is_sync: match t.stss {
                            Some(s) => s.contains(sample_id),
                            None => true,
                        },
                        bytes,
                    },
                ),
            },
        }
    }
}

/// The input that a cursor at its start makes.
pub open spec fn input_of(c: LimitedCursor, size: u64) -> Mp4Input {
    Mp4Input { bytes: c.data@, size, virtual_base: c.virtual_base, header_end: c.header_end }
}

/// `Mp4Reader::read_header` on a cursor without a limit: a reader, or the text of
/// the error. Whether it opens depends on the input alone. It does not return, or
/// panics, where the sizes of boxes lead in a circle, are too small for their
/// fields or are larger than the data; such input is left out.
#[verifier::external_body]
pub(crate) fn open(c: LimitedCursor, size: u64) -> (r: Result<mp4::Mp4Reader<LimitedCursor>, String>)
    requires
        c.pos == 0,
        size <= c.data.len(),
        header_sound(input_of(c, size)),
    ensures
        match r {
            Ok(m) => mp4_open_fault(input_of(c, size)) is None && mp4_source(m) == (Mp4Source { input: input_of(c, size), limit: c.limit }),
            Err(e) => mp4_open_fault(input_of(c, size)) == Some(e@),
        },
{
    c.limit.set(u64::MAX);
    match mp4::Mp4Reader::read_header(c, size) {
        Ok(m) => Ok(m),
        Err(e) => Err(format!("{}", e)),
    }
}

/// The keys of `Mp4Reader::tracks`, a hash map: each once, in no certain order.
#[verifier::external_body]
pub(crate) fn track_ids(r: &mp4::Mp4Reader<LimitedCursor>) -> (v: Vec<u32>)
    ensures
        v@.no_duplicates(),
        v@.to_set() == mp4_tracks(mp4_source(*r).input).dom(),
{
    r.tracks().keys().copied().collect()
}

/// The duration and the time scale of `moov.mvhd`.
#[verifier::external_body]
pub(crate) fn movie_duration(r: &mp4::Mp4Reader<LimitedCursor>) -> (d: (u64, u32))
    ensures
        d == mp4_movie(mp4_source(*r).input),
{
    (r.moov.mvhd.duration, r.moov.mvhd.timescale)
}

/// `Mp4Track::track_type` of an entry of `Mp4Reader::tracks`; a track that is not
/// for pictures or sound, or of no known type, is another one.
#[verifier::external_body]
pub(crate) fn track_kind(r: &mp4::Mp4Reader<LimitedCursor>, id: u32) -> (k: TrackKind)
    requires
        mp4_tracks(mp4_source(*r).input).dom().contains(id),
    ensures
        k == mp4_tracks(mp4_source(*r).input)[id].basics.kind,
{
    match r.tracks()[&id].track_type() {
        Ok(mp4::TrackType::Video) => TrackKind::Video,
        Ok(mp4::TrackType::Audio) => TrackKind::Audio,
        Ok(mp4::TrackType::Subtitle) => TrackKind::Other,
        Err(_) => TrackKind::Other,
    }
}

/// `Mp4Track::media_type` of an entry of `Mp4Reader::tracks`.
#[verifier::external_body]
pub(crate) fn media_kind(r: &mp4::Mp4Reader<LimitedCursor>, id: u32) -> (k: MediaKind)
    requires
        mp4_tracks(mp4_source(*r).input).dom().contains(id),
    ensures
        k == mp4_tracks(mp4_source(*r).input)[id].basics.media,
{
    match r.tracks()[&id].media_type() {
        Ok(mp4::MediaType::H264) => MediaKind::H264,
        Ok(mp4::MediaType::H265) => MediaKind::H265,
        Ok(mp4::MediaType::VP9) => MediaKind::Vp9,
        Ok(mp4::MediaType::AAC) => MediaKind::Aac,
        Ok(mp4::MediaType::TTXT) => MediaKind::Other,
        Err(_) => MediaKind::Other,
    }
}

/// `Mp4Track::width` and `Mp4Track::height` of an entry of `Mp4Reader::tracks`.
#[verifier::external_body]
pub(crate) fn picture_size(r: &mp4::Mp4Reader<LimitedCursor>, id: u32) -> (d: (u16, u16))
    requires
        mp4_tracks(mp4_source(*r).input).dom().contains(id),
    ensures
        d == (mp4_tracks(mp4_source(*r).input)[id].basics.width, mp4_tracks(mp4_source(*r).input)[id].basics.height),
{
    (r.tracks()[&id].width(), r.tracks()[&id].height())
}

/// The duration and the time scale of `mdhd` of an entry of `Mp4Reader::tracks`.
#[verifier::external_body]
pub(crate) fn media_duration(r: &mp4::Mp4Reader<LimitedCursor>, id: u32) -> (d: (u64, u32))
    requires
        mp4_tracks(mp4_source(*r).input).dom().contains(id),
    ensures
        d == (mp4_tracks(mp4_source(*r).input)[id].basics.duration, mp4_tracks(mp4_source(*r).input)[id].basics.timescale),
{
    (r.tracks()[&id].trak.mdia.mdhd.duration, r.tracks()[&id].trak.mdia.mdhd.timescale)
}

/// `Mp4Track::channel_config` of an entry of `Mp4Reader::tracks`, by its code.
#[verifier::external_body]
pub(crate) fn channel_config(r: &mp4::Mp4Reader<LimitedCursor>, id: u32) -> (c: Option<u8>)
    requires
        mp4_tracks(mp4_source(*r).input).dom().contains(id),
    ensures
        c == mp4_tracks(mp4_source(*r).input)[id].basics.channel_config,
{
    r.tracks()[&id].channel_config().ok().map(|c| c as u8)
}

/// `Mp4Track::sample_freq_index` of an entry of `Mp4Reader::tracks`, by the rate
/// that `SampleFreqIndex::freq` gives.
#[verifier::external_body]
pub(crate) fn sample_rate(r: &mp4::Mp4Reader<LimitedCursor>, id: u32) -> (n: Option<u32>)
    requires
        mp4_tracks(mp4_source(*r).input).dom().contains(id),
    ensures
        n == mp4_tracks(mp4_source(*r).input)[id].basics.sample_rate,
{
    r.tracks()[&id].sample_freq_index().ok().map(|s| s.freq())
}

/// The `avcC` box of the `avc1` entry of a track.
#[verifier::external_body]
pub(crate) fn avc_config(r: &mp4::Mp4Reader<LimitedCursor>, id: u32) -> (c: Option<AvcConfig>)
    requires
        mp4_tracks(mp4_source(*r).input).dom().contains(id),
    ensures
        match c {
            Some(a) => mp4_tracks(mp4_source(*r).input)[id].avc == Some(a@),
            None => mp4_tracks(mp4_source(*r).input)[id].avc is None,
        },
{
    r.tracks()[&id].trak.mdia.minf.stbl.stsd.avc1.as_ref().map(|b| AvcConfig {
        version: b.avcc.configuration_version,
        profile: b.avcc.avc_profile_indication,
        compatibility: b.avcc.profile_compatibility,
        level: b.avcc.avc_level_indication,
        length_size_minus_one: b.avcc.length_size_minus_one,
        sps: b.avcc.sequence_parameter_sets.iter().map(|n| n.bytes.clone()).collect(),
        pps: b.avcc.picture_parameter_sets.iter().map(|n| n.bytes.clone()).collect(),
    })
}

/// The decoder configuration in the `esds` box of the `mp4a` entry of a track.
#[verifier::external_body]
pub(crate) fn aac_config(r: &mp4::Mp4Reader<LimitedCursor>, id: u32) -> (c: Option<AacConfig>)
    requires
        mp4_tracks(mp4_source(*r).input).dom().contains(id),
    ensures
        c == mp4_tracks(mp4_source(*r).input)[id].aac,
{
    let stsd = &r.tracks()[&id].trak.mdia.minf.stbl.stsd;
    let esds = stsd.mp4a.as_ref().and_then(|b| b.esds.as_ref());
    esds.map(|e| AacConfig {
        object_type: e.es_desc.dec_config.object_type_indication,
        profile: e.es_desc.dec_config.dec_specific.profile,
        freq_index: e.es_desc.dec_config.dec_specific.freq_index,
        chan_conf: e.es_desc.dec_config.dec_specific.chan_conf,
    })
}

/// The `stss` box of a track, the table of its sync samples.
#[verifier::external_body]
pub(crate) fn sync_samples(r: &mp4::Mp4Reader<LimitedCursor>, id: u32) -> (v: Option<Vec<u32>>)
    requires
        mp4_tracks(mp4_source(*r).input).dom().contains(id),
    ensures
        match v {
            Some(x) => mp4_tracks(mp4_source(*r).input)[id].stss == Some(x@),
            None => mp4_tracks(mp4_source(*r).input)[id].stss is None,
        },
{
    r.tracks()[&id].trak.mdia.minf.stbl.stss.as_ref().map(|b| b.entries.clone())
}

/// The `stts` box of a track, the table of its sample durations.
#[verifier::external_body]
pub(crate) fn time_runs(r: &mp4::Mp4Reader<LimitedCursor>, id: u32) -> (v: Vec<TimeRun>)
    requires
        mp4_tracks(mp4_source(*r).input).dom().contains(id),
    ensures
        v@ == mp4_tracks(mp4_source(*r).input)[id].stts,
{
    let entries = &r.tracks()[&id].trak.mdia.minf.stbl.stts.entries;
    entries.iter().map(|e| TimeRun { count: e.sample_count, delta: e.sample_delta }).collect()
}

/// The `stsc` box of a track, the table of its chunks, with the first sample of
/// each run that the reader counts.
#[verifier::external_body]
pub(crate) fn chunk_runs(r: &mp4::Mp4Reader<LimitedCursor>, id: u32) -> (v: Vec<ChunkRun>)
    requires
        mp4_tracks(mp4_source(*r).input).dom().contains(id),
    ensures
        v@ == mp4_tracks(mp4_source(*r).input)[id].stsc,
{
    let entries = &r.tracks()[&id].trak.mdia.minf.stbl.stsc.entries;
    entries.iter().map(|e| ChunkRun {
        first_chunk: e.first_chunk,
        samples_per_chunk: e.samples_per_chunk,
        first_sample: e.first_sample,
    }).collect()
}

/// The `stco` box of a track, the table of its chunk offsets.
#[verifier::external_body]
pub(crate) fn chunk_offsets(r: &mp4::Mp4Reader<LimitedCursor>, id: u32) -> (v: Option<Vec<u32>>)
    requires
        mp4_tracks(mp4_source(*r).input).dom().contains(id),
    ensures
        match v {
            Some(x) => mp4_tracks(mp4_source(*r).input)[id].stco == Some(x@),
            None => mp4_tracks(mp4_source(*r).input)[id].stco is None,
        },
{
    r.tracks()[&id].trak.mdia.minf.stbl.stco.as_ref().map(|b| b.entries.clone())
}

/// The `co64` box of a track, the table of its chunk offsets in 64 bits.
#[verifier::external_body]
pub(crate) fn long_chunk_offsets(r: &mp4::Mp4Reader<LimitedCursor>, id: u32) -> (v: Option<Vec<u64>>)
    requires
        mp4_tracks(mp4_source(*r).input).dom().contains(id),
    ensures
        match v {
            Some(x) => mp4_tracks(mp4_source(*r).input)[id].co64 == Some(x@),
            None => mp4_tracks(mp4_source(*r).input)[id].co64 is None,
        },
{
    r.tracks()[&id].trak.mdia.minf.stbl.co64.as_ref().map(|b| b.entries.clone())
}

/// The `stsz` box of a track, the table of its sample sizes.
#[verifier::external_body]
pub(crate) fn sample_sizes(r: &mp4::Mp4Reader<LimitedCursor>, id: u32) -> (s: SampleSizes)
    requires
        mp4_tracks(mp4_source(*r).input).dom().contains(id),
    ensures
        s.fixed == mp4_tracks(mp4_source(*r).input)[id].fixed_size,
        s.sizes@ == mp4_tracks(mp4_source(*r).input)[id].sizes,
        s.count == mp4_tracks(mp4_source(*r).input)[id].size_count,
{
    let stsz = &r.tracks()[&id].trak.mdia.minf.stbl.stsz;
    SampleSizes { fixed: stsz.sample_size, sizes: stsz.sample_sizes.clone(), count: stsz.sample_count }
}

/// The sample counts of the `trun` boxes of a track, one for each `traf` box; none
/// where a `traf` box has no `trun` box.
#[verifier::external_body]
pub(crate) fn fragment_counts(r: &mp4::Mp4Reader<LimitedCursor>, id: u32) -> (v: Vec<Option<u32>>)
    requires
        mp4_tracks(mp4_source(*r).input).dom().contains(id),
    ensures
        v@ == mp4_tracks(mp4_source(*r).input)[id].fragments,
{
    let trafs = &r.tracks()[&id].trafs;
    trafs.iter().map(|b| b.trun.as_ref().map(|t| t.sample_count)).collect()
}

/// `Mp4Track::default_sample_duration` of an entry of `Mp4Reader::tracks`.
#[verifier::external_body]
pub(crate) fn fragment_delta(r: &mp4::Mp4Reader<LimitedCursor>, id: u32) -> (n: u32)
    requires
        mp4_tracks(mp4_source(*r).input).dom().contains(id),
    ensures
        n == mp4_tracks(mp4_source(*r).input)[id].fragment_delta,
{
    r.tracks()[&id].default_sample_duration
}

/// `Mp4Reader::read_sample` under a limit on the cursor: the sample, or none where
/// the reader finds none or fails. On a track with plain tables the sample is the
/// bytes at its offset, which the cursor maps to a place in the buffer; there is
/// none where they do not all stand below the limit. Its times are those of
/// `stts`, and it is a sync sample where `stss` lists it or is missing. On another
/// track what comes is named only.
#[verifier::external_body]
pub(crate) fn read_sample(
    r: &mut mp4::Mp4Reader<LimitedCursor>,
    handle: &Rc<Cell<u64>>,
    limit: u64,
    track_id: u32,
    sample_id: u32,
) -> (s: Option<Mp4Sample>)
    requires
        *handle == mp4_source(*old(r)).limit,
        mp4_tracks(mp4_source(*old(r)).input).dom().contains(track_id),
        sample_sound(mp4_tracks(mp4_source(*old(r)).input)[track_id], sample_id as int),
    ensures
        mp4_source(*final(r)) == mp4_source(*old(r)),
        ({
            let input = mp4_source(*old(r)).input;
            match s {
                Some(x) => sample_of(input, limit, mp4_tracks(input)[track_id], track_id, sample_id) == Some(x@),
                None => sample_of(input, limit, mp4_tracks(input)[track_id], track_id, sample_id) is None,
            }
        }),
        ({
            let input = mp4_source(*old(r)).input;
            !plain_track(mp4_tracks(input)[track_id]) ==> match s {
                Some(x) => mp4_sample(input, limit, track_id, sample_id) == Some(x@),
                None => mp4_sample(input, limit, track_id, sample_id) is None,
            }
        }),
{
    handle.set(limit);
    match r.read_sample(track_id, sample_id) {
        Ok(s) => s.map(|x| Mp4Sample {
            start_time: x.start_time,
            duration: x.duration,
            is_sync: x.is_sync,
            bytes: x.bytes.to_vec(),
        }),
        Err(_) => None,
    }
}

/// A sample of a track with plain tables never holds a byte from the limit on: it
/// is a stretch of the buffer that ends at or before it.
pub proof fn law_limit_guards_samples(input: Mp4Input, limit: u64, t: TrackView, track_id: u32, sample_id: u32)
    requires
        plain_track(t),
        sample_sound(t, sample_id as int),
        sample_of(input, limit, t, track_id, sample_id) is Some,
    ensures
        ({
            let s = sample_of(input, limit, t, track_id, sample_id)->Some_0.bytes;
            let n = s.len() as int;
            n > 0 ==> exists|pos: int| 0 <= pos && pos + n <= limit && pos + n <= input.bytes.len() && s == #[trigger] input.bytes.subrange(pos, pos + n)
        }),
{
    let s = sample_of(input, limit, t, track_id, sample_id)->Some_0.bytes;
    let pos = mapped(input.virtual_base, input.header_end, sample_offset(t, sample_id as int)->Some_0 as u64)->Some_0 as int;
    if s.len() > 0 {
        assert(s == input.bytes.subrange(pos, pos + s.len()));
    }
}

/// A sample that can be read under a limit reads the same under a higher one.
pub proof fn law_higher_limit(input: Mp4Input, low: u64, high: u64, t: TrackView, track_id: u32, sample_id: u32)
    requires
        plain_track(t),
        low <= high,
        sample_of(input, low, t, track_id, sample_id) is Some,
    ensures
        sample_of(input, high, t, track_id, sample_id) == sample_of(input, low, t, track_id, sample_id),
{
}

/// A sample read from a fetched window of a file is the one read from the whole
/// file: the window stands behind the header in its buffer, and offsets from the
/// window's start on lead into it.
pub proof fn law_window_reads_file(file: Mp4Input, window: Mp4Input, len: int, t: TrackView, track_id: u32, sample_id: u32)
    requires
        plain_track(t),
        sample_offset(t, sample_id as int) is Some,
        sample_size(t, sample_id as int) is Some,
        file.virtual_base == 0,
        file.bytes.len() <= u64::MAX,
        window.bytes.len() <= u64::MAX,
        window.virtual_base > 0,
        len >= 0,
        window.bytes.len() == window.header_end + len,
        window.virtual_base + len <= file.bytes.len(),
        forall|i: int| 0 <= i < len ==> #[trigger] window.bytes[window.header_end + i] == file.bytes[window.virtual_base + i],
        window.virtual_base <= sample_offset(t, sample_id as int)->Some_0,
        sample_offset(t, sample_id as int)->Some_0 + sample_size(t, sample_id as int)->Some_0 <= window.virtual_base + len,
    ensures
        sample_of(window, window.bytes.len() as u64, t, track_id, sample_id) == sample_of(file, u64::MAX, t, track_id, sample_id),
        sample_of(file, u64::MAX, t, track_id, sample_id) is Some,
{
    let offset = sample_offset(t, sample_id as int)->Some_0;
    let n = sample_size(t, sample_id as int)->Some_0;
    let pos = window.header_end + (offset - window.virtual_base);
    if n > 0 {
        let a = window.bytes.subrange(pos, pos + n);
        let b = file.bytes.subrange(offset, offset + n);
        assert forall|i: int| 0 <= i < n implies a[i] == b[i] by {
            let j = offset - window.virtual_base + i;
            assert(window.bytes[window.header_end + j] == file.bytes[window.virtual_base + j]);
        }
        assert(a =~= b);
    }
}

} // verus!
