//! What the demuxers of all container formats have in common.

use vstd::prelude::*;

use crate::demux::detect::{is_ebml, is_mp4};
use crate::demux::isomp4::Mp4Input;
use crate::demux::mkv::{mkv_next, mkv_parsed, mkv_sought, MkvDemuxer};
use crate::demux::mp4::{index_from, mp4_info, mp4_next, mp4_parsed, mp4_sought, order_of, Mp4Demuxer};
use crate::demux::types::{
    sorted_by, ChunkView, DemuxError, DemuxFault, EncodedChunk, MediaInfo, MediaView, SeekEntry, SeekIndex, SeekKey,
};
use crate::demux::walk::mp4_fault;

verus! {

/// A result with its value and error as views.
pub open spec fn info_view(r: Result<MediaInfo, DemuxError>) -> Result<MediaView, DemuxFault> {
    match r {
        Ok(i) => Ok(i@),
        Err(e) => Err(e@),
    }
}

/// A result with its chunk and error as views.
pub open spec fn step_view(r: Result<Option<EncodedChunk>, DemuxError>) -> Result<Option<ChunkView>, DemuxFault> {
    match r {
        Ok(Some(c)) => Ok(Some(c@)),
        Ok(None) => Ok(None),
        Err(e) => Err(e@),
    }
}

/// A result with its error as a view.
pub open spec fn done_view(r: Result<(), DemuxError>) -> Result<(), DemuxFault> {
    match r {
        Ok(()) => Ok(()),
        Err(e) => Err(e@),
    }
}

/// Trait for container format demuxers.
pub trait Demuxer: Sized {
    /// Whether the demuxer is valid.
    spec fn valid(&self) -> bool;

    /// Whether the demuxer can handle data.
    spec fn handles(data: Seq<u8>) -> bool;

    /// Whether parsing data gives `r` and leads to `after`.
    spec fn parses(&self, data: Seq<u8>, r: Result<MediaView, DemuxFault>, after: &Self) -> bool;

    /// Whether the next chunk is `r` and the demuxer `after` comes then.
    spec fn steps(&self, r: Result<Option<ChunkView>, DemuxFault>, after: &Self) -> bool;

    /// Whether a seek gives `r` and leads to `after`.
    spec fn seeks(&self, timestamp_us: i64, r: Result<(), DemuxFault>, after: &Self) -> bool;

    /// The index of keyframe positions.
    spec fn index(&self) -> Seq<SeekEntry>;

    /// Check if this demuxer can handle the given data.
    fn probe(data: &[u8]) -> (r: bool)
        ensures
            r == Self::handles(data@),
    ;

    /// Parse the container header and extract media information.
    fn parse_header(&mut self, data: &[u8]) -> (r: Result<MediaInfo, DemuxError>)
        requires
            old(self).valid(),
        ensures
            final(self).valid(),
            old(self).parses(data@, info_view(r), final(self)),
    ;

    /// Get the next encoded chunk (video or audio sample).
    fn next_chunk(&mut self) -> (r: Result<Option<EncodedChunk>, DemuxError>)
        requires
            old(self).valid(),
        ensures
            final(self).valid(),
            old(self).steps(step_view(r), final(self)),
    ;

    /// Seek to the nearest keyframe before the given timestamp.
    fn seek_to_keyframe(&mut self, timestamp_us: i64) -> (r: Result<(), DemuxError>)
        requires
            old(self).valid(),
        ensures
            final(self).valid(),
            old(self).seeks(timestamp_us, done_view(r), final(self)),
    ;

    /// Build a seek index from the parsed header.
    fn build_seek_index(&self) -> (r: SeekIndex)
        requires
            self.valid(),
        ensures
            r@ == self.index(),
    ;
}

impl Demuxer for Mp4Demuxer {
    open spec fn valid(&self) -> bool {
        self.wf()
    }

    open spec fn handles(data: Seq<u8>) -> bool {
        is_mp4(data)
    }

    open spec fn parses(&self, data: Seq<u8>, r: Result<MediaView, DemuxFault>, after: &Self) -> bool {
        let input = Mp4Input { bytes: data, size: data.len() as u64, virtual_base: 0, header_end: 0 };
        match mp4_fault(input) {
            Some(t) => r == Err::<MediaView, DemuxFault>(DemuxFault::InvalidData("MP4 parse error: "@ + t)) && after@ == self@,
            None => {
                &&& order_of(input, after@.order)
                &&& r == Ok::<MediaView, DemuxFault>(mp4_info(input, after@.order))
                &&& after@ == mp4_parsed(input, after@.order, u64::MAX)
            },
        }
    }

    open spec fn steps(&self, r: Result<Option<ChunkView>, DemuxFault>, after: &Self) -> bool {
        mp4_next(self@) == (r, after@)
    }

    open spec fn seeks(&self, timestamp_us: i64, r: Result<(), DemuxFault>, after: &Self) -> bool {
        mp4_sought(self@, timestamp_us) == (r, after@)
    }

    open spec fn index(&self) -> Seq<SeekEntry> {
        match self@.input {
            Some(input) => sorted_by(index_from(input, self@.order, 0), SeekKey::Timestamp),
            None => Seq::empty(),
        }
    }

    fn probe(data: &[u8]) -> (r: bool) {
        Mp4Demuxer::probe(data)
    }

    fn parse_header(&mut self, data: &[u8]) -> (r: Result<MediaInfo, DemuxError>) {
        Mp4Demuxer::parse_header(self, data)
    }

    fn next_chunk(&mut self) -> (r: Result<Option<EncodedChunk>, DemuxError>) {
        Mp4Demuxer::next_chunk(self)
    }

    fn seek_to_keyframe(&mut self, timestamp_us: i64) -> (r: Result<(), DemuxError>) {
        Mp4Demuxer::seek_to_keyframe(self, timestamp_us)
    }

    fn build_seek_index(&self) -> (r: SeekIndex) {
        Mp4Demuxer::build_seek_index(self)
    }
}

impl Demuxer for MkvDemuxer {
    open spec fn valid(&self) -> bool {
        self.wf()
    }

    open spec fn handles(data: Seq<u8>) -> bool {
        is_ebml(data)
    }

    open spec fn parses(&self, data: Seq<u8>, r: Result<MediaView, DemuxFault>, after: &Self) -> bool {
        match mkv_parsed(self@, data) {
            Ok(v) => after@ == v && (r matches Ok(info) && v.media_info == Some(info)),
            Err(f) => after@ == self@ && r == Err::<MediaView, DemuxFault>(f),
        }
    }

    open spec fn steps(&self, r: Result<Option<ChunkView>, DemuxFault>, after: &Self) -> bool {
        mkv_next(self@) == (r, after@)
    }

    open spec fn seeks(&self, timestamp_us: i64, r: Result<(), DemuxFault>, after: &Self) -> bool {
        mkv_sought(self@, timestamp_us) == (r, after@)
    }

    open spec fn index(&self) -> Seq<SeekEntry> {
        self@.seek_index
    }

    fn probe(data: &[u8]) -> (r: bool) {
        MkvDemuxer::probe(data)
    }

    fn parse_header(&mut self, data: &[u8]) -> (r: Result<MediaInfo, DemuxError>) {
        MkvDemuxer::parse_header(self, data)
    }

    fn next_chunk(&mut self) -> (r: Result<Option<EncodedChunk>, DemuxError>) {
        MkvDemuxer::next_chunk(self)
    }

    fn seek_to_keyframe(&mut self, timestamp_us: i64) -> (r: Result<(), DemuxError>) {
        MkvDemuxer::seek_to_keyframe(self, timestamp_us)
    }

    fn build_seek_index(&self) -> (r: SeekIndex) {
        MkvDemuxer::build_seek_index(self)
    }
}

} // verus!
