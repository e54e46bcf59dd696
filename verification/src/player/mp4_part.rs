//! Demuxing an MP4 download step by step.

use std::collections::VecDeque;

use vstd::prelude::*;
use vstd::string::*;

use crate::demux::boxes::{build_header_buffer, header_buffer, LayoutView, Mp4Layout};
use crate::demux::isomp4::Mp4Input;
use crate::demux::mp4::{
    cursor_tracks, lemma_earliest_among, mp4_next, mp4_parsed, mp4_sought, mp4_stands_at, order_of, Mp4Demuxer, Mp4View,
};
use crate::demux::types::{chunk_views, fault_text, ChunkView, DemuxError, DemuxFault, EncodedChunk};
use crate::demux::walk::mp4_fault;

verus! {

/// How much new data makes it worth to parse an MP4 header again while chunks are
/// waiting.
pub const MIN_NEW_BYTES: usize = 65536;

/// The next chunks of a demuxer, at most `n`, and the demuxer after them.
pub open spec fn mp4_drained(v: Mp4View, n: nat) -> (Seq<ChunkView>, Mp4View)
    decreases n,
{
    if n == 0 {
        (Seq::empty(), v)
    } else {
        match mp4_next(v) {
            (Ok(Some(c)), w) => {
                let (rest, end) = mp4_drained(w, (n - 1) as nat);
                (seq![c] + rest, end)
            },
            (_, w) => (Seq::empty(), w),
        }
    }
}

/// A demuxer of a download and where it stands.
pub struct Mp4Part {
    /// Cached demuxer, avoids re-parse when no new data arrived.
    pub demuxer: Option<Mp4Demuxer>,
    /// Resume cursors (track_id, sample_index).
    pub cursors: Option<Vec<(u32, u32)>>,
    /// Data length when the cached demuxer was created.
    pub cache_len: usize,
}

/// A demuxer of a download as views.
#[verifier::ext_equal]
pub struct Mp4PartView {
    pub demuxer: Option<Mp4View>,
    pub cursors: Option<Seq<(u32, u32)>>,
    pub cache_len: int,
}

impl View for Mp4Part {
    type V = Mp4PartView;

    open spec fn view(&self) -> Mp4PartView {
        Mp4PartView {
            demuxer: match self.demuxer {
                Some(d) => Some(d@),
                None => None,
            },
            cursors: match self.cursors {
                Some(c) => Some(c@),
                None => None,
            },
            cache_len: self.cache_len as int,
        }
    }
}

/// The input that a download makes.
pub open spec fn download_input(data: Seq<u8>, l: LayoutView) -> Mp4Input {
    let bytes = header_buffer(data, l.moov, l.mdat_offset, l.mdat_header_size);
    Mp4Input { bytes, size: bytes.len() as u64, virtual_base: 0, header_end: 0 }
}

/// How far samples may be read: not into a moov box that was put behind the data.
pub open spec fn download_limit(data: Seq<u8>, l: LayoutView) -> u64 {
    if l.moov is Some { data.len() as u64 } else { u64::MAX }
}

/// The demuxer of a download, before its first chunk.
pub open spec fn opened(data: Seq<u8>, l: LayoutView, order: Seq<u32>) -> Mp4View {
    Mp4View { limit: download_limit(data, l), ..mp4_parsed(download_input(data, l), order, u64::MAX) }
}

/// A demuxer moved to the cursors, where there are any.
pub open spec fn resumed(v: Mp4View, cursors: Option<Seq<(u32, u32)>>) -> Mp4View {
    match cursors {
        Some(c) => Mp4View { cursors: c, ..v },
        None => v,
    }
}

/// What a cached demuxer still gives.
pub open spec fn cached_chunks(p: Mp4PartView, batch: usize) -> (Seq<ChunkView>, Mp4PartView) {
    match p.demuxer {
        None => (Seq::empty(), p),
        Some(v) => {
            let (chunks, w) = mp4_drained(v, batch as nat);
            if chunks.len() > 0 {
                (chunks, Mp4PartView { demuxer: Some(w), cursors: Some(w.cursors), ..p })
            } else {
                (chunks, Mp4PartView { demuxer: Some(w), ..p })
            }
        },
    }
}

/// The chunks that a step gives, the demuxer after it, and whether it looked at
/// all the data. `idle` says that no chunks are waiting, `order` in which order
/// the tracks of a new demuxer are listed. At most `batch` chunks are given.
pub open spec fn mp4_demuxed(p: Mp4PartView, batch: usize, idle: bool, data: Seq<u8>, l: LayoutView, order: Seq<u32>) -> (Seq<ChunkView>, Mp4PartView, bool) {
    let (chunks, cached) = cached_chunks(p, batch);
    if chunks.len() > 0 {
        (chunks, cached, true)
    } else if data.len() <= p.cache_len + if idle { 0 } else { MIN_NEW_BYTES as int } {
        (Seq::empty(), cached, false)
    } else if mp4_fault(download_input(data, l)) is Some {
        (Seq::empty(), cached, true)
    } else {
        let (more, w) = mp4_drained(resumed(opened(data, l, order), p.cursors), batch as nat);
        (more, Mp4PartView { demuxer: Some(w), cursors: Some(w.cursors), cache_len: data.len() as int }, true)
    }
}

/// The track order of a demuxer.
pub open spec fn part_order(p: Mp4PartView) -> Seq<u32> {
    match p.demuxer {
        Some(v) => v.order,
        None => Seq::empty(),
    }
}

/// The time where a seek has come to; the one asked for where no frame can be
/// read there.
pub open spec fn landed(at: Option<i64>, timestamp_us: i64) -> i64 {
    match at {
        Some(t) => t,
        None => timestamp_us,
    }
}

/// The time where a seek has come to.
pub fn landing(at: Option<i64>, timestamp_us: i64) -> (r: i64)
    ensures
        r == landed(at, timestamp_us),
{
    match at {
        Some(t) => t,
        None => timestamp_us,
    }
}

/// What a seek reads a header from; none where a demuxer is there, or where the
/// header cannot be read.
pub open spec fn part_input(p: Mp4PartView, data: Seq<u8>, l: LayoutView) -> Option<Mp4Input> {
    if p.demuxer is None && mp4_fault(download_input(data, l)) is None { Some(download_input(data, l)) } else { None }
}

/// The time that a seek comes to and the demuxer after it.
pub open spec fn mp4_part_sought(p: Mp4PartView, timestamp_us: i64, data: Seq<u8>, l: LayoutView, order: Seq<u32>) -> (Result<i64, Seq<char>>, Mp4PartView) {
    match p.demuxer {
        Some(v) => match mp4_sought(v, timestamp_us) {
            (Ok(()), w) => (Ok(landed(mp4_stands_at(w), timestamp_us)), Mp4PartView { demuxer: Some(w), cursors: Some(w.cursors), ..p }),
            (Err(f), w) => (Err("Seek error (cached): "@ + fault_text(f)), Mp4PartView { demuxer: Some(w), ..p }),
        },
        None => match mp4_fault(download_input(data, l)) {
            Some(t) => (Err("Seek: MP4 parse error: "@ + fault_text(DemuxFault::InvalidData("MP4 parse error: "@ + t))), p),
            None => {
                let w = mp4_sought(opened(data, l, order), timestamp_us).1;
                (
                    Ok(landed(mp4_stands_at(w), timestamp_us)),
                    Mp4PartView { demuxer: Some(w), cursors: Some(w.cursors), ..p },
                )
            },
        },
    }
}

proof fn lemma_drain_order(v: Mp4View, n: nat)
    ensures
        mp4_drained(v, n).1.order == v.order,
        mp4_drained(v, n).1.input == v.input,
    decreases n,
{
    if n > 0 {
        if mp4_next(v).0 matches Ok(Some(c)) {
            lemma_drain_order(mp4_next(v).1, (n - 1) as nat);
        }
    }
}

/// Draining keeps the tracks of the cursors.
pub(crate) proof fn lemma_drain_tracks(v: Mp4View, n: nat)
    ensures
        cursor_tracks(mp4_drained(v, n).1.cursors) == cursor_tracks(v.cursors),
    decreases n,
{
    if n > 0 {
        if let Ok(Some(_)) = mp4_next(v).0 {
            let w = mp4_next(v).1;
            lemma_earliest_among(v.input->Some_0, v.limit, v.cursors, v.cursors.len());
            assert(cursor_tracks(w.cursors) =~= cursor_tracks(v.cursors));
            lemma_drain_tracks(w, (n - 1) as nat);
        }
    }
}

/// Put the next chunks of a demuxer behind a queue, at most `n`. Gives their
/// number.
fn drain_mp4(d: &mut Mp4Demuxer, n: usize, queue: &mut VecDeque<EncodedChunk>) -> (count: usize)
    requires
        old(d).wf(),
    ensures
        final(d).wf(),
        ({
            let (chunks, end) = mp4_drained(old(d)@, n as nat);
            &&& final(d)@ == end
            &&& count == chunks.len()
            &&& chunk_views(final(queue)@) == chunk_views(old(queue)@) + chunks
        }),
{
    let ghost goal = mp4_drained(d@, n as nat);
    let ghost first = chunk_views(queue@);
    let mut count: usize = 0;
    let mut more: bool = true;
    assert(first + goal.0 =~= first + goal.0);
    while more && count < n
        invariant
            d.wf(),
            count <= n,
            more ==> ({
                let (rest, end) = mp4_drained(d@, (n - count) as nat);
                &&& goal.1 == end
                &&& goal.0.len() == count + rest.len()
                &&& first + goal.0 == chunk_views(queue@) + rest
            }),
            !more ==> goal.1 == d@ && goal.0.len() == count && first + goal.0 == chunk_views(queue@),
        decreases n - count, (if more { 1int } else { 0int }),
    {
        let ghost now = chunk_views(queue@);
        let ghost (rest, end) = mp4_drained(d@, (n - count) as nat);
        match d.next_chunk() {
            Ok(Some(c)) => {
                let ghost view = c@;
                queue.push_back(c);
                count = count + 1;
                assert(chunk_views(queue@) =~= now.push(view));
                assert(now + rest =~= now.push(view) + rest.drop_first());
                assert(rest.drop_first() =~= mp4_drained(d@, (n - count) as nat).0);
            },
            Ok(None) => {
                more = false;
                assert(now + Seq::<ChunkView>::empty() =~= now);
            },
            Err(_) => {
                more = false;
                assert(now + Seq::<ChunkView>::empty() =~= now);
            },
        }
    }
    proof {
        if more {
            assert(chunk_views(queue@) + Seq::<ChunkView>::empty() =~= chunk_views(queue@));
        }
    }
    count
}

impl Mp4Part {
    /// A cached demuxer is valid.
    pub open spec fn wf(&self) -> bool {
        self.demuxer matches Some(d) ==> d.wf()
    }

    /// No demuxer yet.
    pub fn new() -> (r: Self)
        ensures
            r.wf(),
            r@ == (Mp4PartView { demuxer: None, cursors: None, cache_len: 0 }),
    {
        Mp4Part { demuxer: None, cursors: None, cache_len: 0 }
    }

    /// Parse the header of a download.
    fn open(data: &Vec<u8>, layout: &Mp4Layout) -> (r: Result<Mp4Demuxer, DemuxError>)
        ensures
            match (r, mp4_fault(download_input(data@, layout@))) {
                (Ok(d), None) => d.wf() && order_of(download_input(data@, layout@), d@.order) && d@ == opened(data@, layout@, d@.order),
                (Err(e), Some(t)) => e@ == DemuxFault::InvalidData("MP4 parse error: "@ + t),
                _ => false,
            },
    {
        let buffer: Vec<u8> = build_header_buffer(data, layout);
        assert(buffer@ == download_input(data@, layout@).bytes);
        let mut d: Mp4Demuxer = Mp4Demuxer::new();
        match d.parse_header(buffer.as_slice()) {
            Err(e) => Err(e),
            Ok(_) => {
                if layout.moov.is_some() {
                    d.set_data_limit(data.len() as u64);
                }
                assert(d@ =~= opened(data@, layout@, d@.order));
                Ok(d)
            },
        }
    }

    /// Demux more chunks: from the cached demuxer, or, once that is used up and
    /// enough new data is there, from a new one that goes on where it stood.
    /// Says whether all the data was looked at.
    pub fn demux(&mut self, batch: usize, data: &Vec<u8>, layout: &Mp4Layout, queue: &mut VecDeque<EncodedChunk>) -> (looked: bool)
        requires
            old(self).wf(),
        ensures
            final(self).wf(),
            ({
                let (chunks, part, all) = mp4_demuxed(old(self)@, batch, old(queue)@.len() == 0, data@, layout@, part_order(final(self)@));
                &&& final(self)@ == part
                &&& looked == all
                &&& chunk_views(final(queue)@) == chunk_views(old(queue)@) + chunks
            }),
    {
        let ghost p = self@;
        let ghost first = chunk_views(queue@);
        let ghost before = self@;
        assert(first + Seq::<ChunkView>::empty() =~= first);
        if let Some(d) = &mut self.demuxer {
            let ghost v = d@;
            let count: usize = drain_mp4(d, batch, queue);
            if count > 0 {
                self.cursors = Some(d.sample_positions());
                assert(self@ =~= cached_chunks(p, batch).1);
                return true;
            }
        }
        assert(cached_chunks(p, batch).0.len() == 0);
        assert(cached_chunks(p, batch).0 =~= Seq::empty());
        assert(self@ =~= cached_chunks(p, batch).1);
        let idle: bool = queue.len() == 0;
        assert(chunk_views(queue@).len() == queue@.len());
        assert(first.len() == old(queue)@.len());
        let min_new_bytes: usize = if idle { 0 } else { MIN_NEW_BYTES };
        if data.len() <= self.cache_len || data.len() - self.cache_len <= min_new_bytes {
            return false;
        }
        match Self::open(data, layout) {
            Err(_) => true,
            Ok(d) => {
                let mut d: Mp4Demuxer = d;
                let ghost order = d@.order;
                if let Some(c) = &self.cursors {
                    d.set_sample_positions(copy_cursors(c));
                }
                assert(d@ =~= resumed(opened(data@, layout@, order), p.cursors));
                proof {
                    lemma_drain_order(d@, batch as nat);
                }
                drain_mp4(&mut d, batch, queue);
                self.cursors = Some(d.sample_positions());
                self.cache_len = data.len();
                self.demuxer = Some(d);
                assert(self@ =~= mp4_demuxed(p, batch, first.len() == 0, data@, layout@, order).1);
                true
            },
        }
    }

    /// Move to the nearest keyframe before `timestamp_us`: with the cached demuxer,
    /// or with a new one. Gives the time of that keyframe.
    pub fn seek(&mut self, timestamp_us: i64, data: &Vec<u8>, layout: &Mp4Layout) -> (r: Result<i64, String>)
        requires
            old(self).wf(),
        ensures
            final(self).wf(),
            ({
                let (done, part) = mp4_part_sought(old(self)@, timestamp_us, data@, layout@, part_order(final(self)@));
                &&& part_input(old(self)@, data@, layout@) matches Some(input) ==> order_of(input, part_order(final(self)@))
                &&& final(self)@ == part
                &&& match (r, done) {
                    (Ok(us), Ok(t)) => us == t,
                    (Err(e), Err(t)) => e@ == t,
                    _ => false,
                }
            }),
    {
        let ghost p = self@;
        if let Some(d) = &mut self.demuxer {
            let ghost v = d@;
            match d.seek_to_keyframe(timestamp_us) {
                Ok(()) => {
                    let at: Option<i64> = d.stands_at();
                    self.cursors = Some(d.sample_positions());
                    assert(self@ =~= mp4_part_sought(p, timestamp_us, data@, layout@, Seq::empty()).1);
                    return Ok(landing(at, timestamp_us));
                },
                Err(e) => {
                    let mut text: String = String::from_str("Seek error (cached): ");
                    text.append(e.message().as_str());
                    assert(self@ =~= mp4_part_sought(p, timestamp_us, data@, layout@, Seq::empty()).1);
                    return Err(text);
                },
            }
        }
        match Self::open(data, layout) {
            Err(e) => {
                let mut text: String = String::from_str("Seek: MP4 parse error: ");
                text.append(e.message().as_str());
                Err(text)
            },
            Ok(d) => {
                let mut d: Mp4Demuxer = d;
                let ghost order = d@.order;
                match d.seek_to_keyframe(timestamp_us) {
                    Ok(()) => {},
                    Err(_) => {},
                }
                let at: Option<i64> = d.stands_at();
                self.cursors = Some(d.sample_positions());
                self.demuxer = Some(d);
                assert(self@ =~= mp4_part_sought(p, timestamp_us, data@, layout@, order).1);
                Ok(landing(at, timestamp_us))
            },
        }
    }
}

/// The same cursors once more.
fn copy_cursors(c: &Vec<(u32, u32)>) -> (r: Vec<(u32, u32)>)
    ensures
        r@ == c@,
{
    let mut r: Vec<(u32, u32)> = Vec::new();
    let mut i: usize = 0;
    while i < c.len()
        invariant
            i <= c.len(),
            r@ =~= c@.take(i as int),
        decreases c.len() - i,
    {
        r.push(c[i]);
        i = i + 1;
    }
    r
}

/// Draining in two goes gives what one go over both gives: no chunk is lost or
/// given twice between them.
pub proof fn law_drain_goes_on(v: Mp4View, n: nat, m: nat)
    requires
        mp4_drained(v, n).0.len() == n,
    ensures
        mp4_drained(v, n + m).0 == mp4_drained(v, n).0 + mp4_drained(mp4_drained(v, n).1, m).0,
        mp4_drained(v, n + m).1 == mp4_drained(mp4_drained(v, n).1, m).1,
    decreases n,
{
    if n == 0 {
        assert(mp4_drained(v, 0).0 + mp4_drained(v, m).0 =~= mp4_drained(v, m).0);
    } else {
        match mp4_next(v) {
            (Ok(Some(c)), w) => {
                assert(mp4_drained(v, n).0.len() == 1 + mp4_drained(w, (n - 1) as nat).0.len());
                law_drain_goes_on(w, (n - 1) as nat, m);
                assert((n + m - 1) as nat == ((n - 1) as nat) + m);
                let a = mp4_drained(w, (n - 1) as nat).0;
                let b = mp4_drained(mp4_drained(w, (n - 1) as nat).1, m).0;
                assert(seq![c] + (a + b) =~= (seq![c] + a) + b);
            },
            _ => {},
        }
    }
}

} // verus!
