//! Demuxing an MKV/WebM download step by step.

use std::collections::VecDeque;

use vstd::prelude::*;
use vstd::string::*;

use crate::demux::boxes::bytes_view;
use crate::demux::ebml::{cluster_entries, scan_clusters_for_seek_index, without_seekhead};
use crate::demux::matroska::MkvOutcome;
use crate::demux::mkv::{fresh_mkv, mkv_given, mkv_next, mkv_parsed, mkv_skipped, mkv_sought, mkv_stands_at, MkvDemuxer, MkvView};
use crate::demux::types::{
    chunk_views, copy_bytes, entries_with, fault_text, keyframe_for, sorted_by, ChunkView, DemuxError, DemuxFault,
    EncodedChunk, SeekEntry, SeekIndex, SeekKey,
};
use crate::player::mp4_part::{landed, landing};

verus! {

/// The next chunks of a demuxer, at most `n`, and the demuxer after them.
pub open spec fn mkv_drained(v: MkvView, n: nat) -> (Seq<ChunkView>, MkvView)
    decreases n,
{
    if n == 0 {
        (Seq::empty(), v)
    } else {
        match mkv_next(v) {
            (Ok(Some(c)), w) => {
                let (rest, end) = mkv_drained(w, (n - 1) as nat);
                (seq![c] + rest, end)
            },
            (_, w) => (Seq::empty(), w),
        }
    }
}

/// Read on to the first chunk at or behind `resume_us`, at most `n` chunks far.
/// Kept are the chunks from the last video keyframe before it on, so that the
/// decoder has the reference frames it needs.
pub open spec fn caught_up(v: MkvView, resume_us: i64, held: Seq<ChunkView>, n: nat) -> (Seq<ChunkView>, MkvView)
    decreases n,
{
    if n == 0 {
        (held, v)
    } else {
        match mkv_next(v) {
            (Ok(Some(c)), w) => if c.timestamp_us >= resume_us {
                (held.push(c), w)
            } else if c.is_video && c.is_keyframe {
                caught_up(w, resume_us, seq![c], (n - 1) as nat)
            } else {
                caught_up(w, resume_us, held.push(c), (n - 1) as nat)
            },
            (_, w) => (held, w),
        }
    }
}

/// A demuxer of a download and where it stands.
pub struct MkvPart {
    /// Cached demuxer, avoids expensive re-parse + frame-skip.
    pub demuxer: Option<MkvDemuxer>,
    /// Number of frames already read.
    pub frames_read: usize,
    /// Timestamp of the last frame demuxed. Used to rebuild from the Cluster that
    /// holds it instead of from the start.
    pub last_ts_us: i64,
    /// Saved header bytes (EBML + Segment Info + Tracks, up to first Cluster).
    pub header: Option<Vec<u8>>,
    /// Data length when the cached demuxer was created.
    pub created_at: usize,
    /// How far the download has been scanned for Cluster entries.
    pub scanned: usize,
    /// TimestampScale in nanoseconds.
    pub scale_ns: u64,
}

/// A demuxer of a download as views.
#[verifier::ext_equal]
pub struct MkvPartView {
    pub demuxer: Option<MkvView>,
    pub frames_read: int,
    pub last_ts_us: i64,
    pub header: Option<Seq<u8>>,
    pub created_at: int,
    pub scanned: int,
    pub scale_ns: u64,
}

impl View for MkvPart {
    type V = MkvPartView;

    open spec fn view(&self) -> MkvPartView {
        MkvPartView {
            demuxer: match self.demuxer {
                Some(d) => Some(d@),
                None => None,
            },
            frames_read: self.frames_read as int,
            last_ts_us: self.last_ts_us,
            header: bytes_view(self.header),
            created_at: self.created_at as int,
            scanned: self.scanned as int,
            scale_ns: self.scale_ns,
        }
    }
}

/// The time of the last chunk, or `or` where there is none.
pub open spec fn last_time(chunks: Seq<ChunkView>, or: i64) -> i64 {
    if chunks.len() > 0 { chunks.last().timestamp_us } else { or }
}

/// What a cached demuxer still gives.
pub open spec fn cached_chunks(p: MkvPartView, batch: usize) -> (Seq<ChunkView>, MkvPartView) {
    match p.demuxer {
        None => (Seq::empty(), p),
        Some(v) => {
            let (chunks, w) = mkv_drained(v, batch as nat);
            (
                chunks,
                MkvPartView {
                    demuxer: Some(w),
                    frames_read: w.frames_read,
                    last_ts_us: last_time(chunks, p.last_ts_us),
                    ..p
                },
            )
        },
    }
}

/// The index with the Clusters of the data that has come since the last scan.
pub open spec fn index_scanned(p: MkvPartView, index: Seq<SeekEntry>, data: Seq<u8>) -> Seq<SeekEntry> {
    if data.len() > p.scanned {
        entries_with(index, sorted_by(cluster_entries(data, p.scale_ns, p.scanned), SeekKey::Timestamp))
    } else {
        index
    }
}

/// The part after a scan.
pub open spec fn part_scanned(p: MkvPartView, data: Seq<u8>) -> MkvPartView {
    MkvPartView { scanned: if data.len() > p.scanned { data.len() as int } else { p.scanned }, ..p }
}

/// The buffer to resume from: the header, and the data from the Cluster that holds
/// the last frame on.
pub open spec fn resume_buffer(p: MkvPartView, index: Seq<SeekEntry>, data: Seq<u8>) -> Option<Seq<u8>> {
    match (p.header, keyframe_for(index, p.last_ts_us as int)) {
        (Some(h), Some(e)) if p.last_ts_us > 0 && e.byte_offset < data.len() => Some(h + data.skip(e.byte_offset as int)),
        _ => None,
    }
}

/// A demuxer of a buffer.
pub open spec fn opened(buffer: Seq<u8>) -> Result<MkvView, DemuxFault> {
    mkv_parsed(fresh_mkv(), without_seekhead(buffer))
}

/// A demuxer that goes on where the last one stood, with the chunks that it must
/// give once more: from a short buffer where there is one and it parses, else from
/// all the data.
pub open spec fn rebuilt(p: MkvPartView, index: Seq<SeekEntry>, data: Seq<u8>) -> Option<(Seq<ChunkView>, MkvView)> {
    let full = match opened(data) {
        Err(_) => None,
        Ok(v) => Some((Seq::<ChunkView>::empty(), if p.frames_read > 0 { mkv_skipped(v, p.frames_read as nat).1 } else { v })),
    };
    match resume_buffer(p, index, data) {
        Some(b) => match opened(b) {
            Ok(v) => Some(caught_up(v, p.last_ts_us, Seq::empty(), usize::MAX as nat)),
            Err(_) => full,
        },
        None => full,
    }
}

/// How many chunks may still be drained.
pub open spec fn room_left(held: nat, batch: usize) -> nat {
    if held < batch { (batch - held) as nat } else { 0 }
}

/// The chunks that a step gives, the demuxer and the index after it, and whether
/// it looked at all the data. At most `batch` chunks are given, and those that are
/// given once more.
pub open spec fn mkv_demuxed(p: MkvPartView, batch: usize, index: Seq<SeekEntry>, data: Seq<u8>, looked_at: int) -> (Seq<ChunkView>, MkvPartView, Seq<SeekEntry>, bool) {
    let (chunks, cached) = cached_chunks(p, batch);
    if chunks.len() > 0 {
        (chunks, cached, index, true)
    } else if data.len() <= looked_at {
        (Seq::empty(), cached, index, false)
    } else {
        let found = index_scanned(cached, index, data);
        let part = part_scanned(cached, data);
        match rebuilt(part, found, data) {
            None => (Seq::empty(), part, found, true),
            Some((held, v)) => {
                let (more, w) = mkv_drained(v, room_left(held.len(), batch));
                (
                    held + more,
                    MkvPartView {
                        demuxer: Some(w),
                        frames_read: w.frames_read,
                        last_ts_us: last_time(more, part.last_ts_us),
                        created_at: data.len() as int,
                        ..part
                    },
                    found,
                    true,
                )
            },
        }
    }
}

/// The time that a seek comes to and the demuxer after it.
pub open spec fn mkv_part_sought(p: MkvPartView, timestamp_us: i64, data: Seq<u8>) -> (Result<i64, Seq<char>>, MkvPartView) {
    match opened(data) {
        Err(f) => (Err("Seek: MKV parse error: "@ + fault_text(f)), p),
        Ok(v) => match mkv_sought(v, timestamp_us) {
            (Err(f), _) => (Err("MKV seek error: "@ + fault_text(f)), p),
            (Ok(()), w) => (
                Ok(landed(mkv_stands_at(w), timestamp_us)),
                MkvPartView { demuxer: Some(w), frames_read: w.frames_read, created_at: data.len() as int, ..p },
            ),
        },
    }
}

/// Put the next chunks of a demuxer behind a queue, at most `n`. Gives their
/// number and the time of the last one.
fn drain_mkv(d: &mut MkvDemuxer, n: usize, queue: &mut VecDeque<EncodedChunk>, last_ts_us: i64) -> (r: (usize, i64))
    requires
        old(d).wf(),
    ensures
        final(d).wf(),
        ({
            let (chunks, end) = mkv_drained(old(d)@, n as nat);
            &&& final(d)@ == end
            &&& r.0 == chunks.len()
            &&& r.1 == last_time(chunks, last_ts_us)
            &&& chunk_views(final(queue)@) == chunk_views(old(queue)@) + chunks
        }),
{
    let ghost goal = mkv_drained(d@, n as nat);
    let ghost first = chunk_views(queue@);
    let mut count: usize = 0;
    let mut last: i64 = last_ts_us;
    let mut more: bool = true;
    let ghost mut done: Seq<ChunkView> = Seq::empty();
    assert(done + goal.0 =~= goal.0);
    assert(first + done =~= first);
    while more && count < n
        invariant
            d.wf(),
            count <= n,
            count == done.len(),
            last == last_time(done, last_ts_us),
            chunk_views(queue@) == first + done,
            more ==> goal.1 == mkv_drained(d@, (n - count) as nat).1 && goal.0 == done + mkv_drained(d@, (n - count) as nat).0,
            !more ==> goal.1 == d@ && goal.0 == done,
        decreases n - count, (if more { 1int } else { 0int }),
    {
        let ghost now = chunk_views(queue@);
        let ghost rest = mkv_drained(d@, (n - count) as nat).0;
        match d.next_chunk() {
            Ok(Some(c)) => {
                let ghost view = c@;
                last = c.timestamp_us;
                queue.push_back(c);
                count = count + 1;
                assert(chunk_views(queue@) =~= now.push(view));
                assert(now.push(view) =~= first + done.push(view));
                assert(done + rest =~= done.push(view) + mkv_drained(d@, (n - count) as nat).0);
                proof {
                    done = done.push(view);
                }
            },
            Ok(None) => {
                more = false;
                assert(done + Seq::<ChunkView>::empty() =~= done);
            },
            Err(_) => {
                more = false;
                assert(done + Seq::<ChunkView>::empty() =~= done);
            },
        }
    }
    proof {
        if more {
            assert(done + Seq::<ChunkView>::empty() =~= done);
        }
    }
    (count, last)
}

/// Read on to the first chunk at or behind `resume_us`, and keep the chunks from
/// the last video keyframe on.
fn catch_up(d: &mut MkvDemuxer, resume_us: i64) -> (held: Vec<EncodedChunk>)
    requires
        old(d).wf(),
    ensures
        final(d).wf(),
        (chunk_views(held@), final(d)@) == caught_up(old(d)@, resume_us, Seq::empty(), usize::MAX as nat),
{
    let ghost goal = caught_up(d@, resume_us, Seq::empty(), usize::MAX as nat);
    let mut held: Vec<EncodedChunk> = Vec::new();
    let mut left: usize = usize::MAX;
    assert(chunk_views(held@) =~= Seq::empty());
    while left > 0
        invariant
            d.wf(),
            goal == caught_up(d@, resume_us, chunk_views(held@), left as nat),
            goal == caught_up(old(d)@, resume_us, Seq::empty(), usize::MAX as nat),
        decreases left,
    {
        let ghost before = chunk_views(held@);
        match d.next_chunk() {
            Ok(Some(c)) => {
                let ghost view = c@;
                let reached: bool = c.timestamp_us >= resume_us;
                if !reached && c.is_video && c.is_keyframe {
                    held = Vec::new();
                    held.push(c);
                    assert(chunk_views(held@) =~= seq![view]);
                } else {
                    held.push(c);
                    assert(chunk_views(held@) =~= before.push(view));
                }
                if reached {
                    return held;
                }
            },
            Ok(None) => {
                return held;
            },
            Err(_) => {
                return held;
            },
        }
        left = left - 1;
    }
    held
}

/// Put chunks behind a queue.
fn put_back(queue: &mut VecDeque<EncodedChunk>, chunks: Vec<EncodedChunk>)
    ensures
        chunk_views(final(queue)@) == chunk_views(old(queue)@) + chunk_views(chunks@),
{
    let ghost first = chunk_views(queue@);
    let ghost all = chunk_views(chunks@);
    let mut rest: VecDeque<EncodedChunk> = VecDeque::new();
    let mut from: Vec<EncodedChunk> = chunks;
    while from.len() > 0
        invariant
            from.len() + rest.len() == all.len(),
            chunk_views(from@) == all.take(from.len() as int),
            chunk_views(rest@) == all.skip(from.len() as int),
        decreases from.len(),
    {
        let ghost n = from.len() as int;
        let ghost now = chunk_views(rest@);
        if let Some(c) = from.pop() {
            rest.push_front(c);
            assert(c@ == all.take(n)[n - 1]);
            assert(chunk_views(rest@) =~= seq![c@] + now);
            assert(seq![all[n - 1]] + all.skip(n) =~= all.skip(n - 1));
            assert(chunk_views(from@) =~= all.take(n - 1));
        }
    }
    assert(all.skip(0) =~= all);
    queue.append(&mut rest);
    assert(chunk_views(queue@) =~= first + all);
}

impl MkvPart {
    /// A cached demuxer is valid.
    pub open spec fn wf(&self) -> bool {
        self.demuxer matches Some(d) ==> d.wf()
    }

    /// No demuxer yet.
    pub fn new() -> (r: Self)
        ensures
            r.wf(),
            r@ == (MkvPartView {
                demuxer: None,
                frames_read: 0,
                last_ts_us: 0,
                header: None,
                created_at: 0,
                scanned: 0,
                scale_ns: 1_000_000,
            }),
    {
        MkvPart {
            demuxer: None,
            frames_read: 0,
            last_ts_us: 0,
            header: None,
            created_at: 0,
            scanned: 0,
            scale_ns: 1_000_000,
        }
    }

    /// Forget where the demuxer stood, for a download that begins anew.
    pub fn rewind(&mut self)
        ensures
            final(self).wf(),
            final(self)@ == (MkvPartView {
                demuxer: None,
                frames_read: 0,
                last_ts_us: 0,
                created_at: 0,
                scanned: 0,
                ..old(self)@
            }),
    {
        self.demuxer = None;
        self.frames_read = 0;
        self.last_ts_us = 0;
        self.created_at = 0;
        self.scanned = 0;
        assert(self@ =~= (MkvPartView {
            demuxer: None,
            frames_read: 0,
            last_ts_us: 0,
            created_at: 0,
            scanned: 0,
            ..old(self)@
        }));
    }

    /// The buffer to resume from.
    fn resume_from(&self, index: &SeekIndex, data: &Vec<u8>) -> (r: Option<Vec<u8>>)
        ensures
            bytes_view(r) == resume_buffer(self@, index@, data@),
    {
        if self.last_ts_us <= 0 {
            return None;
        }
        match (&self.header, index.lookup_keyframe(self.last_ts_us)) {
            (Some(h), Some(e)) => {
                if e.byte_offset < data.len() as u64 {
                    let mut buffer: Vec<u8> = copy_bytes(h);
                    let part: &[u8] = vstd::slice::slice_subrange(data.as_slice(), e.byte_offset as usize, data.len());
                    let mut rest: Vec<u8> = vstd::slice::slice_to_vec(part);
                    buffer.append(&mut rest);
                    assert(buffer@ =~= h@ + data@.skip(e.byte_offset as int));
                    Some(buffer)
                } else {
                    None
                }
            },
            _ => None,
        }
    }

    /// A demuxer of a buffer.
    fn open(buffer: Vec<u8>) -> (r: Result<MkvDemuxer, DemuxError>)
        ensures
            match r {
                Ok(d) => d.wf() && opened(buffer@) == Ok::<MkvView, DemuxFault>(d@),
                Err(e) => opened(buffer@) == Err::<MkvView, DemuxFault>(e@),
            },
    {
        let mut d: MkvDemuxer = MkvDemuxer::new();
        match d.parse_header_streaming_owned(buffer) {
            Ok(_) => Ok(d),
            Err(e) => Err(e),
        }
    }

    /// A demuxer that goes on where the last one stood, with the chunks that it
    /// must give once more.
    fn rebuild(&self, index: &SeekIndex, data: &Vec<u8>) -> (r: Option<(Vec<EncodedChunk>, MkvDemuxer)>)
        ensures
            match r {
                Some((held, d)) => d.wf() && rebuilt(self@, index@, data@) == Some((chunk_views(held@), d@)),
                None => rebuilt(self@, index@, data@) is None,
            },
    {
        if let Some(buffer) = self.resume_from(index, data) {
            if let Ok(d) = Self::open(buffer) {
                let mut d: MkvDemuxer = d;
                let held: Vec<EncodedChunk> = catch_up(&mut d, self.last_ts_us);
                return Some((held, d));
            }
        }
        match Self::open(copy_bytes(data)) {
            Err(_) => None,
            Ok(d) => {
                let mut d: MkvDemuxer = d;
                if self.frames_read > 0 {
                    match d.skip_frames(self.frames_read) {
                        Ok(()) => {},
                        Err(_) => {},
                    }
                }
                let held: Vec<EncodedChunk> = Vec::new();
                assert(chunk_views(held@) =~= Seq::empty());
                Some((held, d))
            },
        }
    }

    /// Demux more chunks: from the cached demuxer, or, once that is used up and new
    /// data is there, from a new one that goes on where it stood. A short buffer,
    /// with the header and the data from the last Cluster on, spares parsing all
    /// the data again. Says whether all the data was looked at; `looked_at` is how
    /// much the last step looked at.
    pub fn demux(&mut self, batch: usize, index: &mut SeekIndex, data: &Vec<u8>, looked_at: usize, queue: &mut VecDeque<EncodedChunk>) -> (looked: bool)
        requires
            old(self).wf(),
        ensures
            final(self).wf(),
            ({
                let (chunks, part, entries, all) = mkv_demuxed(old(self)@, batch, old(index)@, data@, looked_at as int);
                &&& final(self)@ == part
                &&& final(index)@ == entries
                &&& looked == all
                &&& chunk_views(final(queue)@) == chunk_views(old(queue)@) + chunks
            }),
    {
        let ghost p = self@;
        let ghost first = chunk_views(queue@);
        assert(first + Seq::<ChunkView>::empty() =~= first);
        if let Some(d) = &mut self.demuxer {
            let (count, last): (usize, i64) = drain_mkv(d, batch, queue, self.last_ts_us);
            self.last_ts_us = last;
            self.frames_read = d.frames_read();
            if count > 0 {
                assert(self@ =~= cached_chunks(p, batch).1);
                return true;
            }
        }
        assert(cached_chunks(p, batch).0 =~= Seq::empty());
        assert(self@ =~= cached_chunks(p, batch).1);
        let ghost cached = self@;
        if data.len() <= looked_at {
            return false;
        }
        if data.len() > self.scanned {
            let found: SeekIndex = scan_clusters_for_seek_index(data.as_slice(), self.scale_ns, self.scanned);
            index.add_found(found);
            self.scanned = data.len();
        }
        assert(index@ == index_scanned(cached, old(index)@, data@));
        assert(self@ =~= part_scanned(cached, data@));
        match self.rebuild(index, data) {
            None => true,
            Some((held, d)) => {
                let mut d: MkvDemuxer = d;
                let ghost part = self@;
                let ghost kept = chunk_views(held@);
                let room: usize = if held.len() < batch { batch - held.len() } else { 0 };
                put_back(queue, held);
                let (_count, last): (usize, i64) = drain_mkv(&mut d, room, queue, self.last_ts_us);
                self.last_ts_us = last;
                self.frames_read = d.frames_read();
                self.created_at = data.len();
                self.demuxer = Some(d);
                assert(self@ =~= mkv_demuxed(p, batch, old(index)@, data@, looked_at as int).1);
                assert(chunk_views(queue@) =~= first + mkv_demuxed(p, batch, old(index)@, data@, looked_at as int).0);
                true
            },
        }
    }

    /// Move to the nearest keyframe before `timestamp_us` in a download. Gives the
    /// time of that keyframe.
    pub fn seek(&mut self, timestamp_us: i64, data: &Vec<u8>) -> (r: Result<i64, String>)
        requires
            old(self).wf(),
        ensures
            final(self).wf(),
            ({
                let (done, part) = mkv_part_sought(old(self)@, timestamp_us, data@);
                &&& final(self)@ == part
                &&& match (r, done) {
                    (Ok(us), Ok(t)) => us == t,
                    (Err(e), Err(t)) => e@ == t,
                    _ => false,
                }
            }),
    {
        let ghost p = self@;
        match Self::open(copy_bytes(data)) {
            Err(e) => {
                let mut text: String = String::from_str("Seek: MKV parse error: ");
                text.append(e.message().as_str());
                Err(text)
            },
            Ok(d) => {
                let mut d: MkvDemuxer = d;
                match d.seek_and_tell(timestamp_us) {
                    Err(e) => {
                        let mut text: String = String::from_str("MKV seek error: ");
                        text.append(e.message().as_str());
                        Err(text)
                    },
                    Ok(at) => {
                        self.frames_read = d.frames_read();
                        self.demuxer = Some(d);
                        self.created_at = data.len();
                        assert(self@ =~= mkv_part_sought(p, timestamp_us, data@).1);
                        Ok(landing(at, timestamp_us))
                    },
                }
            },
        }
    }
}

// ---------------------------------------------------------------------------
// Laws
// ---------------------------------------------------------------------------

/// What is given once more after a rebuild begins with a video keyframe, where one
/// was passed on the way, and only its last chunk reaches the resume point.
pub proof fn law_catch_up_starts_at_keyframe(v: MkvView, resume_us: i64, held: Seq<ChunkView>, n: nat)
    requires
        held.len() > 0 && held[0].is_video && held[0].is_keyframe,
        forall|i: int| 0 <= i < held.len() ==> (#[trigger] held[i]).timestamp_us < resume_us,
    ensures
        ({
            let r = caught_up(v, resume_us, held, n).0;
            &&& r.len() > 0 && r[0].is_video && r[0].is_keyframe
            &&& forall|i: int| 0 <= i < r.len() - 1 ==> (#[trigger] r[i]).timestamp_us < resume_us
        }),
    decreases n,
{
    if n > 0 {
        match mkv_next(v) {
            (Ok(Some(c)), w) => {
                if c.timestamp_us < resume_us {
                    if c.is_video && c.is_keyframe {
                        law_catch_up_starts_at_keyframe(w, resume_us, seq![c], (n - 1) as nat);
                    } else {
                        law_catch_up_starts_at_keyframe(w, resume_us, held.push(c), (n - 1) as nat);
                    }
                }
            },
            _ => {},
        }
    }
}

/// Draining in two goes gives what one go over both gives: no chunk is lost or
/// given twice between them.
pub proof fn law_drain_goes_on(v: MkvView, n: nat, m: nat)
    requires
        mkv_drained(v, n).0.len() == n,
    ensures
        mkv_drained(v, n + m).0 == mkv_drained(v, n).0 + mkv_drained(mkv_drained(v, n).1, m).0,
        mkv_drained(v, n + m).1 == mkv_drained(mkv_drained(v, n).1, m).1,
    decreases n,
{
    if n == 0 {
        assert(mkv_drained(v, 0).0 + mkv_drained(v, m).0 =~= mkv_drained(v, m).0);
    } else {
        match mkv_next(v) {
            (Ok(Some(c)), w) => {
                assert(mkv_drained(v, n).0.len() == 1 + mkv_drained(w, (n - 1) as nat).0.len());
                law_drain_goes_on(w, (n - 1) as nat, m);
                assert((n + m - 1) as nat == ((n - 1) as nat) + m);
                let a = mkv_drained(w, (n - 1) as nat).0;
                let b = mkv_drained(mkv_drained(w, (n - 1) as nat).1, m).0;
                assert(seq![c] + (a + b) =~= (seq![c] + a) + b);
            },
            _ => {},
        }
    }
}

/// Draining gives the frames in their order, one chunk for each: chunk `i` is the frame
/// behind `i` others from where the demuxer stands.
pub proof fn law_drained_in_order(v: MkvView, n: nat, i: int)
    requires
        v.reader is Some,
        0 <= i < mkv_drained(v, n).0.len(),
    ensures
        ({
            let p = v.reader->Some_0;
            let (chunks, w) = mkv_drained(v, n);
            &&& chunks.len() <= n
            &&& mkv_given(p.data, (p.calls + i) as nat) matches MkvOutcome::Frame(f) && chunks[i].data == f.data && chunks[i].is_video == v.video_ids.contains(f.track)
            &&& w.reader matches Some(q) && q.data == p.data && q.calls == p.calls + chunks.len()
        }),
    decreases n,
{
    let p = v.reader->Some_0;
    match mkv_next(v) {
        (Ok(Some(c)), w) => {
            let rest = mkv_drained(w, (n - 1) as nat).0;
            let chunks = mkv_drained(v, n).0;
            assert(chunks == seq![c] + rest);
            lemma_drained_calls(w, (n - 1) as nat);
            if i > 0 {
                law_drained_in_order(w, (n - 1) as nat, i - 1);
                assert(chunks[i] == rest[i - 1]);
                let q = w.reader->Some_0;
                assert((q.calls + (i - 1)) as nat == (p.calls + i) as nat);
            } else {
                assert(chunks[0] == c);
            }
        },
        _ => {},
    }
}

proof fn lemma_drained_calls(v: MkvView, n: nat)
    requires
        v.reader is Some,
    ensures
        ({
            let p = v.reader->Some_0;
            let (chunks, w) = mkv_drained(v, n);
            &&& chunks.len() <= n
            &&& w.reader matches Some(q) && q.data == p.data && q.calls == p.calls + chunks.len()
        }),
    decreases n,
{
    if n > 0 {
        if let (Ok(Some(c)), w) = mkv_next(v) {
            lemma_drained_calls(w, (n - 1) as nat);
        }
    }
}

/// A demuxer that is made anew reads the header of the file and its data from the latest
/// keyframe on that is not behind the last chunk.
pub proof fn law_resume_at_keyframe(p: MkvPartView, index: Seq<SeekEntry>, data: Seq<u8>)
    requires
        p.header is Some,
        p.last_ts_us > 0,
        keyframe_for(index, p.last_ts_us as int) matches Some(e) && e.byte_offset < data.len(),
    ensures
        ({
            let h = p.header->Some_0;
            let e = keyframe_for(index, p.last_ts_us as int)->Some_0;
            &&& resume_buffer(p, index, data) matches Some(b) && b.take(h.len() as int) == h && b.skip(h.len() as int) == data.skip(e.byte_offset as int)
        }),
{
    let h = p.header->Some_0;
    let e = keyframe_for(index, p.last_ts_us as int)->Some_0;
    let b = h + data.skip(e.byte_offset as int);
    assert(b.take(h.len() as int) =~= h);
    assert(b.skip(h.len() as int) =~= data.skip(e.byte_offset as int));
}

} // verus!
