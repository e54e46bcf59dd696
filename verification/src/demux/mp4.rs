//! MP4 demuxer.

use std::cell::Cell;
use std::rc::Rc;

use vstd::prelude::*;
use vstd::string::*;

use crate::demux::boxes::{
    boxes_from, box_views, locate_moov, moov_from, scan_top_level_boxes, MoovLocation, Mp4Box,
};
use crate::demux::detect::is_mp4;
use crate::demux::isomp4::{
    aac_config, avc_config, channel_config, chunk_offsets, chunk_runs, fragment_counts, fragment_delta, input_of,
    long_chunk_offsets, media_duration, media_kind, movie_duration, mp4_movie, mp4_source, mp4_tracks, open,
    picture_size, read_sample, sample_of, sample_rate, sample_sizes, sync_samples, time_runs, track_ids, track_kind,
    LimitedCursor, Mp4Input, Mp4Sample, Mp4Source, SampleView,
};
use crate::demux::track::{
    law_scaled_time, indexable, mp4_audio_view, mp4_video_view, sample_sound, sample_total, scaled_us, sync_entries, Track,
    TrackBasics, TrackKind, TrackView,
};
use crate::demux::ebml::{divide, to_signed};
use crate::demux::types::{
    audio_views, sorted_by, video_views, AudioTrackInfo, AudioView, ChunkView, ContainerFormat, DemuxError,
    DemuxFault, EncodedChunk, MediaInfo, MediaView, SeekEntry, SeekIndex, SeekKey, VideoTrackInfo, VideoView,
};
use crate::demux::walk::{check_header, header_sound, mp4_fault};

verus! {

/// MP4 demuxer using the `mp4` crate.
pub struct Mp4Demuxer {
    pub reader: Option<mp4::Mp4Reader<LimitedCursor>>,
    pub media_info: Option<MediaInfo>,
    /// Current sample indices per track (track_id -> next sample index, 1-based).
    pub sample_cursors: Vec<(u32, u32)>,
    /// The tracks, in the order in which they were listed.
    pub tracks: Vec<Track>,
    /// Handle to control the read limit on the internal cursor.
    pub read_limit: Option<Rc<Cell<u64>>>,
    /// The read limit for sample data.
    pub data_limit: u64,
}

/// The state of a demuxer.
#[verifier::ext_equal]
pub struct Mp4View {
    pub input: Option<Mp4Input>,
    pub limit: u64,
    pub info: Option<MediaView>,
    pub cursors: Seq<(u32, u32)>,
    pub order: Seq<u32>,
}

/// The numbers of tracks.
pub open spec fn track_numbers(tracks: Seq<Track>) -> Seq<u32> {
    Seq::new(tracks.len(), |i: int| tracks[i].id)
}

impl View for Mp4Demuxer {
    type V = Mp4View;

    open spec fn view(&self) -> Mp4View {
        Mp4View {
            input: match self.reader {
                Some(r) => Some(mp4_source(r).input),
                None => None,
            },
            limit: self.data_limit,
            info: match self.media_info {
                Some(i) => Some(i@),
                None => None,
            },
            cursors: self.sample_cursors@,
            order: track_numbers(self.tracks@),
        }
    }
}

/// The state of a demuxer that has parsed nothing.
pub open spec fn fresh_mp4() -> Mp4View {
    Mp4View { input: None, limit: u64::MAX, info: None, cursors: Seq::empty(), order: Seq::empty() }
}

/// Whether `tracks` are the tracks of the header, each once.
pub open spec fn tracks_listed(input: Mp4Input, tracks: Seq<Track>) -> bool {
    &&& order_of(input, track_numbers(tracks))
    &&& forall|i: int| 0 <= i < tracks.len() ==> mp4_tracks(input)[(#[trigger] tracks[i]).id] == tracks[i]@
}

/// Whether `order` names each track of the header once.
pub open spec fn order_of(input: Mp4Input, order: Seq<u32>) -> bool {
    order.no_duplicates() && order.to_set() == mp4_tracks(input).dom()
}

// ---------------------------------------------------------------------------
// Media information
// ---------------------------------------------------------------------------

/// The video tracks among the first `n` listed ones.
pub open spec fn video_list(input: Mp4Input, order: Seq<u32>, n: nat) -> Seq<VideoView>
    decreases n,
{
    if n == 0 {
        Seq::empty()
    } else {
        let l = video_list(input, order, (n - 1) as nat);
        let t = mp4_tracks(input)[order[n - 1]];
        if t.basics.kind == TrackKind::Video { l.push(mp4_video_view(order[n - 1], t)) } else { l }
    }
}

/// The audio tracks among the first `n` listed ones.
pub open spec fn audio_list(input: Mp4Input, order: Seq<u32>, n: nat) -> Seq<AudioView>
    decreases n,
{
    if n == 0 {
        Seq::empty()
    } else {
        let l = audio_list(input, order, (n - 1) as nat);
        let t = mp4_tracks(input)[order[n - 1]];
        if t.basics.kind == TrackKind::Audio { l.push(mp4_audio_view(order[n - 1], t)) } else { l }
    }
}

/// The first sample of each video or audio track among the first `n` listed ones.
pub open spec fn first_samples(input: Mp4Input, order: Seq<u32>, n: nat) -> Seq<(u32, u32)>
    decreases n,
{
    if n == 0 {
        Seq::empty()
    } else {
        let l = first_samples(input, order, (n - 1) as nat);
        if mp4_tracks(input)[order[n - 1]].basics.kind == TrackKind::Other { l } else { l.push((order[n - 1], 1u32)) }
    }
}

/// The tracks of cursors.
pub open spec fn cursor_tracks(cursors: Seq<(u32, u32)>) -> Seq<u32> {
    Seq::new(cursors.len(), |i: int| cursors[i].0)
}

/// Whether a track of the header is a video or audio track.
pub open spec fn is_played(input: Mp4Input, id: u32) -> bool {
    mp4_tracks(input).dom().contains(id) && mp4_tracks(input)[id].basics.kind != TrackKind::Other
}

/// Whether cursors name each video and audio track of the header once, and no other.
pub open spec fn names_tracks(input: Mp4Input, cursors: Seq<(u32, u32)>) -> bool {
    &&& cursor_tracks(cursors).no_duplicates()
    &&& forall|id: u32| #[trigger] cursor_tracks(cursors).contains(id) <==> is_played(input, id)
}

/// The first samples of the listed tracks are those of the video and audio tracks.
pub(crate) proof fn lemma_first_samples(input: Mp4Input, order: Seq<u32>, n: nat)
    requires
        n <= order.len(),
        order_of(input, order),
    ensures
        ({
            let ids = cursor_tracks(first_samples(input, order, n));
            &&& ids.no_duplicates()
            &&& forall|id: u32| #[trigger] ids.contains(id) <==> order.take(n as int).contains(id) && is_played(input, id)
        }),
        n == order.len() ==> names_tracks(input, first_samples(input, order, n)),
    decreases n,
{
    let l = first_samples(input, order, n);
    let ids = cursor_tracks(l);
    if n > 0 {
        let m = (n - 1) as nat;
        let last = order[n - 1];
        lemma_first_samples(input, order, m);
        let before = cursor_tracks(first_samples(input, order, m));
        assert(order.take(n as int) =~= order.take(m as int).push(last));
        assert(order.to_set().contains(last));
        assert(!order.take(m as int).contains(last)) by {
            if order.take(m as int).contains(last) {
                let j = order.take(m as int).index_of(last);
                assert(order[j] == order[n - 1]);
            }
        }
        assert(!before.contains(last));
        if is_played(input, last) {
            assert(ids =~= before.push(last));
            assert forall|i: int, j: int| 0 <= i < ids.len() && 0 <= j < ids.len() && i != j implies ids[i] != ids[j] by {
                if i == ids.len() - 1 {
                    assert(before.contains(before[j]));
                } else if j == ids.len() - 1 {
                    assert(before.contains(before[i]));
                }
            }
        } else {
            assert(ids =~= before);
        }
        assert forall|id: u32| #[trigger] ids.contains(id) <==> order.take(n as int).contains(id) && is_played(input, id) by {
            assert(order.take(n as int).contains(id) <==> order.take(m as int).contains(id) || id == last) by {
                if order.take(m as int).contains(id) {
                    let j = order.take(m as int).index_of(id);
                    assert(order.take(n as int)[j] == id);
                }
                assert(order.take(n as int)[n - 1] == last);
            }
            if is_played(input, last) {
                if before.contains(id) {
                    let j = before.index_of(id);
                    assert(ids[j] == id);
                }
                assert(ids[ids.len() - 1] == last);
                if ids.contains(id) && id != last {
                    let j = ids.index_of(id);
                    assert(before[j] == id);
                }
            }
        }
    }
    if n == order.len() {
        assert(order.take(n as int) =~= order);
        assert forall|id: u32| #[trigger] ids.contains(id) <==> is_played(input, id) by {
            assert(order.to_set().contains(id) == order.contains(id));
        }
    }
}

/// The duration of the movie in microseconds, cut to whole milliseconds; none
/// where the header gives no time scale or the number does not fit.
pub open spec fn movie_us(movie: (u64, u32)) -> Option<i64> {
    if movie.1 == 0 {
        None
    } else {
        let us = movie.0 as int * 1000 / movie.1 as int * 1000;
        if us <= i64::MAX { Some(us as i64) } else { None }
    }
}

/// What a header says of the media.
pub open spec fn mp4_info(input: Mp4Input, order: Seq<u32>) -> MediaView {
    MediaView {
        container: ContainerFormat::Mp4,
        duration_us: movie_us(mp4_movie(input)),
        video_tracks: video_list(input, order, order.len()),
        audio_tracks: audio_list(input, order, order.len()),
    }
}

/// The state after a header has been parsed.
pub open spec fn mp4_parsed(input: Mp4Input, order: Seq<u32>, limit: u64) -> Mp4View {
    Mp4View {
        input: Some(input),
        limit,
        info: Some(mp4_info(input, order)),
        cursors: first_samples(input, order, order.len()),
        order,
    }
}

/// The duration of the movie in microseconds.
fn movie_micros(duration: u64, timescale: u32) -> (r: Option<i64>)
    ensures
        r == movie_us((duration, timescale)),
{
    if timescale == 0 {
        return None;
    }
    let n: u128 = duration as u128 * 1000;
    let ms: u128 = n / (timescale as u128);
    proof {
        vstd::arithmetic::div_mod::lemma_div_is_ordered_by_denominator(n as int, 1, timescale as int);
    }
    let us: u128 = ms * 1000;
    if us <= 0x7fff_ffff_ffff_ffff { Some(us as i64) } else { None }
}

/// The track with the given number, with all its tables.
fn read_track(r: &mp4::Mp4Reader<LimitedCursor>, id: u32) -> (t: Track)
    requires
        mp4_tracks(mp4_source(*r).input).dom().contains(id),
    ensures
        t.id == id,
        t@ == mp4_tracks(mp4_source(*r).input)[id],
{
    let (width, height): (u16, u16) = picture_size(r, id);
    let (duration, timescale): (u64, u32) = media_duration(r, id);
    let t: Track = Track {
        id,
        basics: TrackBasics {
            kind: track_kind(r, id),
            media: media_kind(r, id),
            width,
            height,
            timescale,
            duration,
            channel_config: channel_config(r, id),
            sample_rate: sample_rate(r, id),
        },
        avc: avc_config(r, id),
        aac: aac_config(r, id),
        stss: sync_samples(r, id),
        stts: time_runs(r, id),
        stsc: chunk_runs(r, id),
        stco: chunk_offsets(r, id),
        co64: long_chunk_offsets(r, id),
        stsz: sample_sizes(r, id),
        fragments: fragment_counts(r, id),
        fragment_delta: fragment_delta(r, id),
    };
    assert(t@ =~= mp4_tracks(mp4_source(*r).input)[id]);
    t
}

/// All tracks, in the order in which the reader lists them.
fn read_tracks(r: &mp4::Mp4Reader<LimitedCursor>) -> (v: Vec<Track>)
    ensures
        tracks_listed(mp4_source(*r).input, v@),
{
    let ids: Vec<u32> = track_ids(r);
    let ghost input = mp4_source(*r).input;
    let mut v: Vec<Track> = Vec::new();
    let mut i: usize = 0;
    while i < ids.len()
        invariant
            i <= ids.len(),
            v.len() == i,
            input == mp4_source(*r).input,
            ids@.to_set() == mp4_tracks(input).dom(),
            forall|j: int| 0 <= j < i ==> (#[trigger] v@[j]).id == ids[j] && mp4_tracks(input)[v@[j].id] == v@[j]@,
        decreases ids.len() - i,
    {
        assert(ids@.to_set().contains(ids@[i as int]));
        v.push(read_track(r, ids[i]));
        i = i + 1;
    }
    assert(track_numbers(v@) =~= ids@);
    v
}

/// The media information of parsed tracks.
fn list_media(input: Ghost<Mp4Input>, tracks: &Vec<Track>, movie: (u64, u32)) -> (r: (MediaInfo, Vec<(u32, u32)>))
    requires
        tracks_listed(input@, tracks@),
        movie == mp4_movie(input@),
    ensures
        r.0@ == mp4_info(input@, track_numbers(tracks@)),
        r.1@ == first_samples(input@, track_numbers(tracks@), tracks.len() as nat),
{
    let ghost order = track_numbers(tracks@);
    let mut video_tracks: Vec<VideoTrackInfo> = Vec::new();
    let mut audio_tracks: Vec<AudioTrackInfo> = Vec::new();
    let mut cursors: Vec<(u32, u32)> = Vec::new();
    assert(video_views(video_tracks@) =~= Seq::empty());
    assert(audio_views(audio_tracks@) =~= Seq::empty());
    let mut i: usize = 0;
    while i < tracks.len()
        invariant
            i <= tracks.len(),
            order == track_numbers(tracks@),
            tracks_listed(input@, tracks@),
            video_views(video_tracks@) == video_list(input@, order, i as nat),
            audio_views(audio_tracks@) == audio_list(input@, order, i as nat),
            cursors@ == first_samples(input@, order, i as nat),
        decreases tracks.len() - i,
    {
        let ghost videos = video_tracks@;
        let ghost audios = audio_tracks@;
        assert(order[i as int] == tracks@[i as int].id);
        match tracks[i].basics.kind {
            TrackKind::Video => {
                video_tracks.push(tracks[i].video_info());
                cursors.push((tracks[i].id, 1));
                assert(video_views(video_tracks@) =~= video_views(videos).push(video_tracks@.last()@));
            },
            TrackKind::Audio => {
                audio_tracks.push(tracks[i].audio_info());
                cursors.push((tracks[i].id, 1));
                assert(audio_views(audio_tracks@) =~= audio_views(audios).push(audio_tracks@.last()@));
            },
            TrackKind::Other => {},
        }
        i = i + 1;
    }
    let info: MediaInfo = MediaInfo {
        container: ContainerFormat::Mp4,
        duration_us: movie_micros(movie.0, movie.1),
        video_tracks,
        audio_tracks,
    };
    (info, cursors)
}

// ---------------------------------------------------------------------------
// Samples
// ---------------------------------------------------------------------------

/// A sample that a track can give under a limit; none where its tables do not
/// hold it.
pub open spec fn readable(input: Mp4Input, limit: u64, track_id: u32, sample_id: u32) -> Option<SampleView> {
    let t = mp4_tracks(input)[track_id];
    if sample_sound(t, sample_id as int) { sample_of(input, limit, t, track_id, sample_id) } else { None }
}

/// A time of a track in microseconds; zero where it has no time scale.
pub open spec fn track_us(time: u64, timescale: u32) -> i64 {
    if timescale > 0 { scaled_us(time, timescale) } else { 0 }
}

/// The chunk that a sample makes.
pub open spec fn sample_chunk(track_id: u32, t: TrackView, s: SampleView) -> ChunkView {
    ChunkView {
        track_id,
        is_video: t.basics.kind == TrackKind::Video,
        is_audio: t.basics.kind != TrackKind::Video,
        is_keyframe: s.is_sync,
        timestamp_us: track_us(s.start_time, t.basics.timescale),
        duration_us: track_us(s.duration as u64, t.basics.timescale),
        data: s.bytes,
    }
}

/// The chunk that stands at a cursor, if one can be read there.
pub open spec fn chunk_at(input: Mp4Input, limit: u64, cursor: (u32, u32)) -> Option<ChunkView> {
    let t = mp4_tracks(input)[cursor.0];
    if mp4_tracks(input).dom().contains(cursor.0) && cursor.1 <= sample_total(t) {
        match readable(input, limit, cursor.0, cursor.1) {
            Some(s) => Some(sample_chunk(cursor.0, t, s)),
            None => None,
        }
    } else {
        None
    }
}

/// The earliest chunk at the first `n` cursors, and its cursor; of equal ones the
/// first.
pub open spec fn earliest(input: Mp4Input, limit: u64, cursors: Seq<(u32, u32)>, n: nat) -> Option<(int, ChunkView)>
    decreases n,
{
    if n == 0 {
        None
    } else {
        match (earliest(input, limit, cursors, (n - 1) as nat), chunk_at(input, limit, cursors[n - 1])) {
            (best, None) => best,
            (None, Some(c)) => Some((n - 1, c)),
            (Some(best), Some(c)) => if c.timestamp_us < best.1.timestamp_us { Some((n - 1, c)) } else { Some(best) },
        }
    }
}

/// The earliest chunk stands at one of the cursors.
pub(crate) proof fn lemma_earliest_among(input: Mp4Input, limit: u64, cursors: Seq<(u32, u32)>, n: nat)
    ensures
        earliest(input, limit, cursors, n) matches Some((i, _)) ==> 0 <= i < n,
    decreases n,
{
    if n > 0 {
        lemma_earliest_among(input, limit, cursors, (n - 1) as nat);
    }
}

/// What a call for the next chunk gives, and the state after it.
pub open spec fn mp4_next(v: Mp4View) -> (Result<Option<ChunkView>, DemuxFault>, Mp4View) {
    match v.input {
        None => (Err(DemuxFault::InvalidData("No header parsed yet"@)), v),
        Some(input) => match earliest(input, v.limit, v.cursors, v.cursors.len()) {
            None => (Ok(None), v),
            Some((i, c)) => (
                Ok(Some(c)),
                Mp4View { cursors: v.cursors.update(i, (v.cursors[i].0, (v.cursors[i].1 + 1) as u32)), ..v },
            ),
        },
    }
}

/// A time in microseconds in units of a track; not below its start.
pub open spec fn target_time(timestamp_us: i64, timescale: u32) -> int {
    if timestamp_us > 0 { timestamp_us as int * timescale as int / 1_000_000 } else { 0 }
}

/// The last sync sample at or before the target among the samples from `i` on, up
/// to the first one behind the target; `best` where there is none.
pub open spec fn sync_from(input: Mp4Input, limit: u64, track_id: u32, target: int, i: int, best: u32) -> u32
    decreases sample_total(mp4_tracks(input)[track_id]) - i + 1,
{
    if i > sample_total(mp4_tracks(input)[track_id]) {
        best
    } else {
        match readable(input, limit, track_id, i as u32) {
            None => sync_from(input, limit, track_id, target, i + 1, best),
            Some(s) => if s.start_time > target {
                best
            } else {
                sync_from(input, limit, track_id, target, i + 1, if s.is_sync { i as u32 } else { best })
            },
        }
    }
}

/// Where a seek puts a cursor: on a sync sample of its track.
pub open spec fn sought_cursor(input: Mp4Input, limit: u64, timestamp_us: i64, cursor: (u32, u32)) -> (u32, u32) {
    if mp4_tracks(input).dom().contains(cursor.0) {
        (
            cursor.0,
            sync_from(
                input,
                limit,
                cursor.0,
                target_time(timestamp_us, mp4_tracks(input)[cursor.0].basics.timescale),
                1,
                1,
            ),
        )
    } else {
        cursor
    }
}

/// What a seek gives, and the state after it.
pub open spec fn mp4_sought(v: Mp4View, timestamp_us: i64) -> (Result<(), DemuxFault>, Mp4View) {
    match v.input {
        None => (Err(DemuxFault::InvalidData("No header parsed yet"@)), v),
        Some(input) => (
            Ok(()),
            Mp4View {
                cursors: Seq::new(v.cursors.len(), |i: int| sought_cursor(input, v.limit, timestamp_us, v.cursors[i])),
                ..v
            },
        ),
    }
}

/// The time of the first video chunk that can be read at the cursors from `i` on.
pub open spec fn video_time(input: Mp4Input, limit: u64, cursors: Seq<(u32, u32)>, i: int) -> Option<i64>
    decreases cursors.len() - i,
{
    if i < 0 || i >= cursors.len() {
        None
    } else {
        match chunk_at(input, limit, cursors[i]) {
            Some(c) if c.is_video => Some(c.timestamp_us),
            _ => video_time(input, limit, cursors, i + 1),
        }
    }
}

/// The time of the picture at which a demuxer stands.
pub open spec fn mp4_stands_at(v: Mp4View) -> Option<i64> {
    match v.input {
        Some(input) => video_time(input, v.limit, v.cursors, 0),
        None => None,
    }
}

/// The index entries of the first track from `i` on that can be indexed.
pub open spec fn index_from(input: Mp4Input, order: Seq<u32>, i: int) -> Seq<SeekEntry>
    decreases order.len() - i,
{
    if i < 0 || i >= order.len() {
        Seq::empty()
    } else {
        let t = mp4_tracks(input)[order[i]];
        if indexable(t) {
            sync_entries(t, t.stss->Some_0, t.stss->Some_0.len())
        } else {
            index_from(input, order, i + 1)
        }
    }
}

/// The track with the given number.
fn find_track(input: Ghost<Mp4Input>, tracks: &Vec<Track>, id: u32) -> (r: Option<usize>)
    requires
        tracks_listed(input@, tracks@),
    ensures
        match r {
            Some(i) => i < tracks.len() && tracks[i as int].id == id && mp4_tracks(input@).dom().contains(id) && mp4_tracks(input@)[id] == tracks[i as int]@,
            None => !mp4_tracks(input@).dom().contains(id),
        },
{
    let ghost order = track_numbers(tracks@);
    let mut i: usize = 0;
    while i < tracks.len()
        invariant
            i <= tracks.len(),
            order == track_numbers(tracks@),
            tracks_listed(input@, tracks@),
            forall|j: int| 0 <= j < i ==> order[j] != id,
        decreases tracks.len() - i,
    {
        assert(order[i as int] == tracks@[i as int].id);
        if tracks[i].id == id {
            assert(order.to_set().contains(order[i as int]));
            return Some(i);
        }
        i = i + 1;
    }
    assert(!order.to_set().contains(id));
    None
}

/// A time of a track in microseconds.
fn track_micros(time: u64, timescale: u32) -> (r: i64)
    ensures
        r == track_us(time, timescale),
{
    if timescale > 0 { divide(to_signed(time).wrapping_mul(1_000_000), timescale as i64) } else { 0 }
}

/// Read a sample of a track, where its tables hold it.
fn try_sample(
    r: &mut mp4::Mp4Reader<LimitedCursor>,
    handle: &Rc<Cell<u64>>,
    limit: u64,
    t: &Track,
    sample_id: u32,
) -> (s: Option<Mp4Sample>)
    requires
        *handle == mp4_source(*old(r)).limit,
        mp4_tracks(mp4_source(*old(r)).input).dom().contains(t.id),
        mp4_tracks(mp4_source(*old(r)).input)[t.id] == t@,
    ensures
        mp4_source(*final(r)) == mp4_source(*old(r)),
        match s {
            Some(x) => readable(mp4_source(*old(r)).input, limit, t.id, sample_id) == Some(x@),
            None => readable(mp4_source(*old(r)).input, limit, t.id, sample_id) is None,
        },
{
    if t.check_sample(sample_id) { read_sample(r, handle, limit, t.id, sample_id) } else { None }
}

/// The earliest chunk at the cursors, and its cursor.
fn pick_chunk(
    r: &mut mp4::Mp4Reader<LimitedCursor>,
    handle: &Rc<Cell<u64>>,
    limit: u64,
    tracks: &Vec<Track>,
    cursors: &Vec<(u32, u32)>,
) -> (best: Option<(usize, EncodedChunk)>)
    requires
        *handle == mp4_source(*old(r)).limit,
        tracks_listed(mp4_source(*old(r)).input, tracks@),
    ensures
        mp4_source(*final(r)) == mp4_source(*old(r)),
        match best {
            Some((i, c)) => earliest(mp4_source(*old(r)).input, limit, cursors@, cursors.len() as nat) == Some((i as int, c@))
                && i < cursors.len() && cursors[i as int].1 < u32::MAX,
            None => earliest(mp4_source(*old(r)).input, limit, cursors@, cursors.len() as nat) is None,
        },
{
    let ghost input = mp4_source(*r).input;
    let ghost source = mp4_source(*r);
    let mut best: Option<(usize, EncodedChunk)> = None;
    let mut n: usize = 0;
    while n < cursors.len()
        invariant
            n <= cursors.len(),
            mp4_source(*r) == source,
            source.input == input,
            *handle == source.limit,
            tracks_listed(input, tracks@),
            match best {
                Some((i, c)) => earliest(input, limit, cursors@, n as nat) == Some((i as int, c@)) && i < cursors.len() && cursors[i as int].1 < u32::MAX,
                None => earliest(input, limit, cursors@, n as nat) is None,
            },
        decreases cursors.len() - n,
    {
        let (track_id, sample_idx): (u32, u32) = cursors[n];
        if let Some(k) = find_track(Ghost(input), tracks, track_id) {
            let t: &Track = &tracks[k];
            if sample_idx <= t.sample_count() {
                if let Some(sample) = try_sample(r, handle, limit, t, sample_idx) {
                    let is_video: bool = t.basics.kind == TrackKind::Video;
                    let chunk: EncodedChunk = EncodedChunk {
                        track_id,
                        is_video,
                        is_audio: !is_video,
                        is_keyframe: sample.is_sync,
                        timestamp_us: track_micros(sample.start_time, t.basics.timescale),
                        duration_us: track_micros(sample.duration as u64, t.basics.timescale),
                        data: sample.bytes,
                    };
                    assert(chunk_at(input, limit, cursors[n as int]) == Some(chunk@));
                    assert(sample_idx < u32::MAX);
                    let earlier: bool = match &best {
                        Some(b) => chunk.timestamp_us < b.1.timestamp_us,
                        None => true,
                    };
                    if earlier {
                        best = Some((n, chunk));
                    }
                }
            }
        }
        n = n + 1;
    }
    best
}

/// Read a header, where it can be walked to an end.
fn open_sound(c: LimitedCursor, size: u64) -> (r: Result<mp4::Mp4Reader<LimitedCursor>, String>)
    requires
        c.pos == 0,
    ensures
        match r {
            Ok(m) => mp4_fault(input_of(c, size)) is None && mp4_source(m) == (Mp4Source { input: input_of(c, size), limit: c.limit }),
            Err(e) => mp4_fault(input_of(c, size)) == Some(e@),
        },
{
    proof {
        reveal(header_sound);
    }
    if check_header(&c, size) { open(c, size) } else { Err(String::from_str("box sizes lead nowhere")) }
}

/// The time of the first video chunk that can be read at the cursors.
fn find_video_time(
    r: &mut mp4::Mp4Reader<LimitedCursor>,
    handle: &Rc<Cell<u64>>,
    limit: u64,
    tracks: &Vec<Track>,
    cursors: &Vec<(u32, u32)>,
) -> (time: Option<i64>)
    requires
        *handle == mp4_source(*old(r)).limit,
        tracks_listed(mp4_source(*old(r)).input, tracks@),
    ensures
        mp4_source(*final(r)) == mp4_source(*old(r)),
        time == video_time(mp4_source(*old(r)).input, limit, cursors@, 0),
{
    let ghost input = mp4_source(*r).input;
    let ghost source = mp4_source(*r);
    let ghost goal = video_time(input, limit, cursors@, 0);
    let mut n: usize = 0;
    while n < cursors.len()
        invariant
            n <= cursors.len(),
            mp4_source(*r) == source,
            source == mp4_source(*old(r)),
            source.input == input,
            *handle == source.limit,
            tracks_listed(input, tracks@),
            goal == video_time(source.input, limit, cursors@, 0),
            goal == video_time(input, limit, cursors@, n as int),
        decreases cursors.len() - n,
    {
        let (track_id, sample_idx): (u32, u32) = cursors[n];
        if let Some(k) = find_track(Ghost(input), tracks, track_id) {
            let t: &Track = &tracks[k];
            if t.basics.kind == TrackKind::Video && sample_idx <= t.sample_count() {
                if let Some(sample) = try_sample(r, handle, limit, t, sample_idx) {
                    return Some(track_micros(sample.start_time, t.basics.timescale));
                }
            }
        }
        n = n + 1;
    }
    None
}

/// The sync sample that a seek to `timestamp_us` lands on.
fn find_sync(
    r: &mut mp4::Mp4Reader<LimitedCursor>,
    handle: &Rc<Cell<u64>>,
    limit: u64,
    t: &Track,
    timestamp_us: i64,
) -> (best: u32)
    requires
        *handle == mp4_source(*old(r)).limit,
        mp4_tracks(mp4_source(*old(r)).input).dom().contains(t.id),
        mp4_tracks(mp4_source(*old(r)).input)[t.id] == t@,
    ensures
        mp4_source(*final(r)) == mp4_source(*old(r)),
        best == sync_from(mp4_source(*old(r)).input, limit, t.id, target_time(timestamp_us, t.basics.timescale), 1, 1),
{
    let ghost input = mp4_source(*r).input;
    let ghost source = mp4_source(*r);
    let ghost goal = sync_from(input, limit, t.id, target_time(timestamp_us, t.basics.timescale), 1, 1);
    let target: u128 = if timestamp_us > 0 {
        assert(timestamp_us * t.basics.timescale <= 0x7fff_ffff_ffff_ffff * 0xffff_ffff) by (nonlinear_arith)
            requires
                0 <= timestamp_us <= 0x7fff_ffff_ffff_ffff,
                0 <= t.basics.timescale <= 0xffff_ffff,
        ;
        (timestamp_us as u128) * (t.basics.timescale as u128) / 1_000_000
    } else {
        0
    };
    let total: u32 = t.sample_count();
    let mut best: u32 = 1;
    let mut i: u64 = 1;
    while i <= total as u64
        invariant
            1 <= i <= total + 1,
            mp4_source(*r) == source,
            source == mp4_source(*old(r)),
            goal == sync_from(input, limit, t.id, target_time(timestamp_us, t.basics.timescale), 1, 1),
            source.input == input,
            *handle == source.limit,
            mp4_tracks(input).dom().contains(t.id),
            mp4_tracks(input)[t.id] == t@,
            total == sample_total(t@),
            target == target_time(timestamp_us, t.basics.timescale),
            goal == sync_from(input, limit, t.id, target as int, i as int, best),
        decreases total + 1 - i,
    {
        if let Some(sample) = try_sample(r, handle, limit, t, i as u32) {
            if sample.start_time as u128 > target {
                return best;
            }
            if sample.is_sync {
                best = i as u32;
            }
        }
        i = i + 1;
    }
    best
}

/// Move every cursor to a sync sample.
fn seek_cursors(
    r: &mut mp4::Mp4Reader<LimitedCursor>,
    handle: &Rc<Cell<u64>>,
    limit: u64,
    tracks: &Vec<Track>,
    cursors: &mut Vec<(u32, u32)>,
    timestamp_us: i64,
)
    requires
        *handle == mp4_source(*old(r)).limit,
        tracks_listed(mp4_source(*old(r)).input, tracks@),
    ensures
        mp4_source(*final(r)) == mp4_source(*old(r)),
        final(cursors)@ =~= Seq::new(
            old(cursors).len() as nat,
            |i: int| sought_cursor(mp4_source(*old(r)).input, limit, timestamp_us, old(cursors)[i]),
        ),
{
    let ghost input = mp4_source(*r).input;
    let ghost source = mp4_source(*r);
    let ghost before = cursors@;
    let mut n: usize = 0;
    while n < cursors.len()
        invariant
            n <= cursors.len(),
            cursors.len() == before.len(),
            mp4_source(*r) == source,
            source.input == input,
            *handle == source.limit,
            tracks_listed(input, tracks@),
            forall|i: int| 0 <= i < n ==> cursors[i] == sought_cursor(input, limit, timestamp_us, before[i]),
            forall|i: int| n <= i < before.len() ==> cursors[i] == before[i],
        decreases cursors.len() - n,
    {
        let (track_id, sample_idx): (u32, u32) = cursors[n];
        if let Some(k) = find_track(Ghost(input), tracks, track_id) {
            let sync: u32 = find_sync(r, handle, limit, &tracks[k], timestamp_us);
            cursors.set(n, (track_id, sync));
        }
        n = n + 1;
    }
}

impl Mp4Demuxer {
    /// The tracks and the limit's handle are those of the reader.
    pub open spec fn wf(&self) -> bool {
        match self.reader {
            Some(r) => {
                &&& self.read_limit == Some(mp4_source(r).limit)
                &&& tracks_listed(mp4_source(r).input, self.tracks@)
            },
            None => self.tracks@.len() == 0 && self.data_limit == u64::MAX,
        }
    }

    /// A demuxer that has parsed nothing.
    pub fn new() -> (r: Self)
        ensures
            r.wf(),
            r@ == fresh_mp4(),
            r.reader is None,
            r.media_info is None,
    {
        let r: Mp4Demuxer = Mp4Demuxer {
            reader: None,
            media_info: None,
            sample_cursors: Vec::new(),
            tracks: Vec::new(),
            read_limit: None,
            data_limit: u64::MAX,
        };
        assert(r@ =~= fresh_mp4());
        r
    }

    /// Check if this demuxer can handle the given data.
    pub fn probe(data: &[u8]) -> (r: bool)
        ensures
            r == is_mp4(data@),
    {
        data.len() >= 8 && data[4] == 0x66 && data[5] == 0x74 && data[6] == 0x79 && data[7] == 0x70
    }

    /// Set the read limit for sample data access.
    ///
    /// After parsing a synthetic buffer that has moov appended after the download
    /// data, this keeps moov bytes from being read as video or audio data. Without
    /// a parsed header nothing is limited.
    pub fn set_data_limit(&mut self, limit: u64)
        requires
            old(self).wf(),
        ensures
            final(self).wf(),
            final(self)@ == (if old(self)@.input is Some {
                (Mp4View { limit, ..old(self)@ })
            } else {
                old(self)@
            }),
    {
        if self.reader.is_some() {
            self.data_limit = limit;
        }
        assert(self@ =~= if old(self)@.input is Some {
            (Mp4View { limit, ..old(self)@ })
        } else {
            old(self)@
        });
    }

    /// Take over a freshly opened reader.
    fn take_reader(&mut self, reader: mp4::Mp4Reader<LimitedCursor>, handle: Rc<Cell<u64>>, limit: u64) -> (info: MediaInfo)
        requires
            handle == mp4_source(reader).limit,
        ensures
            final(self).wf(),
            order_of(mp4_source(reader).input, final(self)@.order),
            final(self)@ == mp4_parsed(mp4_source(reader).input, final(self)@.order, limit),
            info@ == mp4_info(mp4_source(reader).input, final(self)@.order),
    {
        let ghost input = mp4_source(reader).input;
        let tracks: Vec<Track> = read_tracks(&reader);
        let movie: (u64, u32) = movie_duration(&reader);
        let (info, cursors): (MediaInfo, Vec<(u32, u32)>) = list_media(Ghost(input), &tracks, movie);
        self.media_info = Some(info.copy());
        self.sample_cursors = cursors;
        self.tracks = tracks;
        self.read_limit = Some(handle);
        self.data_limit = limit;
        self.reader = Some(reader);
        assert(self@ =~= mp4_parsed(input, self@.order, limit));
        info
    }

    /// Parse an MP4 header from a Range-seeked buffer with virtual offset.
    ///
    /// Buffer layout: `[header_data (ftyp + mdat_header_empty + moov)][range_data]`
    ///
    /// - `virtual_base`: file offset where `range_data` starts in the original file
    /// - `header_end`: physical byte in the buffer where `range_data` begins
    ///
    /// The cursor maps absolute offsets from `virtual_base` on to positions within
    /// the range data. Only the header region is taken for boxes, and the limit is
    /// the end of the buffer.
    pub fn parse_header_range(&mut self, data: Vec<u8>, virtual_base: u64, header_end: u64) -> (r: Result<MediaInfo, DemuxError>)
        requires
            old(self).wf(),
        ensures
            final(self).wf(),
            ({
                let input = Mp4Input { bytes: data@, size: header_end, virtual_base, header_end };
                match mp4_fault(input) {
                    Some(t) => r matches Err(e) && e@ == DemuxFault::InvalidData("MP4 Range parse error: "@ + t) && final(self)@ == old(self)@,
                    None => r matches Ok(info) && order_of(input, final(self)@.order)
                        && final(self)@ == mp4_parsed(input, final(self)@.order, data.len() as u64)
                        && info@ == mp4_info(input, final(self)@.order),
                }
            }),
    {
        let data_limit: u64 = data.len() as u64;
        let (cursor, handle): (LimitedCursor, Rc<Cell<u64>>) = LimitedCursor::new_with_offset(data, virtual_base, header_end);
        match open_sound(cursor, header_end) {
            Ok(reader) => Ok(self.take_reader(reader, handle, data_limit)),
            Err(e) => {
                let mut s: String = String::from_str("MP4 Range parse error: ");
                s.append(e.as_str());
                Err(DemuxError::InvalidData(s))
            },
        }
    }

    /// Parse the container header and return media info. Samples can be read from
    /// the whole buffer until a limit is set.
    pub fn parse_header(&mut self, data: &[u8]) -> (r: Result<MediaInfo, DemuxError>)
        requires
            old(self).wf(),
        ensures
            final(self).wf(),
            ({
                let input = Mp4Input { bytes: data@, size: data.len() as u64, virtual_base: 0, header_end: 0 };
                match mp4_fault(input) {
                    Some(t) => r matches Err(e) && e@ == DemuxFault::InvalidData("MP4 parse error: "@ + t) && final(self)@ == old(self)@,
                    None => r matches Ok(info) && order_of(input, final(self)@.order)
                        && final(self)@ == mp4_parsed(input, final(self)@.order, u64::MAX)
                        && info@ == mp4_info(input, final(self)@.order),
                }
            }),
    {
        let (cursor, handle): (LimitedCursor, Rc<Cell<u64>>) = LimitedCursor::new(vstd::slice::slice_to_vec(data));
        match open_sound(cursor, data.len() as u64) {
            Ok(reader) => Ok(self.take_reader(reader, handle, u64::MAX)),
            Err(e) => {
                let mut s: String = String::from_str("MP4 parse error: ");
                s.append(e.as_str());
                Err(DemuxError::InvalidData(s))
            },
        }
    }

    /// Scan top-level MP4 boxes from raw data without parsing their content.
    pub fn scan_top_level_boxes(data: &[u8]) -> (r: Vec<Mp4Box>)
        ensures
            box_views(r@) == boxes_from(data@, 0),
    {
        scan_top_level_boxes(data)
    }

    /// Determine where the moov box is located.
    pub fn locate_moov(data: &[u8], file_size: u64) -> (r: MoovLocation)
        ensures
            r == moov_from(boxes_from(data@, 0), 0, None, file_size),
    {
        locate_moov(data, file_size)
    }

    /// Get current sample cursor positions for resume after re-creation.
    pub fn sample_positions(&self) -> (r: Vec<(u32, u32)>)
        ensures
            r@ == self@.cursors,
    {
        let mut r: Vec<(u32, u32)> = Vec::new();
        let mut i: usize = 0;
        while i < self.sample_cursors.len()
            invariant
                i <= self.sample_cursors.len(),
                r@ =~= self.sample_cursors@.take(i as int),
            decreases self.sample_cursors.len() - i,
        {
            r.push(self.sample_cursors[i]);
            i = i + 1;
        }
        r
    }

    /// Set sample cursor positions to resume demuxing from a known point.
    pub fn set_sample_positions(&mut self, cursors: Vec<(u32, u32)>)
        requires
            old(self).wf(),
        ensures
            final(self).wf(),
            final(self)@ == (Mp4View { cursors: cursors@, ..old(self)@ }),
    {
        self.sample_cursors = cursors;
        assert(self@ =~= (Mp4View { cursors: cursors@, ..old(self)@ }));
    }

    /// Build a seek index from the parsed MP4 header.
    ///
    /// Extracts sync sample positions (stss) of the first video track that has any
    /// and computes their timestamps (from stts) and absolute byte offsets (from
    /// stsc + stco/co64 + stsz).
    pub fn build_seek_index(&self) -> (r: SeekIndex)
        requires
            self.wf(),
        ensures
            r@ == match self@.input {
                Some(input) => sorted_by(index_from(input, self@.order, 0), SeekKey::Timestamp),
                None => Seq::empty(),
            },
    {
        if self.reader.is_none() {
            return SeekIndex::new();
        }
        let ghost input = self@.input->Some_0;
        let ghost order = self@.order;
        let mut i: usize = 0;
        while i < self.tracks.len()
            invariant
                i <= self.tracks.len(),
                self@.input == Some(input),
                self@.order == order,
                order == track_numbers(self.tracks@),
                tracks_listed(input, self.tracks@),
                index_from(input, order, 0) == index_from(input, order, i as int),
            decreases self.tracks.len() - i,
        {
            assert(order[i as int] == self.tracks@[i as int].id);
            let t: &Track = &self.tracks[i];
            if t.basics.kind == TrackKind::Video && t.basics.timescale != 0 && t.stss.is_some() {
                return SeekIndex::from_entries(t.sync_index());
            }
            i = i + 1;
        }
        SeekIndex::from_entries(Vec::new())
    }

    /// Get the next encoded chunk (video or audio): the one with the earliest
    /// timestamp across all tracks. Returns None when nothing more can be read.
    pub fn next_chunk(&mut self) -> (r: Result<Option<EncodedChunk>, DemuxError>)
        requires
            old(self).wf(),
        ensures
            final(self).wf(),
            final(self)@ == mp4_next(old(self)@).1,
            match (r, mp4_next(old(self)@).0) {
                (Ok(Some(c)), Ok(Some(v))) => c@ == v,
                (Ok(None), Ok(None)) => true,
                (Err(e), Err(f)) => e@ == f,
                _ => false,
            },
    {
        let ghost before = self@;
        match (&mut self.reader, &self.read_limit) {
            (Some(reader), Some(handle)) => {
                let best: Option<(usize, EncodedChunk)> = pick_chunk(reader, handle, self.data_limit, &self.tracks, &self.sample_cursors);
                match best {
                    Some((i, chunk)) => {
                        let (track_id, sample_idx): (u32, u32) = self.sample_cursors[i];
                        self.sample_cursors.set(i, (track_id, sample_idx + 1));
                        assert(self@ =~= mp4_next(before).1);
                        Ok(Some(chunk))
                    },
                    None => {
                        assert(self@ =~= before);
                        Ok(None)
                    },
                }
            },
            _ => Err(DemuxError::InvalidData(String::from_str("No header parsed yet"))),
        }
    }

    /// Seek to the nearest keyframe before the given timestamp, on every track.
    pub fn seek_to_keyframe(&mut self, timestamp_us: i64) -> (r: Result<(), DemuxError>)
        requires
            old(self).wf(),
        ensures
            final(self).wf(),
            final(self)@ == mp4_sought(old(self)@, timestamp_us).1,
            match (r, mp4_sought(old(self)@, timestamp_us).0) {
                (Ok(()), Ok(())) => true,
                (Err(e), Err(f)) => e@ == f,
                _ => false,
            },
    {
        let ghost before = self@;
        match (&mut self.reader, &self.read_limit) {
            (Some(reader), Some(handle)) => {
                seek_cursors(reader, handle, self.data_limit, &self.tracks, &mut self.sample_cursors, timestamp_us);
                assert(self@ =~= mp4_sought(before, timestamp_us).1);
                Ok(())
            },
            _ => Err(DemuxError::InvalidData(String::from_str("No header parsed yet"))),
        }
    }

    /// The time of the picture that comes next, where one can be read. After a seek
    /// this is the time of the keyframe.
    pub fn stands_at(&mut self) -> (r: Option<i64>)
        requires
            old(self).wf(),
        ensures
            final(self).wf(),
            final(self)@ == old(self)@,
            r == mp4_stands_at(old(self)@),
    {
        let ghost before = self@;
        match (&mut self.reader, &self.read_limit) {
            (Some(reader), Some(handle)) => {
                let r: Option<i64> = find_video_time(reader, handle, self.data_limit, &self.tracks, &self.sample_cursors);
                assert(self@ =~= before);
                r
            },
            _ => None,
        }
    }
}

// ---------------------------------------------------------------------------
// Laws
// ---------------------------------------------------------------------------

/// The chunk that comes next is the earliest one that can be read at any cursor.
pub proof fn law_next_is_earliest(input: Mp4Input, limit: u64, cursors: Seq<(u32, u32)>, n: nat)
    requires
        n <= cursors.len(),
    ensures
        match earliest(input, limit, cursors, n) {
            Some((i, c)) => {
                &&& 0 <= i < n
                &&& chunk_at(input, limit, cursors[i]) == Some(c)
                &&& forall|j: int| 0 <= j < n ==> (#[trigger] chunk_at(input, limit, cursors[j]) matches Some(d) ==> c.timestamp_us <= d.timestamp_us)
            },
            None => forall|j: int| 0 <= j < n ==> #[trigger] chunk_at(input, limit, cursors[j]) is None,
        },
    decreases n,
{
    if n > 0 {
        law_next_is_earliest(input, limit, cursors, (n - 1) as nat);
    }
}

/// A seek lands on the first sample or on a sync sample that is not behind the
/// target.
pub proof fn law_seek_lands_on_sync(input: Mp4Input, limit: u64, track_id: u32, target: int, i: int, best: u32)
    requires
        i >= 1,
        best == 1 || (readable(input, limit, track_id, best) matches Some(s) && s.is_sync && s.start_time <= target),
    ensures
        ({
            let r = sync_from(input, limit, track_id, target, i, best);
            r == 1 || (readable(input, limit, track_id, r) matches Some(s) && s.is_sync && s.start_time <= target)
        }),
    decreases sample_total(mp4_tracks(input)[track_id]) - i + 1,
{
    if i <= sample_total(mp4_tracks(input)[track_id]) {
        match readable(input, limit, track_id, i as u32) {
            None => law_seek_lands_on_sync(input, limit, track_id, target, i + 1, best),
            Some(s) => if s.start_time <= target {
                law_seek_lands_on_sync(input, limit, track_id, target, i + 1, if s.is_sync { i as u32 } else { best });
            },
        }
    }
}

/// Cursors that are carried over to a demuxer of the same header go on where the
/// first one stood.
pub proof fn law_positions_resume(v: Mp4View, w: Mp4View)
    requires
        v.input == w.input,
        v.limit == w.limit,
    ensures
        mp4_next(Mp4View { cursors: v.cursors, ..w }).0 == mp4_next(v).0,
        mp4_next(Mp4View { cursors: v.cursors, ..w }).1.cursors == mp4_next(v).1.cursors,
{
}

/// The target of a seek in units of a track is the requested time, cut to a whole
/// unit; a time before the start is the start.
pub proof fn law_target_is_requested_time(timestamp_us: i64, timescale: u32)
    ensures
        timestamp_us >= 0 ==> target_time(timestamp_us, timescale) * 1_000_000 <= timestamp_us * timescale < (target_time(timestamp_us, timescale) + 1)
            * 1_000_000,
        timestamp_us < 0 ==> target_time(timestamp_us, timescale) == 0,
{
    if timestamp_us == 0 {
        assert(timestamp_us * timescale == 0) by (nonlinear_arith)
            requires
                timestamp_us == 0,
        ;
    }
}

/// Whether a sample can be read and begins at or before a time in microseconds.
pub open spec fn begins_by(input: Mp4Input, limit: u64, track_id: u32, n: int, timestamp_us: i64) -> bool {
    readable(input, limit, track_id, n as u32) matches Some(s) && s.start_time * 1_000_000 <= timestamp_us
        * mp4_tracks(input)[track_id].basics.timescale
}

/// Whether no sample up to `n` that can be read begins behind a time in microseconds.
pub open spec fn none_behind(input: Mp4Input, limit: u64, track_id: u32, n: int, timestamp_us: i64) -> bool {
    forall|i: int|
        1 <= i <= n ==> (#[trigger] readable(input, limit, track_id, i as u32) matches Some(s) ==> s.start_time * 1_000_000 <= timestamp_us
            * mp4_tracks(input)[track_id].basics.timescale)
}

/// A seek moves each cursor on its own track to the last keyframe at or before the
/// requested time: it stands on the first sample or on a sync sample that begins by
/// that time, and every sync sample behind it has one before it, or is one, that
/// begins later than that time.
pub proof fn law_seek_lands_on_last_keyframe(v: Mp4View, timestamp_us: i64, i: int, k: int)
    requires
        v.input is Some,
        timestamp_us >= 0,
        0 <= i < v.cursors.len(),
        mp4_tracks(v.input->Some_0).dom().contains(v.cursors[i].0),
    ensures
        ({
            let input = v.input->Some_0;
            let (id, n) = mp4_sought(v, timestamp_us).1.cursors[i];
            &&& mp4_sought(v, timestamp_us).1.cursors.len() == v.cursors.len()
            &&& id == v.cursors[i].0
            &&& n == 1 || (begins_by(input, v.limit, id, n as int, timestamp_us) && readable(input, v.limit, id, n)->Some_0.is_sync)
            &&& n < k <= sample_total(mp4_tracks(input)[id]) && (readable(input, v.limit, id, k as u32) matches Some(s) && s.is_sync)
                ==> !none_behind(input, v.limit, id, k, timestamp_us)
        }),
{
    let input = v.input->Some_0;
    let id = v.cursors[i].0;
    let scale = mp4_tracks(input)[id].basics.timescale;
    let target = target_time(timestamp_us, scale);
    law_target_is_requested_time(timestamp_us, scale);
    law_seek_lands_on_sync(input, v.limit, id, target, 1, 1);
    let n = sync_from(input, v.limit, id, target, 1, 1);
    assert(mp4_sought(v, timestamp_us).1.cursors[i] == (id, n));
    if n < k <= sample_total(mp4_tracks(input)[id]) && (readable(input, v.limit, id, k as u32) matches Some(s) && s.is_sync)
        && none_behind(input, v.limit, id, k, timestamp_us) {
        assert forall|j: int| 1 <= j <= k implies (#[trigger] readable(input, v.limit, id, j as u32) matches Some(s) ==> s.start_time <= target) by {
            if let Some(s) = readable(input, v.limit, id, j as u32) {
                assert(s.start_time * 1_000_000 <= timestamp_us * scale);
            }
        }
        lemma_sync_reaches(input, v.limit, id, target, 1, 1, k);
    }
}

proof fn lemma_sync_reaches(input: Mp4Input, limit: u64, track_id: u32, target: int, i: int, best: u32, k: int)
    requires
        1 <= i,
        k <= sample_total(mp4_tracks(input)[track_id]),
        i <= k || best >= k,
        best < i || best == 1,
        readable(input, limit, track_id, k as u32) matches Some(s) && s.is_sync,
        forall|j: int| 1 <= j <= k ==> (#[trigger] readable(input, limit, track_id, j as u32) matches Some(s) ==> s.start_time <= target),
    ensures
        sync_from(input, limit, track_id, target, i, best) >= k,
    decreases sample_total(mp4_tracks(input)[track_id]) - i + 1,
{
    if i <= sample_total(mp4_tracks(input)[track_id]) {
        match readable(input, limit, track_id, i as u32) {
            None => lemma_sync_reaches(input, limit, track_id, target, i + 1, best, k),
            Some(s) => if s.start_time <= target {
                lemma_sync_reaches(input, limit, track_id, target, i + 1, if s.is_sync { i as u32 } else { best }, k);
            },
        }
    }
}

/// A chunk is the sample at a cursor: its bytes, whether it can be decoded alone, its
/// track and that track's kind. It begins and lasts as long as the sample, cut to whole
/// microseconds.
pub proof fn law_chunk_is_sample(input: Mp4Input, limit: u64, cursor: (u32, u32))
    ensures
        chunk_at(input, limit, cursor) matches Some(c) ==> (readable(input, limit, cursor.0, cursor.1) matches Some(s) && ({
            let t = mp4_tracks(input)[cursor.0];
            let scale = t.basics.timescale;
            &&& c.data == s.bytes
            &&& c.is_keyframe == s.is_sync
            &&& c.track_id == cursor.0
            &&& c.is_video == (t.basics.kind == TrackKind::Video)
            &&& c.is_audio == !c.is_video
            &&& scale > 0 && s.start_time * 1_000_000 <= i64::MAX ==> c.timestamp_us * scale <= s.start_time * 1_000_000 < (c.timestamp_us + 1) * scale
            &&& scale > 0 ==> c.duration_us * scale <= s.duration * 1_000_000 < (c.duration_us + 1) * scale
        })),
{
    if let Some(s) = readable(input, limit, cursor.0, cursor.1) {
        let scale = mp4_tracks(input)[cursor.0].basics.timescale;
        if scale > 0 {
            law_scaled_time(s.duration as u64, scale);
            if s.start_time * 1_000_000 <= i64::MAX {
                law_scaled_time(s.start_time, scale);
            }
        }
    }
}

/// The duration of a movie is what its header tells, cut to whole milliseconds.
pub proof fn law_movie_duration(duration: u64, timescale: u32)
    requires
        timescale > 0,
        duration * 1_000_000 <= i64::MAX,
    ensures
        movie_us((duration, timescale)) matches Some(us) && us % 1000 == 0 && us * timescale <= duration * 1_000_000 < (us + 1000) * timescale,
{
    let n = duration as int * 1000;
    let d = timescale as int;
    vstd::arithmetic::div_mod::lemma_fundamental_div_mod(n, d);
    vstd::arithmetic::div_mod::lemma_mod_bound(n, d);
    vstd::arithmetic::div_mod::lemma_div_is_ordered_by_denominator(n, 1, d);
    vstd::arithmetic::div_mod::lemma_div_pos_is_pos(n, d);
    let ms = n / d;
    assert(ms * 1000 * d <= n * 1000 < (ms * 1000 + 1000) * d) by (nonlinear_arith)
        requires
            n == d * ms + n % d,
            0 <= n % d < d,
    ;
}

/// How many of the first `n` listed tracks are of a kind.
pub open spec fn kind_count(input: Mp4Input, order: Seq<u32>, kind: TrackKind, n: nat) -> nat
    decreases n,
{
    if n == 0 {
        0
    } else {
        kind_count(input, order, kind, (n - 1) as nat) + if mp4_tracks(input)[order[n - 1]].basics.kind == kind { 1nat } else { 0 }
    }
}

/// The media information lists the video and the audio tracks of a header, each with
/// its own metadata, in their order, and no others.
pub proof fn law_tracks_are_listed(input: Mp4Input, order: Seq<u32>, i: int)
    requires
        0 <= i < order.len(),
    ensures
        ({
            let info = mp4_info(input, order);
            let t = mp4_tracks(input)[order[i]];
            let a = kind_count(input, order, TrackKind::Video, i as nat) as int;
            let b = kind_count(input, order, TrackKind::Audio, i as nat) as int;
            &&& info.container == ContainerFormat::Mp4
            &&& info.video_tracks.len() == kind_count(input, order, TrackKind::Video, order.len())
            &&& info.audio_tracks.len() == kind_count(input, order, TrackKind::Audio, order.len())
            &&& t.basics.kind == TrackKind::Video ==> a < info.video_tracks.len() && info.video_tracks[a] == mp4_video_view(order[i], t)
            &&& t.basics.kind == TrackKind::Audio ==> b < info.audio_tracks.len() && info.audio_tracks[b] == mp4_audio_view(order[i], t)
        }),
{
    lemma_kinds_listed(input, order, order.len(), i);
}

proof fn lemma_kinds_listed(input: Mp4Input, order: Seq<u32>, n: nat, i: int)
    requires
        n <= order.len(),
    ensures
        ({
            let t = mp4_tracks(input)[order[i]];
            let a = kind_count(input, order, TrackKind::Video, i as nat) as int;
            let b = kind_count(input, order, TrackKind::Audio, i as nat) as int;
            let v = video_list(input, order, n);
            let u = audio_list(input, order, n);
            &&& v.len() == kind_count(input, order, TrackKind::Video, n)
            &&& u.len() == kind_count(input, order, TrackKind::Audio, n)
            &&& 0 <= i < n && t.basics.kind == TrackKind::Video ==> a < v.len() && v[a] == mp4_video_view(order[i], t)
            &&& 0 <= i < n && t.basics.kind == TrackKind::Audio ==> b < u.len() && u[b] == mp4_audio_view(order[i], t)
        }),
    decreases n,
{
    if n > 0 {
        lemma_kinds_listed(input, order, (n - 1) as nat, i);
    }
}

} // verus!
