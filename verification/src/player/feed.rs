//! The queue of encoded chunks and what is fed to the decoders.

use std::collections::VecDeque;

use vstd::prelude::*;
use vstd::string::*;

use crate::demux::types::{chunk_views, ChunkView, EncodedChunk};
use crate::player::types::{EventView, PlayerEvent};
use crate::text::chars_of;

verus! {

/// Decoded frames that may wait in the output queue.
pub const MAX_DECODED_VQ: usize = 6;

/// Decodes that may be pending in the decoder.
pub const MAX_DECODE_QUEUE: u32 = 3;

/// Ticks after which a dead decoder is replaced though frames are left.
pub const RECOVERY_TICKS: u64 = 60;

/// How far ahead of the clock a keyframe may be to be skipped to: 5 s.
pub const MAX_SKIP_NS: i64 = 5_000_000_000;

/// What the decoders say before a chunk is fed.
#[derive(Debug, Clone, Copy, PartialEq, Eq, Structural)]
pub struct DecoderSignals {
    /// Decoded video frames in the output queue.
    pub frames_waiting: usize,
    /// Chunks pending in the video decoder.
    pub decodes_pending: u32,
    pub audio_configured: bool,
    pub audio_dead: bool,
}

/// What to do with the next chunk.
#[derive(Debug)]
pub enum FeedAction {
    DecodeVideo(EncodedChunk),
    DecodeAudio(EncodedChunk),
    Done,
}

/// What to do with the next chunk, as a view.
#[verifier::ext_equal]
pub enum FeedView {
    DecodeVideo(ChunkView),
    DecodeAudio(ChunkView),
    Done,
}

impl View for FeedAction {
    type V = FeedView;

    open spec fn view(&self) -> FeedView {
        match self {
            FeedAction::DecodeVideo(c) => FeedView::DecodeVideo(c@),
            FeedAction::DecodeAudio(c) => FeedView::DecodeAudio(c@),
            FeedAction::Done => FeedView::Done,
        }
    }
}

/// The queue of demuxed chunks and the state of feeding them.
#[derive(Debug)]
pub struct Feed {
    /// Queue of demuxed encoded chunks ready for decoding.
    pub queue: VecDeque<EncodedChunk>,
    /// Keyframe chunk waiting for recovery: stored here so it doesn't block the
    /// queue (which would prevent audio decoding).
    pub pending_keyframe: Option<EncodedChunk>,
    /// Audio skip filter: audio chunks before this time are discarded after seek.
    pub audio_skip_before_us: Option<i64>,
    /// Tick at which the video decoder was first found dead; 0 where it is not.
    pub dead_since_tick: u64,
    /// Video chunks put off in this tick, to be queued again.
    pub deferred: Vec<EncodedChunk>,
    /// Chunks handled in this tick.
    pub decoded: usize,
    /// Whether the video decoder is in an error state.
    pub video_dead: bool,
}

/// The state of feeding with chunks as views.
#[verifier::ext_equal]
pub struct FeedState {
    pub queue: Seq<ChunkView>,
    pub pending: Option<ChunkView>,
    pub audio_skip_before_us: Option<i64>,
    pub dead_since_tick: u64,
    pub deferred: Seq<ChunkView>,
    pub decoded: usize,
    pub video_dead: bool,
}

/// An optional chunk as a view.
pub open spec fn optional_chunk(c: Option<EncodedChunk>) -> Option<ChunkView> {
    match c {
        Some(x) => Some(x@),
        None => None,
    }
}

impl View for Feed {
    type V = FeedState;

    open spec fn view(&self) -> FeedState {
        FeedState {
            queue: chunk_views(self.queue@),
            pending: optional_chunk(self.pending_keyframe),
            audio_skip_before_us: self.audio_skip_before_us,
            dead_since_tick: self.dead_since_tick,
            deferred: chunk_views(self.deferred@),
            decoded: self.decoded,
            video_dead: self.video_dead,
        }
    }
}

/// Nothing queued.
pub open spec fn empty_feed() -> FeedState {
    FeedState {
        queue: Seq::empty(),
        pending: None,
        audio_skip_before_us: None,
        dead_since_tick: 0,
        deferred: Seq::empty(),
        decoded: 0,
        video_dead: false,
    }
}

/// Whether video has to wait: one of the two queues is full.
pub open spec fn throttled(s: DecoderSignals) -> bool {
    s.frames_waiting >= MAX_DECODED_VQ || s.decodes_pending >= MAX_DECODE_QUEUE
}

/// The state without the first chunk of the queue, which was handled.
pub open spec fn past_first(f: FeedState) -> FeedState {
    FeedState { queue: f.queue.drop_first(), decoded: (f.decoded + 1) as usize, ..f }
}

/// What the first chunk of the queue leads to: an action, or none where it is put
/// off, kept for recovery or dropped.
pub open spec fn first_fed(f: FeedState, s: DecoderSignals) -> (Option<FeedView>, FeedState) {
    let c = f.queue[0];
    let next = past_first(f);
    if c.is_video {
        if throttled(s) && !f.video_dead {
            (None, FeedState { deferred: f.deferred.push(c), ..next })
        } else if f.video_dead {
            if c.is_keyframe && f.pending is None {
                (None, FeedState { pending: Some(c), ..next })
            } else {
                (None, next)
            }
        } else {
            (Some(FeedView::DecodeVideo(c)), next)
        }
    } else if c.is_audio && s.audio_configured {
        match f.audio_skip_before_us {
            Some(min_us) if c.timestamp_us < min_us => (None, next),
            _ => {
                let open = FeedState { audio_skip_before_us: None, ..next };
                if s.audio_dead { (None, open) } else { (Some(FeedView::DecodeAudio(c)), open) }
            },
        }
    } else {
        (None, next)
    }
}

/// The next chunk to decode in a tick that handles `batch` chunks.
pub open spec fn next_fed(f: FeedState, s: DecoderSignals, batch: usize) -> (FeedView, FeedState)
    decreases f.queue.len(),
{
    if f.decoded >= batch || f.queue.len() == 0 {
        (FeedView::Done, f)
    } else {
        match first_fed(f, s) {
            (Some(action), next) => (action, next),
            (None, next) => next_fed(next, s, batch),
        }
    }
}

/// Whether a text stands in another at `i`.
pub open spec fn text_at(s: Seq<char>, p: Seq<char>, i: int) -> bool {
    0 <= i && i + p.len() <= s.len() && s.subrange(i, i + p.len()) == p
}

/// Whether a text stands in another.
pub open spec fn has_text(s: Seq<char>, p: Seq<char>) -> bool {
    exists|i: int| text_at(s, p, i)
}

/// Whether an error says only that a keyframe is needed: the decoder is still
/// valid, it just rejected a delta frame.
pub open spec fn wants_keyframe(message: Seq<char>) -> bool {
    has_text(message, "key frame"@) || has_text(message, "Key frame"@) || has_text(message, "keyframe"@)
}

/// Whether a text stands in another.
fn find_text(s: &Vec<char>, p: &str) -> (r: bool)
    ensures
        r == has_text(s@, p@),
{
    let part: Vec<char> = chars_of(p);
    let n: usize = part.len();
    let mut i: usize = 0;
    while i <= s.len() && n <= s.len() - i
        invariant
            i <= s.len() + 1,
            n == part.len(),
            part@ == p@,
            forall|k: int| 0 <= k < i ==> !text_at(s@, p@, k),
        decreases s.len() + 1 - i,
    {
        let mut j: usize = 0;
        while j < n && s[i + j] == part[j]
            invariant
                j <= n,
                i + n <= s.len(),
                n == part.len(),
                forall|k: int| 0 <= k < j ==> s[i + k] == part[k],
            decreases n - j,
        {
            j = j + 1;
        }
        if j == n {
            assert(s@.subrange(i as int, i + n) =~= p@);
            assert(text_at(s@, p@, i as int));
            return true;
        }
        assert(s@.subrange(i as int, i + n)[j as int] != p@[j as int]);
        if i == s.len() {
            assert forall|k: int| !text_at(s@, p@, k) by {}
            return false;
        }
        i = i + 1;
    }
    assert forall|k: int| !text_at(s@, p@, k) by {}
    false
}

/// The chunks of the audio tracks before the first keyframe from `i` on.
pub open spec fn audio_until_keyframe(queue: Seq<ChunkView>, i: int) -> Seq<ChunkView>
    decreases queue.len() - i,
{
    if i < 0 || i >= queue.len() {
        Seq::empty()
    } else if queue[i].is_audio {
        seq![queue[i]] + audio_until_keyframe(queue, i + 1)
    } else if queue[i].is_video && queue[i].is_keyframe {
        Seq::empty()
    } else {
        audio_until_keyframe(queue, i + 1)
    }
}

/// The place of the first video keyframe from `i` on, or the end.
pub open spec fn keyframe_from(queue: Seq<ChunkView>, i: int) -> int
    decreases queue.len() - i,
{
    if i < 0 || i >= queue.len() {
        i
    } else if !queue[i].is_audio && queue[i].is_video && queue[i].is_keyframe {
        i
    } else {
        keyframe_from(queue, i + 1)
    }
}

/// A queue without the video chunks before its first keyframe.
pub open spec fn from_keyframe(queue: Seq<ChunkView>) -> Seq<ChunkView> {
    audio_until_keyframe(queue, 0) + queue.skip(keyframe_from(queue, 0))
}

/// The time of the first keyframe of a queue, where it is at most 5 s ahead of the
/// clock.
pub open spec fn near_keyframe(queue: Seq<ChunkView>, clock_ns: i64) -> Option<i64> {
    let k = keyframe_from(queue, 0);
    if k < queue.len() && queue[k].timestamp_us * 1000 <= clock_ns + MAX_SKIP_NS {
        Some(queue[k].timestamp_us)
    } else {
        None
    }
}

/// Put chunks in front of a queue, in their order.
fn put_front(queue: &mut VecDeque<EncodedChunk>, chunks: Vec<EncodedChunk>)
    ensures
        chunk_views(final(queue)@) == chunk_views(chunks@) + chunk_views(old(queue)@),
{
    let ghost all = chunk_views(chunks@);
    let ghost behind = chunk_views(queue@);
    let mut rest: Vec<EncodedChunk> = chunks;
    assert(all.skip(all.len() as int) + behind =~= behind);
    while rest.len() > 0
        invariant
            rest.len() <= all.len(),
            chunk_views(rest@) == all.take(rest.len() as int),
            chunk_views(queue@) == all.skip(rest.len() as int) + behind,
        decreases rest.len(),
    {
        let ghost n = rest.len() as int;
        let ghost now = chunk_views(queue@);
        if let Some(c) = rest.pop() {
            queue.push_front(c);
            assert(c@ == all.take(n)[n - 1]);
            assert(chunk_views(queue@) =~= seq![c@] + now);
            assert(chunk_views(rest@) =~= all.take(n - 1));
            assert(seq![all[n - 1]] + all.skip(n) =~= all.skip(n - 1));
            assert(chunk_views(queue@) =~= all.skip(n - 1) + behind);
        }
    }
    assert(all.skip(0) =~= all);
}

impl Feed {
    /// Nothing queued.
    pub fn new() -> (r: Self)
        ensures
            r@ == empty_feed(),
    {
        let r: Feed = Feed {
            queue: VecDeque::new(),
            pending_keyframe: None,
            audio_skip_before_us: None,
            dead_since_tick: 0,
            deferred: Vec::new(),
            decoded: 0,
            video_dead: false,
        };
        assert(r@ =~= empty_feed());
        r
    }

    /// Drop all chunks, and forget a dead decoder.
    pub fn clear(&mut self)
        ensures
            final(self)@ == (FeedState {
                queue: Seq::empty(),
                pending: None,
                dead_since_tick: 0,
                ..old(self)@
            }),
    {
        self.queue.clear();
        self.pending_keyframe = None;
        self.dead_since_tick = 0;
        assert(self@ =~= (FeedState { queue: Seq::empty(), pending: None, dead_since_tick: 0, ..old(self)@ }));
    }

    /// Begin the feeding of a tick. Gives the keyframe to feed to a new video
    /// decoder, where the old one is dead, a keyframe is there, and its frames
    /// have been used up or it has been dead for too long.
    ///
    /// A dead decoder may still have valid decoded frames in its output queue,
    /// which a new one would destroy: hence the wait.
    pub fn begin(&mut self, video_dead: bool, frames_waiting: usize, tick: u64) -> (r: Option<EncodedChunk>)
        ensures
            ({
                let since = if !video_dead { 0 } else if old(self)@.dead_since_tick == 0 { tick } else { old(self)@.dead_since_tick };
                let recover = video_dead && (frames_waiting == 0 || tick - since >= RECOVERY_TICKS);
                &&& optional_chunk(r) == if recover { old(self)@.pending } else { None }
                &&& final(self)@ == (FeedState {
                    dead_since_tick: since,
                    pending: if recover { None } else { old(self)@.pending },
                    decoded: 0,
                    video_dead,
                    ..old(self)@
                })
            }),
    {
        self.decoded = 0;
        self.video_dead = video_dead;
        let ghost mid = self@;
        if !video_dead {
            self.dead_since_tick = 0;
            return None;
        }
        if self.dead_since_tick == 0 {
            self.dead_since_tick = tick;
        }
        let long: bool = tick >= self.dead_since_tick && tick - self.dead_since_tick >= RECOVERY_TICKS;
        if frames_waiting == 0 || long {
            return self.pending_keyframe.take();
        }
        None
    }

    /// A new video decoder has taken the keyframe.
    pub fn recovered(&mut self)
        ensures
            final(self)@ == (FeedState { dead_since_tick: 0, video_dead: false, ..old(self)@ }),
    {
        self.dead_since_tick = 0;
        self.video_dead = false;
        assert(self@ =~= (FeedState { dead_since_tick: 0, video_dead: false, ..old(self)@ }));
    }

    /// The next chunk to decode. Video that has to wait is put off, but audio
    /// behind it keeps flowing.
    pub fn next(&mut self, signals: DecoderSignals, batch: usize) -> (r: FeedAction)
        ensures
            (r@, final(self)@) == next_fed(old(self)@, signals, batch),
    {
        let ghost goal = next_fed(self@, signals, batch);
        while self.decoded < batch && self.queue.len() > 0
            invariant
                goal == next_fed(self@, signals, batch),
                goal == next_fed(old(self)@, signals, batch),
            decreases self.queue.len(),
        {
            let ghost f = self@;
            match self.queue.pop_front() {
                None => {
                    return FeedAction::Done;
                },
                Some(c) => {
                    self.decoded = self.decoded + 1;
                    assert(c@ == f.queue[0]);
                    assert(chunk_views(self.queue@) =~= f.queue.drop_first());
                    assert(self@ =~= past_first(f));
                    if c.is_video {
                        let full: bool = signals.frames_waiting >= MAX_DECODED_VQ || signals.decodes_pending >= MAX_DECODE_QUEUE;
                        if full && !self.video_dead {
                            self.deferred.push(c);
                            assert(chunk_views(self.deferred@) =~= f.deferred.push(f.queue[0]));
                        } else if self.video_dead {
                            if c.is_keyframe && self.pending_keyframe.is_none() {
                                self.pending_keyframe = Some(c);
                            }
                        } else {
                            return FeedAction::DecodeVideo(c);
                        }
                    } else if c.is_audio && signals.audio_configured {
                        let early: bool = match self.audio_skip_before_us {
                            Some(min_us) => c.timestamp_us < min_us,
                            None => false,
                        };
                        if !early {
                            self.audio_skip_before_us = None;
                            if !signals.audio_dead {
                                assert(self@ =~= first_fed(f, signals).1);
                                return FeedAction::DecodeAudio(c);
                            }
                        }
                    }
                    assert(first_fed(f, signals).0 is None);
                    assert(self@ =~= first_fed(f, signals).1);
                },
            }
        }
        FeedAction::Done
    }

    /// The video decoder has refused a chunk. An error that asks for a keyframe
    /// leaves it working; any other makes it dead.
    pub fn video_failed(&mut self, message: &str) -> (r: Option<PlayerEvent>)
        ensures
            wants_keyframe(message@) ==> r is None && final(self)@ == old(self)@,
            !wants_keyframe(message@) ==> final(self)@ == (FeedState { video_dead: true, ..old(self)@ }) && (r matches Some(e)
                && e@ == (EventView::Error { message: "Video decode error: "@ + message@, recoverable: true })),
    {
        let chars: Vec<char> = chars_of(message);
        if find_text(&chars, "key frame") || find_text(&chars, "Key frame") || find_text(&chars, "keyframe") {
            return None;
        }
        self.video_dead = true;
        assert(self@ =~= (FeedState { video_dead: true, ..old(self)@ }));
        let mut text: String = String::from_str("Video decode error: ");
        text.append(message);
        Some(PlayerEvent::Error { message: text, recoverable: true })
    }

    /// The audio decoder has refused a chunk.
    pub fn audio_failed(message: &str) -> (r: PlayerEvent)
        ensures
            r@ == (EventView::Error { message: "Audio decode error: "@ + message@, recoverable: true }),
    {
        let mut text: String = String::from_str("Audio decode error: ");
        text.append(message);
        PlayerEvent::Error { message: text, recoverable: true }
    }

    /// Re-queue deferred video chunks at the front (preserve order).
    pub fn finish(&mut self)
        ensures
            final(self)@ == (FeedState {
                queue: old(self)@.deferred + old(self)@.queue,
                deferred: Seq::empty(),
                ..old(self)@
            }),
    {
        let mut deferred: Vec<EncodedChunk> = Vec::new();
        deferred.append(&mut self.deferred);
        assert(chunk_views(deferred@) =~= old(self)@.deferred);
        put_front(&mut self.queue, deferred);
        assert(self@ =~= (FeedState {
            queue: old(self)@.deferred + old(self)@.queue,
            deferred: Seq::empty(),
            ..old(self)@
        }));
    }

    /// Drop the video chunks before the next keyframe, and give the time of that
    /// keyframe where it is near the clock.
    ///
    /// The limit prevents catastrophic jumps: without a near keyframe the clock is
    /// re-anchored without a skip.
    pub fn skip_to_keyframe(&mut self, clock_ns: i64) -> (r: Option<i64>)
        ensures
            r == near_keyframe(old(self)@.queue, clock_ns),
            final(self)@ == (FeedState { queue: from_keyframe(old(self)@.queue), ..old(self)@ }),
    {
        let ghost all = self@.queue;
        let mut kept: Vec<EncodedChunk> = Vec::new();
        let mut found: Option<i64> = None;
        let mut more: bool = true;
        let ghost mut i: int = 0;
        assert(all.skip(0) =~= all);
        assert(chunk_views(kept@) + audio_until_keyframe(all, 0) =~= audio_until_keyframe(all, 0));
        while more
            invariant
                0 <= i <= all.len(),
                all == old(self)@.queue,
                self@ == (FeedState { queue: all.skip(i), ..old(self)@ }),
                found is None || !more,
                more ==> keyframe_from(all, 0) == keyframe_from(all, i),
                more ==> audio_until_keyframe(all, 0) == chunk_views(kept@) + audio_until_keyframe(all, i),
                !more ==> keyframe_from(all, 0) == i && audio_until_keyframe(all, 0) == chunk_views(kept@) && found == near_keyframe(all, clock_ns),
            decreases all.len() - i, (if more { 1int } else { 0int }),
        {
            let ghost so_far = chunk_views(kept@);
            let ghost now = self.queue@;
            assert(chunk_views(now) == all.skip(i));
            assert(now.len() == all.len() - i);
            assert(now.len() > 0 ==> chunk_views(now)[0] == all[i]);
            match self.queue.pop_front() {
                None => {
                    more = false;
                    assert(so_far + Seq::<ChunkView>::empty() =~= so_far);
                    assert(self@ =~= (FeedState { queue: all.skip(i), ..old(self)@ }));
                },
                Some(c) => {
                    assert(c@ == all[i]);
                    assert(chunk_views(self.queue@) =~= chunk_views(now).drop_first());
                    assert(all.skip(i).drop_first() =~= all.skip(i + 1));
                    if c.is_audio {
                        kept.push(c);
                        assert(chunk_views(kept@) =~= so_far.push(all[i]));
                        assert(so_far + (seq![all[i]] + audio_until_keyframe(all, i + 1)) =~= so_far.push(all[i]) + audio_until_keyframe(all, i + 1));
                        proof {
                            i = i + 1;
                        }
                        assert(self@ =~= (FeedState { queue: all.skip(i), ..old(self)@ }));
                    } else if c.is_video && c.is_keyframe {
                        let time: i128 = c.timestamp_us as i128 * 1000;
                        if time <= clock_ns as i128 + MAX_SKIP_NS as i128 {
                            found = Some(c.timestamp_us);
                        }
                        let ghost behind = self.queue@;
                        self.queue.push_front(c);
                        assert(chunk_views(self.queue@) =~= all.skip(i));
                        assert(self@ =~= (FeedState { queue: all.skip(i), ..old(self)@ }));
                        assert(so_far + Seq::<ChunkView>::empty() =~= so_far);
                        more = false;
                    } else {
                        proof {
                            i = i + 1;
                        }
                        assert(self@ =~= (FeedState { queue: all.skip(i), ..old(self)@ }));
                    }
                },
            }
        }
        put_front(&mut self.queue, kept);
        assert(self@ =~= (FeedState { queue: from_keyframe(all), ..old(self)@ }));
        found
    }
}

// ---------------------------------------------------------------------------
// Laws
// ---------------------------------------------------------------------------

/// While the decoder works, a call that hands out a video chunk puts none off: no
/// video chunk is overtaken by a later one.
pub proof fn law_no_overtaking(f: FeedState, s: DecoderSignals, batch: usize)
    requires
        !f.video_dead,
        next_fed(f, s, batch).0 is DecodeVideo,
    ensures
        next_fed(f, s, batch).1.deferred == f.deferred,
    decreases f.queue.len(),
{
    if f.decoded < batch && f.queue.len() > 0 {
        let (action, next) = first_fed(f, s);
        if action is None {
            law_no_overtaking(next, s, batch);
            if f.queue[0].is_video {
                lemma_throttled_hands_none(next, s, batch);
            }
        }
    }
}

proof fn lemma_throttled_hands_none(f: FeedState, s: DecoderSignals, batch: usize)
    requires
        !f.video_dead,
        throttled(s),
    ensures
        !(next_fed(f, s, batch).0 is DecodeVideo),
    decreases f.queue.len(),
{
    if f.decoded < batch && f.queue.len() > 0 {
        let (action, next) = first_fed(f, s);
        if action is None {
            lemma_throttled_hands_none(next, s, batch);
        }
    }
}

/// Audio keeps flowing when video is throttled: the first audio chunk within the
/// batch is handed out, and the video chunks before it are put off in order.
pub proof fn law_audio_flows(f: FeedState, s: DecoderSignals, batch: usize, k: int)
    requires
        !f.video_dead,
        throttled(s),
        s.audio_configured,
        !s.audio_dead,
        f.audio_skip_before_us is None,
        0 <= k < f.queue.len(),
        f.decoded + k < batch,
        f.queue[k].is_audio,
        !f.queue[k].is_video,
        forall|i: int| 0 <= i < k ==> (#[trigger] f.queue[i]).is_video,
    ensures
        next_fed(f, s, batch).0 == FeedView::DecodeAudio(f.queue[k]),
        next_fed(f, s, batch).1.deferred == f.deferred + f.queue.take(k),
        next_fed(f, s, batch).1.queue == f.queue.skip(k + 1),
    decreases k,
{
    if k == 0 {
        assert(f.deferred + f.queue.take(0) =~= f.deferred);
        assert(f.queue.drop_first() =~= f.queue.skip(1));
    } else {
        let next = first_fed(f, s).1;
        assert(f.queue[0].is_video);
        assert forall|i: int| 0 <= i < k - 1 implies (#[trigger] next.queue[i]).is_video by {
            assert(next.queue[i] == f.queue[i + 1]);
        }
        law_audio_flows(next, s, batch, k - 1);
        assert(next.deferred + next.queue.take(k - 1) =~= f.deferred + f.queue.take(k));
        assert(next.queue.skip(k) =~= f.queue.skip(k + 1));
    }
}

/// The video chunks among chunks.
pub open spec fn videos_of(s: Seq<ChunkView>) -> Seq<ChunkView>
    decreases s.len(),
{
    if s.len() == 0 {
        Seq::empty()
    } else if s.last().is_video {
        videos_of(s.drop_last()).push(s.last())
    } else {
        videos_of(s.drop_last())
    }
}

/// The audio chunks among chunks.
pub open spec fn audios_of(s: Seq<ChunkView>) -> Seq<ChunkView>
    decreases s.len(),
{
    if s.len() == 0 {
        Seq::empty()
    } else if s.last().is_audio {
        audios_of(s.drop_last()).push(s.last())
    } else {
        audios_of(s.drop_last())
    }
}

proof fn lemma_of_sum(a: Seq<ChunkView>, b: Seq<ChunkView>)
    ensures
        videos_of(a + b) == videos_of(a) + videos_of(b),
        audios_of(a + b) == audios_of(a) + audios_of(b),
    decreases b.len(),
{
    if b.len() == 0 {
        assert(a + b =~= a);
        assert(videos_of(a) + videos_of(b) =~= videos_of(a));
        assert(audios_of(a) + audios_of(b) =~= audios_of(a));
    } else {
        lemma_of_sum(a, b.drop_last());
        assert((a + b).drop_last() =~= a + b.drop_last());
        assert((a + b).last() == b.last());
        assert(videos_of(a + b) =~= videos_of(a) + videos_of(b));
        assert(audios_of(a + b) =~= audios_of(a) + audios_of(b));
    }
}

proof fn lemma_of_one(c: ChunkView)
    ensures
        videos_of(seq![c]) == if c.is_video { seq![c] } else { Seq::empty() },
        audios_of(seq![c]) == if c.is_audio { seq![c] } else { Seq::empty() },
{
    let s = seq![c];
    assert(s.drop_last() =~= Seq::empty());
    assert(s.last() == c);
    assert(videos_of(s.drop_last()) =~= Seq::empty());
    assert(audios_of(s.drop_last()) =~= Seq::empty());
    assert(videos_of(s) =~= if c.is_video { seq![c] } else { Seq::empty() });
    assert(audios_of(s) =~= if c.is_audio { seq![c] } else { Seq::empty() });
}

/// With the video throttled, feeding and putting back what was put off leaves the
/// video chunks of the queue as they were, in their order.
pub proof fn law_put_off_is_kept(f: FeedState, s: DecoderSignals, batch: usize)
    requires
        !f.video_dead,
        throttled(s),
    ensures
        ({
            let next = next_fed(f, s, batch).1;
            videos_of(next.deferred + next.queue) == videos_of(f.deferred + f.queue)
        }),
    decreases f.queue.len(),
{
    if f.decoded < batch && f.queue.len() > 0 {
        let (action, next) = first_fed(f, s);
        let head = f.queue[0];
        let rest = f.queue.drop_first();
        if head.is_video {
            assert(next.deferred + next.queue =~= f.deferred + f.queue);
        } else {
            assert(f.queue =~= seq![head] + rest);
            lemma_of_sum(f.deferred, f.queue);
            lemma_of_sum(seq![head], rest);
            lemma_of_one(head);
            lemma_of_sum(f.deferred, rest);
            assert(videos_of(f.queue) =~= videos_of(rest));
        }
        if action is None {
            law_put_off_is_kept(next, s, batch);
        }
    }
}

/// A skip keeps every audio chunk, in order, and drops no video chunk from the
/// keyframe on.
pub proof fn law_skip_keeps_audio(queue: Seq<ChunkView>, i: int)
    requires
        0 <= i <= queue.len(),
    ensures
        audios_of(audio_until_keyframe(queue, i) + queue.skip(keyframe_from(queue, i))) == audios_of(queue.skip(i)),
        i <= keyframe_from(queue, i) <= queue.len(),
    decreases queue.len() - i,
{
    if i < queue.len() {
        let head = queue[i];
        let rest = queue.skip(i + 1);
        assert(queue.skip(i) =~= seq![head] + rest);
        lemma_of_sum(seq![head], rest);
        lemma_of_one(head);
        if head.is_audio {
            law_skip_keeps_audio(queue, i + 1);
            let k = audio_until_keyframe(queue, i + 1);
            let tail = queue.skip(keyframe_from(queue, i));
            assert(audio_until_keyframe(queue, i) + tail =~= seq![head] + (k + tail));
            lemma_of_sum(seq![head], k + tail);
        } else if head.is_video && head.is_keyframe {
            assert(audio_until_keyframe(queue, i) + queue.skip(i) =~= queue.skip(i));
        } else {
            law_skip_keeps_audio(queue, i + 1);
            assert(audios_of(queue.skip(i)) =~= audios_of(rest));
        }
    } else {
        assert(audio_until_keyframe(queue, i) + queue.skip(i) =~= queue.skip(i));
    }
}

/// A chunk at the head of the queue goes to the decoder of its kind: a picture where the
/// decoder has room, and sound where it is not from before the place that playback
/// begins at. Sound from before it is dropped.
pub proof fn law_head_is_decoded(f: FeedState, s: DecoderSignals, batch: usize)
    requires
        f.queue.len() > 0,
        f.decoded < batch,
        !f.video_dead,
    ensures
        ({
            let c = f.queue[0];
            let (action, next) = next_fed(f, s, batch);
            let room = s.frames_waiting < 6 && s.decodes_pending < 3;
            let stale = f.audio_skip_before_us matches Some(min) && c.timestamp_us < min;
            &&& c.is_video && room ==> action == FeedView::DecodeVideo(c) && next.queue == f.queue.drop_first() && next.decoded == f.decoded + 1
            &&& !c.is_video && c.is_audio && s.audio_configured && !s.audio_dead && !stale ==> action == FeedView::DecodeAudio(c) && next.queue == f.queue.drop_first()
                && next.audio_skip_before_us is None
            &&& !c.is_video && c.is_audio && s.audio_configured && stale ==> first_fed(f, s).0 is None && first_fed(f, s).1.queue == f.queue.drop_first()
                && first_fed(f, s).1.audio_skip_before_us == f.audio_skip_before_us
        }),
{
}

/// A skip leads to the next keyframe of the queue, where there is one: no picture from
/// before it is left, and it is told where it is not more than five seconds ahead.
pub proof fn law_skip_leads_to_keyframe(queue: Seq<ChunkView>, clock_ns: i64)
    ensures
        ({
            let k = keyframe_from(queue, 0);
            &&& 0 <= k <= queue.len()
            &&& k < queue.len() ==> queue[k].is_video && queue[k].is_keyframe
            &&& k < queue.len() && queue[k].timestamp_us * 1000 <= clock_ns + 5_000_000_000 ==> near_keyframe(queue, clock_ns) == Some(queue[k].timestamp_us)
            &&& k < queue.len() && queue[k].timestamp_us * 1000 > clock_ns + 5_000_000_000 ==> near_keyframe(queue, clock_ns) is None
            &&& k == queue.len() ==> near_keyframe(queue, clock_ns) is None
            &&& from_keyframe(queue).skip(audio_until_keyframe(queue, 0).len() as int) == queue.skip(k)
            &&& forall|i: int| 0 <= i < audio_until_keyframe(queue, 0).len() ==> (#[trigger] audio_until_keyframe(queue, 0)[i]).is_audio
        }),
{
    lemma_keyframe_place(queue, 0);
    lemma_only_audio(queue, 0);
    let a = audio_until_keyframe(queue, 0);
    assert(from_keyframe(queue).skip(a.len() as int) =~= queue.skip(keyframe_from(queue, 0)));
}

proof fn lemma_keyframe_place(queue: Seq<ChunkView>, i: int)
    requires
        0 <= i <= queue.len(),
    ensures
        i <= keyframe_from(queue, i) <= queue.len(),
        keyframe_from(queue, i) < queue.len() ==> queue[keyframe_from(queue, i)].is_video && queue[keyframe_from(queue, i)].is_keyframe,
    decreases queue.len() - i,
{
    if i < queue.len() {
        lemma_keyframe_place(queue, i + 1);
    }
}

proof fn lemma_only_audio(queue: Seq<ChunkView>, i: int)
    ensures
        forall|j: int| 0 <= j < audio_until_keyframe(queue, i).len() ==> (#[trigger] audio_until_keyframe(queue, i)[j]).is_audio,
    decreases queue.len() - i,
{
    if 0 <= i < queue.len() {
        lemma_only_audio(queue, i + 1);
        let rest = audio_until_keyframe(queue, i + 1);
        if queue[i].is_audio {
            assert forall|j: int| 0 <= j < audio_until_keyframe(queue, i).len() implies (#[trigger] audio_until_keyframe(queue, i)[j]).is_audio by {
                if j > 0 {
                    assert(audio_until_keyframe(queue, i)[j] == rest[j - 1]);
                }
            }
        }
    }
}

} // verus!
