//! The playback clock, and what becomes of decoded frames.

use vstd::prelude::*;

use crate::demux::ebml::{limited_product, multiply_limited};
use crate::player::feed::{from_keyframe, near_keyframe, Feed, FeedState};
use crate::player::sync::{sync_step, AVSync, SyncAction};

verus! {

/// `n` brought into 64 bits.
pub open spec fn limited(n: int) -> i64 {
    if n > i64::MAX {
        i64::MAX
    } else if n < i64::MIN {
        i64::MIN
    } else {
        n as i64
    }
}

/// A difference brought into 64 bits.
pub fn limited_difference(a: i64, b: i64) -> (r: i64)
    ensures
        r == limited(a - b),
{
    let n: i128 = a as i128 - b as i128;
    if n > 0x7fff_ffff_ffff_ffff {
        i64::MAX
    } else if n < -0x8000_0000_0000_0000 {
        i64::MIN
    } else {
        n as i64
    }
}

/// Microseconds as nanoseconds, brought into 64 bits.
pub open spec fn us_as_ns(us: i64) -> i64 {
    limited_product(us as int, 1000) as i64
}

/// Microseconds as nanoseconds.
pub fn us_to_ns(us: i64) -> (r: i64)
    ensures
        r == us_as_ns(us),
{
    multiply_limited(us, 1000)
}

/// A time as whole milliseconds, not below zero.
pub open spec fn ns_as_ms(ns: i64) -> u64 {
    if ns < 0 { 0 } else { (ns / 1_000_000) as u64 }
}

/// A time as whole milliseconds, not below zero.
pub fn ns_to_ms(ns: i64) -> (r: u64)
    ensures
        r == ns_as_ms(ns),
{
    if ns < 0 { 0 } else { (ns / 1_000_000) as u64 }
}

/// Milliseconds as nanoseconds, brought into 64 bits.
pub open spec fn ms_as_ns(ms: u64) -> i64 {
    limited(ms * 1_000_000)
}

/// Milliseconds as nanoseconds.
pub fn ms_to_ns(ms: u64) -> (r: i64)
    ensures
        r == ms_as_ns(ms),
{
    let n: u128 = ms as u128 * 1_000_000;
    if n > 0x7fff_ffff_ffff_ffff { i64::MAX } else { n as i64 }
}

/// The playback clock. It is set against a master clock: that of the audio output
/// where there is one, else that of the window.
#[derive(Debug, Clone, Copy, PartialEq, Eq, Structural)]
pub struct PlaybackClock {
    /// The master time at which the position would be zero. After seek to T,
    /// this is the master time less T so that the clock starts at T.
    pub start_ns: i64,
    /// Set once the clock has been re-anchored to the first decoded frame's PTS.
    /// Prevents the initial decoder latency from causing mass frame drops.
    pub synced_to_first_frame: bool,
    /// After a skip, ignore decoded frames with PTS below this threshold.
    pub skip_frames_before_us: Option<i64>,
}

/// The position at a master time.
pub open spec fn position_at(c: PlaybackClock, master_ns: i64) -> i64 {
    limited(master_ns - c.start_ns)
}

/// The clock set to a position at a master time.
pub open spec fn anchored(c: PlaybackClock, master_ns: i64, position_ns: i64) -> PlaybackClock {
    PlaybackClock { start_ns: limited(master_ns - position_ns), ..c }
}

/// Whether a frame comes from before a skip.
pub open spec fn is_stale(c: PlaybackClock, pts_us: i64) -> bool {
    c.skip_frames_before_us matches Some(min_us) && pts_us < min_us
}

/// The clock after a skip to a keyframe, where one is near.
pub open spec fn skipped_to(c: PlaybackClock, keyframe_us: Option<i64>) -> PlaybackClock {
    PlaybackClock {
        synced_to_first_frame: false,
        skip_frames_before_us: match keyframe_us {
            Some(us) => Some(us),
            None => c.skip_frames_before_us,
        },
        ..c
    }
}

impl PlaybackClock {
    /// A clock that has not been started.
    pub fn new() -> (r: Self)
        ensures
            r == (PlaybackClock { start_ns: 0, synced_to_first_frame: false, skip_frames_before_us: None }),
    {
        PlaybackClock { start_ns: 0, synced_to_first_frame: false, skip_frames_before_us: None }
    }

    /// Current playback position.
    pub fn position_ns(&self, master_ns: i64) -> (r: i64)
        ensures
            r == position_at(*self, master_ns),
    {
        limited_difference(master_ns, self.start_ns)
    }

    /// Set the clock to a position.
    pub fn anchor(&mut self, master_ns: i64, position_ns: i64)
        ensures
            *final(self) == anchored(*old(self), master_ns, position_ns),
    {
        self.start_ns = limited_difference(master_ns, position_ns);
    }

    /// Set the clock to a position from which frames come anew: the first one
    /// sets it again.
    pub fn restart(&mut self, master_ns: i64, position_ns: i64)
        ensures
            *final(self) == (PlaybackClock {
                start_ns: limited(master_ns - position_ns),
                synced_to_first_frame: false,
                skip_frames_before_us: None,
            }),
    {
        self.start_ns = limited_difference(master_ns, position_ns);
        self.synced_to_first_frame = false;
        self.skip_frames_before_us = None;
    }

    /// Whether the next frame is to be discarded: decoding is async, so old frames
    /// may still emerge after a skip. A frame that is not stale ends the filter.
    pub fn discard_stale(&mut self, pts_us: i64) -> (r: bool)
        ensures
            r == is_stale(*old(self), pts_us),
            *final(self) == (if r {
                *old(self)
            } else {
                (PlaybackClock { skip_frames_before_us: None, ..*old(self) })
            }),
    {
        if let Some(min_us) = self.skip_frames_before_us {
            if pts_us < min_us {
                return true;
            }
        }
        self.skip_frames_before_us = None;
        false
    }

    /// The first decoded frame may arrive long after the clock was started.
    /// Without adjustment, all initial frames would be "late" and dropped: so on
    /// the very first decoded frame, the clock is re-anchored to its PTS. Gives
    /// the position that holds for this tick, where it changed.
    pub fn sync_to_frame(&mut self, pts_us: i64, master_ns: i64) -> (r: Option<i64>)
        ensures
            old(self).synced_to_first_frame ==> r is None && *final(self) == *old(self),
            !old(self).synced_to_first_frame ==> r == Some(us_as_ns(pts_us)) && *final(self) == (PlaybackClock {
                synced_to_first_frame: true,
                ..anchored(*old(self), master_ns, us_as_ns(pts_us))
            }),
    {
        if self.synced_to_first_frame {
            return None;
        }
        let pts_ns: i64 = us_to_ns(pts_us);
        self.anchor(master_ns, pts_ns);
        self.synced_to_first_frame = true;
        Some(pts_ns)
    }

    /// Decide what becomes of the next frame. A skip drops the queued video chunks
    /// before the next keyframe, filters stale frames where that keyframe is near,
    /// and has the clock re-anchored on the next decoded frame: without this, the
    /// clock keeps advancing and all subsequent frames arrive "late".
    pub fn decide(&mut self, sync: &mut AVSync, feed: &mut Feed, pts_us: i64, clock_ns: i64) -> (r: SyncAction)
        requires
            old(sync).wf(),
        ensures
            (r, *final(sync)) == sync_step(*old(sync), us_as_ns(pts_us), clock_ns),
            final(sync).wf(),
            r == SyncAction::SkipToKeyframe ==> final(feed)@ == (FeedState { queue: from_keyframe(old(feed)@.queue), ..old(feed)@ })
                && *final(self) == skipped_to(*old(self), near_keyframe(old(feed)@.queue, clock_ns)),
            r != SyncAction::SkipToKeyframe ==> final(feed)@ == old(feed)@ && *final(self) == *old(self),
    {
        let action: SyncAction = sync.should_render_frame(us_to_ns(pts_us), clock_ns);
        if action == SyncAction::SkipToKeyframe {
            let near: Option<i64> = feed.skip_to_keyframe(clock_ns);
            if near.is_some() {
                self.skip_frames_before_us = near;
            }
            self.synced_to_first_frame = false;
        }
        action
    }
}

/// After a seek the clock starts at the position that was sought, and goes on with
/// the master clock.
pub proof fn law_clock_follows_master(c: PlaybackClock, master_ns: i64, position_ns: i64, later_ns: i64)
    requires
        i64::MIN <= master_ns - position_ns <= i64::MAX,
        i64::MIN <= later_ns - (master_ns - position_ns) <= i64::MAX,
    ensures
        position_at(anchored(c, master_ns, position_ns), master_ns) == position_ns,
        position_at(anchored(c, master_ns, position_ns), later_ns) == position_ns + (later_ns - master_ns),
{
}

/// The first frame after a start, a seek or a skip is rendered: the clock is set
/// to its time before it is judged.
pub proof fn law_first_frame_rendered(s: AVSync, pts_us: i64)
    requires
        s.wf(),
        s.start_offset_ns == 0,
    ensures
        sync_step(s, us_as_ns(pts_us), us_as_ns(pts_us)).0 == SyncAction::Render,
{
}

/// Units of time: a microsecond is a thousand nanoseconds, a millisecond a million of
/// them, and a time that is told in milliseconds is cut to a whole one. Times before
/// the start are told as the start.
pub proof fn law_units_of_time(us: i64, ns: i64, ms: u64)
    ensures
        i64::MIN <= us * 1000 <= i64::MAX ==> us_as_ns(us) == us * 1000,
        ns >= 0 ==> ns_as_ms(ns) * 1_000_000 <= ns < (ns_as_ms(ns) + 1) * 1_000_000,
        ns < 0 ==> ns_as_ms(ns) == 0,
        ms * 1_000_000 <= i64::MAX ==> ms_as_ns(ms) == ms * 1_000_000 && ns_as_ms(ms_as_ns(ms)) == ms,
{
}

} // verus!
