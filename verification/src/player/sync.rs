//! A/V synchronization using audio clock as master.
//!
//! Strategy:
//! - Audio clock (AudioContext.currentTime) is the master reference.
//! - For each video frame, compare its PTS with the audio clock.
//! - If the frame is too early (> threshold ahead), hold it for the next rAF.
//! - If the frame is too late (> threshold behind), drop it.
//! - Otherwise, render it.
//! - Threshold adapts to the detected FPS (60% of one frame interval).
//! - After N consecutive drops, skip to a keyframe to avoid endless
//!   frame-by-frame dropping.
//!
//! All times are in nanoseconds.

use vstd::prelude::*;

use crate::demux::types::FrameRate;

verus! {

/// Default sync threshold for unknown FPS: 40 ms.
pub const DEFAULT_SYNC_THRESHOLD_NS: i64 = 40_000_000;

/// The smallest threshold: 8 ms.
pub const MIN_SYNC_THRESHOLD_NS: i64 = 8_000_000;

/// The largest threshold: 60 ms.
pub const MAX_SYNC_THRESHOLD_NS: i64 = 60_000_000;

/// Number of consecutive drops before triggering a keyframe skip.
pub const MAX_CONSECUTIVE_DROPS: u32 = 5;

/// Action to take for a video frame based on A/V sync.
#[derive(Debug, Clone, Copy, PartialEq, Eq, Structural)]
pub enum SyncAction {
    /// Frame is within tolerance — render it.
    Render,
    /// Frame is too early — hold for next rAF.
    Hold,
    /// Frame is too late — drop it.
    Drop,
    /// Too many consecutive drops — skip to next keyframe instead of
    /// dropping frame-by-frame (avoids long catch-up sequences).
    SkipToKeyframe,
}

/// A/V synchronization engine.
#[derive(Debug, Clone, Copy, PartialEq, Eq, Structural)]
pub struct AVSync {
    /// Start time offset — set when playback begins.
    pub start_offset_ns: i64,
    /// Whether we have an audio clock available.
    pub has_audio: bool,
    /// Adaptive sync threshold (based on FPS).
    pub threshold_ns: i64,
    /// Detected frame rate.
    pub fps: Option<FrameRate>,
    /// Consecutive drop count — reset on Render or Hold.
    pub consecutive_drops: u32,
    pub frames_rendered: u64,
    pub frames_dropped: u64,
    pub frames_held: u64,
    pub frames_skipped: u64,
}

/// An engine before playback.
pub open spec fn fresh_sync() -> AVSync {
    AVSync {
        start_offset_ns: 0,
        has_audio: false,
        threshold_ns: DEFAULT_SYNC_THRESHOLD_NS,
        fps: None,
        consecutive_drops: 0,
        frames_rendered: 0,
        frames_dropped: 0,
        frames_held: 0,
        frames_skipped: 0,
    }
}

/// `n` brought into the range from `lo` to `hi`.
pub open spec fn clamped(n: int, lo: int, hi: int) -> int {
    if n < lo { lo } else if n > hi { hi } else { n }
}

/// The threshold for a frame rate: 60% of one frame interval, within limits.
pub open spec fn threshold_for(fps: Option<FrameRate>) -> i64 {
    match fps {
        Some(r) => if r.frames > 0 {
            clamped(r.nanos * 3 / (5 * r.frames), MIN_SYNC_THRESHOLD_NS as int, MAX_SYNC_THRESHOLD_NS as int) as i64
        } else {
            DEFAULT_SYNC_THRESHOLD_NS
        },
        None => DEFAULT_SYNC_THRESHOLD_NS,
    }
}

/// How far a frame is ahead of the clock.
pub open spec fn lead(s: AVSync, frame_pts_ns: i64, clock_ns: i64) -> int {
    frame_pts_ns - (clock_ns - s.start_offset_ns)
}

/// What to do with a frame, and the engine after it.
pub open spec fn sync_step(s: AVSync, frame_pts_ns: i64, clock_ns: i64) -> (SyncAction, AVSync) {
    let diff = lead(s, frame_pts_ns, clock_ns);
    if diff > s.threshold_ns {
        (
            SyncAction::Hold,
            AVSync { frames_held: s.frames_held.wrapping_add(1), consecutive_drops: 0, ..s },
        )
    } else if diff < -s.threshold_ns {
        let dropped = AVSync { frames_dropped: s.frames_dropped.wrapping_add(1), ..s };
        if s.consecutive_drops + 1 >= MAX_CONSECUTIVE_DROPS {
            (
                SyncAction::SkipToKeyframe,
                AVSync { frames_skipped: s.frames_skipped.wrapping_add(1), consecutive_drops: 0, ..dropped },
            )
        } else {
            (SyncAction::Drop, AVSync { consecutive_drops: (s.consecutive_drops + 1) as u32, ..dropped })
        }
    } else {
        (
            SyncAction::Render,
            AVSync { frames_rendered: s.frames_rendered.wrapping_add(1), consecutive_drops: 0, ..s },
        )
    }
}

impl AVSync {
    /// An engine before playback.
    pub fn new() -> (r: Self)
        ensures
            r == fresh_sync(),
            r.wf(),
    {
        AVSync {
            start_offset_ns: 0,
            has_audio: false,
            threshold_ns: DEFAULT_SYNC_THRESHOLD_NS,
            fps: None,
            consecutive_drops: 0,
            frames_rendered: 0,
            frames_dropped: 0,
            frames_held: 0,
            frames_skipped: 0,
        }
    }

    /// The threshold is within its limits, and a skip comes before the drops add
    /// up to more.
    pub open spec fn wf(&self) -> bool {
        &&& MIN_SYNC_THRESHOLD_NS <= self.threshold_ns <= MAX_SYNC_THRESHOLD_NS
        &&& self.consecutive_drops < MAX_CONSECUTIVE_DROPS
    }

    /// Set whether audio clock is available.
    pub fn set_has_audio(&mut self, has_audio: bool)
        ensures
            *final(self) == (AVSync { has_audio, ..*old(self) }),
    {
        self.has_audio = has_audio;
    }

    /// Set the playback start offset.
    pub fn set_start_offset(&mut self, offset_ns: i64)
        ensures
            *final(self) == (AVSync { start_offset_ns: offset_ns, ..*old(self) }),
    {
        self.start_offset_ns = offset_ns;
    }

    /// Set the detected FPS and adapt the sync threshold.
    /// Threshold = 60% of one frame interval (e.g. 24fps → 25ms, 30fps → 20ms, 60fps → 10ms).
    pub fn set_fps(&mut self, fps: Option<FrameRate>)
        ensures
            *final(self) == (AVSync { fps, threshold_ns: threshold_for(fps), ..*old(self) }),
            old(self).wf() ==> final(self).wf(),
    {
        self.fps = fps;
        self.threshold_ns = DEFAULT_SYNC_THRESHOLD_NS;
        if let Some(r) = fps {
            if r.frames > 0 {
                let interval: u128 = (r.nanos as u128) * 3 / (5 * (r.frames as u128));
                if interval < 8_000_000 {
                    self.threshold_ns = MIN_SYNC_THRESHOLD_NS;
                } else if interval > 60_000_000 {
                    self.threshold_ns = MAX_SYNC_THRESHOLD_NS;
                } else {
                    self.threshold_ns = interval as i64;
                }
            }
        }
    }

    /// Get the current threshold (for debugging).
    pub fn threshold_ns(&self) -> (r: i64)
        ensures
            r == self.threshold_ns,
    {
        self.threshold_ns
    }

    /// Determine what to do with a video frame given the current clock.
    ///
    /// - `frame_pts_ns`: presentation timestamp of the frame
    /// - `clock_ns`: current master clock time (audio or performance)
    pub fn should_render_frame(&mut self, frame_pts_ns: i64, clock_ns: i64) -> (r: SyncAction)
        requires
            old(self).wf(),
        ensures
            (r, *final(self)) == sync_step(*old(self), frame_pts_ns, clock_ns),
            final(self).wf(),
    {
        let diff: i128 = frame_pts_ns as i128 - (clock_ns as i128 - self.start_offset_ns as i128);
        if diff > self.threshold_ns as i128 {
            self.frames_held = self.frames_held.wrapping_add(1);
            self.consecutive_drops = 0;
            SyncAction::Hold
        } else if diff < -(self.threshold_ns as i128) {
            self.consecutive_drops = self.consecutive_drops + 1;
            self.frames_dropped = self.frames_dropped.wrapping_add(1);
            if self.consecutive_drops >= MAX_CONSECUTIVE_DROPS {
                self.frames_skipped = self.frames_skipped.wrapping_add(1);
                self.consecutive_drops = 0;
                SyncAction::SkipToKeyframe
            } else {
                SyncAction::Drop
            }
        } else {
            self.frames_rendered = self.frames_rendered.wrapping_add(1);
            self.consecutive_drops = 0;
            SyncAction::Render
        }
    }

    /// Get sync statistics: (rendered, dropped, held, skipped).
    pub fn stats(&self) -> (r: (u64, u64, u64, u64))
        ensures
            r == (self.frames_rendered, self.frames_dropped, self.frames_held, self.frames_skipped),
    {
        (self.frames_rendered, self.frames_dropped, self.frames_held, self.frames_skipped)
    }

    /// Reset sync state (e.g. after seek). The frame rate, its threshold and the
    /// kind of clock stay.
    pub fn reset(&mut self)
        ensures
            *final(self) == (AVSync {
                has_audio: old(self).has_audio,
                threshold_ns: old(self).threshold_ns,
                fps: old(self).fps,
                ..fresh_sync()
            }),
            old(self).wf() ==> final(self).wf(),
    {
        self.start_offset_ns = 0;
        self.frames_rendered = 0;
        self.frames_dropped = 0;
        self.frames_held = 0;
        self.frames_skipped = 0;
        self.consecutive_drops = 0;
    }
}

/// The engine after `n` late frames in a row.
pub open spec fn after_late_frames(s: AVSync, frame_pts_ns: i64, clock_ns: i64, n: nat) -> AVSync
    decreases n,
{
    if n == 0 {
        s
    } else {
        sync_step(after_late_frames(s, frame_pts_ns, clock_ns, (n - 1) as nat), frame_pts_ns, clock_ns).1
    }
}

/// A frame is rendered exactly where it is within the threshold, held where it is
/// earlier, and given up where it is later.
pub proof fn law_action_by_lead(s: AVSync, frame_pts_ns: i64, clock_ns: i64)
    requires
        s.wf(),
    ensures
        ({
            let diff = lead(s, frame_pts_ns, clock_ns);
            let action = sync_step(s, frame_pts_ns, clock_ns).0;
            &&& action == SyncAction::Render <==> -s.threshold_ns <= diff <= s.threshold_ns
            &&& action == SyncAction::Hold <==> diff > s.threshold_ns
            &&& (action == SyncAction::Drop || action == SyncAction::SkipToKeyframe) <==> diff < -s.threshold_ns
        }),
{
}

/// Of late frames in a row, beginning without a drop, the first ones are dropped,
/// and the one that makes the number full skips to a keyframe and begins anew.
pub proof fn law_skip_after_drops(s: AVSync, frame_pts_ns: i64, clock_ns: i64, n: nat)
    requires
        s.wf(),
        s.consecutive_drops == 0,
        lead(s, frame_pts_ns, clock_ns) < -s.threshold_ns,
        n < MAX_CONSECUTIVE_DROPS,
    ensures
        ({
            let t = after_late_frames(s, frame_pts_ns, clock_ns, n);
            let step = sync_step(t, frame_pts_ns, clock_ns);
            &&& t.consecutive_drops == n
            &&& lead(t, frame_pts_ns, clock_ns) == lead(s, frame_pts_ns, clock_ns)
            &&& t.threshold_ns == s.threshold_ns
            &&& step.0 == (if n + 1 == MAX_CONSECUTIVE_DROPS { SyncAction::SkipToKeyframe } else { SyncAction::Drop })
            &&& n + 1 == MAX_CONSECUTIVE_DROPS ==> step.1.consecutive_drops == 0
        }),
    decreases n,
{
    if n > 0 {
        law_skip_after_drops(s, frame_pts_ns, clock_ns, (n - 1) as nat);
    }
}

/// Every frame is counted once as rendered, dropped or held.
pub proof fn law_frames_counted(s: AVSync, frame_pts_ns: i64, clock_ns: i64)
    requires
        s.wf(),
        s.frames_rendered < u64::MAX,
        s.frames_dropped < u64::MAX,
        s.frames_held < u64::MAX,
    ensures
        ({
            let t = sync_step(s, frame_pts_ns, clock_ns).1;
            t.frames_rendered + t.frames_dropped + t.frames_held == s.frames_rendered + s.frames_dropped + s.frames_held + 1
        }),
{
}

/// The threshold is three fifths of the time of a frame, cut to a whole nanosecond,
/// but not below 8 and not above 60 milliseconds.
pub proof fn law_threshold_by_rate(r: FrameRate)
    requires
        r.frames > 0,
    ensures
        ({
            let t = threshold_for(Some(r));
            &&& 8_000_000 <= t <= 60_000_000
            &&& t < 60_000_000 ==> 3 * r.nanos < 5 * (t + 1) * r.frames
            &&& t > 8_000_000 ==> 5 * t * r.frames <= 3 * r.nanos
        }),
{
    let n = r.nanos * 3;
    let d = 5 * r.frames;
    vstd::arithmetic::div_mod::lemma_fundamental_div_mod(n as int, d as int);
    vstd::arithmetic::div_mod::lemma_mod_bound(n as int, d as int);
    let q = n as int / d as int;
    let t = threshold_for(Some(r)) as int;
    assert(q * d <= n < (q + 1) * d) by (nonlinear_arith)
        requires
            n == d * q + n as int % d as int,
            0 <= n as int % d as int,
            (n as int % d as int) < d,
    ;
    if t < 60_000_000 {
        assert(q <= t);
        assert(n < 5 * (t + 1) * r.frames) by (nonlinear_arith)
            requires
                q <= t,
                n < (q + 1) * d,
                d == 5 * r.frames,
                d > 0,
        ;
    }
    if t > 8_000_000 {
        assert(t <= q);
        assert(5 * t * r.frames <= n) by (nonlinear_arith)
            requires
                t <= q,
                q * d <= n,
                d == 5 * r.frames,
                d > 0,
        ;
    }
}

} // verus!
