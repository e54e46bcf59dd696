//! When decoded audio is played, and how it is mixed down.

use vstd::prelude::*;
use vstd::string::*;

use crate::player::clock::{limited, limited_difference, us_as_ns, us_to_ns};
use crate::text::same_text;

verus! {

/// How late audio may be to be played at once: 50 ms.
pub const LATE_NS: i64 = 50_000_000;

/// Whether a codec is decoded in software: WebCodecs is asked first, and where it
/// refused a codec that can be decoded in software, that is done.
pub fn is_software(codec: &str, refused: bool) -> (r: bool)
    ensures
        r == (refused && (codec@ == "ac-3"@ || codec@ == "ec-3"@)),
{
    refused && (same_text(codec, "ac-3") || same_text(codec, "ec-3"))
}

/// When the next audio is played. Times are those of the audio output, in
/// nanoseconds.
#[derive(Debug, Clone, Copy, PartialEq, Eq)]
pub struct AudioSchedule {
    /// The end of what has been scheduled.
    pub next_play_ns: i64,
    /// A moment of the audio output and the media time that is played then.
    pub origin: Option<(i64, i64)>,
}

/// The larger of two times.
pub open spec fn later(a: i64, b: i64) -> i64 {
    if a > b { a } else { b }
}

/// The time at which media time `pts_ns` is played, by an origin.
pub open spec fn play_time(origin: (i64, i64), pts_ns: i64) -> i64 {
    limited(origin.0 + limited(pts_ns - origin.1))
}

/// When audio is played that is not bound to a media time, and the schedule after
/// it.
pub open spec fn queued(s: AudioSchedule, duration_ns: i64, now_ns: i64) -> (i64, AudioSchedule) {
    let at = later(s.next_play_ns, now_ns);
    (at, AudioSchedule { next_play_ns: limited(at + duration_ns), ..s })
}

/// When audio of a media time is played, and the schedule after it; audio that is
/// too late is not played.
pub open spec fn scheduled(s: AudioSchedule, pts_us: i64, duration_ns: i64, now_ns: i64) -> (Option<i64>, AudioSchedule) {
    match s.origin {
        Some(origin) => {
            let target = play_time(origin, us_as_ns(pts_us));
            if target >= now_ns - LATE_NS {
                let at = later(target, now_ns);
                (Some(at), AudioSchedule { next_play_ns: limited(at + duration_ns), ..s })
            } else {
                (None, s)
            }
        },
        None => {
            let (at, next) = queued(s, duration_ns, now_ns);
            (Some(at), next)
        },
    }
}

/// A sum brought into 64 bits.
fn limited_sum(a: i64, b: i64) -> (r: i64)
    ensures
        r == limited(a + b),
{
    let n: i128 = a as i128 + b as i128;
    if n > 0x7fff_ffff_ffff_ffff {
        i64::MAX
    } else if n < -0x8000_0000_0000_0000 {
        i64::MIN
    } else {
        n as i64
    }
}

impl AudioSchedule {
    /// Nothing is scheduled.
    pub fn new() -> (r: Self)
        ensures
            r == (AudioSchedule { next_play_ns: 0, origin: None }),
    {
        AudioSchedule { next_play_ns: 0, origin: None }
    }

    /// Begin anew at a moment of the audio output. The origin stays.
    pub fn reset(&mut self, now_ns: i64)
        ensures
            *final(self) == (AudioSchedule { next_play_ns: now_ns, ..*old(self) }),
    {
        self.next_play_ns = now_ns;
    }

    /// At this moment of the audio output, the media time is `media_ns`: audio is
    /// played at its own time from now on.
    pub fn set_origin(&mut self, now_ns: i64, media_ns: i64)
        ensures
            *final(self) == (AudioSchedule { origin: Some((now_ns, media_ns)), ..*old(self) }),
    {
        self.origin = Some((now_ns, media_ns));
    }

    /// Audio is played one after another from now on.
    pub fn clear_origin(&mut self)
        ensures
            *final(self) == (AudioSchedule { origin: None, ..*old(self) }),
    {
        self.origin = None;
    }

    /// When audio of a media time is played; nothing where it is too late.
    pub fn schedule(&mut self, pts_us: i64, duration_ns: i64, now_ns: i64) -> (r: Option<i64>)
        ensures
            (r, *final(self)) == scheduled(*old(self), pts_us, duration_ns, now_ns),
    {
        match self.origin {
            Some((moment, media)) => {
                let target: i64 = limited_sum(moment, limited_difference(us_to_ns(pts_us), media));
                if target as i128 >= now_ns as i128 - LATE_NS as i128 {
                    let at: i64 = if target > now_ns { target } else { now_ns };
                    self.next_play_ns = limited_sum(at, duration_ns);
                    Some(at)
                } else {
                    None
                }
            },
            None => Some(self.queue(duration_ns, now_ns)),
        }
    }

    /// When audio is played that is not bound to a media time.
    pub fn queue(&mut self, duration_ns: i64, now_ns: i64) -> (r: i64)
        ensures
            (r, *final(self)) == queued(*old(self), duration_ns, now_ns),
    {
        let at: i64 = if self.next_play_ns > now_ns { self.next_play_ns } else { now_ns };
        self.next_play_ns = limited_sum(at, duration_ns);
        at
    }
}

/// A channel that is mixed in, with its weight in thousandths.
#[derive(Debug, Clone, Copy, PartialEq, Eq, Structural)]
pub struct Tap {
    pub channel: usize,
    pub weight: u16,
}

/// The weight of a channel as it is.
pub const FULL: u16 = 1000;

/// The weight of a centre or surround channel: 3 dB less.
pub const SOFT: u16 = 707;

/// The channels that make the left and the right side of `n` channels: 5.1 and 5.0
/// are L, C, R, SL, SR; quad is L, R, SL, SR; 3.0 is L, C, R. One channel goes to
/// both sides; of others the first two are taken.
pub open spec fn stereo_taps(n: usize) -> (Seq<Tap>, Seq<Tap>) {
    let full = |c: usize| Tap { channel: c, weight: FULL };
    let soft = |c: usize| Tap { channel: c, weight: SOFT };
    if n == 6 || n == 5 {
        (seq![full(0), soft(1), soft(3)], seq![full(2), soft(1), soft(4)])
    } else if n == 4 {
        (seq![full(0), soft(2)], seq![full(1), soft(3)])
    } else if n == 3 {
        (seq![full(0), soft(1)], seq![full(2), soft(1)])
    } else if n >= 2 {
        (seq![full(0)], seq![full(1)])
    } else {
        (seq![full(0)], seq![full(0)])
    }
}

fn one(a: Tap) -> (v: Vec<Tap>)
    ensures
        v@ == seq![a],
{
    let mut v: Vec<Tap> = Vec::new();
    v.push(a);
    assert(v@ =~= seq![a]);
    v
}

fn two(a: Tap, b: Tap) -> (v: Vec<Tap>)
    ensures
        v@ == seq![a, b],
{
    let mut v: Vec<Tap> = one(a);
    v.push(b);
    assert(v@ =~= seq![a, b]);
    v
}

fn three(a: Tap, b: Tap, c: Tap) -> (v: Vec<Tap>)
    ensures
        v@ == seq![a, b, c],
{
    let mut v: Vec<Tap> = two(a, b);
    v.push(c);
    assert(v@ =~= seq![a, b, c]);
    v
}

/// The channels that make the left and the right side of `n` channels.
pub fn downmix_taps(n: usize) -> (r: (Vec<Tap>, Vec<Tap>))
    ensures
        (r.0@, r.1@) == stereo_taps(n),
{
    let l: Tap = Tap { channel: 0, weight: FULL };
    if n == 6 || n == 5 {
        let c: Tap = Tap { channel: 1, weight: SOFT };
        (
            three(l, c, Tap { channel: 3, weight: SOFT }),
            three(Tap { channel: 2, weight: FULL }, c, Tap { channel: 4, weight: SOFT }),
        )
    } else if n == 4 {
        (two(l, Tap { channel: 2, weight: SOFT }), two(Tap { channel: 1, weight: FULL }, Tap { channel: 3, weight: SOFT }))
    } else if n == 3 {
        let c: Tap = Tap { channel: 1, weight: SOFT };
        (two(l, c), two(Tap { channel: 2, weight: FULL }, c))
    } else if n >= 2 {
        (one(l), one(Tap { channel: 1, weight: FULL }))
    } else {
        (one(l), one(l))
    }
}

// ---------------------------------------------------------------------------
// Laws
// ---------------------------------------------------------------------------

/// Audio is never scheduled in the past.
pub proof fn law_never_in_the_past(s: AudioSchedule, pts_us: i64, duration_ns: i64, now_ns: i64)
    ensures
        scheduled(s, pts_us, duration_ns, now_ns).0 matches Some(at) ==> at >= now_ns,
        queued(s, duration_ns, now_ns).0 >= now_ns,
{
}

/// Audio that follows without an origin is played without a gap and without
/// overlap, as long as it comes in time.
pub proof fn law_queue_without_gap(s: AudioSchedule, first_ns: i64, second_ns: i64, now_ns: i64, then_ns: i64)
    requires
        first_ns >= 0,
        ({
            let (at, next) = queued(s, first_ns, now_ns);
            at + first_ns <= i64::MAX && then_ns <= at + first_ns
        }),
    ensures
        ({
            let (at, next) = queued(s, first_ns, now_ns);
            queued(next, second_ns, then_ns).0 == at + first_ns
        }),
{
}

/// With an origin, audio that comes in time is played at its own media time: two
/// pieces are as far apart as their times.
pub proof fn law_origin_keeps_distance(s: AudioSchedule, a_us: i64, b_us: i64, duration_ns: i64, now_ns: i64)
    requires
        s.origin matches Some(o) && {
            &&& i64::MIN <= o.0 + (a_us * 1000 - o.1) <= i64::MAX
            &&& i64::MIN <= o.0 + (b_us * 1000 - o.1) <= i64::MAX
            &&& i64::MIN <= a_us * 1000 - o.1 <= i64::MAX
            &&& i64::MIN <= b_us * 1000 - o.1 <= i64::MAX
            &&& now_ns <= o.0 + (a_us * 1000 - o.1)
            &&& now_ns <= o.0 + (b_us * 1000 - o.1)
        },
        i64::MIN <= a_us * 1000 <= i64::MAX,
        i64::MIN <= b_us * 1000 <= i64::MAX,
    ensures
        ({
            let (at, next) = scheduled(s, a_us, duration_ns, now_ns);
            let (bt, _) = scheduled(next, b_us, duration_ns, now_ns);
            at is Some && bt is Some && bt->Some_0 - at->Some_0 == (b_us - a_us) * 1000
        }),
{
}

/// Every channel that is mixed in is there.
pub proof fn law_taps_in_range(n: usize, i: int)
    requires
        n > 0,
    ensures
        0 <= i < stereo_taps(n).0.len() ==> stereo_taps(n).0[i].channel < n,
        0 <= i < stereo_taps(n).1.len() ==> stereo_taps(n).1[i].channel < n,
{
}

/// The two sides of a mix mirror each other: each has its own front channel in full and
/// then channels that are softer by 3 dB, half their power, the centre in both.
pub proof fn law_stereo_mix(n: usize, i: int)
    requires
        n > 0,
    ensures
        ({
            let (l, r) = stereo_taps(n);
            &&& l.len() == r.len()
            &&& 1 <= l.len() <= 3
            &&& l[0].channel == 0
            &&& l[0].weight == 1000 && r[0].weight == 1000
            &&& 0 < i < l.len() ==> l[i].weight == 707 && r[i].weight == 707
            &&& n == 1 ==> r[0].channel == 0
            &&& n == 2 || n == 4 || n > 6 ==> r[0].channel == 1
            &&& n == 3 || n == 5 || n == 6 ==> r[0].channel == 2 && l.len() > 1 && l[1].channel == 1 && r[1].channel == 1
            &&& n == 4 ==> l.len() == 2 && l[1].channel == 2 && r[1].channel == 3
            &&& n == 5 || n == 6 ==> l.len() == 3 && l[2].channel == 3 && r[2].channel == 4
            &&& n <= 2 || n > 6 ==> l.len() == 1
            &&& n == 3 ==> l.len() == 2
        }),
{
}

/// With an origin, sound is played at its own time: as far behind the origin on the
/// clock as it is behind it in the media, or at once where that is past, but by no more
/// than 50 milliseconds; what is later is dropped.
pub proof fn law_sound_at_its_time(s: AudioSchedule, pts_us: i64, duration_ns: i64, now_ns: i64)
    requires
        s.origin matches Some(o) && i64::MIN <= pts_us * 1000 <= i64::MAX && i64::MIN <= pts_us * 1000 - o.1 <= i64::MAX && i64::MIN <= o.0 + (pts_us * 1000
            - o.1) <= i64::MAX,
    ensures
        ({
            let o = s.origin->Some_0;
            let at = o.0 + (pts_us * 1000 - o.1);
            let (r, next) = scheduled(s, pts_us, duration_ns, now_ns);
            &&& at < now_ns - 50_000_000 ==> r is None && next == s
            &&& now_ns - 50_000_000 <= at <= now_ns ==> r == Some(now_ns)
            &&& now_ns <= at ==> (r matches Some(t) && t == at)
            &&& r matches Some(t) ==> (t + duration_ns <= i64::MAX && t + duration_ns >= i64::MIN ==> next.next_play_ns == t + duration_ns)
            &&& next.origin == s.origin
        }),
{
}

} // verus!
