//! Downloads in the background: their steps, their rate, and fetching ahead.

use vstd::prelude::*;

use crate::player::buffer::SharedDownload;
use crate::player::range_seek::{at_most, extend_download, extended, window_with};
use crate::player::stream::{Stream, StreamView};

verus! {

/// How long a paused download waits: 50 ms.
pub const PAUSE_MS: i32 = 50;

/// What a download does next.
#[derive(Debug, Clone, Copy, PartialEq, Eq, Structural)]
pub enum DownloadStep {
    Stop,
    Wait,
    Read,
}

/// What a download does next.
pub open spec fn step_of(cancelled: bool, paused: bool) -> DownloadStep {
    if cancelled {
        DownloadStep::Stop
    } else if paused {
        DownloadStep::Wait
    } else {
        DownloadStep::Read
    }
}

impl SharedDownload {
    /// What the download does next.
    pub fn step(&self) -> (r: DownloadStep)
        ensures
            r == step_of(self.cancelled, self.paused),
    {
        if self.cancelled {
            DownloadStep::Stop
        } else if self.paused {
            DownloadStep::Wait
        } else {
            DownloadStep::Read
        }
    }

    /// Take what has come, unless the download was cancelled meanwhile. Says
    /// whether it goes on.
    pub fn receive(&mut self, bytes: Vec<u8>) -> (r: bool)
        ensures
            r == !old(self).cancelled,
            final(self).data@ == if r { old(self).data@ + bytes@ } else { old(self).data@ },
            final(self).content_length == old(self).content_length,
            final(self).complete == old(self).complete,
            final(self).error == old(self).error,
            final(self).paused == old(self).paused,
            final(self).cancelled == old(self).cancelled,
    {
        if self.cancelled {
            return false;
        }
        let mut more: Vec<u8> = bytes;
        self.data.append(&mut more);
        true
    }

    /// All of the file has come.
    pub fn finish(&mut self)
        ensures
            final(self).complete,
            final(self).data@ == old(self).data@,
            final(self).content_length == old(self).content_length,
            final(self).error == old(self).error,
            final(self).paused == old(self).paused,
            final(self).cancelled == old(self).cancelled,
    {
        self.complete = true;
    }

    /// The download has failed: what it was told is kept for the player.
    pub fn fail(&mut self, text: String)
        ensures
            final(self).error == Some(text),
            final(self).data@ == old(self).data@,
            final(self).content_length == old(self).content_length,
            final(self).complete == old(self).complete,
            final(self).paused == old(self).paused,
            final(self).cancelled == old(self).cancelled,
    {
        self.error = Some(text);
    }
}

/// The rate of a download: what has come in the window of a second that began at
/// `window_start_ms`.
#[derive(Debug, Clone, Copy, PartialEq, Eq, Structural)]
pub struct RateLimit {
    /// Bytes per second; 0 where there is no limit.
    pub max_rate: u64,
    pub window_bytes: u64,
    pub window_start_ms: i64,
}

/// How many bytes are allowed after a time.
pub open spec fn allowed_bytes(max_rate: u64, elapsed_ms: int) -> int {
    if elapsed_ms > 0 { max_rate * elapsed_ms / 1000 } else { 0 }
}

/// How long it takes to be within the rate again.
pub open spec fn wait_for(max_rate: u64, bytes: u64, elapsed_ms: int) -> int {
    bytes * 1000 / max_rate as int - elapsed_ms
}

/// The limit after `len` bytes have come, and how long to wait.
pub open spec fn rate_step(l: RateLimit, len: u64, now_ms: i64) -> (RateLimit, Option<i32>) {
    let elapsed = now_ms - l.window_start_ms;
    let bytes = at_most(l.window_bytes + len, u64::MAX as int) as u64;
    if l.max_rate == 0 {
        (l, None)
    } else if elapsed > 1000 {
        (RateLimit { window_bytes: len, window_start_ms: now_ms, ..l }, None)
    } else {
        let wait = wait_for(l.max_rate, bytes, elapsed);
        (
            RateLimit { window_bytes: bytes, ..l },
            if bytes > allowed_bytes(l.max_rate, elapsed) && wait > 0 { Some(at_most(wait, i32::MAX as int) as i32) } else { None },
        )
    }
}

impl RateLimit {
    /// The limit at the beginning of a download.
    pub fn new(max_rate: u64, now_ms: i64) -> (r: Self)
        ensures
            r == (RateLimit { max_rate, window_bytes: 0, window_start_ms: now_ms }),
    {
        RateLimit { max_rate, window_bytes: 0, window_start_ms: now_ms }
    }

    /// Bytes have come: how long to wait, in milliseconds.
    pub fn received(&mut self, len: u64, now_ms: i64) -> (r: Option<i32>)
        ensures
            (*final(self), r) == rate_step(*old(self), len, now_ms),
    {
        if self.max_rate == 0 {
            return None;
        }
        let elapsed: i128 = now_ms as i128 - self.window_start_ms as i128;
        if elapsed > 1000 {
            self.window_bytes = len;
            self.window_start_ms = now_ms;
            return None;
        }
        self.window_bytes = if len <= u64::MAX - self.window_bytes { self.window_bytes + len } else { u64::MAX };
        let allowed: u128 = if elapsed > 0 {
            assert(self.max_rate * elapsed <= 0xffff_ffff_ffff_ffff * 1000) by (nonlinear_arith)
                requires
                    0 <= self.max_rate <= 0xffff_ffff_ffff_ffff,
                    0 <= elapsed <= 1000,
            ;
            self.max_rate as u128 * elapsed as u128 / 1000
        } else {
            0
        };
        if self.window_bytes as u128 > allowed {
            let total: u128 = self.window_bytes as u128 * 1000 / self.max_rate as u128;
            proof {
                vstd::arithmetic::div_mod::lemma_div_is_ordered_by_denominator(self.window_bytes * 1000, 1, self.max_rate as int);
            }
            let wait: i128 = total as i128 - elapsed;
            if wait > 0 {
                return Some(if wait > 0x7fff_ffff { i32::MAX } else { wait as i32 });
            }
        }
        None
    }
}

/// Data that is fetched ahead.
#[derive(Debug)]
pub struct PrefetchState {
    /// Data fetched by background task, waiting to be drained into player buffers.
    /// Each entry is (byte_offset, data).
    pub pending_data: Vec<(u64, Vec<u8>)>,
    /// Whether a prefetch is currently in flight (prevents duplicate fetches).
    pub in_flight: bool,
    /// Cancellation flag.
    pub cancelled: bool,
}

/// Pending data as sequences.
pub open spec fn pending_views(v: Seq<(u64, Vec<u8>)>) -> Seq<(u64, Seq<u8>)> {
    Seq::new(v.len(), |i: int| (v[i].0, v[i].1@))
}

/// The range that is fetched ahead, `(first, last)`, unless one is in flight.
pub open spec fn prefetch_range(in_flight: bool, start: u64, window: u64, file_size: u64) -> Option<(u64, u64)> {
    let end = at_most(start + window, file_size as int);
    if in_flight || start >= end { None } else { Some((start, (end - 1) as u64)) }
}

/// The stream, the download and the number of bytes after the first `n` pending
/// pieces.
pub open spec fn drained(s: StreamView, data: Seq<u8>, pending: Seq<(u64, Seq<u8>)>, n: nat) -> (StreamView, Seq<u8>, int)
    decreases n,
{
    if n == 0 {
        (s, data, 0)
    } else {
        let (t, d, total) = drained(s, data, pending, (n - 1) as nat);
        let (offset, bytes) = pending[n - 1];
        (
            StreamView { window: window_with(t.window, offset, bytes), ..t },
            extended(d, offset, bytes),
            total + bytes.len(),
        )
    }
}

impl PrefetchState {
    /// Nothing is fetched ahead.
    pub fn new() -> (r: Self)
        ensures
            r.pending_data@ == Seq::<(u64, Vec<u8>)>::empty(),
            !r.in_flight,
            !r.cancelled,
    {
        PrefetchState { pending_data: Vec::new(), in_flight: false, cancelled: false }
    }

    /// Begin to fetch a window ahead, unless one is in flight. Gives the range to
    /// ask for.
    pub fn begin(&mut self, start: u64, window: u64, file_size: u64) -> (r: Option<(u64, u64)>)
        ensures
            r == prefetch_range(old(self).in_flight, start, window, file_size),
            final(self).in_flight == (old(self).in_flight || r is Some),
            final(self).pending_data == old(self).pending_data,
            final(self).cancelled == old(self).cancelled,
    {
        if self.in_flight || start >= file_size || window == 0 {
            return None;
        }
        self.in_flight = true;
        let end: u64 = if window < file_size - start { start + window } else { file_size };
        Some((start, end - 1))
    }

    /// A window has come, or could not be had. After a cancellation it is dropped.
    pub fn finish(&mut self, start: u64, bytes: Option<Vec<u8>>)
        ensures
            !final(self).in_flight,
            final(self).cancelled == old(self).cancelled,
            final(self).pending_data@ == match bytes {
                Some(b) if !old(self).cancelled => old(self).pending_data@.push((start, b)),
                _ => old(self).pending_data@,
            },
    {
        if let Some(b) = bytes {
            if !self.cancelled {
                self.pending_data.push((start, b));
            }
        }
        self.in_flight = false;
    }

    /// Take what is pending.
    pub fn take_pending(&mut self) -> (r: Vec<(u64, Vec<u8>)>)
        ensures
            r@ == old(self).pending_data@,
            final(self).pending_data@ == Seq::<(u64, Vec<u8>)>::empty(),
            final(self).in_flight == old(self).in_flight,
            final(self).cancelled == old(self).cancelled,
    {
        let mut r: Vec<(u64, Vec<u8>)> = Vec::new();
        r.append(&mut self.pending_data);
        assert(r@ =~= old(self).pending_data@);
        r
    }
}

/// Whether the ends of pending pieces are file offsets.
pub open spec fn pending_sound(pending: Seq<(u64, Vec<u8>)>) -> bool {
    forall|i: int| 0 <= i < pending.len() ==> (#[trigger] pending[i]).0 + pending[i].1@.len() <= u64::MAX
}

impl Stream {
    /// Move data that was fetched ahead into the windows, and behind the download
    /// where it touches it. Gives the number of bytes, at most the largest machine
    /// word.
    pub fn drain_prefetch(&mut self, pending: Vec<(u64, Vec<u8>)>, data: &mut Vec<u8>) -> (r: usize)
        requires
            old(self).wf(),
            pending_sound(pending@),
        ensures
            final(self).wf(),
            ({
                let (s, d, total) = drained(old(self)@, old(data)@, pending_views(pending@), pending.len() as nat);
                &&& final(self)@ == s
                &&& final(data)@ == d
                &&& r == at_most(total, usize::MAX as int)
            }),
    {
        let ghost s = self@;
        let ghost d = data@;
        let ghost all = pending@;
        let ghost views = pending_views(pending@);
        let mut rest: Vec<(u64, Vec<u8>)> = pending;
        let mut total: usize = 0;
        let ghost mut n: nat = 0;
        assert(rest@ =~= all.skip(0));
        while rest.len() > 0
            invariant
                self.wf(),
                n <= all.len(),
                views == pending_views(all),
                pending_sound(all),
                rest@ == all.skip(n as int),
                (self@, data@) == (drained(s, d, views, n).0, drained(s, d, views, n).1),
                total == at_most(drained(s, d, views, n).2, usize::MAX as int),
                drained(s, d, views, n).2 >= 0,
            decreases rest.len(),
        {
            let (offset, bytes): (u64, Vec<u8>) = rest.remove(0);
            assert((offset, bytes) == all[n as int]);
            assert(rest@ =~= all.skip((n + 1) as int));
            assert(views[n as int] == (offset, bytes@));
            total = if bytes.len() <= usize::MAX - total { total + bytes.len() } else { usize::MAX };
            extend_download(data, offset, &bytes);
            self.keep_window(offset, bytes);
            proof {
                n = n + 1;
            }
        }
        total
    }
}

/// A download within its rate never waits, and one that waits is within it
/// afterwards.
pub proof fn law_wait_keeps_rate(l: RateLimit, len: u64, now_ms: i64)
    requires
        l.max_rate > 0,
        rate_step(l, len, now_ms).1 matches Some(w) && w < i32::MAX,
    ensures
        ({
            let (next, wait) = rate_step(l, len, now_ms);
            let later = now_ms - l.window_start_ms + wait->Some_0;
            next.window_bytes * 1000 < (later + 1) * l.max_rate
        }),
{
    let elapsed = now_ms - l.window_start_ms;
    let bytes = at_most(l.window_bytes + len, u64::MAX as int);
    vstd::arithmetic::div_mod::lemma_fundamental_div_mod(bytes * 1000, l.max_rate as int);
    vstd::arithmetic::div_mod::lemma_mod_bound(bytes * 1000, l.max_rate as int);
    let q = bytes * 1000 / l.max_rate as int;
    assert(bytes * 1000 < (q + 1) * l.max_rate) by (nonlinear_arith)
        requires
            bytes * 1000 == l.max_rate * q + (bytes * 1000) % (l.max_rate as int),
            (bytes * 1000) % (l.max_rate as int) < l.max_rate,
    ;
}

/// Data that is fetched ahead begins at the place that was asked for and holds a
/// window, or what is left of the file; nothing is fetched while other data is, nor
/// behind the end.
pub proof fn law_prefetch_window(in_flight: bool, start: u64, window: u64, file_size: u64)
    ensures
        prefetch_range(in_flight, start, window, file_size) is Some <==> !in_flight && start < file_size && window > 0,
        prefetch_range(in_flight, start, window, file_size) matches Some((a, b)) ==> {
            &&& a == start
            &&& a <= b < file_size
            &&& b + 1 - a == window || (b == file_size - 1 && b + 1 - a <= window)
        },
{
}

} // verus!
