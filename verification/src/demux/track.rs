//! The tables of an MP4 track: codec configuration, sample times and sample
//! positions.

use vstd::prelude::*;
use vstd::string::*;

use crate::demux::codecs::{avc_string, avc_text};
use crate::demux::ebml::{as_signed, divide, quotient, to_signed};
use crate::demux::types::{
    AudioTrackInfo, AudioView, FrameRate, SeekEntry, VideoTrackInfo, VideoView,
};
use crate::text::{push_small_hex_byte, small_hex_byte};

verus! {

/// What a track is for.
#[derive(Debug, Clone, Copy, PartialEq, Eq, Structural)]
pub enum TrackKind {
    Video,
    Audio,
    Other,
}

/// How the samples of a track are coded.
#[derive(Debug, Clone, Copy, PartialEq, Eq, Structural)]
pub enum MediaKind {
    H264,
    H265,
    Vp9,
    Aac,
    Other,
}

/// The AVC decoder configuration.
pub struct AvcConfig {
    pub version: u8,
    pub profile: u8,
    pub compatibility: u8,
    pub level: u8,
    pub length_size_minus_one: u8,
    pub sps: Vec<Vec<u8>>,
    pub pps: Vec<Vec<u8>>,
}

/// The AVC decoder configuration as sequences.
#[verifier::ext_equal]
pub struct AvcView {
    pub version: u8,
    pub profile: u8,
    pub compatibility: u8,
    pub level: u8,
    pub length_size_minus_one: u8,
    pub sps: Seq<Seq<u8>>,
    pub pps: Seq<Seq<u8>>,
}

/// The rows of a table of bytes.
pub open spec fn byte_rows(v: Seq<Vec<u8>>) -> Seq<Seq<u8>> {
    Seq::new(v.len(), |i: int| v[i]@)
}

impl View for AvcConfig {
    type V = AvcView;

    open spec fn view(&self) -> AvcView {
        AvcView {
            version: self.version,
            profile: self.profile,
            compatibility: self.compatibility,
            level: self.level,
            length_size_minus_one: self.length_size_minus_one,
            sps: byte_rows(self.sps@),
            pps: byte_rows(self.pps@),
        }
    }
}

/// The AAC decoder configuration.
#[derive(Debug, Clone, Copy, PartialEq, Eq, Structural)]
pub struct AacConfig {
    pub object_type: u8,
    pub profile: u8,
    pub freq_index: u8,
    pub chan_conf: u8,
}

/// A run of chunks with equally many samples.
#[derive(Debug, Clone, Copy, PartialEq, Eq, Structural)]
pub struct ChunkRun {
    pub first_chunk: u32,
    pub samples_per_chunk: u32,
    pub first_sample: u32,
}

/// A run of samples of equal duration.
#[derive(Debug, Clone, Copy, PartialEq, Eq, Structural)]
pub struct TimeRun {
    pub count: u32,
    pub delta: u32,
}

/// The general properties of a track.
#[derive(Debug, Clone, Copy, PartialEq, Eq, Structural)]
pub struct TrackBasics {
    pub kind: TrackKind,
    pub media: MediaKind,
    pub width: u16,
    pub height: u16,
    pub timescale: u32,
    pub duration: u64,
    /// The channel configuration code, where it is a valid one.
    pub channel_config: Option<u8>,
    /// The sample rate, where its index is a valid one.
    pub sample_rate: Option<u32>,
}

/// The sizes of the samples of a track.
pub struct SampleSizes {
    /// The size of every sample, or zero.
    pub fixed: u32,
    pub sizes: Vec<u32>,
    pub count: u32,
}

/// A track of an MP4 file.
pub struct Track {
    pub id: u32,
    pub basics: TrackBasics,
    pub avc: Option<AvcConfig>,
    pub aac: Option<AacConfig>,
    /// The sync samples, where not every sample is one.
    pub stss: Option<Vec<u32>>,
    pub stts: Vec<TimeRun>,
    pub stsc: Vec<ChunkRun>,
    pub stco: Option<Vec<u32>>,
    pub co64: Option<Vec<u64>>,
    pub stsz: SampleSizes,
    /// The sample counts of the fragments, where they have one.
    pub fragments: Vec<Option<u32>>,
    /// The duration of a sample in a fragment.
    pub fragment_delta: u32,
}

/// A track of an MP4 file as sequences.
#[verifier::ext_equal]
pub struct TrackView {
    pub basics: TrackBasics,
    pub avc: Option<AvcView>,
    pub aac: Option<AacConfig>,
    pub stss: Option<Seq<u32>>,
    pub stts: Seq<TimeRun>,
    pub stsc: Seq<ChunkRun>,
    pub stco: Option<Seq<u32>>,
    pub co64: Option<Seq<u64>>,
    pub fixed_size: u32,
    pub sizes: Seq<u32>,
    pub size_count: u32,
    pub fragments: Seq<Option<u32>>,
    pub fragment_delta: u32,
}

impl View for Track {
    type V = TrackView;

    open spec fn view(&self) -> TrackView {
        TrackView {
            basics: self.basics,
            avc: match self.avc {
                Some(a) => Some(a@),
                None => None,
            },
            aac: self.aac,
            stss: match self.stss {
                Some(v) => Some(v@),
                None => None,
            },
            stts: self.stts@,
            stsc: self.stsc@,
            stco: match self.stco {
                Some(v) => Some(v@),
                None => None,
            },
            co64: match self.co64 {
                Some(v) => Some(v@),
                None => None,
            },
            fixed_size: self.stsz.fixed,
            sizes: self.stsz.sizes@,
            size_count: self.stsz.count,
            fragments: self.fragments@,
            fragment_delta: self.fragment_delta,
        }
    }
}

// ---------------------------------------------------------------------------
// Codecs
// ---------------------------------------------------------------------------

/// The codec string of a video track.
pub open spec fn mp4_video_codec(t: TrackView) -> Seq<char> {
    match t.basics.media {
        MediaKind::H264 => match t.avc {
            Some(a) => avc_text(a.profile, a.compatibility, a.level),
            None => "avc1.640029"@,
        },
        MediaKind::H265 => "hvc1.1.6.L93.B0"@,
        MediaKind::Vp9 => "vp09.00.10.08"@,
        _ => "avc1.640029"@,
    }
}

/// The codec string of an audio track.
pub open spec fn mp4_audio_codec(t: TrackView) -> Seq<char> {
    match t.aac {
        Some(a) if t.basics.media == MediaKind::Aac && a.object_type != 0x40 => "mp4a."@ + small_hex_byte(a.object_type) + ".2"@,
        _ => "mp4a.40.2"@,
    }
}

/// The low eight bits of `n`.
pub open spec fn low8(n: int) -> u8 {
    (n % 256) as u8
}

/// Parameter sets, each behind its length in two bytes.
pub open spec fn parameter_sets(units: Seq<Seq<u8>>, n: nat) -> Seq<u8>
    decreases n,
{
    if n == 0 {
        Seq::empty()
    } else {
        let u = units[n - 1];
        parameter_sets(units, (n - 1) as nat) + seq![low8(u.len() as int / 256), low8(u.len() as int)] + u
    }
}

/// The AVC decoder configuration record.
pub open spec fn avc_record(a: AvcView) -> Seq<u8> {
    seq![a.version, a.profile, a.compatibility, a.level, a.length_size_minus_one | 0xFC, low8(a.sps.len() as int) | 0xE0]
        + parameter_sets(a.sps, a.sps.len()) + seq![low8(a.pps.len() as int)] + parameter_sets(a.pps, a.pps.len())
}

/// The AVC decoder configuration record of a track; empty where there is none.
pub open spec fn mp4_video_config(t: TrackView) -> Seq<u8> {
    match t.avc {
        Some(a) => avc_record(a),
        None => Seq::empty(),
    }
}

/// The AudioSpecificConfig of a track; empty where there is none.
pub open spec fn mp4_audio_config(t: TrackView) -> Seq<u8> {
    match t.aac {
        Some(a) => seq![(a.profile << 3u8) | (a.freq_index >> 1u8), (a.freq_index << 7u8) | (a.chan_conf << 3u8)],
        None => Seq::empty(),
    }
}

/// The number of channels that a channel configuration stands for; two where it
/// is not valid.
pub open spec fn channel_count(config: Option<u8>) -> u32 {
    match config {
        Some(c) => if c == 7 { 8 } else { c as u32 },
        None => 2,
    }
}

/// The frame rate of a track: its samples over its duration in whole
/// microseconds; none where the duration is zero or not known.
pub open spec fn track_rate(t: TrackView) -> Option<FrameRate> {
    if t.basics.timescale == 0 {
        None
    } else {
        let us = t.basics.duration as int * 1_000_000 / t.basics.timescale as int;
        if us > 0 && us * 1000 <= u64::MAX {
            Some(FrameRate { frames: sample_total(t) as i64, nanos: (us * 1000) as u64 })
        } else {
            None
        }
    }
}

/// The metadata of a video track.
pub open spec fn mp4_video_view(id: u32, t: TrackView) -> VideoView {
    VideoView {
        track_id: id,
        codec_string: mp4_video_codec(t),
        width: t.basics.width as u32,
        height: t.basics.height as u32,
        fps: track_rate(t),
        codec_config: mp4_video_config(t),
    }
}

/// The metadata of an audio track.
pub open spec fn mp4_audio_view(id: u32, t: TrackView) -> AudioView {
    AudioView {
        track_id: id,
        codec_string: mp4_audio_codec(t),
        sample_rate: match t.basics.sample_rate {
            Some(r) => r,
            None => 44100,
        },
        channels: channel_count(t.basics.channel_config),
        codec_config: mp4_audio_config(t),
    }
}

// ---------------------------------------------------------------------------
// Samples
// ---------------------------------------------------------------------------

/// The samples of a fragment: none where it has no count.
pub open spec fn fragment_samples(count: Option<u32>) -> u32 {
    match count {
        Some(n) => n,
        None => 0,
    }
}

/// The samples of the first `n` fragments.
pub open spec fn count_sum(s: Seq<Option<u32>>, n: nat) -> int
    decreases n,
{
    if n == 0 {
        0
    } else {
        count_sum(s, (n - 1) as nat) + fragment_samples(s[n - 1])
    }
}

/// The number of samples of a track: that of its fragments, where it has any; the
/// largest machine number where those are more.
pub open spec fn sample_total(t: TrackView) -> u32 {
    if t.fragments.len() == 0 {
        t.size_count
    } else if count_sum(t.fragments, t.fragments.len()) <= u32::MAX {
        count_sum(t.fragments, t.fragments.len()) as u32
    } else {
        u32::MAX
    }
}

/// The decode time of the sample that stands `rest` samples behind the start of
/// run `i`, on top of `acc`.
pub open spec fn elapsed_from(stts: Seq<TimeRun>, i: int, rest: int, acc: u64) -> u64
    decreases stts.len() - i,
{
    if i < 0 || i >= stts.len() {
        acc
    } else if rest < stts[i].count {
        acc.wrapping_add((rest * stts[i].delta) as u64)
    } else {
        elapsed_from(stts, i + 1, rest - stts[i].count, acc.wrapping_add((stts[i].count * stts[i].delta) as u64))
    }
}

/// A time in units of `1 / timescale` seconds as microseconds.
pub open spec fn scaled_us(time: u64, timescale: u32) -> i64 {
    quotient(as_signed(time).wrapping_mul(1_000_000) as int, timescale as int) as i64
}

/// The decode time of a sample in microseconds.
pub open spec fn sample_time_us(t: TrackView, sample_id: u32) -> i64 {
    scaled_us(elapsed_from(t.stts, 0, sample_id - 1, 0), t.basics.timescale)
}

/// The last of the first `n` runs that begins at or before the sample.
pub open spec fn run_of(stsc: Seq<ChunkRun>, sample_id: int, n: nat) -> Option<int>
    decreases n,
{
    if n == 0 {
        None
    } else if sample_id >= stsc[n - 1].first_sample {
        Some(n - 1)
    } else {
        run_of(stsc, sample_id, (n - 1) as nat)
    }
}

/// The size of a sample.
pub open spec fn sample_size(t: TrackView, sample_id: int) -> Option<int> {
    if t.fixed_size > 0 {
        Some(t.fixed_size as int)
    } else if 1 <= sample_id <= t.sizes.len() {
        Some(t.sizes[sample_id - 1] as int)
    } else {
        None
    }
}

/// The sizes of the samples from `lo` up to `hi` together.
pub open spec fn size_sum(t: TrackView, lo: int, hi: int) -> Option<int>
    decreases hi - lo,
{
    if hi <= lo {
        Some(0)
    } else {
        match (size_sum(t, lo, hi - 1), sample_size(t, hi - 1)) {
            (Some(a), Some(b)) => Some(a + b),
            _ => None,
        }
    }
}

/// The file offset of a chunk, counted from one.
pub open spec fn chunk_offset(t: TrackView, chunk_id: int) -> Option<int> {
    match t.stco {
        Some(s) => if 1 <= chunk_id <= s.len() { Some(s[chunk_id - 1] as int) } else { None },
        None => match t.co64 {
            Some(s) => if 1 <= chunk_id <= s.len() { Some(s[chunk_id - 1] as int) } else { None },
            None => None,
        },
    }
}

/// How far a sample stands from the first sample of its chunk, in bytes.
pub open spec fn within_chunk(t: TrackView, r: ChunkRun, sample_id: int) -> Option<int> {
    size_sum(t, sample_id - (sample_id - r.first_sample) % (r.samples_per_chunk as int), sample_id)
}

/// The file offset of a sample: that of its chunk and the samples before it in
/// the chunk.
pub open spec fn sample_offset(t: TrackView, sample_id: int) -> Option<int> {
    match run_of(t.stsc, sample_id, t.stsc.len()) {
        None => None,
        Some(i) => {
            let r = t.stsc[i];
            if r.samples_per_chunk == 0 {
                None
            } else {
                match (
                    chunk_offset(t, r.first_chunk + (sample_id - r.first_sample) / (r.samples_per_chunk as int)),
                    within_chunk(t, r, sample_id),
                ) {
                    (Some(a), Some(b)) => if a + b <= u64::MAX { Some(a + b) } else { None },
                    _ => None,
                }
            }
        },
    }
}

/// The index entries of the first `n` sync samples: those that exist and have a
/// place in the file.
pub open spec fn sync_entries(t: TrackView, ids: Seq<u32>, n: nat) -> Seq<SeekEntry>
    decreases n,
{
    if n == 0 {
        Seq::empty()
    } else {
        let s = sync_entries(t, ids, (n - 1) as nat);
        let id = ids[n - 1];
        match sample_offset(t, id as int) {
            Some(offset) if 1 <= id <= sample_total(t) => s.push(
                SeekEntry { timestamp_us: sample_time_us(t, id), byte_offset: offset as u64 },
            ),
            _ => s,
        }
    }
}

/// Whether a track can be indexed: a video track with a time scale and a table of
/// sync samples.
pub open spec fn indexable(t: TrackView) -> bool {
    t.basics.kind == TrackKind::Video && t.basics.timescale != 0 && t.stss is Some
}

/// The sum of the counts of the first `n` runs.
pub open spec fn timed_samples(stts: Seq<TimeRun>, n: nat) -> int
    decreases n,
{
    if n == 0 {
        0
    } else {
        timed_samples(stts, (n - 1) as nat) + stts[n - 1].count
    }
}

/// Whether the chunk runs are in the order of their samples.
pub open spec fn runs_ordered(stsc: Seq<ChunkRun>) -> bool {
    forall|i: int, j: int| 0 <= i <= j < stsc.len() ==> (#[trigger] stsc[i]).first_sample <= (#[trigger] stsc[j]).first_sample
}

/// Whether the tables of a track hold all that is needed to read a sample: its
/// time, its place and its size, in numbers that fit their fields.
pub open spec fn sample_sound(t: TrackView, sample_id: int) -> bool {
    if t.fragments.len() > 0 {
        let total = count_sum(t.fragments, t.fragments.len());
        &&& 1 <= sample_id <= total
        &&& total < u32::MAX
        &&& t.fragments.len() <= u32::MAX
        &&& sample_id == 1 || total >= t.fragments.len()
        &&& (sample_id - 1) * t.fragment_delta <= u32::MAX
    } else {
        &&& 1 <= sample_id <= timed_samples(t.stts, t.stts.len())
        &&& timed_samples(t.stts, t.stts.len()) < u32::MAX
        &&& runs_ordered(t.stsc)
        &&& sample_size(t, sample_id) is Some
        &&& sample_offset(t, sample_id) is Some
        &&& {
            let r = t.stsc[run_of(t.stsc, sample_id, t.stsc.len())->Some_0];
            r.first_sample >= 1 && r.first_chunk >= 1 && within_chunk(t, r, sample_id)->Some_0 <= u32::MAX
        }
    }
}

/// The duration of the sample that stands `rest` samples behind the start of run
/// `i`.
pub open spec fn delta_from(stts: Seq<TimeRun>, i: int, rest: int) -> u32
    decreases stts.len() - i,
{
    if i < 0 || i >= stts.len() {
        0
    } else if rest < stts[i].count {
        stts[i].delta
    } else {
        delta_from(stts, i + 1, rest - stts[i].count)
    }
}

/// Append parameter sets, each behind its length in two bytes.
fn push_parameter_sets(v: &mut Vec<u8>, units: &Vec<Vec<u8>>)
    ensures
        final(v)@ == old(v)@ + parameter_sets(byte_rows(units@), units.len() as nat),
{
    let ghost before = v@;
    let ghost rows = byte_rows(units@);
    assert(before + parameter_sets(rows, 0) =~= before);
    let mut i: usize = 0;
    while i < units.len()
        invariant
            i <= units.len(),
            rows == byte_rows(units@),
            v@ == before + parameter_sets(rows, i as nat),
        decreases units.len() - i,
    {
        let ghost so_far = v@;
        let n: usize = units[i].len();
        v.push(((n / 256) % 256) as u8);
        v.push((n % 256) as u8);
        let mut unit: Vec<u8> = crate::demux::types::copy_bytes(&units[i]);
        v.append(&mut unit);
        assert(v@ =~= so_far + seq![low8(rows[i as int].len() as int / 256), low8(rows[i as int].len() as int)] + rows[i as int]);
        assert(v@ =~= before + parameter_sets(rows, (i + 1) as nat));
        i = i + 1;
    }
}

impl Track {
    /// Build a WebCodecs-compatible codec string.
    pub fn build_video_codec_string(&self) -> (s: String)
        ensures
            s@ == mp4_video_codec(self@),
    {
        match self.basics.media {
            MediaKind::H264 => match &self.avc {
                Some(a) => avc_string(a.profile, a.compatibility, a.level),
                None => String::from_str("avc1.640029"),
            },
            MediaKind::H265 => String::from_str("hvc1.1.6.L93.B0"),
            MediaKind::Vp9 => String::from_str("vp09.00.10.08"),
            _ => String::from_str("avc1.640029"),
        }
    }

    /// Build a WebCodecs-compatible codec string.
    pub fn build_audio_codec_string(&self) -> (s: String)
        ensures
            s@ == mp4_audio_codec(self@),
    {
        if self.basics.media == MediaKind::Aac {
            if let Some(a) = &self.aac {
                if a.object_type != 0x40 {
                    let mut s: String = String::from_str("mp4a.");
                    push_small_hex_byte(&mut s, a.object_type);
                    s.append(".2");
                    return s;
                }
            }
        }
        String::from_str("mp4a.40.2")
    }

    /// Extract the full AVCDecoderConfigurationRecord for WebCodecs description.
    pub fn extract_video_codec_config(&self) -> (v: Vec<u8>)
        ensures
            v@ == mp4_video_config(self@),
    {
        match &self.avc {
            Some(a) => {
                let mut config: Vec<u8> = Vec::new();
                config.push(a.version);
                config.push(a.profile);
                config.push(a.compatibility);
                config.push(a.level);
                config.push(a.length_size_minus_one | 0xFC);
                let sps: u8 = (a.sps.len() % 256) as u8;
                config.push(sps | 0xE0);
                let ghost head = config@;
                push_parameter_sets(&mut config, &a.sps);
                config.push((a.pps.len() % 256) as u8);
                push_parameter_sets(&mut config, &a.pps);
                assert(config@ =~= avc_record(a@));
                config
            },
            None => Vec::new(),
        }
    }

    /// Extract the AudioSpecificConfig (2 bytes) for WebCodecs AudioDecoder.
    pub fn extract_audio_codec_config(&self) -> (v: Vec<u8>)
        ensures
            v@ == mp4_audio_config(self@),
    {
        let mut v: Vec<u8> = Vec::new();
        if let Some(a) = &self.aac {
            v.push((a.profile << 3u8) | (a.freq_index >> 1u8));
            v.push((a.freq_index << 7u8) | (a.chan_conf << 3u8));
        }
        assert(v@ =~= mp4_audio_config(self@));
        v
    }

    /// The number of samples.
    pub fn sample_count(&self) -> (n: u32)
        ensures
            n == sample_total(self@),
    {
        if self.fragments.len() == 0 {
            return self.stsz.count;
        }
        match self.fragment_total() {
            Some(n) => n,
            None => u32::MAX,
        }
    }

    /// The samples of all fragments together, where they fit.
    fn fragment_total(&self) -> (r: Option<u32>)
        ensures
            match r {
                Some(n) => n == count_sum(self.fragments@, self.fragments.len() as nat),
                None => count_sum(self.fragments@, self.fragments.len() as nat) > u32::MAX,
            },
    {
        let mut n: u32 = 0;
        let mut i: usize = 0;
        while i < self.fragments.len()
            invariant
                i <= self.fragments.len(),
                n == count_sum(self.fragments@, i as nat),
            decreases self.fragments.len() - i,
        {
            let samples: u32 = match self.fragments[i] {
                Some(count) => count,
                None => 0,
            };
            if samples > u32::MAX - n {
                proof {
                    lemma_count_sum_grows(self.fragments@, (i + 1) as nat, self.fragments.len() as nat);
                }
                return None;
            }
            n = n + samples;
            i = i + 1;
        }
        Some(n)
    }

    /// The frame rate.
    fn rate(&self) -> (r: Option<FrameRate>)
        ensures
            r == track_rate(self@),
    {
        if self.basics.timescale == 0 {
            return None;
        }
        let n: u128 = self.basics.duration as u128 * 1_000_000;
        let us: u128 = n / (self.basics.timescale as u128);
        proof {
            vstd::arithmetic::div_mod::lemma_div_is_ordered_by_denominator(n as int, 1, self.basics.timescale as int);
        }
        if us > 0 && us * 1000 <= 0xffff_ffff_ffff_ffff {
            Some(FrameRate { frames: self.sample_count() as i64, nanos: (us * 1000) as u64 })
        } else {
            None
        }
    }

    /// The metadata of a video track.
    pub fn video_info(&self) -> (r: VideoTrackInfo)
        ensures
            r@ == mp4_video_view(self.id, self@),
    {
        VideoTrackInfo {
            track_id: self.id,
            codec_string: self.build_video_codec_string(),
            width: self.basics.width as u32,
            height: self.basics.height as u32,
            fps: self.rate(),
            codec_config: self.extract_video_codec_config(),
        }
    }

    /// The metadata of an audio track.
    pub fn audio_info(&self) -> (r: AudioTrackInfo)
        ensures
            r@ == mp4_audio_view(self.id, self@),
    {
        AudioTrackInfo {
            track_id: self.id,
            codec_string: self.build_audio_codec_string(),
            sample_rate: match self.basics.sample_rate {
                Some(r) => r,
                None => 44100,
            },
            channels: match self.basics.channel_config {
                Some(c) => if c == 7 { 8 } else { c as u32 },
                None => 2,
            },
            codec_config: self.extract_audio_codec_config(),
        }
    }

    /// Compute the decode timestamp of a sample in microseconds.
    ///
    /// Walks the stts (decoding time-to-sample) table to accumulate
    /// elapsed time up to the given sample_id (1-based).
    pub fn compute_sample_time_us(&self, sample_id: u32) -> (r: i64)
        requires
            sample_id >= 1,
            self.basics.timescale > 0,
        ensures
            r == sample_time_us(self@, sample_id),
    {
        let ghost goal = elapsed_from(self.stts@, 0, sample_id - 1, 0);
        let mut acc: u64 = 0;
        let mut rest: u32 = sample_id - 1;
        let mut i: usize = 0;
        let mut more: bool = true;
        while more && i < self.stts.len()
            invariant
                i <= self.stts.len(),
                more ==> goal == elapsed_from(self.stts@, i as int, rest as int, acc),
                !more ==> goal == acc,
            decreases (if more { self.stts.len() - i + 1 } else { 0 }),
        {
            let run: TimeRun = self.stts[i];
            let n: u32 = if rest < run.count { rest } else { run.count };
            assert(n * run.delta <= 0xffff_ffff * 0xffff_ffff) by (nonlinear_arith)
                requires
                    0 <= n <= 0xffff_ffff,
                    0 <= run.delta <= 0xffff_ffff,
            ;
            acc = acc.wrapping_add(n as u64 * run.delta as u64);
            if rest < run.count {
                more = false;
            } else {
                rest = rest - run.count;
                i = i + 1;
            }
        }
        divide(to_signed(acc).wrapping_mul(1_000_000), self.basics.timescale as i64)
    }

    /// The index of the chunk run that covers a sample.
    fn find_run(&self, sample_id: u32) -> (r: Option<usize>)
        ensures
            match r {
                Some(i) => run_of(self.stsc@, sample_id as int, self.stsc.len() as nat) == Some(i as int) && i < self.stsc.len()
                    && self.stsc[i as int].first_sample <= sample_id,
                None => run_of(self.stsc@, sample_id as int, self.stsc.len() as nat) is None,
            },
    {
        let mut n: usize = self.stsc.len();
        while n > 0
            invariant
                n <= self.stsc.len(),
                run_of(self.stsc@, sample_id as int, self.stsc.len() as nat) == run_of(self.stsc@, sample_id as int, n as nat),
            decreases n,
        {
            if sample_id >= self.stsc[n - 1].first_sample {
                return Some(n - 1);
            }
            n = n - 1;
        }
        None
    }

    /// The file offset of a chunk.
    fn find_chunk(&self, chunk_id: u64) -> (r: Option<u64>)
        ensures
            match r {
                Some(n) => chunk_offset(self@, chunk_id as int) == Some(n as int),
                None => chunk_offset(self@, chunk_id as int) is None,
            },
    {
        if chunk_id == 0 {
            return None;
        }
        match &self.stco {
            Some(s) => if chunk_id - 1 < s.len() as u64 { Some(s[(chunk_id - 1) as usize] as u64) } else { None },
            None => match &self.co64 {
                Some(s) => if chunk_id - 1 < s.len() as u64 { Some(s[(chunk_id - 1) as usize]) } else { None },
                None => None,
            },
        }
    }

    /// The size of a sample.
    fn size_of_sample(&self, sample_id: u32) -> (r: Option<u32>)
        ensures
            match r {
                Some(n) => sample_size(self@, sample_id as int) == Some(n as int),
                None => sample_size(self@, sample_id as int) is None,
            },
    {
        if self.stsz.fixed > 0 {
            Some(self.stsz.fixed)
        } else if 1 <= sample_id && ((sample_id - 1) as usize) < self.stsz.sizes.len() {
            Some(self.stsz.sizes[(sample_id - 1) as usize])
        } else {
            None
        }
    }

    /// The sizes of the samples from `lo` up to `hi` together.
    fn sum_sizes(&self, lo: u32, hi: u32) -> (r: Option<u64>)
        ensures
            match r {
                Some(n) => size_sum(self@, lo as int, hi as int) == Some(n as int),
                None => size_sum(self@, lo as int, hi as int) is None,
            },
    {
        let mut n: u64 = 0;
        let mut i: u32 = lo;
        while i < hi
            invariant
                lo <= i,
                i <= hi || hi < lo,
                hi < lo ==> i == lo,
                size_sum(self@, lo as int, i as int) == Some(n as int),
                n <= (i - lo) * 0xffff_ffff,
            decreases hi - i,
        {
            let size: u32 = match self.size_of_sample(i) {
                Some(n) => n,
                None => {
                    proof {
                        lemma_size_sum_none(self@, lo as int, (i + 1) as int, hi as int);
                    }
                    return None;
                },
            };
            n = n + size as u64;
            i = i + 1;
        }
        assert(size_sum(self@, lo as int, hi as int) == Some(n as int));
        Some(n)
    }

    /// Compute the absolute byte offset of a sample in the file.
    ///
    /// Uses stsc (sample-to-chunk), stco/co64 (chunk offsets), and
    /// stsz (sample sizes) to locate the exact position.
    pub fn compute_sample_offset(&self, sample_id: u32) -> (r: Option<u64>)
        ensures
            match r {
                Some(n) => sample_offset(self@, sample_id as int) == Some(n as int),
                None => sample_offset(self@, sample_id as int) is None,
            },
    {
        let i: usize = match self.find_run(sample_id) {
            Some(i) => i,
            None => {
                return None;
            },
        };
        let run: ChunkRun = self.stsc[i];
        if run.samples_per_chunk == 0 {
            return None;
        }
        let behind: u32 = sample_id - run.first_sample;
        let chunk_id: u64 = run.first_chunk as u64 + (behind / run.samples_per_chunk) as u64;
        let base: u64 = match self.find_chunk(chunk_id) {
            Some(b) => b,
            None => {
                return None;
            },
        };
        proof {
            vstd::arithmetic::div_mod::lemma_mod_bound(behind as int, run.samples_per_chunk as int);
            vstd::arithmetic::div_mod::lemma_mod_decreases(behind as nat, run.samples_per_chunk as nat);
        }
        let within: u64 = match self.sum_sizes(sample_id - behind % run.samples_per_chunk, sample_id) {
            Some(n) => n,
            None => {
                return None;
            },
        };
        if within <= u64::MAX - base { Some(base + within) } else { None }
    }

    /// The index entries of the sync samples.
    pub fn sync_index(&self) -> (r: Vec<SeekEntry>)
        requires
            indexable(self@),
        ensures
            r@ == sync_entries(self@, self@.stss->Some_0, self@.stss->Some_0.len()),
    {
        let mut r: Vec<SeekEntry> = Vec::new();
        if let Some(ids) = &self.stss {
            let total: u32 = self.sample_count();
            let mut i: usize = 0;
            while i < ids.len()
                invariant
                    i <= ids.len(),
                    self@.stss == Some(ids@),
                    self.basics.timescale > 0,
                    total == sample_total(self@),
                    r@ == sync_entries(self@, ids@, i as nat),
                decreases ids.len() - i,
            {
                let id: u32 = ids[i];
                if 1 <= id && id <= total {
                    let timestamp_us: i64 = self.compute_sample_time_us(id);
                    if let Some(byte_offset) = self.compute_sample_offset(id) {
                        r.push(SeekEntry { timestamp_us, byte_offset });
                    }
                }
                i = i + 1;
            }
        }
        r
    }

    /// Whether the chunk runs are in the order of their samples.
    fn check_runs(&self) -> (r: bool)
        ensures
            r == runs_ordered(self.stsc@),
    {
        let mut i: usize = 1;
        while i < self.stsc.len()
            invariant
                1 <= i,
                forall|j: int, k: int| 0 <= j <= k < i && k < self.stsc.len() ==> (#[trigger] self.stsc@[j]).first_sample <= (#[trigger] self.stsc@[k]).first_sample,
            decreases self.stsc.len() - i,
        {
            if self.stsc[i - 1].first_sample > self.stsc[i].first_sample {
                assert(self.stsc@[i - 1].first_sample > self.stsc@[i as int].first_sample);
                return false;
            }
            assert forall|j: int, k: int| 0 <= j <= k < i + 1 implies (#[trigger] self.stsc@[j]).first_sample <= (#[trigger] self.stsc@[k]).first_sample by {
                if k == i && j < i {
                    assert(self.stsc@[j].first_sample <= self.stsc@[i - 1].first_sample);
                }
            }
            i = i + 1;
        }
        true
    }

    /// The samples that have a time, where they fit.
    fn timed_total(&self) -> (r: Option<u32>)
        ensures
            match r {
                Some(n) => n == timed_samples(self.stts@, self.stts.len() as nat),
                None => timed_samples(self.stts@, self.stts.len() as nat) > u32::MAX,
            },
    {
        let mut n: u32 = 0;
        let mut i: usize = 0;
        while i < self.stts.len()
            invariant
                i <= self.stts.len(),
                n == timed_samples(self.stts@, i as nat),
            decreases self.stts.len() - i,
        {
            if self.stts[i].count > u32::MAX - n {
                proof {
                    lemma_timed_samples_grow(self.stts@, (i + 1) as nat, self.stts.len() as nat);
                }
                return None;
            }
            n = n + self.stts[i].count;
            i = i + 1;
        }
        Some(n)
    }

    /// Whether the tables hold all that is needed to read a sample.
    pub fn check_sample(&self, sample_id: u32) -> (r: bool)
        ensures
            r == sample_sound(self@, sample_id as int),
    {
        if self.fragments.len() > 0 {
            let total: u32 = match self.fragment_total() {
                Some(n) => n,
                None => {
                    return false;
                },
            };
            if sample_id < 1 || sample_id > total {
                return false;
            }
            if sample_id != 1 && (total as usize) < self.fragments.len() {
                return false;
            }
            assert((sample_id - 1) * self.fragment_delta <= 0xffff_ffff * 0xffff_ffff) by (nonlinear_arith)
                requires
                    1 <= sample_id <= 0xffff_ffff,
                    0 <= self.fragment_delta <= 0xffff_ffff,
            ;
            total < u32::MAX && self.fragments.len() as u64 <= 0xffff_ffff
                && (sample_id - 1) as u64 * self.fragment_delta as u64 <= 0xffff_ffff
        } else {
            let total: u32 = match self.timed_total() {
                Some(n) => n,
                None => {
                    return false;
                },
            };
            if sample_id < 1 || sample_id > total || total == u32::MAX {
                return false;
            }
            if !self.check_runs() {
                return false;
            }
            if self.size_of_sample(sample_id).is_none() || self.compute_sample_offset(sample_id).is_none() {
                return false;
            }
            let i: usize = match self.find_run(sample_id) {
                Some(i) => i,
                None => {
                    return false;
                },
            };
            let run: ChunkRun = self.stsc[i];
            if run.first_sample == 0 || run.first_chunk == 0 {
                return false;
            }
            let behind: u32 = sample_id - run.first_sample;
            proof {
                vstd::arithmetic::div_mod::lemma_mod_bound(behind as int, run.samples_per_chunk as int);
                vstd::arithmetic::div_mod::lemma_mod_decreases(behind as nat, run.samples_per_chunk as nat);
            }
            match self.sum_sizes(sample_id - behind % run.samples_per_chunk, sample_id) {
                None => false,
                Some(n) => n <= 0xffff_ffff,
            }
        }
    }
}

proof fn lemma_count_sum_grows(s: Seq<Option<u32>>, n: nat, m: nat)
    requires
        n <= m,
    ensures
        count_sum(s, n) <= count_sum(s, m),
    decreases m - n,
{
    if n < m {
        lemma_count_sum_grows(s, n, (m - 1) as nat);
    }
}

proof fn lemma_timed_samples_grow(s: Seq<TimeRun>, n: nat, m: nat)
    requires
        n <= m,
    ensures
        timed_samples(s, n) <= timed_samples(s, m),
    decreases m - n,
{
    if n < m {
        lemma_timed_samples_grow(s, n, (m - 1) as nat);
    }
}

proof fn lemma_size_sum_none(t: TrackView, lo: int, mid: int, hi: int)
    requires
        lo < mid <= hi,
        size_sum(t, lo, mid) is None,
    ensures
        size_sum(t, lo, hi) is None,
    decreases hi - mid,
{
    if mid < hi {
        lemma_size_sum_none(t, lo, mid, hi - 1);
    }
}

/// Within a chunk, each sample stands right behind the one before it.
pub proof fn law_samples_adjacent(t: TrackView, sample_id: int)
    requires
        run_of(t.stsc, sample_id, t.stsc.len()) matches Some(i) && run_of(t.stsc, sample_id + 1, t.stsc.len()) == Some(i)
            && t.stsc[i].samples_per_chunk > 0 && (sample_id + 1 - t.stsc[i].first_sample) % (t.stsc[i].samples_per_chunk as int) != 0,
        sample_offset(t, sample_id) is Some,
        sample_offset(t, sample_id + 1) is Some,
    ensures
        sample_size(t, sample_id) is Some,
        sample_offset(t, sample_id + 1) == Some(sample_offset(t, sample_id)->Some_0 + sample_size(t, sample_id)->Some_0),
{
    let i = run_of(t.stsc, sample_id, t.stsc.len())->Some_0;
    let r = t.stsc[i];
    let n = r.samples_per_chunk as int;
    let a = sample_id - r.first_sample;
    assert(a / n == (a + 1) / n && (a + 1) % n == a % n + 1) by (nonlinear_arith)
        requires
            n > 0,
            (a + 1) % n != 0,
    ;
    let lo = sample_id - a % n;
    assert(sample_id + 1 - (a + 1) % n == lo);
    vstd::arithmetic::div_mod::lemma_mod_bound(a, n);
}

/// The AudioSpecificConfig can be read back: of its sixteen bits, the most
/// significant first, five are the object type, four the index of the sample rate and
/// four the channel configuration, and the others are zero.
pub proof fn law_audio_config_is_read_back(t: TrackView)
    requires
        t.aac matches Some(a) && a.profile < 32 && a.freq_index < 16 && a.chan_conf < 16,
    ensures
        ({
            let a = t.aac->Some_0;
            let c = mp4_audio_config(t);
            let bits = 256 * c[0] + c[1];
            &&& c.len() == 2
            &&& bits / 2048 == a.profile
            &&& (bits / 128) % 16 == a.freq_index
            &&& (bits / 8) % 16 == a.chan_conf
            &&& bits % 8 == 0
        }),
{
    let a = t.aac->Some_0;
    let (p, f, k) = (a.profile, a.freq_index, a.chan_conf);
    let c = mp4_audio_config(t);
    assert(((p << 3u8) | (f >> 1u8)) / 8 == p && ((p << 3u8) | (f >> 1u8)) % 8 == f / 2) by (bit_vector)
        requires
            p < 32,
            f < 16,
    ;
    assert(((f << 7u8) | (k << 3u8)) / 128 == f % 2 && (((f << 7u8) | (k << 3u8)) / 8) % 16 == k && ((f << 7u8) | (k << 3u8)) % 8 == 0)
        by (bit_vector)
        requires
            f < 16,
            k < 16,
    ;
    assert(c[0] == (p << 3u8) | (f >> 1u8));
    assert(c[1] == (f << 7u8) | (k << 3u8));
}

/// How many bytes units take, each behind its length in two bytes.
pub open spec fn units_len(units: Seq<Seq<u8>>, n: nat) -> nat
    decreases n,
{
    if n == 0 {
        0
    } else {
        units_len(units, (n - 1) as nat) + 2 + units[n - 1].len()
    }
}

/// Whether a unit stands at a place of a record, behind its length in two bytes.
pub open spec fn unit_at(r: Seq<u8>, at: int, unit: Seq<u8>) -> bool {
    &&& at + 2 + unit.len() <= r.len()
    &&& 256 * r[at] + r[at + 1] == unit.len()
    &&& r.subrange(at + 2, at + 2 + unit.len()) == unit
}

/// The AVC decoder configuration record can be read back. It begins with the version,
/// the profile, the compatibility and the level. Two bits of the fifth byte are the
/// size of a length less one, five of the sixth the number of sequence parameter sets,
/// which follow, each behind its length; then come the number of picture parameter sets
/// and these, and nothing else.
pub proof fn law_avc_record_is_read_back(a: AvcView, i: int, j: int)
    requires
        a.length_size_minus_one < 4,
        a.sps.len() < 32,
        a.pps.len() < 256,
        forall|k: int| 0 <= k < a.sps.len() ==> (#[trigger] a.sps[k]).len() < 0x1_0000,
        forall|k: int| 0 <= k < a.pps.len() ==> (#[trigger] a.pps[k]).len() < 0x1_0000,
    ensures
        ({
            let r = avc_record(a);
            let pps = 6 + units_len(a.sps, a.sps.len());
            &&& r[0] == a.version && r[1] == a.profile && r[2] == a.compatibility && r[3] == a.level
            &&& r[4] % 4 == a.length_size_minus_one && r[4] / 4 == 63
            &&& r[5] % 32 == a.sps.len() && r[5] / 32 == 7
            &&& r[pps as int] == a.pps.len()
            &&& r.len() == pps + 1 + units_len(a.pps, a.pps.len())
            &&& 0 <= i < a.sps.len() ==> unit_at(r, 6 + units_len(a.sps, i as nat) as int, a.sps[i])
            &&& 0 <= j < a.pps.len() ==> unit_at(r, pps as int + 1 + units_len(a.pps, j as nat) as int, a.pps[j])
        }),
{
    let r = avc_record(a);
    let head = seq![a.version, a.profile, a.compatibility, a.level, a.length_size_minus_one | 0xFC, low8(a.sps.len() as int) | 0xE0];
    let s = parameter_sets(a.sps, a.sps.len());
    let p = parameter_sets(a.pps, a.pps.len());
    let count = seq![low8(a.pps.len() as int)];
    assert(r == head + s + count + p);
    let x = a.length_size_minus_one;
    assert((x | 0xFC) % 4 == x && (x | 0xFC) / 4 == 63) by (bit_vector)
        requires
            x < 4,
    ;
    let y = a.sps.len() as u8;
    assert(low8(a.sps.len() as int) == y);
    assert((y | 0xE0) % 32 == y && (y | 0xE0) / 32 == 7) by (bit_vector)
        requires
            y < 32,
    ;
    lemma_units(a.sps, a.sps.len(), i);
    lemma_units(a.pps, a.pps.len(), j);
    if 0 <= i < a.sps.len() {
        let at = units_len(a.sps, i as nat) as int;
        lemma_unit_moved(head, s, count + p, at, a.sps[i]);
        assert(head + s + (count + p) =~= r);
    }
    if 0 <= j < a.pps.len() {
        let at = units_len(a.pps, j as nat) as int;
        lemma_unit_moved(head + s + count, p, Seq::empty(), at, a.pps[j]);
        assert(head + s + count + p + Seq::<u8>::empty() =~= r);
    }
}

proof fn lemma_units(units: Seq<Seq<u8>>, n: nat, i: int)
    requires
        n <= units.len(),
        forall|k: int| 0 <= k < units.len() ==> (#[trigger] units[k]).len() < 0x1_0000,
    ensures
        parameter_sets(units, n).len() == units_len(units, n),
        0 <= i < n ==> unit_at(parameter_sets(units, n), units_len(units, i as nat) as int, units[i]),
    decreases n,
{
    if n > 0 {
        let m = (n - 1) as nat;
        lemma_units(units, m, i);
        let u = units[n - 1];
        let before = parameter_sets(units, m);
        let len = seq![low8(u.len() as int / 256), low8(u.len() as int)];
        assert(parameter_sets(units, n) == before + len + u);
        if i == n - 1 {
            let at = before.len() as int;
            assert((before + len + u).subrange(at + 2, at + 2 + u.len()) =~= u);
        } else if 0 <= i < m {
            lemma_unit_moved(Seq::empty(), before, len + u, units_len(units, i as nat) as int, units[i]);
            assert(Seq::<u8>::empty() + before + (len + u) =~= before + len + u);
        }
    }
}

proof fn lemma_unit_moved(before: Seq<u8>, s: Seq<u8>, behind: Seq<u8>, at: int, unit: Seq<u8>)
    requires
        0 <= at,
        unit_at(s, at, unit),
    ensures
        unit_at(before + s + behind, before.len() as int + at, unit),
{
    let r = before + s + behind;
    let to = before.len() as int + at;
    assert(r[to] == s[at] && r[to + 1] == s[at + 1]);
    assert(r.subrange(to + 2, to + 2 + unit.len()) =~= s.subrange(at + 2, at + 2 + unit.len()));
}

/// What a header says of a video track is what its metadata says: number and size of
/// the picture, and its samples over its duration, that in whole microseconds.
pub proof fn law_video_metadata(id: u32, t: TrackView)
    ensures
        ({
            let v = mp4_video_view(id, t);
            &&& v.track_id == id
            &&& v.width == t.basics.width
            &&& v.height == t.basics.height
            &&& t.avc is None ==> v.codec_config.len() == 0
            &&& v.fps matches Some(r) ==> r.frames == sample_total(t) && r.nanos % 1000 == 0 && (r.nanos / 1000) * t.basics.timescale <= t.basics.duration
                * 1_000_000 < (r.nanos / 1000 + 1) * t.basics.timescale
        }),
{
    if t.basics.timescale != 0 {
        let n = t.basics.duration as int * 1_000_000;
        let d = t.basics.timescale as int;
        let us = n / d;
        vstd::arithmetic::div_mod::lemma_fundamental_div_mod(n, d);
        vstd::arithmetic::div_mod::lemma_mod_bound(n, d);
        assert(us * d <= n < (us + 1) * d) by (nonlinear_arith)
            requires
                n == d * us + n % d,
                0 <= n % d < d,
        ;
    }
}

/// The duration of the sample behind `rest` others from run `i` on.
pub open spec fn lasts_from(stts: Seq<TimeRun>, i: int, rest: int) -> u32
    decreases stts.len() - i,
{
    if i < 0 || i >= stts.len() {
        0
    } else if rest < stts[i].count {
        stts[i].delta
    } else {
        lasts_from(stts, i + 1, rest - stts[i].count)
    }
}

/// The samples from run `i` on.
pub open spec fn timed_from(stts: Seq<TimeRun>, i: int) -> int
    decreases stts.len() - i,
{
    if i < 0 || i >= stts.len() {
        0
    } else {
        stts[i].count + timed_from(stts, i + 1)
    }
}

/// The first sample begins at the start, and each one as much later than the one
/// before it as that one lasts.
pub proof fn law_samples_follow_in_time(stts: Seq<TimeRun>, k: int)
    requires
        0 <= k < timed_from(stts, 0),
    ensures
        elapsed_from(stts, 0, 0, 0) == 0,
        elapsed_from(stts, 0, k + 1, 0) == elapsed_from(stts, 0, k, 0).wrapping_add(lasts_from(stts, 0, k) as u64),
{
    lemma_elapsed_start(stts, 0, 0);
    lemma_elapsed_step(stts, 0, k, 0);
}

proof fn lemma_elapsed_start(stts: Seq<TimeRun>, i: int, acc: u64)
    ensures
        elapsed_from(stts, i, 0, acc) == acc,
    decreases stts.len() - i,
{
    if 0 <= i < stts.len() {
        assert(0 * stts[i].delta == 0);
        if stts[i].count == 0 {
            assert(stts[i].count * stts[i].delta == 0) by (nonlinear_arith)
                requires
                    stts[i].count == 0,
            ;
            lemma_elapsed_start(stts, i + 1, acc);
        }
    }
}

proof fn lemma_elapsed_step(stts: Seq<TimeRun>, i: int, rest: int, acc: u64)
    requires
        0 <= i,
        0 <= rest < timed_from(stts, i),
    ensures
        elapsed_from(stts, i, rest + 1, acc) == elapsed_from(stts, i, rest, acc).wrapping_add(lasts_from(stts, i, rest) as u64),
    decreases stts.len() - i,
{
    let n = stts[i].count as int;
    let d = stts[i].delta as int;
    assert(0 <= n * d <= 0xffff_ffff * 0xffff_ffff) by (nonlinear_arith)
        requires
            0 <= n <= 0xffff_ffff,
            0 <= d <= 0xffff_ffff,
    ;
    if rest < n {
        assert((rest + 1) * d == rest * d + d) by (nonlinear_arith);
        assert(0 <= rest * d && (rest + 1) * d <= n * d) by (nonlinear_arith)
            requires
                0 <= rest,
                rest + 1 <= n,
                0 <= d,
        ;
        if rest + 1 == n {
            lemma_elapsed_start(stts, i + 1, acc.wrapping_add((n * d) as u64));
        }
    } else {
        lemma_elapsed_step(stts, i + 1, rest - n, acc.wrapping_add((n * d) as u64));
    }
}

/// The first sample of each chunk of a run stands where the chunk stands.
pub proof fn law_chunks_hold_samples(t: TrackView, i: int, k: int)
    requires
        0 <= i < t.stsc.len(),
        0 <= k,
        t.stsc[i].samples_per_chunk > 0,
        run_of(t.stsc, t.stsc[i].first_sample + k * t.stsc[i].samples_per_chunk, t.stsc.len()) == Some(i),
    ensures
        ({
            let r = t.stsc[i];
            sample_offset(t, r.first_sample + k * r.samples_per_chunk) == chunk_offset(t, r.first_chunk + k)
        }),
{
    let r = t.stsc[i];
    let n = r.samples_per_chunk as int;
    assert((k * n) / n == k && (k * n) % n == 0) by {
        vstd::arithmetic::div_mod::lemma_fundamental_div_mod_converse(k * n, n, k, 0);
    }
    let id = r.first_sample + k * n;
    assert(size_sum(t, id, id) == Some(0int));
}

/// A time in microseconds is the time in units of the track, cut to a whole
/// microsecond.
pub proof fn law_scaled_time(time: u64, timescale: u32)
    requires
        timescale > 0,
        time * 1_000_000 <= i64::MAX,
    ensures
        scaled_us(time, timescale) * timescale <= time * 1_000_000 < (scaled_us(time, timescale) + 1) * timescale,
{
    let n = time as int * 1_000_000;
    let d = timescale as int;
    vstd::arithmetic::div_mod::lemma_fundamental_div_mod(n, d);
    vstd::arithmetic::div_mod::lemma_mod_bound(n, d);
    vstd::arithmetic::div_mod::lemma_div_is_ordered_by_denominator(n, 1, d);
    vstd::arithmetic::div_mod::lemma_div_pos_is_pos(n, d);
    let q = n / d;
    assert(q * d <= n < (q + 1) * d) by (nonlinear_arith)
        requires
            n == d * q + n % d,
            0 <= n % d < d,
    ;
    assert(scaled_us(time, timescale) == q);
}

/// The index of a track has an entry for each of its sync samples that exists and has a
/// place in the file: where it stands, and when it begins.
pub proof fn law_sync_samples_are_indexed(t: TrackView, ids: Seq<u32>, n: nat, i: int)
    requires
        n <= ids.len(),
        0 <= i < n,
        1 <= ids[i] <= sample_total(t),
        sample_offset(t, ids[i] as int) is Some,
    ensures
        exists|k: int|
            0 <= k < sync_entries(t, ids, n).len() && (#[trigger] sync_entries(t, ids, n)[k]).byte_offset == sample_offset(t, ids[i] as int)->Some_0
                && sync_entries(t, ids, n)[k].timestamp_us == sample_time_us(t, ids[i]),
        sync_entries(t, ids, n).len() <= n,
    decreases n,
{
    let s = sync_entries(t, ids, n);
    let m = (n - 1) as nat;
    let p = sync_entries(t, ids, m);
    lemma_entries_len(t, ids, m);
    lemma_offset_fits(t, ids[i] as int);
    if i < m {
        law_sync_samples_are_indexed(t, ids, m, i);
        let k = choose|k: int|
            0 <= k < p.len() && (#[trigger] p[k]).byte_offset == sample_offset(t, ids[i] as int)->Some_0 && p[k].timestamp_us == sample_time_us(t, ids[i]);
        assert(s[k] == p[k]);
    } else {
        assert(s[p.len() as int].timestamp_us == sample_time_us(t, ids[i]));
    }
}

proof fn lemma_entries_len(t: TrackView, ids: Seq<u32>, n: nat)
    ensures
        sync_entries(t, ids, n).len() <= n,
    decreases n,
{
    if n > 0 {
        lemma_entries_len(t, ids, (n - 1) as nat);
    }
}

proof fn lemma_offset_fits(t: TrackView, id: int)
    ensures
        sample_offset(t, id) matches Some(n) ==> 0 <= n <= u64::MAX,
{
    if let Some(i) = run_of(t.stsc, id, t.stsc.len()) {
        let r = t.stsc[i];
        if r.samples_per_chunk != 0 {
            lemma_size_sum_positive(t, id - (id - r.first_sample) % (r.samples_per_chunk as int), id);
        }
    }
}

proof fn lemma_size_sum_positive(t: TrackView, lo: int, hi: int)
    ensures
        size_sum(t, lo, hi) matches Some(n) ==> 0 <= n,
    decreases hi - lo,
{
    if lo < hi {
        lemma_size_sum_positive(t, lo, hi - 1);
    }
}

/// What a header says of an audio track is what its metadata says: its number, its
/// sample rate, and the channels of its configuration, which are as many as its code,
/// but eight for the seventh. Without a valid index or code, 44.1 kHz and two channels
/// are taken.
pub proof fn law_audio_metadata(id: u32, t: TrackView)
    ensures
        ({
            let a = mp4_audio_view(id, t);
            &&& a.track_id == id
            &&& t.basics.sample_rate matches Some(r) ==> a.sample_rate == r
            &&& t.basics.sample_rate is None ==> a.sample_rate == 44100
            &&& t.basics.channel_config matches Some(c) ==> (c < 7 ==> a.channels == c) && (c == 7 ==> a.channels == 8)
            &&& t.basics.channel_config is None ==> a.channels == 2
            &&& t.aac is None ==> a.codec_config.len() == 0
        }),
{
}

} // verus!
