use std::collections::VecDeque;

use web_player::demux::types::{AudioTrackInfo, ContainerFormat, EncodedChunk, FrameRate, VideoTrackInfo};
use web_player::player::audio::{downmix_taps, is_software, AudioSchedule};
use web_player::player::buffer::{BufferConfig, RangeBuffer, SharedDownload};
use web_player::player::clock::PlaybackClock;
use web_player::player::download::{DownloadStep, PrefetchState, RateLimit};
use web_player::player::feed::{DecoderSignals, Feed, FeedAction};
use web_player::player::load::{length_told, range_total};
use web_player::player::session::{backpressure, Session, Supply, SupplyAction};
use web_player::player::sync::{AVSync, SyncAction};
use web_player::player::types::{MediaInfo, PlaybackStatus, PlayerEvent};

fn chunk(video: bool, key: bool, ms: i64) -> EncodedChunk {
    EncodedChunk {
        track_id: if video { 1 } else { 2 },
        is_video: video,
        is_audio: !video,
        is_keyframe: key,
        timestamp_us: ms * 1000,
        duration_us: 0,
        data: vec![ms as u8],
    }
}

fn signals(frames_waiting: usize, decodes_pending: u32) -> DecoderSignals {
    DecoderSignals { frames_waiting, decodes_pending, audio_configured: true, audio_dead: false }
}

fn feed_of(chunks: Vec<EncodedChunk>) -> Feed {
    let mut f = Feed::new();
    f.queue = VecDeque::from(chunks);
    f
}

fn times(f: &Feed) -> Vec<i64> {
    f.queue.iter().map(|c| c.timestamp_us / 1000).collect()
}

// =============================================
// Feeding the decoders
// =============================================

#[test]
fn feed_hands_out_in_order() {
    let mut f = feed_of(vec![chunk(true, true, 0), chunk(false, true, 5), chunk(true, false, 10)]);
    assert!(f.begin(false, 0, 1).is_none());
    assert!(matches!(f.next(signals(0, 0), 32), FeedAction::DecodeVideo(c) if c.timestamp_us == 0));
    assert!(matches!(f.next(signals(0, 0), 32), FeedAction::DecodeAudio(c) if c.timestamp_us == 5000));
    assert!(matches!(f.next(signals(0, 0), 32), FeedAction::DecodeVideo(c) if c.timestamp_us == 10000));
    assert!(matches!(f.next(signals(0, 0), 32), FeedAction::Done));
}

#[test]
fn feed_batch_is_limited() {
    let mut f = feed_of((0..5).map(|i| chunk(false, true, i)).collect());
    f.begin(false, 0, 1);
    assert!(matches!(f.next(signals(0, 0), 1), FeedAction::DecodeAudio(_)));
    assert!(matches!(f.next(signals(0, 0), 1), FeedAction::Done));
    assert_eq!(times(&f), vec![1, 2, 3, 4]);
}

#[test]
fn feed_audio_flows_when_video_is_full() {
    let mut f = feed_of(vec![chunk(true, true, 0), chunk(true, false, 1), chunk(false, true, 2), chunk(true, false, 3)]);
    f.begin(false, 6, 1);
    assert!(matches!(f.next(signals(6, 0), 32), FeedAction::DecodeAudio(c) if c.timestamp_us == 2000));
    assert!(matches!(f.next(signals(0, 3), 32), FeedAction::Done));
    f.finish();
    assert_eq!(times(&f), vec![0, 1, 3]);
}

#[test]
fn feed_audio_before_a_seek_target_is_dropped() {
    let mut f = feed_of(vec![chunk(false, true, 1), chunk(false, true, 2), chunk(false, true, 3)]);
    f.audio_skip_before_us = Some(2000);
    f.begin(false, 0, 1);
    assert!(matches!(f.next(signals(0, 0), 32), FeedAction::DecodeAudio(c) if c.timestamp_us == 2000));
    assert_eq!(f.audio_skip_before_us, None);
}

#[test]
fn feed_dead_decoder_waits_for_its_frames() {
    let mut f = feed_of(vec![chunk(true, false, 0), chunk(true, true, 1), chunk(true, true, 2)]);
    assert!(f.begin(true, 3, 10).is_none());
    assert!(matches!(f.next(signals(3, 0), 32), FeedAction::Done));
    assert_eq!(f.pending_keyframe.as_ref().unwrap().timestamp_us, 1000);
    assert!(f.begin(true, 3, 11).is_none());
    assert_eq!(f.begin(true, 0, 12).unwrap().timestamp_us, 1000);
    f.recovered();
    assert!(!f.video_dead);
    assert_eq!(f.dead_since_tick, 0);
}

#[test]
fn feed_dead_decoder_is_given_up_in_time() {
    let mut f = feed_of(vec![chunk(true, true, 1)]);
    f.begin(true, 3, 10);
    f.next(signals(3, 0), 32);
    assert!(f.begin(true, 3, 69).is_none());
    assert!(f.begin(true, 3, 70).is_some());
}

#[test]
fn feed_errors_that_want_a_keyframe() {
    let mut f = Feed::new();
    f.begin(false, 0, 1);
    assert!(f.video_failed("a key frame is required").is_none());
    assert!(f.video_failed("Key frame!").is_none());
    assert!(f.video_failed("no keyframe").is_none());
    assert!(!f.video_dead);
    match f.video_failed("broken").unwrap() {
        PlayerEvent::Error { message, recoverable } => {
            assert_eq!(message, "Video decode error: broken");
            assert!(recoverable);
        }
        e => panic!("{:?}", e),
    }
    assert!(f.video_dead);
    assert!(matches!(Feed::audio_failed("x"), PlayerEvent::Error { message, .. } if message == "Audio decode error: x"));
}

#[test]
fn feed_skip_to_a_near_keyframe() {
    let mut f = feed_of(vec![
        chunk(true, false, 0),
        chunk(false, true, 10),
        chunk(true, false, 20),
        chunk(true, true, 30),
        chunk(true, false, 40),
    ]);
    assert_eq!(f.skip_to_keyframe(0), Some(30_000));
    assert_eq!(times(&f), vec![10, 30, 40]);
}

#[test]
fn feed_skip_not_to_a_far_keyframe() {
    let mut f = feed_of(vec![chunk(false, true, 10), chunk(true, true, 5001)]);
    assert_eq!(f.skip_to_keyframe(0), None);
    assert_eq!(times(&f), vec![10, 5001]);
    assert_eq!(f.skip_to_keyframe(1_000_000), Some(5_001_000));
}

// =============================================
// Clock
// =============================================

#[test]
fn clock_follows_master() {
    let mut c = PlaybackClock::new();
    c.anchor(1_000, 400);
    assert_eq!(c.position_ns(1_000), 400);
    assert_eq!(c.position_ns(1_500), 900);
    c.restart(2_000, 0);
    assert_eq!(c.sync_to_frame(7, 3_000), Some(7_000));
    assert_eq!(c.position_ns(3_000), 7_000);
    assert_eq!(c.sync_to_frame(9, 4_000), None);
}

#[test]
fn clock_discards_stale_frames() {
    let mut c = PlaybackClock::new();
    c.skip_frames_before_us = Some(100);
    assert!(c.discard_stale(99));
    assert!(!c.discard_stale(100));
    assert!(!c.discard_stale(99));
}

#[test]
fn clock_skip_after_drops() {
    let mut c = PlaybackClock::new();
    c.synced_to_first_frame = true;
    let mut s = AVSync::new();
    let mut f = feed_of(vec![chunk(true, false, 950), chunk(true, true, 1000)]);
    for _ in 0..4 {
        assert_eq!(c.decide(&mut s, &mut f, 100_000, 1_000_000_000), SyncAction::Drop);
    }
    assert_eq!(c.decide(&mut s, &mut f, 100_000, 1_000_000_000), SyncAction::SkipToKeyframe);
    assert_eq!(times(&f), vec![1000]);
    assert_eq!(c.skip_frames_before_us, Some(1_000_000));
    assert!(!c.synced_to_first_frame);
    assert_eq!(c.decide(&mut s, &mut f, 1_000_000, 1_000_000_000), SyncAction::Render);
}

// =============================================
// Session
// =============================================

#[test]
fn session_media_is_told() {
    let media = web_player::demux::types::MediaInfo {
        container: ContainerFormat::Mp4,
        duration_us: Some(1_500_999),
        video_tracks: vec![VideoTrackInfo {
            track_id: 1,
            codec_string: "v".into(),
            width: 4,
            height: 3,
            fps: Some(FrameRate { frames: 24, nanos: 1_000_000_000 }),
            codec_config: vec![],
        }],
        audio_tracks: vec![AudioTrackInfo {
            track_id: 2,
            codec_string: "dts".into(),
            sample_rate: 48000,
            channels: 6,
            codec_config: vec![],
        }],
    };
    let info = MediaInfo::summary(&media);
    assert_eq!(info.duration_ms, Some(1500));
    assert_eq!((info.width, info.height, info.sample_rate, info.channels), (4, 3, Some(48000), Some(6)));
    let mut s = Session::new();
    let mut events = Vec::new();
    s.media_ready(&media, false, &mut events);
    assert_eq!(s.state.status, PlaybackStatus::Ready);
    assert!(s.state.has_video && !s.state.has_audio && s.header_parsed);
    assert_eq!(events.len(), 4);
    assert!(matches!(&events[0], PlayerEvent::VideoResized { width: 4, height: 3 }));
    assert!(matches!(&events[1], PlayerEvent::Error { message, recoverable: true }
        if message == "Audio codec 'dts' not supported by WebCodecs — video-only playback"));
    assert!(matches!(&events[2], PlayerEvent::MediaLoaded { .. }));
    assert!(matches!(&events[3], PlayerEvent::StatusChanged { status: PlaybackStatus::Ready }));
}

#[test]
fn session_play_only_when_ready_or_paused() {
    let mut s = Session::new();
    assert_eq!(s.check_play().unwrap_err(), "Cannot play in current state");
    s.state.status = PlaybackStatus::Ready;
    assert!(s.check_play().is_ok());
    s.state.status = PlaybackStatus::Paused;
    assert!(s.check_play().is_ok());
}

#[test]
fn session_time_is_told() {
    let mut s = Session::new();
    let mut e = Vec::new();
    s.update_time(5_400_000, &mut e);
    s.update_time(-1, &mut e);
    s.update_time(7_400_000, &mut e);
    assert_eq!(s.state.current_time_ms, 7);
    assert_eq!(e.len(), 3);
    assert!(matches!(e[1], PlayerEvent::TimeUpdate { current_ms: 0 }));
    assert!(matches!(e[2], PlayerEvent::TimeUpdate { current_ms: 7 }));
}

#[test]
fn session_other_events_are_throttled() {
    let mut s = Session::new();
    let mut e = Vec::new();
    s.update_buffer(10, 250_000_000, &mut e);
    s.update_buffer(20, 499_999_999, &mut e);
    s.update_buffer(30, 500_000_000, &mut e);
    assert_eq!(s.state.buffered_ms, 30);
    assert_eq!(e.len(), 2);
    s.report_progress(1, 2, 499_999_999, &mut e);
    s.report_progress(1, 2, 500_000_000, &mut e);
    s.report_progress(1, 2, 600_000_000, &mut e);
    assert!(matches!(e[2], PlayerEvent::DownloadProgress { received_bytes: 1, total_bytes: 2 }));
    assert_eq!(e.len(), 3);
    for _ in 0..120 {
        s.report_stats((1, 2, 3, 4), &mut e);
    }
    assert!(matches!(e[4], PlayerEvent::SyncStats { rendered: 1, dropped: 2, held: 3, skipped: 4 }));
    assert_eq!(e.len(), 5);
}

#[test]
fn buffer_config_defaults() {
    let c = BufferConfig::default();
    assert_eq!((c.decode_batch_size, c.demux_batch_size, c.min_chunk_queue), (8, 32, 24));
    assert_eq!((c.max_video_queue, c.resume_video_queue, c.max_download_rate), (120, 30, 0));
}

fn supply(frames: usize, chunks: usize, data: usize, demuxed: usize, complete: bool) -> Supply {
    Supply::of(frames, chunks, Some(40_000), data, demuxed, complete, None)
}

#[test]
fn session_ends_when_all_is_played() {
    let mut s = Session::new();
    s.state.status = PlaybackStatus::Playing;
    let mut e = Vec::new();
    assert_eq!(s.supply(&supply(0, 1, 10, 10, true), 0, &mut e), SupplyAction::Continue);
    assert_eq!(s.supply(&supply(0, 0, 10, 10, false), 0, &mut e), SupplyAction::Continue);
    assert_eq!(s.supply(&supply(0, 0, 10, 10, true), 0, &mut e), SupplyAction::Ended);
    assert_eq!(s.state.status, PlaybackStatus::Stopped);
    assert!(matches!(e[0], PlayerEvent::Ended));
    assert!(matches!(e[1], PlayerEvent::StatusChanged { status: PlaybackStatus::Stopped }));
}

#[test]
fn session_buffers_and_resumes() {
    let starved = Supply { has_frames: false, has_chunks: false, has_data: false, can_demux_more: false, complete: false, next_frame_us: None };
    let mut s = Session::new();
    s.state.status = PlaybackStatus::Playing;
    let mut e = Vec::new();
    assert_eq!(s.supply(&starved, 5, &mut e), SupplyAction::Continue);
    assert_eq!(s.state.status, PlaybackStatus::Buffering);
    assert_eq!(s.buffering_since_ns, Some(5));
    s.supply(&starved, 10_000_000_005, &mut e);
    assert_eq!(e.len(), 1);
    s.supply(&starved, 10_000_000_006, &mut e);
    assert!(matches!(&e[1], PlayerEvent::Error { message, recoverable: true }
        if message == "Buffering timeout: no data received for 10 seconds"));
    assert_eq!(s.supply(&supply(1, 0, 1, 0, false), 20, &mut e), SupplyAction::Resume(Some(40_000_000)));
    assert_eq!(s.state.status, PlaybackStatus::Playing);
    assert_eq!(s.state.current_time_ms, 40);
}

#[test]
fn session_seek_restores_status() {
    let mut s = Session::new();
    let mut e = Vec::new();
    assert_eq!(s.begin_seek(5, &mut e).unwrap_err(), "Cannot seek before media is loaded");
    s.header_parsed = true;
    s.state.status = PlaybackStatus::Playing;
    let t = s.begin_seek(5000, &mut e).unwrap();
    assert!(t.was_playing && !t.interrupts);
    assert!(s.is_current(&t));
    let u = s.begin_seek(6000, &mut e).unwrap();
    assert!(u.interrupts && !s.is_current(&t));
    s.end_seek(&u, 5_500_000, 77, &mut e);
    assert_eq!(s.state.status, PlaybackStatus::Buffering);
    assert_eq!(s.state.current_time_ms, 5500);
    assert_eq!(s.buffering_since_ns, Some(77));
}

#[test]
fn session_backpressure() {
    let c = BufferConfig::default();
    assert!(backpressure(&c, 0, 121, false));
    assert!(backpressure(&c, 268_435_457, 0, false));
    assert!(!backpressure(&c, 0, 29, true));
    assert!(backpressure(&c, 0, 30, true));
    assert!(!backpressure(&c, 0, 120, false));
}

// =============================================
// Downloads
// =============================================

#[test]
fn download_steps() {
    let mut d = SharedDownload::new();
    assert_eq!(d.step(), DownloadStep::Read);
    assert!(d.receive(vec![1, 2]));
    d.paused = true;
    assert_eq!(d.step(), DownloadStep::Wait);
    d.cancelled = true;
    assert_eq!(d.step(), DownloadStep::Stop);
    assert!(!d.receive(vec![3]));
    assert_eq!(d.data, vec![1, 2]);
}

#[test]
fn download_ends() {
    let mut d = SharedDownload::new();
    assert!(d.receive(vec![1, 2]));
    d.content_length = 2;
    d.finish();
    assert!(d.complete && d.error.is_none() && !d.paused && !d.cancelled);
    let mut e = SharedDownload::new();
    assert!(e.receive(vec![3]));
    e.fail("connection lost".to_string());
    assert_eq!(e.error.as_deref(), Some("connection lost"));
    assert!(!e.complete && !e.paused && !e.cancelled);
    assert_eq!((d.data, d.content_length, e.data, e.content_length), (vec![1, 2], 2, vec![3], 0));
}

#[test]
fn download_rate_is_kept() {
    let mut r = RateLimit::new(0, 0);
    assert_eq!(r.received(1_000_000, 1), None);
    let mut r = RateLimit::new(1000, 0);
    assert_eq!(r.received(500, 100), Some(400));
    assert_eq!(r.received(100, 700), None);
    assert_eq!(r.received(900, 1001), None);
    assert_eq!((r.window_bytes, r.window_start_ms), (900, 1001));
    assert_eq!(r.received(100, 1001), Some(1000));
}

#[test]
fn prefetch_one_at_a_time() {
    let mut p = PrefetchState::new();
    assert_eq!(p.begin(10, 100, 50), Some((10, 49)));
    assert_eq!(p.begin(10, 100, 50), None);
    p.finish(10, Some(vec![1]));
    assert_eq!(p.take_pending(), vec![(10, vec![1])]);
    assert_eq!(p.begin(50, 100, 50), None);
    p.cancelled = true;
    p.begin(0, 1, 50);
    p.finish(0, Some(vec![2]));
    assert!(p.take_pending().is_empty());
}

#[test]
fn range_buffer_reads_back() {
    let mut b = RangeBuffer::new(1000);
    b.insert(100, vec![1, 2, 3]);
    b.insert(200, vec![9]);
    b.insert(102, vec![3, 4, 5]);
    assert_eq!(b.get_range(100, 105), Some(vec![1, 2, 3, 4, 5]));
    assert_eq!(b.segment_count(), 2);
    assert_eq!(b.range_or_empty(100, 106), Vec::<u8>::new());
    assert_eq!(b.range_or_empty(101, 103), vec![2, 3]);
}

// =============================================
// Audio
// =============================================

#[test]
fn audio_is_scheduled_by_its_time() {
    let mut s = AudioSchedule::new();
    s.reset(1_000);
    assert_eq!(s.schedule(0, 500, 2_000), Some(2_000));
    assert_eq!(s.schedule(0, 500, 2_100), Some(2_500));
    s.set_origin(1_000_000_000, 5_000_000_000);
    assert_eq!(s.schedule(5_100_000, 10, 1_000_000_000), Some(1_100_000_000));
    assert_eq!(s.schedule(4_960_000, 10, 1_000_000_000), Some(1_000_000_000));
    assert_eq!(s.schedule(4_940_000, 10, 1_000_000_000), None);
    s.clear_origin();
    assert_eq!(s.schedule(0, 10, 0), Some(1_000_000_010));
}

#[test]
fn audio_mix_of_channels() {
    let taps = |n: usize| {
        let (l, r) = downmix_taps(n);
        let f = |v: Vec<web_player::player::audio::Tap>| -> Vec<(usize, u16)> { v.iter().map(|t| (t.channel, t.weight)).collect() };
        (f(l), f(r))
    };
    assert_eq!(taps(6), (vec![(0, 1000), (1, 707), (3, 707)], vec![(2, 1000), (1, 707), (4, 707)]));
    assert_eq!(taps(5), taps(6));
    assert_eq!(taps(4), (vec![(0, 1000), (2, 707)], vec![(1, 1000), (3, 707)]));
    assert_eq!(taps(3), (vec![(0, 1000), (1, 707)], vec![(2, 1000), (1, 707)]));
    assert_eq!(taps(2), (vec![(0, 1000)], vec![(1, 1000)]));
    assert_eq!(taps(1), (vec![(0, 1000)], vec![(0, 1000)]));
    assert_eq!(taps(8), taps(2));
    assert!(is_software("ac-3", true) && is_software("ec-3", true) && !is_software("opus", true));
    assert!(!is_software("ac-3", false) && !is_software("ec-3", false) && !is_software("opus", false));
}

#[test]
fn session_is_patient_while_something_is_left() {
    let mut s = Session::new();
    s.state.status = PlaybackStatus::Buffering;
    s.buffering_since_ns = Some(0);
    let mut e = Vec::new();
    s.supply(&supply(0, 1, 10, 10, false), 20_000_000_000, &mut e);
    s.supply(&supply(0, 0, 11, 10, false), 20_000_000_000, &mut e);
    assert!(e.is_empty());
    s.supply(&supply(0, 0, 10, 10, false), 20_000_000_000, &mut e);
    assert!(matches!(&e[0], PlayerEvent::Error { recoverable: true, .. }));
}

#[test]
fn sizes_in_headers() {
    assert_eq!(range_total("bytes 0-65535/1000000"), Some(1_000_000));
    assert_eq!(range_total("bytes 0-1/2/3"), Some(3));
    assert_eq!(range_total("bytes 0-1/*"), None);
    assert_eq!(range_total("1000"), None);
    assert_eq!(range_total("bytes 0-1/"), None);
    assert_eq!(range_total("/18446744073709551615"), Some(u64::MAX));
    assert_eq!(range_total("/18446744073709551616"), None);
    assert_eq!(length_told("42"), Some(42));
    assert_eq!(length_told("-42"), None);
    assert_eq!(length_told(""), None);
}
