use std::io::Cursor;

use web_player::demux::types::{ContainerFormat, MediaInfo, SeekEntry, SeekIndex};
use web_player::player::buffer::SharedDownload;
use web_player::player::download::PrefetchState;
use web_player::player::open::{LoadAction, LoadError, LoadReply};
use web_player::player::range_seek::place_at;
use web_player::player::seek::{Seek, SeekAction, SeekReply, SeekSignals, SeekStage};
use web_player::player::session::PlayKind;
use web_player::player::tick::{Core, Signals, TickAction, TickReply, TickStage};
use web_player::player::types::{PlaybackStatus, PlayerEvent};

const SPS: [u8; 6] = [0x67, 0x64, 0x00, 0x1F, 0xAC, 0xD9];
const PPS: [u8; 4] = [0x68, 0xEB, 0xE3, 0xCB];

/// The bytes of video sample `i`.
fn picture(i: u8) -> Vec<u8> {
    vec![i; if i == 0 { 1_500_000 } else { 10 + i as usize }]
}

/// The bytes of audio sample `i`.
fn sound(i: u8) -> Vec<u8> {
    vec![0x80 + i; 5]
}

/// A file with ten pictures of 500 ms each, every fourth of them a keyframe, and
/// with five sounds of one second each.
fn make_mp4() -> Vec<u8> {
    let config = mp4::Mp4Config {
        major_brand: "isom".parse().unwrap(),
        minor_version: 512,
        compatible_brands: vec!["isom".parse().unwrap()],
        timescale: 1000,
    };
    let mut w = mp4::Mp4Writer::write_start(Cursor::new(Vec::<u8>::new()), &config).unwrap();
    w.add_track(&mp4::TrackConfig {
        track_type: mp4::TrackType::Video,
        timescale: 1000,
        language: "und".into(),
        media_conf: mp4::MediaConfig::AvcConfig(mp4::AvcConfig {
            width: 320,
            height: 240,
            seq_param_set: SPS.to_vec(),
            pic_param_set: PPS.to_vec(),
        }),
    })
    .unwrap();
    w.add_track(&mp4::TrackConfig {
        track_type: mp4::TrackType::Audio,
        timescale: 44100,
        language: "und".into(),
        media_conf: mp4::MediaConfig::AacConfig(mp4::AacConfig {
            bitrate: 128000,
            profile: mp4::AudioObjectType::AacLowComplexity,
            freq_index: mp4::SampleFreqIndex::Freq44100,
            chan_conf: mp4::ChannelConfig::Stereo,
        }),
    })
    .unwrap();
    for i in 0..10u8 {
        let sample = mp4::Mp4Sample {
            start_time: 500 * i as u64,
            duration: 500,
            rendering_offset: 0,
            is_sync: i % 4 == 0,
            bytes: mp4::Bytes::from(picture(i)),
        };
        w.write_sample(1, &sample).unwrap();
    }
    for i in 0..5u8 {
        let sample = mp4::Mp4Sample {
            start_time: 44100 * i as u64,
            duration: 44100,
            rendering_offset: 0,
            is_sync: true,
            bytes: mp4::Bytes::from(sound(i)),
        };
        w.write_sample(2, &sample).unwrap();
    }
    w.write_end().unwrap();
    w.into_writer().into_inner()
}


/// An element with a four-byte size.
fn element(id: &[u8], content: &[u8]) -> Vec<u8> {
    let n = content.len() as u32;
    let mut v = id.to_vec();
    v.extend_from_slice(&(0x1000_0000 | n).to_be_bytes());
    v.extend_from_slice(content);
    v
}

fn number(id: &[u8], n: u64) -> Vec<u8> {
    element(id, &n.to_be_bytes())
}

fn join(parts: &[Vec<u8>]) -> Vec<u8> {
    parts.concat()
}

/// A block of a track at a time within its cluster.
fn block(track: u8, time: i16, key: bool, data: &[u8]) -> Vec<u8> {
    let mut v = vec![0x80 | track];
    v.extend_from_slice(&time.to_be_bytes());
    v.push(if key { 0x80 } else { 0 });
    v.extend_from_slice(data);
    element(&[0xA3], &v)
}

fn cluster(time: u64, blocks: &[Vec<u8>]) -> Vec<u8> {
    let mut content = number(&[0xE7], time);
    content.extend(join(blocks));
    element(&[0x1F, 0x43, 0xB6, 0x75], &content)
}

/// The bytes before the first cluster: a video and an audio track.
fn header(segment_len: u32) -> Vec<u8> {
    let ebml = element(
        &[0x1A, 0x45, 0xDF, 0xA3],
        &join(&[
            number(&[0x42, 0x86], 1),
            number(&[0x42, 0xF7], 1),
            number(&[0x42, 0xF2], 4),
            number(&[0x42, 0xF3], 8),
            element(&[0x42, 0x82], b"matroska"),
            number(&[0x42, 0x87], 4),
            number(&[0x42, 0x85], 2),
        ]),
    );
    let mut info = number(&[0x2A, 0xD7, 0xB1], 1_000_000);
    info.extend(element(&[0x44, 0x89], &4000.0f64.to_be_bytes()));
    info.extend(element(&[0x4D, 0x80], b"muxer"));
    info.extend(element(&[0x57, 0x41], b"writer"));
    let video = element(
        &[0xAE],
        &join(&[
            number(&[0xD7], 1),
            number(&[0x73, 0xC5], 1),
            number(&[0x83], 1),
            element(&[0x86], b"V_VP9"),
            number(&[0x23, 0xE3, 0x83], 40_000_000),
            element(&[0xE0], &join(&[number(&[0xB0], 640), number(&[0xBA], 360)])),
        ]),
    );
    let audio = element(
        &[0xAE],
        &join(&[
            number(&[0xD7], 2),
            number(&[0x73, 0xC5], 2),
            number(&[0x83], 2),
            element(&[0x86], b"A_OPUS"),
            element(&[0x63, 0xA2], &[9, 8, 7]),
            element(
                &[0xE1],
                &join(&[element(&[0xB5], &48000.0f64.to_be_bytes()), number(&[0x9F], 2)]),
            ),
        ]),
    );
    let tracks = element(&[0x16, 0x54, 0xAE, 0x6B], &join(&[video, audio]));
    let info = element(&[0x15, 0x49, 0xA9, 0x66], &info);
    let mut v = ebml;
    v.extend_from_slice(&[0x18, 0x53, 0x80, 0x67]);
    let inner = (info.len() + tracks.len()) as u32 + segment_len;
    v.extend_from_slice(&(0x1000_0000 | inner).to_be_bytes());
    v.extend(info);
    v.extend(tracks);
    v
}

/// Four seconds: a keyframe each second, a picture between two, and sound.
fn clusters() -> Vec<Vec<u8>> {
    (0..4u64)
        .map(|i| {
            let n = i as u8;
            cluster(
                1000 * i,
                &[
                    block(1, 0, true, &[n; 8]),
                    block(2, 10, true, &[0x20 + n; 4]),
                    block(1, 500, false, &[0x40 + n; 6]),
                ],
            )
        })
        .collect()
}

fn make_mkv() -> Vec<u8> {
    let body = join(&clusters());
    let mut v = header(body.len() as u32);
    v.extend(body);
    v
}


/// Bytes of a file from the first to the last offset.
fn part(file: &[u8], first: u64, last: u64) -> Vec<u8> {
    let end = (last + 1).min(file.len() as u64) as usize;
    if first as usize >= end { Vec::new() } else { file[first as usize..end].to_vec() }
}

/// What a load did: the ranges that were fetched, and how it ended.
struct Loaded {
    core: Core,
    download: SharedDownload,
    fetched: Vec<(u64, u64)>,
    left_at: Option<u64>,
    info: Option<MediaInfo>,
    events: Vec<PlayerEvent>,
    result: Result<(), LoadError>,
}

/// Load a file from a server that answers with ranges or not, and with parts of
/// the given size where the file is read from the start.
fn load(file: &[u8], ranges: bool, size_told: bool, piece: usize) -> Loaded {
    let mut core = Core::new();
    let mut download = SharedDownload::new();
    let mut events = Vec::new();
    let mut k = core.begin_load(&mut events);
    let mut fetched = Vec::new();
    let mut left_at = None;
    let mut info = None;
    let mut at = 0usize;
    let mut reply = if ranges {
        let bytes = part(file, 0, 65535);
        let total = if size_told { file.len() as u64 } else { bytes.len() as u64 };
        LoadReply::Probed(bytes, true, total)
    } else {
        LoadReply::Probed(part(file, 0, 65535), false, file.len() as u64)
    };
    loop {
        reply = match core.load_step(&mut k, &mut download, 0, reply, &mut events) {
            LoadAction::Over(result) => {
                return Loaded { core, download, fetched, left_at, info, events, result };
            }
            LoadAction::AskSize => LoadReply::Size(if size_told { 0 } else { file.len() as u64 }, true),
            LoadAction::Fetch(a, b) => {
                fetched.push((a, b));
                LoadReply::Bytes(part(file, a, b))
            }
            LoadAction::Configure(h) => {
                info = Some(h.info.copy());
                LoadReply::Configured(h.info, true)
            }
            LoadAction::Open => {
                at = 0;
                LoadReply::Size(file.len() as u64, false)
            }
            LoadAction::OpenFrom(n) => {
                at = n as usize;
                LoadReply::Done
            }
            LoadAction::Read => {
                if at >= file.len() {
                    LoadReply::Done
                } else {
                    let end = (at + piece).min(file.len());
                    let bytes = file[at..end].to_vec();
                    at = end;
                    LoadReply::Bytes(bytes)
                }
            }
            LoadAction::Leave => {
                left_at = Some(at as u64);
                LoadReply::Done
            }
            LoadAction::StreamFrom(n) => {
                left_at = Some(n);
                LoadReply::Done
            }
        };
    }
}

#[test]
fn load_mp4_with_moov_at_end() {
    let file = make_mp4();
    let l = load(&file, true, true, 0);
    assert!(l.result.is_ok());
    assert_eq!(l.info.unwrap().container, ContainerFormat::Mp4);
    assert_eq!(l.core.session.state.status, PlaybackStatus::Ready);
    assert_eq!(l.core.stream.format, Some(ContainerFormat::Mp4));
    assert_eq!(l.core.stream.index.len(), 3);
    assert!(l.core.stream.layout.moov.is_some());
    assert_eq!(l.fetched[0].1, file.len() as u64 - 1);
    assert_eq!(l.fetched[1], (65536, file.len() as u64 - 1));
    assert_eq!(l.download.data, file);
    assert!(l.download.complete);
    assert_eq!(l.left_at, None);
    assert!(!l.core.feed.queue.is_empty());
    assert!(matches!(l.events.last(), Some(PlayerEvent::StatusChanged { status: PlaybackStatus::Ready })));
}

#[test]
fn load_mkv_by_its_header() {
    let file = make_mkv();
    let l = load(&file, true, false, 0);
    assert!(l.result.is_ok());
    assert_eq!(l.core.stream.format, Some(ContainerFormat::Mkv));
    assert_eq!(l.core.stream.index.len(), 4);
    assert_eq!(l.fetched, vec![]);
    assert_eq!(l.core.feed.queue.len(), 12);
    assert!(l.core.stream.mkv.header.is_some());
    assert!(l.download.complete);
}

#[test]
fn load_linear_in_pieces() {
    let file = make_mkv();
    let l = load(&file, false, true, 100);
    assert!(l.result.is_ok());
    assert_eq!(l.core.session.state.status, PlaybackStatus::Ready);
    assert_eq!(l.download.content_length, file.len() as u64);
    assert!(!l.core.stream.supports_range);
    assert!(l.fetched.is_empty());
}

#[test]
fn load_what_is_no_media() {
    let l = load(&[7u8; 4000], true, true, 1000);
    match l.result {
        Err(LoadError::Text(t)) => assert_eq!(t, "Download complete but container header could not be parsed"),
        r => panic!("{:?}", r),
    }
    assert_eq!(l.core.session.state.status, PlaybackStatus::Error);
    assert!(l.download.complete);
}

#[test]
fn load_broken_mp4() {
    let mut file = vec![0, 0, 0, 16];
    file.extend_from_slice(b"ftypisom\0\0\0\0");
    file.extend_from_slice(&[0, 0, 0, 8]);
    file.extend_from_slice(b"moov");
    let l = load(&file, true, false, 1000);
    assert!(matches!(l.result, Err(LoadError::Mp4(_))));
}

fn signals(wall_ns: i64) -> Signals {
    Signals {
        video_dead: false,
        frames_waiting: 0,
        decodes_pending: 0,
        next_frame_us: None,
        audio_configured: true,
        audio_dead: false,
        wall_ns,
        master_ns: wall_ns,
    }
}

/// One tick with decoders that give a frame for each chunk at once.
fn tick(l: &mut Loaded, frames: &mut Vec<i64>, now: i64) -> (bool, Vec<i64>, Vec<Vec<u8>>, bool) {
    let mut prefetch = PrefetchState::new();
    let mut drawn = Vec::new();
    let mut sounds = Vec::new();
    let mut kept = None;
    let mut pumped = false;
    let mut reply = TickReply::Done;
    loop {
        let mut s = signals(now);
        s.frames_waiting = frames.len();
        s.next_frame_us = frames.first().copied();
        let action = l.core.step(&s, reply, &mut l.download, &mut prefetch, &mut l.events);
        reply = TickReply::Done;
        match action {
            TickAction::Over(more) => return (more, drawn, sounds, pumped),
            TickAction::ReplaceDecoder(_) => reply = TickReply::NotRecovered,
            TickAction::DecodeVideo(c) => frames.push(c.timestamp_us),
            TickAction::DecodeAudio(c) => sounds.push(c.data),
            TickAction::KeepFrame => kept = Some(frames.remove(0)),
            TickAction::DropFrame => {
                frames.remove(0);
            }
            TickAction::FlushFrames => frames.clear(),
            TickAction::Draw => drawn.extend(kept.take()),
            TickAction::PumpAudio => pumped = true,
            TickAction::RestartAudio(_) => {}
        }
    }
}

#[test]
fn tick_plays_to_the_end() {
    let file = make_mkv();
    let mut l = load(&file, true, false, 0);
    assert_eq!(tick(&mut l, &mut Vec::new(), 0), (false, vec![], vec![], false));
    let kind = l.core.session.check_play().unwrap();
    assert_eq!(kind, PlayKind::Fresh);
    let mut events = Vec::new();
    l.core.play(kind, 0, &mut events);
    let mut frames = Vec::new();
    let mut drawn = Vec::new();
    let mut sounds = Vec::new();
    let mut more = true;
    let mut now = 0i64;
    while more && now < 20_000_000_000 {
        let (m, d, s, pumped) = tick(&mut l, &mut frames, now);
        assert_eq!(l.core.stage, TickStage::Idle);
        if m {
            assert!(pumped);
        }
        more = m;
        drawn.extend(d);
        sounds.extend(s);
        now += 16_000_000;
    }
    assert!(!more);
    assert_eq!(drawn, vec![0, 500_000, 1_000_000, 1_500_000, 2_000_000, 2_500_000, 3_000_000, 3_500_000]);
    assert_eq!(sounds.len(), 4);
    assert_eq!(l.core.session.state.status, PlaybackStatus::Stopped);
    let n = l.events.len();
    assert!(matches!(l.events[n - 2], PlayerEvent::Ended));
    let stats = l.core.sync.stats();
    assert_eq!((stats.0, stats.1), (8, 0));
}

#[test]
fn tick_while_seeking_does_nothing() {
    let file = make_mkv();
    let mut l = load(&file, true, true, 0);
    l.core.session.state.status = PlaybackStatus::Seeking;
    assert_eq!(tick(&mut l, &mut Vec::new(), 0), (true, vec![], vec![], false));
    assert_eq!(l.core.session.tick, 0);
}

#[test]
fn tick_decoder_failure_is_told() {
    let file = make_mkv();
    let mut l = load(&file, true, true, 0);
    let mut events = Vec::new();
    l.core.play(PlayKind::Fresh, 0, &mut events);
    let mut prefetch = PrefetchState::new();
    let s = signals(0);
    let a = l.core.step(&s, TickReply::Done, &mut l.download, &mut prefetch, &mut events);
    assert!(matches!(a, TickAction::DecodeVideo(_)));
    let before = events.len();
    l.core.step(&s, TickReply::VideoFailed("bad".into()), &mut l.download, &mut prefetch, &mut events);
    assert!(l.core.feed.video_dead);
    assert!(matches!(&events[before], PlayerEvent::Error { message, .. } if message == "Video decode error: bad"));
}

/// Seek, with bytes fetched from the file.
fn seek(l: &mut Loaded, file: &[u8], ms: u64) -> (Result<(), String>, Vec<(u64, u64)>, Option<u64>) {
    let mut fetched = Vec::new();
    let mut resume = None;
    let mut k = match l.core.begin_seek(ms, &mut l.events) {
        Ok(k) => k,
        Err(t) => return (Err(t), fetched, resume),
    };
    let s = SeekSignals { has_url: true, audio_configured: true, wall_ns: 9, master_ns: 1_000_000_000 };
    let mut reply = SeekReply::Done;
    loop {
        reply = match l.core.seek_step(&mut k, &s, reply, &mut l.download, &mut l.events) {
            SeekAction::Over(r) => return (r, fetched, resume),
            SeekAction::AskSize => SeekReply::Size(file.len() as u64, true),
            SeekAction::Fetch(a, b) => {
                fetched.push((a, b));
                SeekReply::Bytes(part(file, a, b))
            }
            SeekAction::Install(d, from) => {
                assert!(l.download.cancelled);
                assert!(!d.cancelled && !d.paused && d.error.is_none());
                l.download = d;
                resume = from;
                SeekReply::Done
            }
            SeekAction::RestartAudio(_) | SeekAction::ResumeAudio => SeekReply::Done,
        };
    }
}

#[test]
fn seek_before_load_is_refused() {
    let mut l = load(&[0u8; 20], true, true, 100);
    assert_eq!(seek(&mut l, &[], 5).0.unwrap_err(), "Cannot seek before media is loaded");
}

#[test]
fn seek_within_the_download() {
    let file = make_mkv();
    let mut l = load(&file, false, true, 0);
    l.core.session.state.status = PlaybackStatus::Playing;
    let (r, fetched, resume) = seek(&mut l, &file, 2600);
    assert!(r.is_ok() && fetched.is_empty() && resume.is_none());
    let first = &l.core.feed.queue[0];
    assert!(first.is_keyframe && first.is_video);
    assert_eq!(first.timestamp_us, 2_000_000);
    assert_eq!(l.core.session.state.status, PlaybackStatus::Buffering);
    assert_eq!(l.core.session.state.current_time_ms, 2000);
    assert_eq!(l.core.clock.position_ns(1_000_000_000), 2_000_000_000);
    assert_eq!(l.core.feed.audio_skip_before_us, Some(2_000_000));
    let n = l.events.len();
    assert!(matches!(l.events[n - 2], PlayerEvent::Seeked { actual_ms: 2000 }));
}

#[test]
fn seek_by_the_index_in_a_window() {
    let file = make_mkv();
    let mut l = load(&file, true, false, 0);
    l.download = SharedDownload::new();
    l.download.content_length = file.len() as u64;
    let (r, fetched, resume) = seek(&mut l, &file, 2600);
    assert!(r.is_ok());
    assert_eq!(fetched, vec![(0, file.len() as u64 - 1)]);
    assert_eq!(resume, None);
    assert_eq!(l.core.session.state.status, PlaybackStatus::Paused);
    assert_eq!(l.core.session.state.current_time_ms, 2000);
    assert_eq!(l.core.feed.queue[0].timestamp_us, 2_000_000);
}

#[test]
fn seek_mp4_in_a_window() {
    let file = make_mp4();
    let mut l = load(&file, true, true, 0);
    l.download = SharedDownload::new();
    l.download.content_length = file.len() as u64;
    let (r, fetched, _) = seek(&mut l, &file, 2600);
    assert!(r.is_ok(), "{:?}", r);
    assert!(fetched.is_empty());
    assert_eq!(l.core.session.state.current_time_ms, 2000);
    let c = l.core.feed.queue.iter().find(|c| c.is_video).unwrap();
    assert!(c.is_keyframe);
    assert_eq!((c.timestamp_us, c.data.clone()), (2_000_000, picture(4)));
}

#[test]
fn seek_mp4_in_fetched_bytes() {
    let file = make_mp4();
    let mut l = load(&file, true, true, 0);
    l.download = SharedDownload::new();
    l.download.content_length = file.len() as u64;
    l.core.stream.begin_windows(file.len() as u64);
    let (r, fetched, resume) = seek(&mut l, &file, 4999);
    assert!(r.is_ok(), "{:?}", r);
    assert_eq!(fetched.len(), 1);
    assert!(fetched[0].0 > 65_536 && fetched[0].1 == file.len() as u64 - 1);
    assert_eq!(resume, None);
    assert!(l.download.complete);
    let c = l.core.feed.queue.iter().find(|c| c.is_video).unwrap();
    assert_eq!((c.timestamp_us, c.data.clone()), (4_000_000, picture(8)));
}

#[test]
fn seek_mp4_keeps_its_tracks() {
    let file = make_mp4();
    let mut l = load(&file, true, true, 0);
    l.core.stream.supports_range = false;
    let (r, fetched, resume) = seek(&mut l, &file, 2600);
    assert!(r.is_ok(), "{:?}", r);
    assert!(fetched.is_empty() && resume.is_none());
    assert_eq!(l.core.session.state.current_time_ms, 2000);
    let mut tracks: Vec<u32> = l.core.stream.mp4.cursors.as_ref().unwrap().iter().map(|c| c.0).collect();
    tracks.sort();
    assert_eq!(tracks, vec![1, 2]);
    let video = l.core.feed.queue.iter().find(|c| c.is_video).unwrap();
    assert_eq!((video.timestamp_us, video.data.clone()), (2_000_000, picture(4)));
    assert!(l.core.feed.queue.iter().any(|c| c.is_audio));
}

/// A seek to 2.6 s whose range was estimated for a file of `size` bytes.
fn estimated_seek(l: &mut Loaded, range: (u64, u64), size: u64) -> Seek {
    let mut k = l.core.begin_seek(2600, &mut l.events).unwrap();
    k.stage = SeekStage::FetchingMp4;
    k.range = range;
    k.size = size;
    k
}

#[test]
fn seek_mp4_in_a_download_that_grew() {
    let file = make_mp4();
    let end = file.len() as u64;
    let s = SeekSignals { has_url: true, audio_configured: true, wall_ns: 9, master_ns: 0 };
    let start = end / 2;

    let mut l = load(&file, true, true, 0);
    let mut k = estimated_seek(&mut l, (start, end - 1), end);
    l.download.data = file[..start as usize].to_vec();
    l.download.data.extend_from_slice(&[0xEE; 100]);
    let a = l.core.seek_step(&mut k, &s, SeekReply::Bytes(part(&file, start, end - 1)), &mut l.download, &mut l.events);
    assert!(matches!(a, SeekAction::RestartAudio(2_000_000_000)));
    assert!(l.download.cancelled);
    assert_eq!(l.download.data, file);

    let mut l = load(&file, true, true, 0);
    let mut k = estimated_seek(&mut l, (start, end - 10), end);
    l.download.data = file.clone();
    l.download.content_length = end + 500;
    let bytes = part(&file, start, end - 10);
    match l.core.seek_step(&mut k, &s, SeekReply::Bytes(bytes), &mut l.download, &mut l.events) {
        SeekAction::Install(d, from) => {
            assert_eq!(d.data, file[..file.len() - 9].to_vec());
            assert_eq!((d.content_length, from), (end, Some(end - 9)));
        }
        _ => panic!("no download"),
    }

    let mut l = load(&file, true, true, 0);
    let mut k = estimated_seek(&mut l, (start, start + 3), end);
    l.download.data = file[..16].to_vec();
    match l.core.seek_step(&mut k, &s, SeekReply::Bytes(vec![7; 4]), &mut l.download, &mut l.events) {
        SeekAction::Install(d, _) => {
            assert_eq!(d.data[..16], file[..16]);
            assert!(d.data[16..start as usize].iter().all(|b| *b == 0));
            assert_eq!(d.data[start as usize..], [7; 4]);
        }
        _ => panic!("no download"),
    }
}

#[test]
fn seek_mkv_keeps_the_size_of_its_estimate() {
    let file = make_mkv();
    let end = file.len() as u64;
    let s = SeekSignals { has_url: true, audio_configured: true, wall_ns: 9, master_ns: 0 };
    let mut l = load(&file, true, false, 0);
    let mut k = estimated_seek(&mut l, (0, end - 1), end);
    k.stage = SeekStage::FetchingMkv;
    l.download.content_length = 3;
    match l.core.seek_step(&mut k, &s, SeekReply::Bytes(file.clone()), &mut l.download, &mut l.events) {
        SeekAction::Install(d, from) => assert_eq!((d.content_length, d.complete, from), (end, true, None)),
        _ => panic!("no download"),
    }
}

#[test]
fn place_fetched_bytes() {
    let placed = |data: &[u8], at: usize, bytes: &[u8]| {
        let mut v = data.to_vec();
        place_at(&mut v, at, bytes.to_vec());
        v
    };
    assert_eq!(placed(&[1, 2, 3, 4], 2, &[9]), vec![1, 2, 9]);
    assert_eq!(placed(&[1, 2], 2, &[9]), vec![1, 2, 9]);
    assert_eq!(placed(&[1], 3, &[9, 8]), vec![1, 0, 0, 9, 8]);
}

#[test]
fn seek_by_an_estimate() {
    let file = make_mkv();
    let mut l = load(&file, true, false, 0);
    l.core.stream.index.entries.clear();
    if let Some(m) = &mut l.core.stream.media {
        m.duration_us = Some(4_000_000);
    }
    l.download = SharedDownload::new();
    let (r, fetched, _) = seek(&mut l, &file, 2600);
    assert!(r.is_ok(), "{:?}", r);
    assert_eq!(fetched, vec![(0, file.len() as u64 - 1)]);
    assert_eq!(l.download.content_length, file.len() as u64);
    assert!(l.download.complete);
    assert_eq!(l.core.feed.queue[0].timestamp_us, 2_000_000);
    assert_eq!(l.core.session.state.current_time_ms, 2600);
}

#[test]
fn seek_overtaken_gives_way() {
    let file = make_mkv();
    let mut l = load(&file, true, true, 0);
    let mut k = l.core.begin_seek(1000, &mut l.events).unwrap();
    l.core.begin_seek(2000, &mut l.events).unwrap();
    let s = SeekSignals { has_url: true, audio_configured: false, wall_ns: 0, master_ns: 0 };
    let n = l.events.len();
    let a = l.core.seek_step(&mut k, &s, SeekReply::Done, &mut l.download, &mut l.events);
    assert!(matches!(a, SeekAction::Over(Ok(()))));
    assert_eq!(l.events.len(), n);
}

#[test]
fn control_of_playback() {
    let file = make_mkv();
    let mut l = load(&file, true, true, 0);
    let mut e = Vec::new();
    assert!(!l.core.pause(&mut e));
    l.core.play(PlayKind::Fresh, 0, &mut e);
    l.core.session.state.current_time_ms = 1234;
    assert!(l.core.pause(&mut e));
    assert_eq!(l.core.session.check_play().unwrap(), PlayKind::Resume);
    l.core.play(PlayKind::Resume, 50_000_000_000, &mut e);
    assert_eq!(l.core.clock.position_ns(50_000_000_000), 1_234_000_000);
    l.core.stop(&mut e);
    assert_eq!(l.core.session.state.status, PlaybackStatus::Stopped);
    assert_eq!(l.core.session.state.current_time_ms, 0);
    assert!(l.core.feed.queue.is_empty());
    l.core.reset_for_track();
    assert!(l.core.stream.format.is_none() && l.core.stream.mkv.header.is_none());
    l.core.destroy();
    assert_eq!(l.core.session.state.status, PlaybackStatus::Idle);
}

#[test]
fn seek_asks_for_five_megabytes() {
    let mut s = Core::new().stream;
    s.index = SeekIndex::from_entries(vec![SeekEntry { timestamp_us: 7_000_000, byte_offset: 10_000_000 }]);
    let p = s.plan_seek(8_000_000, 0, 1_000_000_000);
    assert_eq!((p.fetch_start, p.fetch_end), (9_934_464, 9_934_464 + 5 * 1024 * 1024));
    assert_eq!((p.keyframe_offset, p.keyframe_us), (10_000_000, 7_000_000));
    let p = s.plan_seek(8_000_000, 0, 10_000_100);
    assert_eq!(p.fetch_end, 10_000_100);
}
