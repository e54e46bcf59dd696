use std::io::{Cursor, Read};

use web_player::demux::boxes::{build_demux_buffer, build_range_header, close_mdat, Mp4Layout};
use web_player::demux::demuxer::Demuxer;
use web_player::demux::isomp4::LimitedCursor;
use web_player::demux::mp4::Mp4Demuxer;
use web_player::demux::types::{ContainerFormat, DemuxError};
use web_player::demux::walk::check_header;

const SPS: [u8; 6] = [0x67, 0x64, 0x00, 0x1F, 0xAC, 0xD9];
const PPS: [u8; 4] = [0x68, 0xEB, 0xE3, 0xCB];

/// The bytes of video sample `i`.
fn picture(i: u8) -> Vec<u8> {
    vec![i; if i == 0 { 5000 } else { 10 + i as usize }]
}

/// The bytes of audio sample `i`.
fn sound(i: u8) -> Vec<u8> {
    vec![0x80 + i; 5]
}

/// A file with ten pictures of 500 ms each, every fourth of them a keyframe, and
/// with five sounds of one second each.
fn make_file() -> Vec<u8> {
    let config = mp4::Mp4Config {
        major_brand: "isom".parse().unwrap(),
        minor_version: 512,
        compatible_brands: vec!["isom".parse().unwrap()],
        timescale: 1000,
    };
    let mut w = mp4::Mp4Writer::write_start(Cursor::new(Vec::<u8>::new()), &config).unwrap();
    w.add_track(&mp4::TrackConfig {
        track_type: mp4::TrackType::Video,
        timescale: 1000,
        language: "und".into(),
        media_conf: mp4::MediaConfig::AvcConfig(mp4::AvcConfig {
            width: 320,
            height: 240,
            seq_param_set: SPS.to_vec(),
            pic_param_set: PPS.to_vec(),
        }),
    })
    .unwrap();
    w.add_track(&mp4::TrackConfig {
        track_type: mp4::TrackType::Audio,
        timescale: 44100,
        language: "und".into(),
        media_conf: mp4::MediaConfig::AacConfig(mp4::AacConfig {
            bitrate: 128000,
            profile: mp4::AudioObjectType::AacLowComplexity,
            freq_index: mp4::SampleFreqIndex::Freq44100,
            chan_conf: mp4::ChannelConfig::Stereo,
        }),
    })
    .unwrap();
    for i in 0..10u8 {
        let sample = mp4::Mp4Sample {
            start_time: 500 * i as u64,
            duration: 500,
            rendering_offset: 0,
            is_sync: i % 4 == 0,
            bytes: mp4::Bytes::from(picture(i)),
        };
        w.write_sample(1, &sample).unwrap();
    }
    for i in 0..5u8 {
        let sample = mp4::Mp4Sample {
            start_time: 44100 * i as u64,
            duration: 44100,
            rendering_offset: 0,
            is_sync: true,
            bytes: mp4::Bytes::from(sound(i)),
        };
        w.write_sample(2, &sample).unwrap();
    }
    w.write_end().unwrap();
    w.into_writer().into_inner()
}

fn opened(data: &[u8]) -> Mp4Demuxer {
    let mut d = Mp4Demuxer::new();
    d.parse_header(data).unwrap();
    d
}

#[test]
fn file_header_tells_tracks() {
    let mut d = Mp4Demuxer::new();
    let info = d.parse_header(&make_file()).unwrap();
    assert_eq!(info.container, ContainerFormat::Mp4);
    assert_eq!(info.duration_us, Some(5_000_000));
    assert_eq!(info.video_tracks.len(), 1);
    let v = &info.video_tracks[0];
    assert_eq!(v.track_id, 1);
    assert_eq!(v.codec_string, "avc1.64001F");
    assert_eq!((v.width, v.height), (320, 240));
    let rate = v.fps.unwrap();
    assert_eq!((rate.frames, rate.nanos), (10, 5_000_000_000));
    let mut config = vec![1, 0x64, 0x00, 0x1F, 0xFF, 0xE1, 0, 6];
    config.extend_from_slice(&SPS);
    config.extend_from_slice(&[1, 0, 4]);
    config.extend_from_slice(&PPS);
    assert_eq!(v.codec_config, config);
    let a = &info.audio_tracks[0];
    assert_eq!(a.track_id, 2);
    assert_eq!(a.codec_string, "mp4a.40.2");
    assert_eq!((a.sample_rate, a.channels), (44100, 2));
    assert_eq!(a.codec_config, vec![0x12, 0x10]);
}

#[test]
fn file_chunks_come_by_time() {
    let mut d = opened(&make_file());
    let mut pictures = 0u8;
    let mut sounds = 0u8;
    let mut last = 0;
    while let Some(c) = d.next_chunk().unwrap() {
        assert!(c.timestamp_us >= last);
        last = c.timestamp_us;
        if c.is_video {
            assert_eq!(c.track_id, 1);
            assert_eq!(c.timestamp_us, 500_000 * pictures as i64);
            assert_eq!(c.duration_us, 500_000);
            assert_eq!(c.is_keyframe, pictures % 4 == 0);
            assert_eq!(c.data, picture(pictures));
            pictures += 1;
        } else {
            assert!(c.is_audio);
            assert_eq!(c.timestamp_us, 1_000_000 * sounds as i64);
            assert!(c.is_keyframe);
            assert_eq!(c.data, sound(sounds));
            sounds += 1;
        }
    }
    assert_eq!((pictures, sounds), (10, 5));
    assert!(d.next_chunk().unwrap().is_none());
}

#[test]
fn file_limit_hides_samples() {
    let data = make_file();
    let mut d = opened(&data);
    let index = d.build_seek_index();
    let third = index.entries[2].byte_offset;
    d.set_data_limit(third);
    let mut pictures = 0u8;
    while let Some(c) = d.next_chunk().unwrap() {
        if c.is_video {
            assert_eq!(c.data, picture(pictures));
            pictures += 1;
        }
    }
    assert_eq!(pictures, 8);
    d.set_data_limit(u64::MAX);
    while let Some(c) = d.next_chunk().unwrap() {
        if c.is_video {
            assert_eq!(c.data, picture(pictures));
            pictures += 1;
        }
    }
    assert_eq!(pictures, 10);
}

#[test]
fn file_seek_lands_on_keyframe() {
    let mut d = opened(&make_file());
    assert_eq!(Mp4Demuxer::new().stands_at(), None);
    assert_eq!(d.stands_at(), Some(0));
    d.seek_to_keyframe(3_600_000).unwrap();
    assert_eq!(d.stands_at(), Some(2_000_000));
    let positions: Vec<(u32, u32)> = {
        let mut p = d.sample_positions();
        p.sort();
        p
    };
    assert_eq!(positions, vec![(1, 5), (2, 4)]);
    let c = d.next_chunk().unwrap().unwrap();
    assert!(c.is_video && c.is_keyframe);
    assert_eq!(c.timestamp_us, 2_000_000);
    d.seek_to_keyframe(0).unwrap();
    assert_eq!(d.next_chunk().unwrap().unwrap().timestamp_us, 0);
    d.seek_to_keyframe(-5).unwrap();
    assert_eq!(d.next_chunk().unwrap().unwrap().timestamp_us, 0);
}

#[test]
fn file_index_gives_offsets_of_keyframes() {
    let data = make_file();
    let d = opened(&data);
    let index = d.build_seek_index();
    assert_eq!(index.len(), 3);
    for (n, e) in index.entries.iter().enumerate() {
        let i = 4 * n as u8;
        assert_eq!(e.timestamp_us, 500_000 * i as i64);
        let at = e.byte_offset as usize;
        assert_eq!(&data[at..at + picture(i).len()], &picture(i)[..]);
    }
    assert_eq!(index.lookup_keyframe(2_400_000).unwrap().timestamp_us, 2_000_000);
}

#[test]
fn file_positions_resume() {
    let data = make_file();
    let mut a = opened(&data);
    for _ in 0..4 {
        a.next_chunk().unwrap();
    }
    let mut b = opened(&data);
    b.set_sample_positions(a.sample_positions());
    let x = a.next_chunk().unwrap().unwrap();
    let y = b.next_chunk().unwrap().unwrap();
    assert_eq!((x.track_id, x.timestamp_us, x.data), (y.track_id, y.timestamp_us, y.data));
}

#[test]
fn file_window_reads_like_file() {
    let data = make_file();
    let index = opened(&data).build_seek_index();
    let start = index.entries[1].byte_offset - 3;
    let mut layout = Mp4Layout::new();
    layout.learn(&data, &data, 0);
    let header = build_range_header(&layout, &data);
    let header_end = header.len() as u64;
    let mut buffer = header;
    buffer.extend_from_slice(&data[start as usize..]);
    let mut d = Mp4Demuxer::new();
    d.parse_header_range(buffer, start, header_end).unwrap();
    d.set_sample_positions(vec![(1, 5)]);
    for i in 4..10u8 {
        let c = d.next_chunk().unwrap().unwrap();
        assert_eq!(c.data, picture(i));
        assert_eq!(c.timestamp_us, 500_000 * i as i64);
    }
    assert!(d.next_chunk().unwrap().is_none());
}

#[test]
fn file_truncated_with_moov_behind() {
    let data = make_file();
    let index = opened(&data).build_seek_index();
    let mut layout = Mp4Layout::new();
    layout.learn(&data, &data, 0);
    let have = index.entries[1].byte_offset as usize;
    let download = data[..have].to_vec();
    let buffer = build_demux_buffer(&download, &layout.moov, layout.mdat_offset, layout.mdat_header_size);
    assert_eq!(buffer.len(), have + layout.moov.as_ref().unwrap().len());
    let mut d = opened(&buffer);
    d.set_data_limit(have as u64);
    let mut pictures = 0u8;
    while let Some(c) = d.next_chunk().unwrap() {
        if c.is_video {
            assert_eq!(c.data, picture(pictures));
            pictures += 1;
        }
    }
    assert_eq!(pictures, 4);
    assert_eq!(build_demux_buffer(&download, &None, layout.mdat_offset, layout.mdat_header_size), download);
    let mut closed = download.clone();
    close_mdat(&mut closed, layout.mdat_offset, layout.mdat_header_size);
    assert_eq!(closed.len(), download.len());
    assert_ne!(closed, download);
    let mut found = download.clone();
    close_mdat(&mut found, 0, 0);
    assert_eq!(found, closed);
}

#[test]
fn file_parse_errors_are_told() {
    let mut d = Mp4Demuxer::new();
    match d.parse_header(&[0, 0, 0, 8, b'f', b'r', b'e', b'e']).unwrap_err() {
        DemuxError::InvalidData(t) => assert!(t.starts_with("MP4 parse error: ") && t.len() > 17),
        e => panic!("{:?}", e),
    }
    match d.parse_header_range(vec![0, 0, 0, 8, b'f', b'r', b'e', b'e'], 100, 8).unwrap_err() {
        DemuxError::InvalidData(t) => assert!(t.starts_with("MP4 Range parse error: ")),
        e => panic!("{:?}", e),
    }
    assert_eq!(d.next_chunk().unwrap_err().message(), "invalid data: No header parsed yet");
}

/// A box.
fn a_box(kind: &[u8], content: &[u8]) -> Vec<u8> {
    let mut v = (8 + content.len() as u32).to_be_bytes().to_vec();
    v.extend_from_slice(kind);
    v.extend_from_slice(content);
    v
}

/// A moov box with metadata of a handler.
fn moov_with_meta(handler: &[u8], rest: &[u8]) -> Vec<u8> {
    let hdlr = a_box(b"hdlr", &[&[0u8; 8], handler, &[0u8; 12], b"x\0"].concat());
    let meta = a_box(b"meta", &[&[0u8; 4], &hdlr[..], rest].concat());
    a_box(b"moov", &a_box(b"udta", &meta))
}

/// Whether a header can be walked to an end.
fn sound_header(data: &[u8]) -> bool {
    let size = data.len() as u64;
    check_header(&LimitedCursor::new(data.to_vec()).0, size)
}

#[test]
fn cursor_reads_what_is_there() {
    let mut c = LimitedCursor::new(vec![1, 2, 3, 4, 5]).0;
    let mut buf = [9u8; 3];
    assert_eq!(c.read(&mut buf).unwrap(), 3);
    assert_eq!(buf, [1, 2, 3]);
    let mut buf = [9u8; 4];
    assert_eq!(c.read(&mut buf).unwrap(), 2);
    assert_eq!(buf, [4, 5, 9, 9]);
    assert_eq!(c.read(&mut buf).unwrap(), 0);
    assert_eq!(buf, [4, 5, 9, 9]);
}

#[test]
fn file_circles_are_refused() {
    let ftyp = a_box(b"ftyp", b"isom\0\0\0\0");
    let mut file = ftyp.clone();
    file.extend(a_box(b"moov", &[0, 0, 0, 0, b'f', b'r', b'e', b'e']));
    let mut d = Mp4Demuxer::new();
    assert_eq!(
        d.parse_header(&file).unwrap_err().message(),
        "invalid data: MP4 parse error: box sizes lead nowhere"
    );
    let mut huge = vec![0, 0, 0, 1, b'm', b'o', b'o', b'v', 0x7F, 0xFF, 0xFF, 0xFF, 0xFF, 0xFF, 0xFF, 0xFF];
    huge.extend(a_box(b"trak", &[]));
    assert_eq!(
        d.parse_header_range(huge, 0, u64::MAX).unwrap_err().message(),
        "invalid data: MP4 Range parse error: box sizes lead nowhere"
    );
    assert!(sound_header(&make_file()));
    assert!(sound_header(&[ftyp, vec![0, 0, 0, 0, b'f', b'r', b'e', b'e']].concat()));
    let deep = a_box(b"moov", &a_box(b"trak", &a_box(b"mdia", &a_box(b"minf", &a_box(b"stbl", &[0; 8])))));
    assert!(!sound_header(&deep));
    let long = [&[0, 0, 0, 1, b's', b'k', b'i', b'p'][..], &[0; 8]].concat();
    assert!(!sound_header(&a_box(b"moov", &long)));
}

#[test]
fn file_small_metadata_is_refused() {
    let item = |data: Vec<u8>| a_box(b"ilst", &a_box(&[0xa9, b'n', b'a', b'm'], &data));
    let whole = a_box(b"data", &[0, 0, 0, 1, 0, 0, 0, 0, b'T']);
    assert!(sound_header(&moov_with_meta(b"mdir", &item(whole))));
    let short = a_box(b"data", &[0, 0, 0, 1]);
    assert!(!sound_header(&moov_with_meta(b"mdir", &item(short.clone()))));
    assert!(sound_header(&moov_with_meta(b"mdta", &item(short))));
    let small = [0, 0, 0, 4, b'k', b'e', b'y', b's', 0, 0, 0, 8];
    assert!(!sound_header(&moov_with_meta(b"mdta", &small)));
    assert!(sound_header(&moov_with_meta(b"mdir", &small)));
}

#[test]
fn file_small_messages_are_refused() {
    let whole = a_box(b"emsg", &[&[0u8; 4][..], b"urn\0v\0", &[0; 16], b"hello"].concat());
    assert!(sound_header(&whole));
    let mut short = whole.clone();
    short[3] = 33;
    assert!(!sound_header(&short));
    short[3] = 34;
    assert!(sound_header(&short));
    short[8] = 2;
    short[3] = 33;
    assert!(sound_header(&short));
}

/// The first chunk of a file, by any demuxer.
fn first_chunk<D: Demuxer>(mut d: D, data: &[u8]) -> Vec<u8> {
    assert!(D::probe(data));
    d.parse_header(data).unwrap();
    d.seek_to_keyframe(0).unwrap();
    assert!(!d.build_seek_index().is_empty());
    d.next_chunk().unwrap().unwrap().data
}

#[test]
fn file_by_the_trait() {
    let first = first_chunk(Mp4Demuxer::new(), &make_file());
    assert!(first == picture(0) || first == sound(0));
}
