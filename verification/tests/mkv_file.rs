use web_player::demux::demuxer::Demuxer;
use web_player::demux::mkv::MkvDemuxer;
use web_player::demux::types::{ContainerFormat, DemuxError};

/// An element with a four-byte size.
fn element(id: &[u8], content: &[u8]) -> Vec<u8> {
    let n = content.len() as u32;
    let mut v = id.to_vec();
    v.extend_from_slice(&(0x1000_0000 | n).to_be_bytes());
    v.extend_from_slice(content);
    v
}

fn number(id: &[u8], n: u64) -> Vec<u8> {
    element(id, &n.to_be_bytes())
}

fn join(parts: &[Vec<u8>]) -> Vec<u8> {
    parts.concat()
}

/// A block of a track at a time within its cluster.
fn block(track: u8, time: i16, key: bool, data: &[u8]) -> Vec<u8> {
    let mut v = vec![0x80 | track];
    v.extend_from_slice(&time.to_be_bytes());
    v.push(if key { 0x80 } else { 0 });
    v.extend_from_slice(data);
    element(&[0xA3], &v)
}

fn cluster(time: u64, blocks: &[Vec<u8>]) -> Vec<u8> {
    let mut content = number(&[0xE7], time);
    content.extend(join(blocks));
    element(&[0x1F, 0x43, 0xB6, 0x75], &content)
}

/// The bytes before the first cluster: a video and an audio track.
fn header(segment_len: u32) -> Vec<u8> {
    let ebml = element(
        &[0x1A, 0x45, 0xDF, 0xA3],
        &join(&[
            number(&[0x42, 0x86], 1),
            number(&[0x42, 0xF7], 1),
            number(&[0x42, 0xF2], 4),
            number(&[0x42, 0xF3], 8),
            element(&[0x42, 0x82], b"matroska"),
            number(&[0x42, 0x87], 4),
            number(&[0x42, 0x85], 2),
        ]),
    );
    let mut info = number(&[0x2A, 0xD7, 0xB1], 1_000_000);
    info.extend(element(&[0x44, 0x89], &4000.0f64.to_be_bytes()));
    info.extend(element(&[0x4D, 0x80], b"muxer"));
    info.extend(element(&[0x57, 0x41], b"writer"));
    let video = element(
        &[0xAE],
        &join(&[
            number(&[0xD7], 1),
            number(&[0x73, 0xC5], 1),
            number(&[0x83], 1),
            element(&[0x86], b"V_VP9"),
            number(&[0x23, 0xE3, 0x83], 40_000_000),
            element(&[0xE0], &join(&[number(&[0xB0], 640), number(&[0xBA], 360)])),
        ]),
    );
    let audio = element(
        &[0xAE],
        &join(&[
            number(&[0xD7], 2),
            number(&[0x73, 0xC5], 2),
            number(&[0x83], 2),
            element(&[0x86], b"A_OPUS"),
            element(&[0x63, 0xA2], &[9, 8, 7]),
            element(
                &[0xE1],
                &join(&[element(&[0xB5], &48000.0f64.to_be_bytes()), number(&[0x9F], 2)]),
            ),
        ]),
    );
    let tracks = element(&[0x16, 0x54, 0xAE, 0x6B], &join(&[video, audio]));
    let info = element(&[0x15, 0x49, 0xA9, 0x66], &info);
    let mut v = ebml;
    v.extend_from_slice(&[0x18, 0x53, 0x80, 0x67]);
    let inner = (info.len() + tracks.len()) as u32 + segment_len;
    v.extend_from_slice(&(0x1000_0000 | inner).to_be_bytes());
    v.extend(info);
    v.extend(tracks);
    v
}

/// Four seconds: a keyframe each second, a picture between two, and sound.
fn clusters() -> Vec<Vec<u8>> {
    (0..4u64)
        .map(|i| {
            let n = i as u8;
            cluster(
                1000 * i,
                &[
                    block(1, 0, true, &[n; 8]),
                    block(2, 10, true, &[0x20 + n; 4]),
                    block(1, 500, false, &[0x40 + n; 6]),
                ],
            )
        })
        .collect()
}

fn make_file() -> Vec<u8> {
    let body = join(&clusters());
    let mut v = header(body.len() as u32);
    v.extend(body);
    v
}

fn opened() -> MkvDemuxer {
    let mut d = MkvDemuxer::new();
    d.parse_header(&make_file()).unwrap();
    d
}

#[test]
fn matroska_header_tells_tracks() {
    let mut d = MkvDemuxer::new();
    let info = d.parse_header(&make_file()).unwrap();
    assert_eq!(info.container, ContainerFormat::Mkv);
    let v = &info.video_tracks[0];
    assert_eq!(v.track_id, 1);
    assert_eq!(v.codec_string, "vp09.00.10.08");
    assert_eq!((v.width, v.height), (640, 360));
    let rate = v.fps.unwrap();
    assert_eq!((rate.frames, rate.nanos), (1, 40_000_000));
    let a = &info.audio_tracks[0];
    assert_eq!(a.track_id, 2);
    assert_eq!(a.codec_string, "opus");
    assert_eq!((a.sample_rate, a.channels), (48000, 2));
    assert_eq!(a.codec_config, vec![9, 8, 7]);
    assert_eq!(d.timestamp_scale_ns(), 1_000_000);
    assert_eq!(d.duration_bits().map(f64::from_bits), Some(4000.0));
}

#[test]
fn matroska_chunks_in_order() {
    let mut d = opened();
    for i in 0..4u8 {
        let c = d.next_chunk().unwrap().unwrap();
        assert!(c.is_video && c.is_keyframe && !c.is_audio);
        assert_eq!((c.timestamp_us, c.data), (1_000_000 * i as i64, vec![i; 8]));
        let c = d.next_chunk().unwrap().unwrap();
        assert!(c.is_audio && c.is_keyframe);
        assert_eq!((c.timestamp_us, c.data), (1_000_000 * i as i64 + 10_000, vec![0x20 + i; 4]));
        let c = d.next_chunk().unwrap().unwrap();
        assert!(c.is_video && !c.is_keyframe);
        assert_eq!((c.timestamp_us, c.data), (1_000_000 * i as i64 + 500_000, vec![0x40 + i; 6]));
    }
    assert!(d.next_chunk().unwrap().is_none());
    assert_eq!(d.frames_read(), 12);
}

#[test]
fn matroska_seek_then_next() {
    let mut d = opened();
    d.seek_to_keyframe(2_700_000).unwrap();
    assert_eq!(d.frames_read(), 6);
    let c = d.next_chunk().unwrap().unwrap();
    assert!(c.is_video && c.is_keyframe);
    assert_eq!(c.timestamp_us, 2_000_000);
    d.seek_to_keyframe(0).unwrap();
    assert_eq!(d.next_chunk().unwrap().unwrap().timestamp_us, 0);
}

#[test]
fn matroska_seek_tells_the_time() {
    let mut d = opened();
    assert_eq!(d.seek_and_tell(3_200_000).unwrap(), Some(3_000_000));
    assert_eq!(d.next_chunk().unwrap().unwrap().timestamp_us, 3_000_000);
    assert_eq!(d.seek_and_tell(-1).unwrap(), Some(0));
}

#[test]
fn matroska_skips_add_up() {
    let mut a = opened();
    a.skip_frames(2).unwrap();
    a.skip_frames(3).unwrap();
    let mut b = opened();
    b.skip_frames(5).unwrap();
    assert_eq!(a.frames_read(), b.frames_read());
    assert_eq!(a.next_chunk().unwrap().unwrap().data, b.next_chunk().unwrap().unwrap().data);
}

#[test]
fn matroska_index_of_clusters() {
    let d = opened();
    let index = d.build_seek_index();
    assert_eq!(index.len(), 4);
    let body = join(&clusters());
    let start = header(body.len() as u32).len() as u64;
    assert_eq!(index.entries[0].byte_offset, start);
    assert_eq!(index.entries[1].byte_offset, start + clusters()[0].len() as u64);
    assert_eq!(index.entries[3].timestamp_us, 3_000_000);
}

#[test]
fn matroska_clusters_by_offset() {
    let d = opened();
    let second = d.get_seek_index().entries[1].byte_offset;
    assert_eq!(d.find_cluster_before_offset(second).unwrap().timestamp_us, 1_000_000);
    assert_eq!(d.find_cluster_before_offset(second - 1).unwrap().timestamp_us, 0);
    assert!(d.find_cluster_before_offset(0).is_none());
    assert_eq!(d.find_cluster_before_offset(u64::MAX).unwrap().timestamp_us, 3_000_000);
    let mut other = MkvDemuxer::new();
    assert!(other.find_cluster_before_offset(u64::MAX).is_none());
    other.transfer_seek_state(d.build_seek_index(), d.last_scanned_offset());
    assert_eq!(other.last_scanned_offset(), make_file().len());
    assert_eq!(other.get_seek_index().entries.len(), 4);
    other.parse_header(&make_file()).unwrap();
    assert_eq!(other.get_seek_index().entries.len(), 4);
}

#[test]
fn matroska_from_a_part() {
    let data = make_file();
    let cut = data.len() - clusters()[3].len();
    let mut d = MkvDemuxer::new();
    d.parse_header_streaming(&data[..cut]).unwrap();
    let mut n = 0;
    while let Ok(Some(_)) = d.next_chunk() {
        n += 1;
    }
    assert_eq!(n, 9);
}

#[test]
fn matroska_parse_errors_are_told() {
    let mut d = MkvDemuxer::new();
    match d.parse_header(&[1, 2, 3, 4, 5, 6, 7, 8]).unwrap_err() {
        DemuxError::InvalidData(t) => assert!(t.starts_with("MKV parse error: ") && t.len() > 17),
        e => panic!("{:?}", e),
    }
}

/// A file whose segment begins with the given bytes.
fn file_with(start: &[u8]) -> Vec<u8> {
    let ebml = element(&[0x1A, 0x45, 0xDF, 0xA3], &number(&[0x42, 0x86], 1));
    join(&[ebml, element(&[0x18, 0x53, 0x80, 0x67], start)])
}

/// A seek head that leads to seek heads at the given positions.
fn seek_head(positions: &[u64]) -> Vec<u8> {
    let entries: Vec<Vec<u8>> = positions
        .iter()
        .map(|p| {
            let id = element(&[0x53, 0xAB], &[0x11, 0x4D, 0x9B, 0x74]);
            element(&[0x4D, 0xBB], &join(&[id, number(&[0x53, 0xAC], *p)]))
        })
        .collect();
    element(&[0x11, 0x4D, 0x9B, 0x74], &join(&entries))
}

#[test]
fn matroska_circles_are_refused() {
    let mut d = MkvDemuxer::new();
    let refused = "invalid data: MKV parse error: segment is not sound";
    let checksum = element(&[0xBF], &[1, 2, 3, 4]);
    assert_eq!(d.parse_header(&file_with(&checksum)).unwrap_err().message(), refused);
    assert_eq!(d.parse_header(&file_with(&seek_head(&[0]))).unwrap_err().message(), refused);
    assert_eq!(d.parse_header(&file_with(&seek_head(&[0, 0]))).unwrap_err().message(), refused);
    let first = seek_head(&[seek_head(&[0]).len() as u64]);
    let chain = join(&[first, seek_head(&[])]);
    let other = d.parse_header(&file_with(&chain)).unwrap_err().message();
    assert!(other.starts_with("invalid data: MKV parse error: ") && other != refused);
    assert_eq!(d.parse_header_streaming(&make_file()).unwrap().video_tracks.len(), 1);
}

/// A file with one more cluster.
fn file_ending_with(last: Vec<u8>) -> Vec<u8> {
    let body = join(&[join(&clusters()), last]);
    let mut v = header(body.len() as u32);
    v.extend(body);
    v
}

#[test]
fn matroska_sums_that_overflow_are_refused() {
    let mut d = MkvDemuxer::new();
    let refused = "invalid data: MKV parse error: segment is not sound";
    let cues = |position: u64| {
        let tracks = element(&[0xB7], &join(&[number(&[0xF7], 1), number(&[0xF1], position)]));
        element(&[0x1C, 0x53, 0xBB, 0x6B], &element(&[0xBB], &join(&[number(&[0xB3], 0), tracks])))
    };
    assert_eq!(d.parse_header(&file_ending_with(cues(u64::MAX))).unwrap_err().message(), refused);
    assert!(d.parse_header(&file_ending_with(cues(100))).is_ok());
    let far = element(
        &[0x4D, 0xBB],
        &join(&[element(&[0x53, 0xAB], &[0x15, 0x49, 0xA9, 0x66]), number(&[0x53, 0xAC], u64::MAX)]),
    );
    let heads = element(&[0x11, 0x4D, 0x9B, 0x74], &far);
    assert_eq!(d.parse_header(&file_with(&heads)).unwrap_err().message(), refused);
}

/// The frames that a file gives, and the error or the end that follows them.
fn frames_until_stop(data: &[u8]) -> (usize, Option<String>) {
    let mut d = MkvDemuxer::new();
    d.parse_header(data).unwrap();
    let mut n = 0;
    loop {
        match d.next_chunk() {
            Ok(Some(_)) => n += 1,
            Ok(None) => return (n, None),
            Err(e) => {
                let text = e.message();
                assert_eq!(d.next_chunk().unwrap_err().message(), text);
                assert_eq!(d.frames_read(), n);
                return (n, Some(text));
            }
        }
    }
}

#[test]
fn matroska_frames_before_an_unsound_block_come() {
    let unsound = Some("invalid data: MKV frame error: block is not sound".to_string());
    let lowest = block(1, i16::MIN, true, &[1; 4]);
    let data = file_ending_with(cluster(4000, &[lowest.clone()]));
    assert_eq!(frames_until_stop(&data), (12, unsound.clone()));
    let data = file_ending_with(cluster(4000, &[block(1, i16::MIN + 1, true, &[1; 4])]));
    assert_eq!(frames_until_stop(&data), (13, None));
    let data = file_ending_with(cluster(u64::MAX, &[block(1, 0, true, &[1; 4]), block(1, 1, true, &[1; 4])]));
    assert_eq!(frames_until_stop(&data), (13, unsound.clone()));
    let data = file_ending_with(cluster(4000, &[vec![0xA0, 0xFF]]));
    assert_eq!(frames_until_stop(&data), (12, unsound.clone()));

    let mut d = MkvDemuxer::new();
    d.parse_header(&data).unwrap();
    d.seek_to_keyframe(2_400_000).unwrap();
    assert_eq!(d.next_chunk().unwrap().unwrap().timestamp_us, 2_000_000);
    assert_eq!(
        d.seek_to_keyframe(9_000_000).unwrap_err().message(),
        "invalid data: MKV seek scan error: block is not sound"
    );
    assert_eq!(d.next_chunk().unwrap().unwrap().timestamp_us, 2_010_000);
}

#[test]
fn matroska_calls_before_an_unsound_block_are_counted() {
    let unsound = Some("invalid data: MKV frame error: block is not sound".to_string());
    let lowest = block(1, i16::MIN, true, &[1; 4]);
    let laced = |flags: u8, rest: &[u8]| {
        let mut v = vec![0x81, 0, 0, flags];
        v.extend_from_slice(rest);
        element(&[0xA3], &v)
    };
    let plain = |data: &[u8]| {
        let mut v = vec![0x81, 0, 0, 0];
        v.extend_from_slice(data);
        element(&[0xA1], &v)
    };
    let group = |parts: &[Vec<u8>]| element(&[0xA0], &join(parts));
    let cases: Vec<(Vec<u8>, usize)> = vec![
        (laced(0x02, &[2, 1, 2, 9, 8, 8, 7, 7]), 3),
        (laced(0x02, &[0, 9, 9]), 1),
        (laced(0x04, &[1, 9, 9, 8, 8, 0]), 2),
        (laced(0x06, &[2, 0x81, 0xC0, 9, 8, 8, 7]), 3),
        (laced(0x06, &[0, 0x81, 9, 8, 8]), 2),
        (group(&[plain(&[9, 9]), number(&[0x9B], 20)]), 1),
        (group(&[plain(&[9, 9]), plain(&[8, 8])]), 1),
        (group(&[element(&[0xA1], &[0x81, 0, 0, 0x04, 1, 9, 8]), number(&[0xFB], 1)]), 2),
        (group(&[]), 1),
        (join(&[group(&[number(&[0x9B], 20)]), block(1, 3, true, &[6; 3])]), 2),
    ];
    for (part, frames) in cases {
        let data = file_ending_with(cluster(4000, &[part.clone()]));
        assert_eq!(frames_until_stop(&data), (12 + frames, None));
        let data = file_ending_with(cluster(4000, &[part, lowest.clone()]));
        assert_eq!(frames_until_stop(&data), (12 + frames, unsound.clone()));
    }
    let long = join(&[vec![0xA0, 0x90], plain(&[9, 9]), block(1, 3, true, &[6; 3])]);
    let data = file_ending_with(cluster(4000, &[long, lowest]));
    assert_eq!(frames_until_stop(&data), (12, unsound));
}

#[test]
fn matroska_duration_that_is_no_number() {
    let told = [&[0x44, 0x89, 0x10, 0, 0, 8][..], &4000.0f64.to_be_bytes()[..]].concat();
    let at = make_file().windows(told.len()).position(|w| w == &told[..]).unwrap();
    let with = |bytes: &[u8]| {
        let mut data = make_file();
        data[at..at + bytes.len()].copy_from_slice(bytes);
        let mut d = MkvDemuxer::new();
        d.parse_header(&data).unwrap();
        d.duration_bits()
    };
    let double = |bits: u64| with(&[&[0x44, 0x89, 0x10, 0, 0, 8][..], &bits.to_be_bytes()[..]].concat());
    let single = |bits: u32| with(&[&[0x44, 0x89, 0x10, 0, 0, 4][..], &bits.to_be_bytes()[..], &[0xEC, 0x82, 0, 0][..]].concat());
    assert_eq!(double(0x7ff8_0000_0000_0000), Some(0x7ff8_0000_0000_0000));
    assert_eq!(double(0xfff0_0000_0000_0001), Some(0x7ff8_0000_0000_0000));
    assert_eq!(double(0x7ff0_0000_0000_0000), Some(0x7ff0_0000_0000_0000));
    assert_eq!(single(0x7f80_0001), Some(0x7ff8_0000_0000_0000));
    assert_eq!(single(0xffc0_1234), Some(0x7ff8_0000_0000_0000));
    assert_eq!(single(2.5f32.to_bits()).map(f64::from_bits), Some(2.5));
}

#[test]
fn matroska_errors_stay() {
    let mut bad = block(1, 0, true, &[1; 4]);
    let n = bad.len();
    bad.truncate(n - 8);
    bad[4] = 0;
    let mut d = MkvDemuxer::new();
    d.parse_header(&file_ending_with(cluster(4000, &[bad]))).unwrap();
    for _ in 0..12 {
        assert!(d.next_chunk().unwrap().is_some());
    }
    let first = d.next_chunk().unwrap_err().message();
    assert_eq!(d.next_chunk().unwrap_err().message(), first);
    assert_eq!(d.frames_read(), 12);
    d.seek_to_keyframe(0).unwrap();
    assert_eq!(d.next_chunk().unwrap().unwrap().timestamp_us, 0);
}

/// The first chunk of a file, by any demuxer.
fn first_chunk<D: Demuxer>(mut d: D, data: &[u8]) -> Vec<u8> {
    assert!(D::probe(data));
    d.parse_header(data).unwrap();
    d.seek_to_keyframe(0).unwrap();
    assert!(!d.build_seek_index().is_empty());
    d.next_chunk().unwrap().unwrap().data
}

#[test]
fn matroska_by_the_trait() {
    assert_eq!(first_chunk(MkvDemuxer::new(), &make_file()), vec![0; 8]);
}
