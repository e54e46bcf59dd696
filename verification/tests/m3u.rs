use web_player::m3u::{parse, PlaylistEntry};

/// The duration of an entry as a number.
fn secs(e: &PlaylistEntry) -> Option<f64> {
    e.duration_secs.as_deref().map(|d| d.parse().unwrap())
}

#[test]
fn test_empty_content() {
    assert!(parse("").is_err());
    assert!(parse("   \n  \n  ").is_err());
}

#[test]
fn test_simple_m3u() {
    let content = "http://example.com/video1.mp4\nhttp://example.com/video2.mkv\n";
    let playlist = parse(content).unwrap();
    assert_eq!(playlist.entries.len(), 2);
    assert_eq!(playlist.entries[0].url, "http://example.com/video1.mp4");
    assert_eq!(playlist.entries[1].url, "http://example.com/video2.mkv");
    assert!(playlist.entries[0].title.is_none());
    assert!(playlist.entries[0].duration_secs.is_none());
}

#[test]
fn test_simple_m3u_with_comments() {
    let content = "# This is a comment\nhttp://example.com/video1.mp4\n# Another comment\nhttp://example.com/video2.mp4\n";
    let playlist = parse(content).unwrap();
    assert_eq!(playlist.entries.len(), 2);
}

#[test]
fn test_extended_m3u() {
    let content = "#EXTM3U\n#EXTINF:120,First Video\nhttp://example.com/video1.mp4\n#EXTINF:300,Second Video\nhttp://example.com/video2.mp4\n";
    let playlist = parse(content).unwrap();
    assert_eq!(playlist.entries.len(), 2);

    assert_eq!(playlist.entries[0].url, "http://example.com/video1.mp4");
    assert_eq!(playlist.entries[0].title.as_deref(), Some("First Video"));
    assert_eq!(secs(&playlist.entries[0]), Some(120.0));

    assert_eq!(playlist.entries[1].url, "http://example.com/video2.mp4");
    assert_eq!(playlist.entries[1].title.as_deref(), Some("Second Video"));
    assert_eq!(secs(&playlist.entries[1]), Some(300.0));
}

#[test]
fn test_extended_m3u_negative_duration() {
    let content = "#EXTM3U\n#EXTINF:-1,Live Stream\nhttp://example.com/live\n";
    let playlist = parse(content).unwrap();
    assert_eq!(playlist.entries.len(), 1);
    assert!(playlist.entries[0].duration_secs.is_none()); // -1 is filtered out
    assert_eq!(playlist.entries[0].title.as_deref(), Some("Live Stream"));
}

#[test]
fn test_extended_m3u_no_title() {
    let content = "#EXTM3U\n#EXTINF:60\nhttp://example.com/video.mp4\n";
    let playlist = parse(content).unwrap();
    assert_eq!(playlist.entries.len(), 1);
    assert_eq!(secs(&playlist.entries[0]), Some(60.0));
    assert!(playlist.entries[0].title.is_none());
}

#[test]
fn test_extended_m3u_url_without_extinf() {
    let content = "#EXTM3U\nhttp://example.com/video1.mp4\n#EXTINF:30,Titled\nhttp://example.com/video2.mp4\n";
    let playlist = parse(content).unwrap();
    assert_eq!(playlist.entries.len(), 2);
    assert!(playlist.entries[0].title.is_none());
    assert_eq!(playlist.entries[1].title.as_deref(), Some("Titled"));
}

#[test]
fn test_no_valid_entries() {
    let content = "# just comments\n# nothing else\n";
    assert!(parse(content).is_err());
}

#[test]
fn test_whitespace_handling() {
    let content = "  http://example.com/video1.mp4  \n  \n  http://example.com/video2.mp4  \n";
    let playlist = parse(content).unwrap();
    assert_eq!(playlist.entries.len(), 2);
    assert_eq!(playlist.entries[0].url, "http://example.com/video1.mp4");
}
