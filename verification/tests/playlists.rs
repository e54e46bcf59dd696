use web_player::m3u::{parse, M3uError, Playlist};
use web_player::player::playlist::PlaylistCursor;
use web_player::player::types::PlayerEvent;

fn durations(list: &str) -> Vec<Option<String>> {
    parse(list).unwrap().entries.into_iter().map(|e| e.duration_secs).collect()
}

#[test]
fn playlist_errors_are_told() {
    assert_eq!(parse(" \n").unwrap_err().message(), "Empty playlist");
    assert_eq!(parse("#x").unwrap_err().message(), "No valid entries found");
    assert!(matches!(parse("#EXTM3U"), Err(M3uError::NoEntries)));
    assert_eq!(M3uError::Parse("why".into()).message(), "Parse error: why");
}

#[test]
fn playlist_durations_are_numbers() {
    for good in ["0", "12", "1.5", ".5", "2.", "1e3", "1E-3", "+4", "inf", "Infinity", "-0", "-0.00"] {
        let list = format!("#EXTM3U\n#EXTINF:{},t\nu\n", good);
        assert_eq!(durations(&list), vec![Some(good.to_string())], "{}", good);
        assert!(good.parse::<f64>().unwrap() >= 0.0);
    }
    for bad in ["", "-1", "abc", "1e", ".", "1_0", "nan", "-inf", "1 2", "--1", "0x1"] {
        let list = format!("#EXTM3U\n#EXTINF:{},t\nu\n", bad);
        assert_eq!(durations(&list), vec![None], "{}", bad);
        assert!(!bad.parse::<f64>().ok().filter(|d| *d >= 0.0).is_some());
    }
}

#[test]
fn playlist_details_are_used_once() {
    let p = parse("#EXTM3U\r\n#EXTINF: 7 , A, B \r\n\r\n#EXTVLCOPT:x\r\nfirst\r\nsecond\r\n").unwrap();
    assert_eq!(p.entries.len(), 2);
    assert_eq!(p.entries[0].title.as_deref(), Some("A, B"));
    assert_eq!(p.entries[0].duration_secs.as_deref(), Some("7"));
    assert_eq!(p.entries[0].url, "first");
    assert!(p.entries[1].title.is_none() && p.entries[1].duration_secs.is_none());
}

#[test]
fn playlist_white_space_of_all_kinds() {
    let p = parse("\u{3000}http://a/\u{e9}\u{a0}\n\u{2003}\n b \t").unwrap();
    assert_eq!(p.entries[0].url, "http://a/\u{e9}");
    assert_eq!(p.entries[1].url, "b");
}

#[test]
fn playlist_moves() {
    let mut c = PlaylistCursor::new();
    assert_eq!(c.next_track().unwrap_err(), "No playlist loaded");
    assert_eq!(c.previous_track().unwrap_err(), "No playlist loaded");
    assert_eq!(c.current_track().unwrap_err(), "No playlist loaded");
    assert_eq!(c.open(Playlist { entries: vec![] }).unwrap_err(), "Playlist has no entries");
    c.open(parse("a\nb\nc").unwrap()).unwrap();
    assert_eq!(c.previous_track().unwrap_err(), "Already at first track");
    c.next_track().unwrap();
    c.next_track().unwrap();
    assert_eq!(c.next_track().unwrap_err(), "Already at last track");
    let (url, event) = c.current_track().unwrap();
    assert_eq!(url, "c");
    assert!(matches!(event, PlayerEvent::PlaylistTrackChanged { index: 2 }));
    c.previous_track().unwrap();
    assert_eq!(c.get_playlist_index(), 1);
    assert_eq!(c.play_track(3).unwrap_err(), "Track index out of bounds");
    c.play_track(0).unwrap();
    assert_eq!(c.current_track().unwrap().0, "a");
}

#[test]
fn playlist_durations_that_vanish() {
    let texts = [
        "-1e-400", "-0", "-0.000", "-0e5", "-1", "-1e-323", "-5e-324", "-4.9e-324", "-2e-324",
        "-2.4703282292062327e-324", "-2.4703282292062328e-324", "-0.00001e-320", "-24703282292062327e-340",
        "-1e-99999999999999999999999999999999999999999", "-1e99999999999999999999999999999999999999999",
        "-0e99999999999999999999999999999999999999999", "-.5e-500", "-12345678901234567890e-344",
    ];
    for t in texts {
        let kept = durations(&format!("#EXTM3U\n#EXTINF:{},T\nu\n", t))[0].is_some();
        assert_eq!(kept, t.parse::<f64>().unwrap() >= 0.0, "{}", t);
    }
}
