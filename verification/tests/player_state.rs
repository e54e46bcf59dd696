use web_player::player::types::{PlaybackStatus, PlayerState};

#[test]
fn player_state_default() {
    let state = PlayerState::default();
    assert_eq!(state.status, PlaybackStatus::Idle);
    assert_eq!(state.current_time_ms, 0);
    assert_eq!(state.duration_ms, None);
    assert_eq!(state.video_width, 0);
    assert_eq!(state.video_height, 0);
    assert!(state.media_info.is_none());
    assert!(!state.has_audio);
    assert!(!state.has_video);
    assert_eq!(state.buffered_ms, 0);
}

#[test]
fn playback_status_equality() {
    assert_eq!(PlaybackStatus::Idle, PlaybackStatus::Idle);
    assert_ne!(PlaybackStatus::Playing, PlaybackStatus::Paused);
    assert_ne!(PlaybackStatus::Seeking, PlaybackStatus::Buffering);
}

#[test]
fn playback_status_copy() {
    let a = PlaybackStatus::Playing;
    let b = a; // Copy
    assert_eq!(a, b);
}

#[test]
fn playback_status_debug() {
    // Ensure Debug impl works
    let s = format!("{:?}", PlaybackStatus::Seeking);
    assert_eq!(s, "Seeking");
}
