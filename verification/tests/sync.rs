use web_player::demux::types::FrameRate;
use web_player::player::sync::{AVSync, SyncAction, DEFAULT_SYNC_THRESHOLD_NS};

const DEFAULT_SYNC_THRESHOLD_MS: f64 = 40.0;

/// Milliseconds as nanoseconds.
fn ns(ms: f64) -> i64 {
    (ms * 1_000_000.0).round() as i64
}

/// Frames per second as a frame rate.
fn fps(n: f64) -> Option<FrameRate> {
    Some(FrameRate { frames: (n * 1000.0).round() as i64, nanos: 1_000_000_000_000 })
}

/// The threshold in milliseconds.
fn threshold_ms(sync: &AVSync) -> f64 {
    sync.threshold_ns() as f64 / 1_000_000.0
}

#[test]
fn test_render_within_threshold() {
    let mut sync = AVSync::new();
    assert_eq!(sync.should_render_frame(ns(100.0), ns(100.0)), SyncAction::Render);
    assert_eq!(sync.should_render_frame(ns(100.0), ns(80.0)), SyncAction::Render); // 20ms early
    assert_eq!(sync.should_render_frame(ns(100.0), ns(120.0)), SyncAction::Render); // 20ms late
}

#[test]
fn test_hold_when_early() {
    let mut sync = AVSync::new();
    assert_eq!(sync.should_render_frame(ns(200.0), ns(100.0)), SyncAction::Hold); // 100ms early
    assert_eq!(sync.should_render_frame(ns(150.0), ns(100.0)), SyncAction::Hold); // 50ms early
}

#[test]
fn test_drop_when_late() {
    let mut sync = AVSync::new();
    assert_eq!(sync.should_render_frame(ns(100.0), ns(200.0)), SyncAction::Drop); // 100ms late
}

#[test]
fn test_skip_after_consecutive_drops() {
    let mut sync = AVSync::new();
    // 4 drops, then the 5th triggers SkipToKeyframe
    for _ in 0..4 {
        assert_eq!(sync.should_render_frame(ns(100.0), ns(200.0)), SyncAction::Drop);
    }
    assert_eq!(sync.should_render_frame(ns(100.0), ns(200.0)), SyncAction::SkipToKeyframe);
    // After skip, counter resets — next late frame is a normal Drop
    assert_eq!(sync.should_render_frame(ns(100.0), ns(200.0)), SyncAction::Drop);
}

#[test]
fn test_consecutive_drops_reset_on_render() {
    let mut sync = AVSync::new();
    // 3 drops
    for _ in 0..3 {
        sync.should_render_frame(ns(100.0), ns(200.0));
    }
    // Then a render resets the counter
    assert_eq!(sync.should_render_frame(ns(100.0), ns(100.0)), SyncAction::Render);
    // Only 1 drop after reset — not enough for skip
    assert_eq!(sync.should_render_frame(ns(100.0), ns(200.0)), SyncAction::Drop);
}

#[test]
fn test_stats() {
    let mut sync = AVSync::new();
    sync.should_render_frame(ns(100.0), ns(100.0)); // render
    sync.should_render_frame(ns(200.0), ns(100.0)); // hold
    sync.should_render_frame(ns(100.0), ns(200.0)); // drop

    let (rendered, dropped, held, skipped) = sync.stats();
    assert_eq!(rendered, 1);
    assert_eq!(dropped, 1);
    assert_eq!(held, 1);
    assert_eq!(skipped, 0);
}

#[test]
fn test_with_start_offset() {
    let mut sync = AVSync::new();
    sync.set_start_offset(ns(50.0));

    // clock=100, offset=50 → adjusted=50, frame=100 → diff=50 → Hold
    assert_eq!(sync.should_render_frame(ns(100.0), ns(100.0)), SyncAction::Hold);

    // clock=150, offset=50 → adjusted=100, frame=100 → diff=0 → Render
    assert_eq!(sync.should_render_frame(ns(100.0), ns(150.0)), SyncAction::Render);
}

#[test]
fn test_adaptive_threshold_24fps() {
    let mut sync = AVSync::new();
    sync.set_fps(fps(24.0));
    // 1000/24 * 0.6 = 25ms threshold
    assert!((threshold_ms(&sync) - 25.0).abs() < 0.1);
    // 30ms late with 25ms threshold → Drop
    assert_eq!(sync.should_render_frame(ns(100.0), ns(130.0)), SyncAction::Drop);
    // 20ms late with 25ms threshold → Render
    assert_eq!(sync.should_render_frame(ns(100.0), ns(120.0)), SyncAction::Render);
}

#[test]
fn test_adaptive_threshold_60fps() {
    let mut sync = AVSync::new();
    sync.set_fps(fps(60.0));
    // 1000/60 * 0.6 = 10ms, but clamped to min 8ms
    assert!((threshold_ms(&sync) - 10.0).abs() < 0.1);
}

// =============================================
// Additional boundary tests
// =============================================

#[test]
fn test_reset_clears_all_state() {
    let mut sync = AVSync::new();
    sync.set_start_offset(ns(100.0));
    // Generate some activity
    sync.should_render_frame(ns(100.0), ns(100.0)); // render
    sync.should_render_frame(ns(100.0), ns(200.0)); // drop
    sync.should_render_frame(ns(200.0), ns(100.0)); // hold

    sync.reset();

    let (r, d, h, s) = sync.stats();
    assert_eq!((r, d, h, s), (0, 0, 0, 0));
    // After reset, start_offset should be 0 → same PTS/clock → Render
    assert_eq!(sync.should_render_frame(ns(100.0), ns(100.0)), SyncAction::Render);
}

#[test]
fn test_double_reset() {
    let mut sync = AVSync::new();
    sync.should_render_frame(ns(100.0), ns(100.0));
    sync.reset();
    sync.reset(); // Double reset should be safe
    let (r, d, h, s) = sync.stats();
    assert_eq!((r, d, h, s), (0, 0, 0, 0));
}

#[test]
fn test_set_fps_zero() {
    let mut sync = AVSync::new();
    sync.set_fps(fps(0.0));
    assert_eq!(threshold_ms(&sync), DEFAULT_SYNC_THRESHOLD_MS);
}

#[test]
fn test_set_fps_negative() {
    let mut sync = AVSync::new();
    sync.set_fps(fps(-24.0));
    // Negative FPS → fps <= 0 → fallback to default
    assert_eq!(threshold_ms(&sync), DEFAULT_SYNC_THRESHOLD_MS);
}

#[test]
fn test_threshold_clamp_min_8ms() {
    let mut sync = AVSync::new();
    // 240fps → 1000/240 * 0.6 = 2.5ms → should clamp to 8ms
    sync.set_fps(fps(240.0));
    assert_eq!(threshold_ms(&sync), 8.0);
}

#[test]
fn test_threshold_clamp_max_60ms() {
    let mut sync = AVSync::new();
    // 5fps → 1000/5 * 0.6 = 120ms → should clamp to 60ms
    sync.set_fps(fps(5.0));
    assert_eq!(threshold_ms(&sync), 60.0);
}

#[test]
fn test_threshold_30fps() {
    let mut sync = AVSync::new();
    sync.set_fps(fps(30.0));
    // 1000/30 * 0.6 = 20ms
    assert!((threshold_ms(&sync) - 20.0).abs() < 0.1);
}

#[test]
fn test_threshold_120fps() {
    let mut sync = AVSync::new();
    sync.set_fps(fps(120.0));
    // 1000/120 * 0.6 = 5ms → clamp to 8ms
    assert_eq!(threshold_ms(&sync), 8.0);
}

#[test]
fn test_exact_threshold_boundary_render() {
    let mut sync = AVSync::new();
    // Default threshold = 40ms
    // diff = exactly 40ms → should Render (not Hold/Drop)
    assert_eq!(sync.should_render_frame(ns(140.0), ns(100.0)), SyncAction::Render);
    assert_eq!(sync.should_render_frame(ns(60.0), ns(100.0)), SyncAction::Render);
}

#[test]
fn test_just_beyond_threshold_hold() {
    let mut sync = AVSync::new();
    // diff = 40.001 → just beyond threshold → Hold
    assert_eq!(
        sync.should_render_frame(ns(140.001), ns(100.0)),
        SyncAction::Hold
    );
}

#[test]
fn test_just_beyond_threshold_drop() {
    let mut sync = AVSync::new();
    // diff = -40.001 → just beyond threshold → Drop
    assert_eq!(
        sync.should_render_frame(ns(59.999), ns(100.0)),
        SyncAction::Drop
    );
}

#[test]
fn test_consecutive_holds_dont_trigger_skip() {
    let mut sync = AVSync::new();
    // 100 consecutive holds — should never trigger SkipToKeyframe
    for _ in 0..100 {
        assert_eq!(sync.should_render_frame(ns(1000.0), ns(100.0)), SyncAction::Hold);
    }
    let (_, _, _, skipped) = sync.stats();
    assert_eq!(skipped, 0);
}

#[test]
fn test_stats_count_skip_once_per_cycle() {
    let mut sync = AVSync::new();
    // 5 drops → 1 skip, then 5 more drops → 1 skip
    for _ in 0..5 {
        sync.should_render_frame(ns(100.0), ns(200.0));
    }
    for _ in 0..5 {
        sync.should_render_frame(ns(100.0), ns(200.0));
    }
    let (_, dropped, _, skipped) = sync.stats();
    assert_eq!(skipped, 2);
    // 10 drops counted + 2 skipped events (skip also increments frames_dropped)
    assert_eq!(dropped, 10);
}

#[test]
fn test_skip_resets_consecutive_drops() {
    let mut sync = AVSync::new();
    // After SkipToKeyframe, consecutive_drops resets
    // So the NEXT drop is just a normal Drop, not another SkipToKeyframe
    for _ in 0..4 {
        sync.should_render_frame(ns(100.0), ns(200.0)); // Drop
    }
    assert_eq!(
        sync.should_render_frame(ns(100.0), ns(200.0)),
        SyncAction::SkipToKeyframe
    );
    // Counter reset — next is a normal Drop
    assert_eq!(sync.should_render_frame(ns(100.0), ns(200.0)), SyncAction::Drop);
    assert_eq!(sync.should_render_frame(ns(100.0), ns(200.0)), SyncAction::Drop);
}

#[test]
fn test_hold_resets_consecutive_drops() {
    let mut sync = AVSync::new();
    // 4 drops, then a hold, then more drops — should NOT skip at 5
    for _ in 0..4 {
        sync.should_render_frame(ns(100.0), ns(200.0)); // Drop
    }
    sync.should_render_frame(ns(1000.0), ns(100.0)); // Hold — resets counter
    // Now need 5 MORE drops for SkipToKeyframe
    for _ in 0..4 {
        assert_eq!(sync.should_render_frame(ns(100.0), ns(200.0)), SyncAction::Drop);
    }
    assert_eq!(
        sync.should_render_frame(ns(100.0), ns(200.0)),
        SyncAction::SkipToKeyframe
    );
}

#[test]
fn test_negative_pts() {
    let mut sync = AVSync::new();
    // Negative PTS values (shouldn't happen but must not panic)
    let result = sync.should_render_frame(ns(-100.0), ns(0.0));
    // diff = -100 - 0 = -100 → Drop
    assert_eq!(result, SyncAction::Drop);
}

#[test]
fn test_large_pts_values() {
    let mut sync = AVSync::new();
    // Very large PTS (2+ hours = 7_200_000 ms)
    let result = sync.should_render_frame(ns(7_200_000.0), ns(7_200_000.0));
    assert_eq!(result, SyncAction::Render);
}

#[test]
fn test_set_has_audio_toggle() {
    let mut sync = AVSync::new();
    assert!(!sync.has_audio);
    sync.set_has_audio(true);
    assert!(sync.has_audio);
    sync.set_has_audio(false);
    assert!(!sync.has_audio);
}

#[test]
fn test_start_offset_affects_sync() {
    let mut sync = AVSync::new();
    sync.set_start_offset(ns(1000.0));
    // clock=1000, offset=1000 → adjusted=0, frame=0 → diff=0 → Render
    assert_eq!(sync.should_render_frame(ns(0.0), ns(1000.0)), SyncAction::Render);
    // clock=1000, offset=1000 → adjusted=0, frame=100 → diff=100 → Hold
    assert_eq!(sync.should_render_frame(ns(100.0), ns(1000.0)), SyncAction::Hold);
}

#[test]
fn test_fps_change_mid_playback() {
    let mut sync = AVSync::new();
    sync.set_fps(fps(24.0));
    assert!((threshold_ms(&sync) - 25.0).abs() < 0.1);

    // Change FPS mid-playback (e.g., variable frame rate content)
    sync.set_fps(fps(60.0));
    assert!((threshold_ms(&sync) - 10.0).abs() < 0.1);

    // Reset to 0 → back to default
    sync.set_fps(fps(0.0));
    assert_eq!(threshold_ms(&sync), DEFAULT_SYNC_THRESHOLD_MS);
}

#[test]
fn test_many_renders_stats_accumulate() {
    let mut sync = AVSync::new();
    for i in 0..1000 {
        sync.should_render_frame(ns(i as f64), ns(i as f64)); // Render each time
    }
    let (rendered, dropped, held, skipped) = sync.stats();
    assert_eq!(rendered, 1000);
    assert_eq!(dropped, 0);
    assert_eq!(held, 0);
    assert_eq!(skipped, 0);
}

#[test]
fn test_interleaved_actions() {
    let mut sync = AVSync::new();
    // Render, Hold, Drop, Render, Drop, Drop, Drop, Drop, SkipToKeyframe
    assert_eq!(sync.should_render_frame(ns(100.0), ns(100.0)), SyncAction::Render);
    assert_eq!(sync.should_render_frame(ns(200.0), ns(100.0)), SyncAction::Hold);
    assert_eq!(sync.should_render_frame(ns(100.0), ns(200.0)), SyncAction::Drop);
    assert_eq!(sync.should_render_frame(ns(300.0), ns(300.0)), SyncAction::Render);
    // Now 5 consecutive drops → skip
    for _ in 0..4 {
        sync.should_render_frame(ns(100.0), ns(300.0));
    }
    assert_eq!(
        sync.should_render_frame(ns(100.0), ns(300.0)),
        SyncAction::SkipToKeyframe
    );

    let (r, d, h, s) = sync.stats();
    assert_eq!(r, 2);
    assert_eq!(d, 6); // 1 + 5
    assert_eq!(h, 1);
    assert_eq!(s, 1);
}
