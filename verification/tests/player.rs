use signal::models::{PlaybackStatus, ReplayGainMode};
use signal::player::{
    audio_device, exclusive_value, is_bit_perfect, next_entry_indices, rate_hz,
    status_for_pause, transport_step, GaplessWindow, PlayerError, Transport, TransportEvent,
};

#[test]
fn load_stage_advance() {
    let mut w = GaplessWindow::new();
    assert!(w.is_empty());
    w.load(1);
    assert_eq!(w.current(), Some(1));
    assert!(!w.wants_next(1));
    assert!(w.wants_next(2));
    w.stage(2);
    assert_eq!(w.len(), 2);
    assert!(!w.wants_next(2));
    // a different next track replaces the staged one
    w.stage(3);
    assert_eq!(w.len(), 2);
    assert!(w.wants_next(2));
    // mpv stays on the first entry: no advance
    assert_eq!(w.on_start_file(0), None);
    assert_eq!(w.on_start_file(1), Some(3));
    assert_eq!(w.current(), Some(3));
    assert_eq!(w.len(), 1);
}

#[test]
fn clear_next_keeps_current() {
    let mut w = GaplessWindow::new();
    w.load(5);
    w.stage(6);
    w.clear_next();
    assert_eq!(w.len(), 1);
    assert_eq!(w.current(), Some(5));
}

#[test]
fn end_of_file_stops_only_without_prefetch() {
    let mut w = GaplessWindow::new();
    w.load(-7);
    w.stage(8);
    let out = w.on_eof();
    assert_eq!(out.finished, Some(-7));
    assert!(!out.stopped);
    assert_eq!(w.len(), 2);
    assert_eq!(w.on_start_file(1), Some(8));
    let out = w.on_eof();
    assert_eq!(out.finished, Some(8));
    assert!(out.stopped);
    assert!(w.is_empty());
    let out = w.on_eof();
    assert_eq!(out.finished, None);
    assert!(out.stopped);
}

#[test]
fn stop_clears_everything() {
    let mut w = GaplessWindow::new();
    w.load(1);
    w.stage(2);
    w.clear();
    assert!(w.is_empty());
    assert_eq!(status_for_pause(&w, true), None);
    w.load(3);
    assert_eq!(status_for_pause(&w, true), Some(PlaybackStatus::Paused));
    assert_eq!(status_for_pause(&w, false), Some(PlaybackStatus::Playing));
}

#[test]
fn playlist_entries_dropped_from_the_end() {
    assert_eq!(next_entry_indices(4), vec![3, 2, 1]);
    assert!(next_entry_indices(1).is_empty());
    assert!(next_entry_indices(0).is_empty());
}

#[test]
fn device_entries() {
    let d = audio_device("coreaudio/BuiltIn".to_owned(), Some("Speakers".to_owned()));
    assert_eq!(d.id, "coreaudio/BuiltIn");
    assert_eq!(d.name, "Speakers");
    assert_eq!(d.backend, "coreaudio");
    let d = audio_device("auto".to_owned(), None);
    assert_eq!(d.name, "auto");
    assert_eq!(d.backend, "auto");
}

#[test]
fn bit_perfect_needs_everything() {
    assert!(is_bit_perfect(Some(44_100), Some(44_100), true, ReplayGainMode::Off));
    assert!(!is_bit_perfect(Some(44_100), Some(48_000), true, ReplayGainMode::Off));
    assert!(!is_bit_perfect(Some(44_100), Some(44_100), false, ReplayGainMode::Off));
    assert!(!is_bit_perfect(Some(44_100), Some(44_100), true, ReplayGainMode::Track));
    assert!(!is_bit_perfect(None, None, true, ReplayGainMode::Off));
    assert_eq!(rate_hz(Some(96_000)), Some(96_000));
    assert_eq!(rate_hz(Some(-1)), None);
    assert_eq!(rate_hz(None), None);
    assert_eq!(exclusive_value(true), "yes");
    assert_eq!(exclusive_value(false), "no");
}

#[test]
fn player_error_messages() {
    assert_eq!(PlayerError::Init("no lib".into()).message(), "mpv init failed: no lib");
    assert_eq!(PlayerError::Disconnected.message(), "player thread is gone");
}

#[test]
fn negative_ids_pass_through_the_window() {
    // remote tracks carry ids from a negative range; the window keeps them as they are
    let mut w = GaplessWindow::new();
    w.load(-7);
    assert_eq!(w.current(), Some(-7));
    assert!(w.wants_next(-8));
    w.stage(-8);
    let end = w.on_eof();
    assert_eq!(end.finished, Some(-7));
    assert!(!end.stopped);
    assert_eq!(w.on_start_file(1), Some(-8));
    let end = w.on_eof();
    assert_eq!(end.finished, Some(-8));
    assert!(end.stopped);
    assert!(w.is_empty());
}

#[test]
fn transport_steps() {
    let idle = Transport {
        status: PlaybackStatus::Stopped,
        track_id: None,
        position_ms: 0,
        duration_ms: 0,
    };
    let (t, change) = transport_step(idle, TransportEvent::Loaded { track_id: 4 });
    assert_eq!(change, Some(Some(4)));
    assert_eq!((t.status, t.track_id, t.position_ms), (PlaybackStatus::Playing, Some(4), 0));
    let (t, change) = transport_step(t, TransportEvent::Duration { duration_ms: 9_000 });
    assert_eq!((change, t.duration_ms), (None, 9_000));
    let (t, change) = transport_step(t, TransportEvent::Advanced { track_id: -2 });
    assert_eq!((change, t.track_id, t.duration_ms), (Some(Some(-2)), Some(-2), 9_000));
    let (p, _) = transport_step(t, TransportEvent::LoadedPaused { track_id: 5, position_ms: 700 });
    assert_eq!((p.status, p.position_ms), (PlaybackStatus::Paused, 700));
    let (e, change) = transport_step(p, TransportEvent::RanOut);
    assert_eq!((change, e.status, e.track_id, e.position_ms), (None, PlaybackStatus::Stopped, None, 0));
    let (f, _) = transport_step(p, TransportEvent::Failed);
    assert_eq!((f.track_id, f.position_ms), (None, 700));
    let (s, change) = transport_step(p, TransportEvent::Stopped);
    assert_eq!(change, Some(None));
    assert_eq!(s, idle);
}
