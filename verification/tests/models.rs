use signal::models::{
    AppConfig, EventKind, MediaSource, PlaySource, PlaybackSource, ReplayGainMode,
    RemoteTrackRef, SignalError,
};

#[test]
fn mpv_target_is_the_raw_string_either_way() {
    assert_eq!(
        MediaSource::File("/music/a b.flac".to_owned()).as_mpv_target(),
        "/music/a b.flac"
    );
    assert_eq!(
        MediaSource::Url("http://nas:4533/rest/stream?id=7".to_owned()).as_mpv_target(),
        "http://nas:4533/rest/stream?id=7"
    );
}

#[test]
fn playback_source_only_yields_a_track_id_when_local() {
    assert_eq!(
        PlaybackSource::Local { track_id: 7 }.local_track_id(),
        Some(7)
    );
    let remote = PlaybackSource::from(RemoteTrackRef {
        source_id: 2,
        remote_id: "abc".to_owned(),
    });
    assert_eq!(remote.local_track_id(), None);
}

#[test]
fn remote_sources_are_remote() {
    assert!(MediaSource::Url("http://x".to_owned()).is_remote());
    assert!(!MediaSource::File("/x.flac".to_owned()).is_remote());
    let remote = PlaybackSource::from(RemoteTrackRef {
        source_id: 2,
        remote_id: "abc".to_owned(),
    });
    assert_eq!(
        remote,
        PlaybackSource::Remote {
            source_id: 2,
            remote_id: "abc".to_owned()
        }
    );
}

#[test]
fn db_path_lives_in_data_dir() {
    let c = AppConfig::new("/data".to_owned(), "/cache".to_owned());
    assert_eq!(c.db_path, "/data/signal.db");
    assert_eq!(c.data_dir, "/data");
    assert_eq!(c.cache_dir, "/cache");
    let c = AppConfig::new("/data/".to_owned(), "/cache".to_owned());
    assert_eq!(c.db_path, "/data/signal.db");
    let c = AppConfig::new(String::new(), String::new());
    assert_eq!(c.db_path, "signal.db");
}

#[test]
fn error_messages() {
    assert_eq!(SignalError::Db("locked".into()).message(), "database error: locked");
    assert_eq!(
        SignalError::InvalidQuery { reason: "bad".into() }.message(),
        "invalid query: bad"
    );
    assert_eq!(
        SignalError::Remote("timeout".into()).message(),
        "remote server error: timeout"
    );
    assert_eq!(SignalError::Io("gone".into()).message(), "io error: gone");
}

#[test]
fn replaygain_and_play_source_names() {
    assert_eq!(ReplayGainMode::Off.mpv_value(), "no");
    assert_eq!(ReplayGainMode::Track.mpv_value(), "track");
    assert_eq!(ReplayGainMode::Album.mpv_value(), "album");
    assert_eq!(PlaySource::Queue.as_str(), "queue");
    assert_eq!(PlaySource::Remote.as_str(), "remote");
}

#[test]
fn channel_names_match_ipc_spec() {
    assert_eq!(EventKind::PlayerProgress.channel(), "player:progress");
    assert_eq!(EventKind::TrackChanged.channel(), "player:track-changed");
    assert_eq!(EventKind::QueueChanged.channel(), "queue:changed");
}
