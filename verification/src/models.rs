//! Shared domain types: where audio comes from, devices and playback
//! settings, configuration, and the top-level error.
use vstd::prelude::*;

use crate::paths::{join_path, joined};
use crate::text::{push_str, string_of};

verus! {

// ---------------------------------------------------------------- sources

/// What to hand mpv: a scanned file or a remote stream. mpv treats a path
/// and a URL alike, so nothing below this type needs to branch.
#[derive(Debug, Clone, PartialEq, Eq)]
pub enum MediaSource {
    File(String),
    Url(String),
}

impl MediaSource {
    /// The text inside either variant.
    pub open spec fn target(&self) -> Seq<char> {
        match self {
            MediaSource::File(p) => p@,
            MediaSource::Url(u) => u@,
        }
    }

    /// The string mpv actually receives: the path or URL, unchanged.
    pub fn as_mpv_target(&self) -> (s: &str)
        ensures
            s@ == self.target(),
    {
        match self {
            MediaSource::File(p) => p.as_str(),
            MediaSource::Url(u) => u.as_str(),
        }
    }

    pub fn is_remote(&self) -> (b: bool)
        ensures
            b == (self is Url),
    {
        match self {
            MediaSource::Url(_) => true,
            MediaSource::File(_) => false,
        }
    }
}

/// A track on a remote server: an opaque id, scoped by the source that
/// issued it.
#[derive(Debug, Clone, PartialEq, Eq)]
pub struct RemoteTrackRef {
    /// `remote_sources.id`.
    pub source_id: i64,
    pub remote_id: String,
}

/// Which library a queue entry or play request refers to. Remote entries
/// carry no `tracks.id`: they have no row in `tracks`.
#[derive(Debug, Clone, PartialEq, Eq)]
pub enum PlaybackSource {
    Local { track_id: i64 },
    Remote { source_id: i64, remote_id: String },
}

impl PlaybackSource {
    /// `Some` only for local tracks: the id that history, ratings and
    /// analysis are keyed on.
    pub fn local_track_id(&self) -> (r: Option<i64>)
        ensures
            match self {
                PlaybackSource::Local { track_id } => r == Some(*track_id),
                PlaybackSource::Remote { .. } => r is None,
            },
    {
        match self {
            PlaybackSource::Local { track_id } => Some(*track_id),
            PlaybackSource::Remote { .. } => None,
        }
    }
}

impl From<RemoteTrackRef> for PlaybackSource {
    fn from(r: RemoteTrackRef) -> (s: Self) {
        PlaybackSource::Remote { source_id: r.source_id, remote_id: r.remote_id }
    }
}

impl vstd::std_specs::convert::FromSpecImpl<RemoteTrackRef> for PlaybackSource {
    open spec fn obeys_from_spec() -> bool {
        true
    }

    open spec fn from_spec(r: RemoteTrackRef) -> Self {
        PlaybackSource::Remote { source_id: r.source_id, remote_id: r.remote_id }
    }
}

/// A source built from a remote track reference never yields a local id.
pub proof fn law_remote_has_no_local_id(r: RemoteTrackRef)
    ensures
        <PlaybackSource as vstd::std_specs::convert::FromSpec<RemoteTrackRef>>::from_spec(r) is Remote,
{
}

// ---------------------------------------------------------------- devices

/// An audio output as mpv lists it.
#[derive(Debug, Clone, PartialEq, Eq)]
pub struct AudioDevice {
    pub id: String,
    pub name: String,
    pub backend: String,
}

#[derive(Debug, Clone, Copy, PartialEq, Eq, Structural)]
pub enum PlaybackStatus {
    Stopped,
    Playing,
    Paused,
}

#[derive(Debug, Clone, Copy, PartialEq, Eq, Structural)]
pub enum ReplayGainMode {
    Off,
    Track,
    Album,
}

impl ReplayGainMode {
    /// The value of mpv's `replaygain` property for this mode.
    pub open spec fn mpv_name(self) -> Seq<char> {
        match self {
            ReplayGainMode::Off => seq!['n', 'o'],
            ReplayGainMode::Track => seq!['t', 'r', 'a', 'c', 'k'],
            ReplayGainMode::Album => seq!['a', 'l', 'b', 'u', 'm'],
        }
    }

    pub fn mpv_value(self) -> (s: &'static str)
        ensures
            s@ == self.mpv_name(),
    {
        match self {
            ReplayGainMode::Off => {
                proof {
                    reveal_strlit("no");
                }
                "no"
            },
            ReplayGainMode::Track => {
                proof {
                    reveal_strlit("track");
                }
                "track"
            },
            ReplayGainMode::Album => {
                proof {
                    reveal_strlit("album");
                }
                "album"
            },
        }
    }
}

// ---------------------------------------------------------------- playlists and plays

/// One predicate of a stored smart playlist rule.
#[derive(Debug, Clone, PartialEq, Eq)]
pub struct SmartRule {
    pub field: String,
    pub op: SmartOp,
    pub value: String,
}

#[derive(Debug, Clone, Copy, PartialEq, Eq, Structural)]
pub enum SmartOp {
    Eq,
    Ne,
    Gt,
    Gte,
    Lt,
    Lte,
    Contains,
}

/// Where a play was started from.
#[derive(Debug, Clone, Copy, PartialEq, Eq, Structural)]
pub enum PlaySource {
    Queue,
    Playlist,
    Album,
    Search,
    /// Played through the embedded server by a remote client.
    Remote,
}

impl PlaySource {
    /// The name stored in `play_events.source`.
    pub open spec fn label(self) -> Seq<char> {
        match self {
            PlaySource::Queue => seq!['q', 'u', 'e', 'u', 'e'],
            PlaySource::Playlist => seq!['p', 'l', 'a', 'y', 'l', 'i', 's', 't'],
            PlaySource::Album => seq!['a', 'l', 'b', 'u', 'm'],
            PlaySource::Search => seq!['s', 'e', 'a', 'r', 'c', 'h'],
            PlaySource::Remote => seq!['r', 'e', 'm', 'o', 't', 'e'],
        }
    }

    pub fn as_str(self) -> (s: &'static str)
        ensures
            s@ == self.label(),
    {
        match self {
            PlaySource::Queue => {
                proof {
                    reveal_strlit("queue");
                }
                "queue"
            },
            PlaySource::Playlist => {
                proof {
                    reveal_strlit("playlist");
                }
                "playlist"
            },
            PlaySource::Album => {
                proof {
                    reveal_strlit("album");
                }
                "album"
            },
            PlaySource::Search => {
                proof {
                    reveal_strlit("search");
                }
                "search"
            },
            PlaySource::Remote => {
                proof {
                    reveal_strlit("remote");
                }
                "remote"
            },
        }
    }
}

/// Distinct play sources are stored under distinct names.
pub proof fn law_play_source_labels_distinct(a: PlaySource, b: PlaySource)
    ensures
        a.label() == b.label() ==> a == b,
{
    if a.label() == b.label() {
        assert(a.label().len() == b.label().len());
        assert(a.label()[0] == b.label()[0]);
    }
}

/// An album row joined with its artist, for list views.
#[derive(Debug, Clone, PartialEq, Eq)]
pub struct AlbumSummary {
    pub id: i64,
    pub name: String,
    pub artist_id: i64,
    pub artist_name: String,
    pub year: Option<i32>,
    pub artwork_path: Option<String>,
    pub track_count: u32,
}

#[derive(Debug, Clone, PartialEq, Eq)]
pub struct ArtistSummary {
    pub id: i64,
    pub name: String,
    pub album_count: u32,
    pub track_count: u32,
}

// ---------------------------------------------------------------- events

/// The kinds of cross-crate event, each bridged to the frontend on a
/// channel of its own.
#[derive(Debug, Clone, Copy, PartialEq, Eq, Structural)]
pub enum EventKind {
    PlayerState,
    PlayerProgress,
    TrackChanged,
    DeviceChanged,
    ScannerProgress,
    ScannerDone,
    QueueChanged,
    LogLine,
}

impl EventKind {
    pub open spec fn channel_name(self) -> Seq<char> {
        match self {
            EventKind::PlayerState => "player:state"@,
            EventKind::PlayerProgress => "player:progress"@,
            EventKind::TrackChanged => "player:track-changed"@,
            EventKind::DeviceChanged => "player:device-changed"@,
            EventKind::ScannerProgress => "scanner:progress"@,
            EventKind::ScannerDone => "scanner:done"@,
            EventKind::QueueChanged => "queue:changed"@,
            EventKind::LogLine => "log:line"@,
        }
    }

    /// The frontend channel events of this kind are emitted on.
    pub fn channel(self) -> (s: &'static str)
        ensures
            s@ == self.channel_name(),
    {
        match self {
            EventKind::PlayerState => "player:state",
            EventKind::PlayerProgress => "player:progress",
            EventKind::TrackChanged => "player:track-changed",
            EventKind::DeviceChanged => "player:device-changed",
            EventKind::ScannerProgress => "scanner:progress",
            EventKind::ScannerDone => "scanner:done",
            EventKind::QueueChanged => "queue:changed",
            EventKind::LogLine => "log:line",
        }
    }
}

/// Each kind of event has a channel of its own.
pub proof fn law_event_channels_distinct(a: EventKind, b: EventKind)
    ensures
        a.channel_name() == b.channel_name() ==> a == b,
{
    reveal_strlit("player:state");
    reveal_strlit("player:progress");
    reveal_strlit("player:track-changed");
    reveal_strlit("player:device-changed");
    reveal_strlit("scanner:progress");
    reveal_strlit("scanner:done");
    reveal_strlit("queue:changed");
    reveal_strlit("log:line");
    if a.channel_name() == b.channel_name() {
        assert(a.channel_name().len() == b.channel_name().len());
        assert(a.channel_name()[0] == b.channel_name()[0]);
        assert(a.channel_name()[7] == b.channel_name()[7]);
        assert(a.channel_name()[8] == b.channel_name()[8]);
    }
}

// ---------------------------------------------------------------- configuration

/// App-wide filesystem locations, resolved once at startup and passed down.
#[derive(Debug, Clone, PartialEq, Eq)]
pub struct AppConfig {
    pub data_dir: String,
    pub cache_dir: String,
    pub db_path: String,
}

/// The database file's name inside the data directory.
pub open spec fn db_file_name() -> Seq<char> {
    seq!['s', 'i', 'g', 'n', 'a', 'l', '.', 'd', 'b']
}

impl AppConfig {
    /// The database lives at `signal.db` inside the data directory.
    pub fn new(data_dir: String, cache_dir: String) -> (c: AppConfig)
        ensures
            c.data_dir@ == data_dir@,
            c.cache_dir@ == cache_dir@,
            c.db_path@ == joined(data_dir@, db_file_name()),
    {
        proof {
            reveal_strlit("signal.db");
            assert("signal.db"@ =~= db_file_name());
        }
        let db_path = join_path(data_dir.as_str(), "signal.db");
        AppConfig { data_dir, cache_dir, db_path }
    }
}

// ---------------------------------------------------------------- errors

/// The error type that crosses crate and IPC boundaries.
#[derive(Debug, Clone, PartialEq, Eq)]
pub enum SignalError {
    Db(String),
    Player(String),
    Scanner(String),
    Analysis(String),
    Search(String),
    Plugin(String),
    Remote(String),
    InvalidQuery { reason: String },
    Io(String),
}

impl SignalError {
    /// The human-readable text of the error.
    pub open spec fn text(&self) -> Seq<char> {
        match self {
            SignalError::Db(m) => "database error: "@ + m@,
            SignalError::Player(m) => "player error: "@ + m@,
            SignalError::Scanner(m) => "scanner error: "@ + m@,
            SignalError::Analysis(m) => "analysis error: "@ + m@,
            SignalError::Search(m) => "search error: "@ + m@,
            SignalError::Plugin(m) => "plugin error: "@ + m@,
            SignalError::Remote(m) => "remote server error: "@ + m@,
            SignalError::InvalidQuery { reason } => "invalid query: "@ + reason@,
            SignalError::Io(m) => "io error: "@ + m@,
        }
    }

    pub fn message(&self) -> (s: String)
        ensures
            s@ == self.text(),
    {
        let mut out: Vec<char> = Vec::new();
        match self {
            SignalError::Db(m) => {
                push_str(&mut out, "database error: ");
                push_str(&mut out, m.as_str());
            },
            SignalError::Player(m) => {
                push_str(&mut out, "player error: ");
                push_str(&mut out, m.as_str());
            },
            SignalError::Scanner(m) => {
                push_str(&mut out, "scanner error: ");
                push_str(&mut out, m.as_str());
            },
            SignalError::Analysis(m) => {
                push_str(&mut out, "analysis error: ");
                push_str(&mut out, m.as_str());
            },
            SignalError::Search(m) => {
                push_str(&mut out, "search error: ");
                push_str(&mut out, m.as_str());
            },
            SignalError::Plugin(m) => {
                push_str(&mut out, "plugin error: ");
                push_str(&mut out, m.as_str());
            },
            SignalError::Remote(m) => {
                push_str(&mut out, "remote server error: ");
                push_str(&mut out, m.as_str());
            },
            SignalError::InvalidQuery { reason } => {
                push_str(&mut out, "invalid query: ");
                push_str(&mut out, reason.as_str());
            },
            SignalError::Io(m) => {
                push_str(&mut out, "io error: ");
                push_str(&mut out, m.as_str());
            },
        }
        string_of(out.as_slice())
    }
}

} // verus!
