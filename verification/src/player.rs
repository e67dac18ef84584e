//! The decisions of the playback engine. mpv's internal playlist is used as
//! a two-slot sliding window, index 0 the current track and index 1 the
//! prefetched next one; this module keeps the track ids that mirror it and
//! decides, for each command and each mpv event, what changes. The thread
//! that owns mpv performs the calls and reports the events.
use vstd::prelude::*;

use crate::models::{AudioDevice, PlaybackStatus, ReplayGainMode};
use crate::text::{chars_of, find_in, needle, push_str, string_of, substring};

verus! {

// ---------------------------------------------------------------- the window

/// `[current]` or `[current, next]` as a sequence of ids.
pub open spec fn window_ok(w: Seq<i64>) -> bool {
    w.len() <= 2
}

/// The first `k` ids of `w` (`Vec::truncate`).
pub open spec fn truncated(w: Seq<i64>, k: int) -> Seq<i64> {
    if w.len() <= k {
        w
    } else {
        w.subrange(0, k)
    }
}

/// Whether `track_id` is already current or already staged.
pub open spec fn holds(w: Seq<i64>, track_id: i64) -> bool {
    (w.len() > 0 && w[0] == track_id) || (w.len() > 1 && w[1] == track_id)
}

/// After `loadfile .. replace`: the track alone.
pub open spec fn after_load(track_id: i64) -> Seq<i64> {
    seq![track_id]
}

/// After staging a next track: the current one (if any), then the new one.
pub open spec fn after_stage(w: Seq<i64>, track_id: i64) -> Seq<i64> {
    truncated(w, 1).push(track_id)
}

/// After dropping the staged next track.
pub open spec fn after_clear_next(w: Seq<i64>) -> Seq<i64> {
    truncated(w, 1)
}

/// Whether a `StartFile` at `playlist_pos` is mpv moving on into the
/// prefetched entry.
pub open spec fn advances(w: Seq<i64>, playlist_pos: i64) -> bool {
    playlist_pos > 0 && w.len() > 1
}

/// After a gapless advance: the finished track leaves the window.
pub open spec fn after_advance(w: Seq<i64>, playlist_pos: i64) -> Seq<i64> {
    if advances(w, playlist_pos) {
        w.drop_first()
    } else {
        w
    }
}

/// After a natural end of file: playback stops unless a next track was
/// prefetched (mpv then starts it at once).
pub open spec fn after_eof(w: Seq<i64>) -> Seq<i64> {
    if w.len() <= 1 {
        Seq::empty()
    } else {
        w
    }
}

/// The ids mirroring mpv's playlist.
pub struct GaplessWindow {
    ids: Vec<i64>,
}

/// What a natural end of file means for the rest of the engine.
#[derive(Debug, Clone, Copy, PartialEq, Eq, Structural)]
pub struct EofOutcome {
    /// The entry that finished, to be reported as ended.
    pub finished: Option<i64>,
    /// Whether playback stopped (nothing was prefetched).
    pub stopped: bool,
}

impl View for GaplessWindow {
    type V = Seq<i64>;

    closed spec fn view(&self) -> Seq<i64> {
        self.ids@
    }
}

impl GaplessWindow {
    pub open spec fn wf(&self) -> bool {
        window_ok(self@)
    }

    /// Nothing loaded.
    pub fn new() -> (w: GaplessWindow)
        ensures
            w@ == Seq::<i64>::empty(),
            w.wf(),
    {
        GaplessWindow { ids: Vec::new() }
    }

    pub fn len(&self) -> (n: usize)
        ensures
            n == self@.len(),
    {
        self.ids.len()
    }

    pub fn is_empty(&self) -> (b: bool)
        ensures
            b == (self@.len() == 0),
    {
        self.ids.len() == 0
    }

    /// The track playing now.
    pub fn current(&self) -> (r: Option<i64>)
        ensures
            r == if self@.len() > 0 {
                Some(self@[0])
            } else {
                None
            },
    {
        if self.ids.len() > 0 {
            Some(self.ids[0])
        } else {
            None
        }
    }

    /// A track was loaded, replacing everything (`Load`, `LoadAt`).
    pub fn load(&mut self, track_id: i64)
        ensures
            final(self)@ == after_load(track_id),
            final(self).wf(),
    {
        let mut v: Vec<i64> = Vec::new();
        v.push(track_id);
        self.ids = v;
        assert(self.ids@ =~= after_load(track_id));
    }

    /// Whether a `SetNext` for `track_id` has work to do: not when the track
    /// is already current or already staged.
    pub fn wants_next(&self, track_id: i64) -> (b: bool)
        ensures
            b == !holds(self@, track_id),
    {
        let n = self.ids.len();
        !((n > 0 && self.ids[0] == track_id) || (n > 1 && self.ids[1] == track_id))
    }

    fn truncate_to_one(&mut self)
        ensures
            final(self)@ == truncated(old(self)@, 1),
    {
        if self.ids.len() > 1 {
            let first = self.ids[0];
            let mut v: Vec<i64> = Vec::new();
            v.push(first);
            self.ids = v;
            assert(self.ids@ =~= old(self)@.subrange(0, 1));
        }
    }

    /// mpv accepted the staged next track.
    pub fn stage(&mut self, track_id: i64)
        ensures
            final(self)@ == after_stage(old(self)@, track_id),
            final(self).wf(),
    {
        self.truncate_to_one();
        self.ids.push(track_id);
    }

    /// mpv dropped the staged next track.
    pub fn clear_next(&mut self)
        requires
            old(self).wf(),
        ensures
            final(self)@ == after_clear_next(old(self)@),
            final(self).wf(),
    {
        self.truncate_to_one();
    }

    /// Playback was stopped, or ended with an error.
    pub fn clear(&mut self)
        ensures
            final(self)@ == Seq::<i64>::empty(),
            final(self).wf(),
    {
        self.ids = Vec::new();
    }

    /// mpv started a file at `playlist_pos`; on a gapless advance the
    /// finished track leaves and the new current one is returned.
    pub fn on_start_file(&mut self, playlist_pos: i64) -> (r: Option<i64>)
        requires
            old(self).wf(),
        ensures
            final(self)@ == after_advance(old(self)@, playlist_pos),
            final(self).wf(),
            r == if advances(old(self)@, playlist_pos) {
                Some(old(self)@[1])
            } else {
                None
            },
    {
        if playlist_pos > 0 && self.ids.len() > 1 {
            let next = self.ids[1];
            let mut v: Vec<i64> = Vec::new();
            v.push(next);
            self.ids = v;
            assert(self.ids@ =~= old(self)@.drop_first());
            Some(next)
        } else {
            None
        }
    }

    /// mpv reached the natural end of the current file.
    pub fn on_eof(&mut self) -> (r: EofOutcome)
        requires
            old(self).wf(),
        ensures
            final(self)@ == after_eof(old(self)@),
            final(self).wf(),
            r.finished == if old(self)@.len() > 0 {
                Some(old(self)@[0])
            } else {
                None
            },
            r.stopped == (old(self)@.len() <= 1),
    {
        let finished = self.current();
        if self.ids.len() <= 1 {
            self.ids = Vec::new();
            EofOutcome { finished, stopped: true }
        } else {
            EofOutcome { finished, stopped: false }
        }
    }
}

/// A `SetNext` that mpv accepted: nothing changes when the track is
/// already current or staged, else it becomes the staged one.
pub open spec fn after_set_next(w: Seq<i64>, track_id: i64) -> Seq<i64> {
    if holds(w, track_id) {
        w
    } else {
        after_stage(w, track_id)
    }
}

/// The window never holds more than a current and a next track; asking
/// for the same next track twice changes nothing the second time; dropping
/// a freshly staged track restores the window; and a gapless advance makes
/// the staged track the current one.
pub proof fn law_gapless_window(w: Seq<i64>, id: i64, pos: i64)
    requires
        window_ok(w),
    ensures
        window_ok(after_load(id)),
        window_ok(after_set_next(w, id)),
        window_ok(after_clear_next(w)),
        window_ok(after_advance(w, pos)),
        window_ok(after_eof(w)),
        after_load(id) == seq![id],
        holds(after_set_next(w, id), id),
        after_set_next(after_set_next(w, id), id) == after_set_next(w, id),
        w.len() > 0 && !holds(w, id) ==> after_clear_next(after_set_next(w, id)) == after_clear_next(w),
        w.len() > 0 && !holds(w, id) && pos > 0 ==> after_advance(after_set_next(w, id), pos) == seq![id],
{
    if w.len() > 0 && !holds(w, id) {
        assert(after_clear_next(after_set_next(w, id)) =~= after_clear_next(w));
        if pos > 0 {
            assert(after_advance(after_set_next(w, id), pos) =~= seq![id]);
        }
    }
}

/// The mpv playlist indices to remove, last first, so that only the
/// current entry (index 0) remains of `count` entries.
pub open spec fn drop_order(count: i64) -> Seq<i64> {
    if count <= 1 {
        Seq::empty()
    } else {
        Seq::new((count - 1) as nat, |k: int| (count - 1 - k) as i64)
    }
}

pub fn next_entry_indices(count: i64) -> (r: Vec<i64>)
    ensures
        r@ == drop_order(count),
{
    let mut v: Vec<i64> = Vec::new();
    if count <= 1 {
        assert(v@ =~= drop_order(count));
        return v;
    }
    let mut idx: i64 = count - 1;
    while idx >= 1
        invariant
            0 <= idx <= count - 1,
            count > 1,
            v@ =~= Seq::new((count - 1 - idx) as nat, |k: int| (count - 1 - k) as i64),
        decreases idx,
    {
        v.push(idx);
        idx = idx - 1;
    }
    v
}

// ---------------------------------------------------------------- status

/// How the player state changes with each decision.
pub open spec fn status_after_pause_flag(paused: bool) -> PlaybackStatus {
    if paused {
        PlaybackStatus::Paused
    } else {
        PlaybackStatus::Playing
    }
}

/// mpv's `pause` property changed; it only matters while something is
/// loaded.
pub fn status_for_pause(window: &GaplessWindow, paused: bool) -> (r: Option<PlaybackStatus>)
    ensures
        r == if window@.len() > 0 {
            Some(status_after_pause_flag(paused))
        } else {
            None
        },
{
    if window.is_empty() {
        None
    } else if paused {
        Some(PlaybackStatus::Paused)
    } else {
        Some(PlaybackStatus::Playing)
    }
}

// ---------------------------------------------------------------- transport

/// The part of the player state that the transport decides: what plays,
/// whether it plays, where in the track, and how long the track is.
#[derive(Debug, Clone, Copy, PartialEq, Eq, Structural)]
pub struct Transport {
    pub status: PlaybackStatus,
    pub track_id: Option<i64>,
    pub position_ms: u64,
    pub duration_ms: u64,
}

/// What happened to the transport: a command mpv accepted, or an mpv event.
#[derive(Debug, Clone, Copy, PartialEq, Eq, Structural)]
pub enum TransportEvent {
    /// `Load`: the track was loaded and set playing.
    Loaded { track_id: i64 },
    /// `LoadAt`: the track was loaded paused at a position.
    LoadedPaused { track_id: i64, position_ms: u64 },
    /// `Stop` (whatever mpv answered).
    Stopped,
    /// A gapless advance into the staged track.
    Advanced { track_id: i64 },
    /// A natural end of file with nothing staged behind it.
    RanOut,
    /// Playback ended with an error.
    Failed,
    /// mpv reported the track's duration.
    Duration { duration_ms: u64 },
}

/// The transport after an event.
pub open spec fn transport_after(t: Transport, e: TransportEvent) -> Transport {
    match e {
        TransportEvent::Loaded { track_id } => Transport {
            status: PlaybackStatus::Playing,
            track_id: Some(track_id),
            position_ms: 0,
            ..t
        },
        TransportEvent::LoadedPaused { track_id, position_ms } => Transport {
            status: PlaybackStatus::Paused,
            track_id: Some(track_id),
            position_ms,
            ..t
        },
        TransportEvent::Stopped => Transport {
            status: PlaybackStatus::Stopped,
            track_id: None,
            position_ms: 0,
            duration_ms: 0,
        },
        TransportEvent::Advanced { track_id } => Transport {
            status: PlaybackStatus::Playing,
            track_id: Some(track_id),
            position_ms: 0,
            ..t
        },
        TransportEvent::RanOut => Transport {
            status: PlaybackStatus::Stopped,
            track_id: None,
            position_ms: 0,
            ..t
        },
        TransportEvent::Failed => Transport { status: PlaybackStatus::Stopped, track_id: None, ..t },
        TransportEvent::Duration { duration_ms } => Transport { duration_ms, ..t },
    }
}

/// The `TrackChanged` announcement an event makes, if any (`Some(None)`
/// announces that nothing plays).
pub open spec fn track_change_of(e: TransportEvent) -> Option<Option<i64>> {
    match e {
        TransportEvent::Loaded { track_id } => Some(Some(track_id)),
        TransportEvent::LoadedPaused { track_id, .. } => Some(Some(track_id)),
        TransportEvent::Stopped => Some(None),
        TransportEvent::Advanced { track_id } => Some(Some(track_id)),
        _ => None,
    }
}

/// One step of the transport: the new state (published as a state
/// snapshot) and the track change to announce first, if any.
pub fn transport_step(t: Transport, e: TransportEvent) -> (r: (Transport, Option<Option<i64>>))
    ensures
        r.0 == transport_after(t, e),
        r.1 == track_change_of(e),
{
    match e {
        TransportEvent::Loaded { track_id } => (
            Transport { status: PlaybackStatus::Playing, track_id: Some(track_id), position_ms: 0, ..t },
            Some(Some(track_id)),
        ),
        TransportEvent::LoadedPaused { track_id, position_ms } => (
            Transport { status: PlaybackStatus::Paused, track_id: Some(track_id), position_ms, ..t },
            Some(Some(track_id)),
        ),
        TransportEvent::Stopped => (
            Transport { status: PlaybackStatus::Stopped, track_id: None, position_ms: 0, duration_ms: 0 },
            Some(None),
        ),
        TransportEvent::Advanced { track_id } => (
            Transport { status: PlaybackStatus::Playing, track_id: Some(track_id), position_ms: 0, ..t },
            Some(Some(track_id)),
        ),
        TransportEvent::RanOut => (
            Transport { status: PlaybackStatus::Stopped, track_id: None, position_ms: 0, ..t },
            None,
        ),
        TransportEvent::Failed => (Transport { status: PlaybackStatus::Stopped, track_id: None, ..t }, None),
        TransportEvent::Duration { duration_ms } => (Transport { duration_ms, ..t }, None),
    }
}

/// The transport and the window agree: a track is announced as playing
/// exactly while the window holds it as current. Every step that empties
/// or fills the window, taken together with the matching transport event,
/// keeps that agreement.
pub proof fn law_transport_follows_window(t: Transport, w: Seq<i64>, id: i64)
    ensures
        transport_after(t, TransportEvent::Loaded { track_id: id }).track_id == (if after_load(id).len() > 0 {
            Some(after_load(id)[0])
        } else {
            None
        }),
        transport_after(t, TransportEvent::Stopped).track_id is None && transport_after(
            t,
            TransportEvent::Stopped,
        ).status == PlaybackStatus::Stopped,
        window_ok(w) && advances(w, 1) ==> transport_after(
            t,
            TransportEvent::Advanced { track_id: w[1] },
        ).track_id == Some(after_advance(w, 1)[0]),
        window_ok(w) && w.len() <= 1 ==> after_eof(w).len() == 0 && transport_after(
            t,
            TransportEvent::RanOut,
        ).track_id is None,
{
}

/// Bit-perfect output: the source rate reaches the output untouched, at
/// full volume and with no ReplayGain processing.
pub open spec fn bit_perfect_spec(
    source_rate: Option<i64>,
    output_rate: Option<i64>,
    full_volume: bool,
    replaygain: ReplayGainMode,
) -> bool {
    source_rate is Some && output_rate is Some && source_rate->0 == output_rate->0 && full_volume
        && replaygain == ReplayGainMode::Off
}

pub fn is_bit_perfect(
    source_rate: Option<i64>,
    output_rate: Option<i64>,
    full_volume: bool,
    replaygain: ReplayGainMode,
) -> (b: bool)
    ensures
        b == bit_perfect_spec(source_rate, output_rate, full_volume, replaygain),
{
    let same = match (source_rate, output_rate) {
        (Some(a), Some(b)) => a == b,
        _ => false,
    };
    same && full_volume && replaygain == ReplayGainMode::Off
}

/// A sample rate property, when it fits a `u32`.
pub fn rate_hz(v: Option<i64>) -> (r: Option<u32>)
    ensures
        r == match v {
            Some(x) => if 0 <= x <= u32::MAX {
                Some(x as u32)
            } else {
                None
            },
            None => None,
        },
{
    match v {
        Some(x) => if 0 <= x && x <= 4294967295i64 {
            Some(x as u32)
        } else {
            None
        },
        None => None,
    }
}

/// The value of mpv's `audio-exclusive` property.
pub fn exclusive_value(exclusive: bool) -> (s: &'static str)
    ensures
        s@ == if exclusive {
            "yes"@
        } else {
            "no"@
        },
{
    if exclusive {
        "yes"
    } else {
        "no"
    }
}

// ---------------------------------------------------------------- devices

/// The backend of an mpv device name: what precedes its first `/`, or the
/// whole name when it has none.
pub open spec fn backend_of(name: Seq<char>) -> Seq<char> {
    match crate::text::find(name, seq!['/']) {
        Some(k) => name.subrange(0, k),
        None => name,
    }
}

/// One entry of mpv's `audio-device-list`: the name is the id, the
/// description (or else the name) is shown to the user.
pub fn audio_device(name: String, description: Option<String>) -> (d: AudioDevice)
    ensures
        d.id@ == name@,
        d.name@ == match description {
            Some(t) => t@,
            None => name@,
        },
        d.backend@ == backend_of(name@),
{
    let cs = chars_of(name.as_str());
    let slash = needle("/");
    proof {
        reveal_strlit("/");
        assert(slash@ =~= seq!['/']);
        assert(cs@.subrange(0, cs@.len() as int) =~= cs@);
    }
    let backend = match find_in(&cs, 0, cs.len(), &slash) {
        Some(k) => {
            proof {
                crate::text::lemma_find_from_bounds(cs@, seq!['/'], 0);
            }
            substring(&cs, 0, k)
        },
        None => substring(&cs, 0, cs.len()),
    };
    let shown = match description {
        Some(t) => t,
        None => name.clone(),
    };
    AudioDevice { id: name, name: shown, backend }
}

// ---------------------------------------------------------------- errors

#[derive(Debug, Clone, PartialEq, Eq)]
pub enum PlayerError {
    Init(String),
    Disconnected,
}

impl PlayerError {
    pub open spec fn text(&self) -> Seq<char> {
        match self {
            PlayerError::Init(m) => "mpv init failed: "@ + m@,
            PlayerError::Disconnected => "player thread is gone"@,
        }
    }

    pub fn message(&self) -> (s: String)
        ensures
            s@ == self.text(),
    {
        let mut out: Vec<char> = Vec::new();
        match self {
            PlayerError::Init(m) => {
                push_str(&mut out, "mpv init failed: ");
                push_str(&mut out, m.as_str());
            },
            PlayerError::Disconnected => {
                push_str(&mut out, "player thread is gone");
            },
        }
        string_of(out.as_slice())
    }
}

} // verus!
