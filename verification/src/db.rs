//! Database-side values: how stored integers become domain integers, the
//! rows the repositories hand out, and the arithmetic behind the stats and
//! health views.
use vstd::prelude::*;

use chrono::Datelike;

use crate::tags::{named_pieces, string_views};
use crate::text::{
    chars_of, int_text, parse_i64, parse_i64_spec, push_i64, push_str, string_of, substring, trim_bounds,
};

verus! {

// ---------------------------------------------------------------- conversions

/// `u32::try_from(v).unwrap_or_default()`.
pub open spec fn u32_or_zero(v: i64) -> u32 {
    if 0 <= v <= u32::MAX {
        v as u32
    } else {
        0
    }
}

/// `u64::try_from(v).unwrap_or_default()`.
pub open spec fn u64_or_zero(v: i64) -> u64 {
    if 0 <= v {
        v as u64
    } else {
        0
    }
}

/// `u8::try_from(v).unwrap_or_default()`.
pub open spec fn u8_or_zero(v: i64) -> u8 {
    if 0 <= v <= u8::MAX {
        v as u8
    } else {
        0
    }
}

/// A stored INTEGER as a `u32`; out-of-range values become 0 rather than
/// failing a whole list query.
pub fn to_u32(v: i64) -> (r: u32)
    ensures
        r == u32_or_zero(v),
{
    if 0 <= v && v <= 4294967295i64 {
        v as u32
    } else {
        0
    }
}

/// A stored INTEGER as a `u64`; negative values become 0.
pub fn to_u64(v: i64) -> (r: u64)
    ensures
        r == u64_or_zero(v),
{
    if 0 <= v {
        v as u64
    } else {
        0
    }
}

/// A stored INTEGER as a `u8`; out-of-range values become 0.
pub fn to_u8(v: i64) -> (r: u8)
    ensures
        r == u8_or_zero(v),
{
    if 0 <= v && v <= 255i64 {
        v as u8
    } else {
        0
    }
}

/// Every value that fits comes through unchanged, everything else reads as
/// 0, and a narrower conversion never gives more than a wider one.
pub proof fn law_conversions_keep_what_fits(v: i64)
    ensures
        0 <= v <= u32::MAX ==> u32_or_zero(v) == v,
        0 <= v ==> u64_or_zero(v) == v,
        0 <= v <= u8::MAX ==> u8_or_zero(v) == v,
        v < 0 ==> u32_or_zero(v) == 0 && u64_or_zero(v) == 0 && u8_or_zero(v) == 0,
        u8_or_zero(v) <= u32_or_zero(v) <= u64_or_zero(v),
{
}

// ---------------------------------------------------------------- rows

/// A lossless track queued for spectral analysis, artist pre-joined.
#[derive(Debug, Clone)]
pub struct AnalysisCandidate {
    pub track_id: i64,
    pub title: String,
    pub artist_name: String,
    pub file_path: String,
    pub bit_depth: Option<u8>,
    pub sample_rate_hz: u32,
    pub duration_ms: u64,
}

#[derive(Debug, Clone)]
pub struct AnalysisSummary {
    pub analyzed_total: u32,
    pub clean: u32,
    pub upsampled: u32,
    pub transcode: u32,
    pub padded_bits: u32,
    pub unreadable: u32,
    pub last_run_at: Option<String>,
}

#[derive(Debug, Clone)]
pub struct TrackRef {
    pub id: i64,
    pub title: String,
    pub artist_name: String,
    pub album_id: i64,
    pub detail: String,
}

#[derive(Debug, Clone)]
pub struct DupGroup {
    pub title: String,
    pub artist_name: String,
    pub count: u32,
    pub track_ids: Vec<i64>,
}

#[derive(Debug, Clone)]
pub struct AlbumRef {
    pub id: i64,
    pub name: String,
    pub artist_name: String,
}

#[derive(Debug, Clone)]
pub struct HealthReport {
    pub total_tracks: u32,
    pub lossless_pct: u32,
    /// 0-100, lowered by each problem class.
    pub score: u32,
    pub missing_files: Vec<TrackRef>,
    pub missing_files_total: u32,
    pub duplicates: Vec<DupGroup>,
    pub duplicates_total: u32,
    pub albums_without_art: Vec<AlbumRef>,
    pub albums_without_art_total: u32,
    pub tracks_without_year: u32,
    pub tracks_without_genre: u32,
    pub low_bitrate: Vec<TrackRef>,
    pub low_bitrate_total: u32,
}

#[derive(Debug, Clone)]
pub struct PlaylistSummary {
    pub id: i64,
    pub name: String,
    pub track_count: u32,
    /// True for rule-based (smart) playlists.
    pub smart: bool,
}

/// A configured remote server. The password is not part of it: it is read
/// only when a client is built, so listing sources cannot leak it.
#[derive(Debug, Clone)]
pub struct RemoteSource {
    pub id: i64,
    pub name: String,
    pub base_url: String,
    pub username: String,
    pub auth_mode: String,
    pub allow_insecure_tls: bool,
    pub enabled: bool,
    pub last_ping_at: Option<String>,
    pub last_ping_ok: Option<bool>,
}

/// Everything needed to build a client, password included.
#[derive(Debug, Clone)]
pub struct RemoteCredentials {
    pub base_url: String,
    pub username: String,
    pub password: String,
    pub auth_mode: String,
    pub allow_insecure_tls: bool,
}

/// Fields a caller may change; `None` leaves the stored value alone.
#[derive(Debug, Clone, Default)]
pub struct RemoteSourcePatch {
    pub name: Option<String>,
    pub base_url: Option<String>,
    pub username: Option<String>,
    pub password: Option<String>,
    pub auth_mode: Option<String>,
    pub allow_insecure_tls: Option<bool>,
    pub enabled: Option<bool>,
}

#[derive(Debug, Clone)]
pub struct DayCount {
    pub day: String,
    pub plays: u32,
}

#[derive(Debug, Clone)]
pub struct NameCount {
    pub name: String,
    pub count: u32,
}

#[derive(Debug, Clone)]
pub struct AlbumPlayCount {
    pub album_id: i64,
    pub name: String,
    pub artist_name: String,
    pub plays: u32,
}

#[derive(Debug, Clone)]
pub struct TrackPlayCount {
    pub track_id: i64,
    pub album_id: i64,
    pub title: String,
    pub artist_name: String,
    pub plays: u32,
    pub favorite: bool,
    pub rating: u32,
}

/// Library shape, independent of listening history.
#[derive(Debug, Clone)]
pub struct LibrarySummary {
    pub tracks: u32,
    pub albums: u32,
    pub artists: u32,
    pub total_ms: u64,
    pub lossless_pct: u32,
    pub favorites: u32,
    pub liked: u32,
}

#[derive(Debug, Clone)]
pub struct StatsOverview {
    pub total_plays: u32,
    pub total_ms_played: u64,
    pub distinct_tracks: u32,
    pub heatmap: Vec<DayCount>,
    pub top_artists: Vec<NameCount>,
    pub top_codecs: Vec<NameCount>,
    pub top_albums: Vec<AlbumPlayCount>,
    pub top_tracks: Vec<TrackPlayCount>,
    /// Plays per hour of day, index 0-23.
    pub hourly: Vec<u32>,
    /// Plays per weekday, index 0 = Sunday.
    pub weekday: Vec<u32>,
    pub library: LibrarySummary,
    /// Consecutive days with at least one play, ending today or yesterday.
    pub streak_current: u32,
    pub streak_best: u32,
}

/// A full-form metadata edit. `genre: None` leaves genres untouched,
/// `Some("")` clears them.
#[derive(Debug, Clone)]
pub struct TrackMetadataUpdate {
    pub title: String,
    pub artist_name: String,
    pub album_name: String,
    pub year: Option<i64>,
    pub track_no: Option<i64>,
    pub disc_no: Option<i64>,
    pub genre: Option<String>,
}

// ---------------------------------------------------------------- stats

/// Share of lossless tracks in percent, rounded down; 0 for an empty
/// library, and 0 where the quotient would not fit a `u32`.
pub open spec fn lossless_percent(lossless: u32, tracks: u32) -> u32 {
    if tracks == 0 {
        0
    } else if (lossless as int) * 100 / (tracks as int) <= u32::MAX {
        ((lossless as int) * 100 / (tracks as int)) as u32
    } else {
        0
    }
}

pub fn lossless_pct(lossless: u32, tracks: u32) -> (r: u32)
    ensures
        r == lossless_percent(lossless, tracks),
{
    if tracks == 0 {
        return 0;
    }
    let q: u64 = (lossless as u64) * 100 / (tracks as u64);
    if q <= 4294967295u64 {
        q as u32
    } else {
        0
    }
}

/// A share never exceeds 100 % when the part is no larger than the whole.
pub proof fn law_lossless_percent_bounded(lossless: u32, tracks: u32)
    requires
        lossless <= tracks,
    ensures
        lossless_percent(lossless, tracks) <= 100,
{
    if tracks > 0 {
        assert((lossless as int) * 100 <= (tracks as int) * 100) by (nonlinear_arith)
            requires
                lossless <= tracks,
        ;
        assert((lossless as int) * 100 / (tracks as int) <= 100) by (nonlinear_arith)
            requires
                (lossless as int) * 100 <= (tracks as int) * 100,
                tracks > 0,
        ;
    }
}

/// Count rows `(slot, count)` spread over `n` slots: each slot holds the
/// count of the last row naming it (as `u32`, 0 when out of range), slots no
/// row names hold 0, and rows naming a slot outside `0..n` are ignored.
pub open spec fn buckets_of(rows: Seq<(i64, i64)>, n: nat) -> Seq<u32>
    decreases rows.len(),
{
    if rows.len() == 0 {
        Seq::new(n, |i: int| 0u32)
    } else {
        let b = buckets_of(rows.drop_last(), n);
        let (k, c) = rows.last();
        if 0 <= k < n {
            b.update(k as int, u32_or_zero(c))
        } else {
            b
        }
    }
}

proof fn lemma_buckets_len(rows: Seq<(i64, i64)>, n: nat)
    ensures
        buckets_of(rows, n).len() == n,
    decreases rows.len(),
{
    if rows.len() > 0 {
        lemma_buckets_len(rows.drop_last(), n);
    }
}

/// Spreads per-slot counts (hour of day, day of week) over `n` slots.
pub fn bucket_counts(rows: &Vec<(i64, i64)>, n: usize) -> (r: Vec<u32>)
    ensures
        r@ == buckets_of(rows@, n as nat),
{
    let mut out: Vec<u32> = Vec::new();
    let mut j: usize = 0;
    while j < n
        invariant
            j <= n,
            out@ == Seq::new(j as nat, |i: int| 0u32),
        decreases n - j,
    {
        out.push(0);
        j = j + 1;
        assert(out@ =~= Seq::new(j as nat, |i: int| 0u32));
    }
    let mut i: usize = 0;
    assert(rows@.subrange(0, 0) =~= Seq::<(i64, i64)>::empty());
    while i < rows.len()
        invariant
            i <= rows@.len(),
            out@ == buckets_of(rows@.subrange(0, i as int), n as nat),
        decreases rows@.len() - i,
    {
        let (k, c) = rows[i];
        proof {
            lemma_buckets_len(rows@.subrange(0, i as int), n as nat);
            assert(rows@.subrange(0, i + 1).drop_last() =~= rows@.subrange(0, i as int));
            assert(rows@.subrange(0, i + 1).last() == rows@[i as int]);
        }
        if 0 <= k && (k as u64) < (n as u64) {
            let v = to_u32(c);
            out.set(k as usize, v);
        }
        i = i + 1;
    }
    assert(rows@.subrange(0, rows@.len() as int) =~= rows@);
    out
}

/// The run of consecutive days ending at index `i` of `ds` (day numbers).
pub open spec fn run_at(ds: Seq<i32>, i: int) -> nat
    decreases i,
{
    if i <= 0 {
        1
    } else if ds[i] as int == ds[i - 1] as int + 1 {
        run_at(ds, i - 1) + 1
    } else {
        1
    }
}

/// The longest run among the first `i + 1` days.
pub open spec fn best_run_upto(ds: Seq<i32>, i: int) -> nat
    decreases i,
{
    if i <= 0 {
        1
    } else {
        let b = best_run_upto(ds, i - 1);
        if run_at(ds, i) > b {
            run_at(ds, i)
        } else {
            b
        }
    }
}

/// The best run of consecutive listening days.
pub open spec fn best_streak(ds: Seq<i32>) -> nat {
    if ds.len() == 0 {
        0
    } else {
        best_run_upto(ds, ds.len() - 1)
    }
}

/// The run that ends at the last listening day.
pub open spec fn last_run(ds: Seq<i32>) -> nat {
    if ds.len() == 0 {
        0
    } else {
        run_at(ds, ds.len() - 1)
    }
}

/// The current streak: the last run, when it reaches `today` or the day
/// before; else 0.
pub open spec fn current_streak(ds: Seq<i32>, today: i32) -> nat {
    if ds.len() > 0 && (ds.last() == today || ds.last() as int + 1 == today as int) {
        last_run(ds)
    } else {
        0
    }
}

proof fn lemma_run_bounds(ds: Seq<i32>, i: int)
    requires
        0 <= i,
    ensures
        1 <= run_at(ds, i) <= i + 1,
        run_at(ds, i) <= best_run_upto(ds, i) <= i + 1,
    decreases i,
{
    if i > 0 {
        lemma_run_bounds(ds, i - 1);
    }
}

/// `(current, best)` streaks over ascending day numbers, given today's.
pub fn streaks_on(days: &Vec<i32>, today: i32) -> (r: (u32, u32))
    requires
        days@.len() <= u32::MAX,
    ensures
        r.0 == current_streak(days@, today),
        r.1 == best_streak(days@),
{
    let n = days.len();
    if n == 0 {
        return (0, 0);
    }
    let mut best: u32 = 1;
    let mut run: u32 = 1;
    let mut i: usize = 1;
    while i < n
        invariant
            1 <= i <= n == days@.len() <= u32::MAX,
            run == run_at(days@, i - 1),
            best == best_run_upto(days@, i - 1),
        decreases n - i,
    {
        proof {
            lemma_run_bounds(days@, i - 1);
        }
        let prev = days[i - 1];
        let day = days[i];
        if prev < i32::MAX && day == prev + 1 {
            run = run + 1;
        } else {
            run = 1;
        }
        if run > best {
            best = run;
        }
        i = i + 1;
    }
    let last = days[n - 1];
    let current = if last == today || (last < i32::MAX && last + 1 == today) {
        run
    } else {
        0
    };
    (current, best)
}

/// What `NaiveDate::parse_from_str(text, "%Y-%m-%d")` gives, as a day
/// number counted from the common era.
pub uninterp spec fn calendar_day(text: Seq<char>) -> Option<i32>;

/// `chrono::NaiveDate::parse_from_str` with the ISO date format, read back
/// through `Datelike::num_days_from_ce`.
#[verifier::external_body]
fn parse_calendar_day(text: &str) -> (r: Option<i32>)
    ensures
        r == calendar_day(text@),
{
    match chrono::NaiveDate::parse_from_str(text, "%Y-%m-%d") {
        Ok(d) => Some(d.num_days_from_ce()),
        Err(_) => None,
    }
}

/// `chrono::Utc::now().date_naive()` as a day number; depends on the clock,
/// so nothing is stated of it.
#[verifier::external_body]
fn today_utc() -> (r: i32) {
    chrono::Utc::now().date_naive().num_days_from_ce()
}

/// The day numbers of the texts that parse as dates, in order.
pub open spec fn parsed_days(days: Seq<String>) -> Seq<i32>
    decreases days.len(),
{
    if days.len() == 0 {
        Seq::empty()
    } else {
        let rest = parsed_days(days.drop_last());
        match calendar_day(days.last()@) {
            Some(d) => rest.push(d),
            None => rest,
        }
    }
}

proof fn lemma_parsed_days_len(days: Seq<String>)
    ensures
        parsed_days(days).len() <= days.len(),
    decreases days.len(),
{
    if days.len() > 0 {
        lemma_parsed_days_len(days.drop_last());
    }
}

/// `(current, best)` runs of consecutive listening days. `days` is
/// ascending `YYYY-MM-DD` text (unparsable entries are skipped); the
/// current run counts only when it reaches today or yesterday, which the
/// clock decides.
pub fn streaks(days: &Vec<String>) -> (r: (u32, u32))
    requires
        days@.len() <= u32::MAX,
    ensures
        r.1 == best_streak(parsed_days(days@)),
        r.0 == 0 || r.0 == last_run(parsed_days(days@)),
{
    let mut parsed: Vec<i32> = Vec::new();
    let mut i: usize = 0;
    assert(days@.subrange(0, 0) =~= Seq::<String>::empty());
    while i < days.len()
        invariant
            i <= days@.len(),
            parsed@ == parsed_days(days@.subrange(0, i as int)),
        decreases days@.len() - i,
    {
        proof {
            assert(days@.subrange(0, i + 1).drop_last() =~= days@.subrange(0, i as int));
        }
        match parse_calendar_day(days[i].as_str()) {
            Some(d) => parsed.push(d),
            None => {},
        }
        i = i + 1;
    }
    assert(days@.subrange(0, days@.len() as int) =~= days@);
    proof {
        lemma_parsed_days_len(days@);
    }
    let today = today_utc();
    streaks_on(&parsed, today)
}

/// The current streak never exceeds the best one, and both count at most
/// one per listening day.
pub proof fn law_streaks_bounded(ds: Seq<i32>, today: i32)
    ensures
        current_streak(ds, today) <= best_streak(ds) <= ds.len(),
        ds.len() > 0 ==> best_streak(ds) >= 1,
{
    if ds.len() > 0 {
        lemma_run_bounds(ds, ds.len() - 1);
        lemma_best_covers_last(ds, ds.len() - 1);
    }
}

proof fn lemma_run_consecutive(ds: Seq<i32>, i: int)
    requires
        0 <= i < ds.len(),
    ensures
        run_at(ds, i) <= i + 1,
        forall|j: int| 0 <= j < run_at(ds, i) ==> #[trigger] ds[i - j] as int == ds[i] as int - j,
    decreases i,
{
    lemma_run_bounds(ds, i);
    if i > 0 && ds[i] as int == ds[i - 1] as int + 1 {
        lemma_run_consecutive(ds, i - 1);
        assert forall|j: int| 0 <= j < run_at(ds, i) implies #[trigger] ds[i - j] as int == ds[i] as int - j by {
            if j > 0 {
                assert(ds[(i - 1) - (j - 1)] as int == ds[i - 1] as int - (j - 1));
            }
        }
    }
}

proof fn lemma_run_covers(ds: Seq<i32>, i: int, r: int)
    requires
        0 <= i < ds.len(),
        1 <= r <= i + 1,
        forall|j: int| 0 <= j < r ==> #[trigger] ds[i - j] as int == ds[i] as int - j,
    ensures
        run_at(ds, i) >= r,
    decreases r,
{
    lemma_run_bounds(ds, i);
    if r > 1 {
        assert(ds[i - 1] as int == ds[i] as int - 1);
        assert forall|j: int| 0 <= j < r - 1 implies #[trigger] ds[(i - 1) - j] as int == ds[i - 1] as int - j by {
            assert(ds[i - (j + 1)] as int == ds[i] as int - (j + 1));
        }
        lemma_run_covers(ds, i - 1, r - 1);
    }
}

proof fn lemma_best_is_a_run(ds: Seq<i32>, i: int)
    requires
        0 <= i < ds.len(),
    ensures
        exists|w: int| 0 <= w <= i && #[trigger] run_at(ds, w) == best_run_upto(ds, i),
        forall|k: int| 0 <= k <= i ==> #[trigger] run_at(ds, k) <= best_run_upto(ds, i),
    decreases i,
{
    lemma_run_bounds(ds, i);
    if i == 0 {
        assert(run_at(ds, 0) == best_run_upto(ds, 0));
    } else {
        lemma_best_is_a_run(ds, i - 1);
        if run_at(ds, i) > best_run_upto(ds, i - 1) {
            assert(run_at(ds, i) == best_run_upto(ds, i));
        } else {
            let w = choose|w: int| 0 <= w <= i - 1 && #[trigger] run_at(ds, w) == best_run_upto(ds, i - 1);
            assert(run_at(ds, w) == best_run_upto(ds, i));
        }
    }
}

/// The `r` days up to index `i` of `ds` follow one another.
pub open spec fn consecutive_run(ds: Seq<i32>, i: int, r: int) -> bool {
    &&& 0 <= i < ds.len()
    &&& 0 <= r <= i + 1
    &&& forall|j: int| 0 <= j < r ==> #[trigger] ds[i - j] as int == ds[i] as int - j
}

/// What the streaks count, for listening days `ds` in ascending order and
/// the day `today`. The current streak is nonzero only when the last
/// listening day is today or yesterday, is at least 1 then, and counts
/// days that follow one another up to that last day. The best streak is
/// the length of a run of days that follow one another, and no such run
/// is longer.
pub proof fn law_streak_meaning(ds: Seq<i32>, today: i32)
    ensures
        current_streak(ds, today) > 0 ==> ds.len() > 0 && (ds.last() as int == today as int
            || ds.last() as int + 1 == today as int),
        ds.len() > 0 && (ds.last() as int == today as int || ds.last() as int + 1 == today as int)
            ==> current_streak(ds, today) >= 1,
        current_streak(ds, today) > 0 ==> consecutive_run(
            ds,
            ds.len() - 1,
            current_streak(ds, today) as int,
        ),
        ds.len() > 0 ==> exists|i: int| #[trigger] consecutive_run(ds, i, best_streak(ds) as int),
        forall|i: int, r: int| #[trigger] consecutive_run(ds, i, r) ==> r <= best_streak(ds),
{
    if ds.len() > 0 {
        let n = ds.len() - 1;
        lemma_run_consecutive(ds, n);
        lemma_run_bounds(ds, n);
        lemma_best_is_a_run(ds, n);
        let w = choose|w: int| 0 <= w <= n && #[trigger] run_at(ds, w) == best_run_upto(ds, n);
        lemma_run_consecutive(ds, w);
        assert(consecutive_run(ds, w, best_streak(ds) as int));
        assert forall|i: int, r: int| #[trigger] consecutive_run(ds, i, r) implies r <= best_streak(
            ds,
        ) by {
            if r >= 1 {
                lemma_run_covers(ds, i, r);
                assert(run_at(ds, i) <= best_run_upto(ds, n));
            }
        }
    }
}

proof fn lemma_best_covers_last(ds: Seq<i32>, i: int)
    requires
        0 <= i,
    ensures
        run_at(ds, i) <= best_run_upto(ds, i),
{
    lemma_run_bounds(ds, i);
}

// ---------------------------------------------------------------- health

/// The pieces of `s` between commas.
pub open spec fn comma_pieces(s: Seq<char>) -> Seq<Seq<char>>
    decreases s.len(),
{
    if s.len() == 0 {
        seq![Seq::empty()]
    } else {
        let p = comma_pieces(s.drop_last());
        if s.last() == ',' {
            p.push(Seq::empty())
        } else {
            p.update(p.len() - 1, p.last().push(s.last()))
        }
    }
}

/// The pieces that parse as `i64`, in order.
pub open spec fn parsed_ids(p: Seq<Seq<char>>) -> Seq<i64>
    decreases p.len(),
{
    if p.len() == 0 {
        Seq::empty()
    } else {
        let rest = parsed_ids(p.drop_last());
        match parse_i64_spec(p.last()) {
            Some(v) => rest.push(v),
            None => rest,
        }
    }
}

/// A `group_concat` id list such as "3,17,42"; pieces that are not
/// integers are skipped.
pub fn parse_id_list(s: &str) -> (r: Vec<i64>)
    ensures
        r@ == parsed_ids(comma_pieces(s@)),
{
    let cs = chars_of(s);
    let n = cs.len();
    let mut out: Vec<i64> = Vec::new();
    let mut start: usize = 0;
    let mut i: usize = 0;
    let ghost mut done: Seq<Seq<char>> = Seq::empty();
    assert(cs@.subrange(0, 0) =~= Seq::<char>::empty());
    assert(comma_pieces(Seq::<char>::empty()) =~= seq![Seq::<char>::empty()]);
    while i < n
        invariant
            n == cs@.len(),
            start <= i <= n,
            comma_pieces(cs@.subrange(0, i as int)) == done.push(cs@.subrange(start as int, i as int)),
            out@ == parsed_ids(done),
        decreases n - i,
    {
        let c = cs[i];
        assert(cs@.subrange(0, i + 1).drop_last() =~= cs@.subrange(0, i as int));
        assert(cs@.subrange(0, i + 1).last() == c);
        if c == ',' {
            proof {
                let piece = cs@.subrange(start as int, i as int);
                assert(done.push(piece).drop_last() =~= done);
                assert(done.push(piece).last() == piece);
            }
            match parse_i64(&cs, start, i) {
                Some(v) => out.push(v),
                None => {},
            }
            proof {
                done = done.push(cs@.subrange(start as int, i as int));
            }
            start = i + 1;
            assert(cs@.subrange(start as int, i + 1) =~= Seq::<char>::empty());
        } else {
            proof {
                let p = done.push(cs@.subrange(start as int, i as int));
                assert(cs@.subrange(start as int, i + 1) =~= cs@.subrange(start as int, i as int).push(c));
                assert(p.update(p.len() - 1, p.last().push(c)) =~= done.push(
                    cs@.subrange(start as int, i + 1),
                ));
            }
        }
        i = i + 1;
    }
    assert(cs@.subrange(0, n as int) =~= cs@);
    proof {
        let piece = cs@.subrange(start as int, n as int);
        assert(done.push(piece).drop_last() =~= done);
    }
    match parse_i64(&cs, start, n) {
        Some(v) => out.push(v),
        None => {},
    }
    out
}

/// The detail line of a low-bitrate track: "MP3 @ 128 kbps".
pub fn low_bitrate_detail(codec: &str, kbps: i64) -> (s: String)
    ensures
        s@ == codec@ + " @ "@ + int_text(kbps as int) + " kbps"@,
{
    let mut out: Vec<char> = Vec::new();
    push_str(&mut out, codec);
    push_str(&mut out, " @ ");
    push_i64(&mut out, kbps);
    push_str(&mut out, " kbps");
    string_of(out.as_slice())
}

} // verus!

verus! {

// ---------------------------------------------------------------- metadata edits

/// The genres of a metadata edit: the comma-separated names, trimmed, the
/// empty ones dropped.
pub open spec fn edit_genres(s: Seq<char>) -> Seq<Seq<char>> {
    named_pieces(comma_pieces(s))
}

pub fn split_comma_list(s: &str) -> (r: Vec<String>)
    ensures
        string_views(r@) == edit_genres(s@),
{
    let cs = chars_of(s);
    let n = cs.len();
    let mut out: Vec<String> = Vec::new();
    let mut start: usize = 0;
    let mut i: usize = 0;
    let ghost mut done: Seq<Seq<char>> = Seq::empty();
    assert(cs@.subrange(0, 0) =~= Seq::<char>::empty());
    assert(comma_pieces(Seq::<char>::empty()) =~= seq![Seq::<char>::empty()]);
    assert(string_views(out@) =~= named_pieces(done));
    while i < n
        invariant
            n == cs@.len(),
            start <= i <= n,
            comma_pieces(cs@.subrange(0, i as int)) == done.push(cs@.subrange(start as int, i as int)),
            string_views(out@) == named_pieces(done),
        decreases n - i,
    {
        let c = cs[i];
        assert(cs@.subrange(0, i + 1).drop_last() =~= cs@.subrange(0, i as int));
        assert(cs@.subrange(0, i + 1).last() == c);
        if c == ',' {
            let (ta, tb) = trim_bounds(&cs, start, i);
            proof {
                let piece = cs@.subrange(start as int, i as int);
                assert(done.push(piece).drop_last() =~= done);
                assert(done.push(piece).last() == piece);
            }
            if ta < tb {
                let ghost before = out@;
                out.push(substring(&cs, ta, tb));
                assert(string_views(out@) =~= string_views(before).push(
                    cs@.subrange(ta as int, tb as int),
                ));
            }
            proof {
                done = done.push(cs@.subrange(start as int, i as int));
            }
            start = i + 1;
            assert(cs@.subrange(start as int, i + 1) =~= Seq::<char>::empty());
        } else {
            proof {
                let p = done.push(cs@.subrange(start as int, i as int));
                assert(cs@.subrange(start as int, i + 1) =~= cs@.subrange(start as int, i as int).push(c));
                assert(p.update(p.len() - 1, p.last().push(c)) =~= done.push(
                    cs@.subrange(start as int, i + 1),
                ));
            }
        }
        i = i + 1;
    }
    assert(cs@.subrange(0, n as int) =~= cs@);
    let (ta, tb) = trim_bounds(&cs, start, n);
    proof {
        let piece = cs@.subrange(start as int, n as int);
        assert(done.push(piece).drop_last() =~= done);
    }
    if ta < tb {
        let ghost before = out@;
        out.push(substring(&cs, ta, tb));
        assert(string_views(out@) =~= string_views(before).push(cs@.subrange(ta as int, tb as int)));
    }
    out
}

// ---------------------------------------------------------------- queue order

/// The temporary position of the `i`-th queue item during a reorder:
/// negative, so that no new position collides with an old one under the
/// unique constraint.
pub open spec fn staging_position(i: int) -> int {
    -(i + 1)
}

/// The second phase turns each temporary position `p` into `-p - 1`.
pub open spec fn settled_position(p: int) -> int {
    -p - 1
}

/// The temporary positions for a reorder of `count` queue items.
pub fn staging_positions(count: usize) -> (r: Vec<i64>)
    requires
        count <= i64::MAX,
    ensures
        r@.len() == count,
        forall|i: int| 0 <= i < count ==> r@[i] == staging_position(i),
{
    let mut v: Vec<i64> = Vec::new();
    let mut i: usize = 0;
    while i < count
        invariant
            i <= count <= i64::MAX,
            v@.len() == i,
            forall|k: int| 0 <= k < i ==> v@[k] == staging_position(k),
        decreases count - i,
    {
        v.push(-((i as i64) + 1));
        i = i + 1;
    }
    v
}

/// A reorder lands item `i` of the requested order at position `i`, and
/// the temporary positions are negative and pairwise distinct, so they
/// clash neither with each other nor with the old positions.
pub proof fn law_reorder_positions(i: int, j: int)
    requires
        0 <= i,
        0 <= j,
    ensures
        settled_position(staging_position(i)) == i,
        staging_position(i) < 0,
        i != j ==> staging_position(i) != staging_position(j),
{
}

} // verus!

verus! {

// ---------------------------------------------------------------- merges

/// How an album folds into another of the same name: where its tracks go,
/// and the artwork the kept album takes over (only when it has none).
#[derive(Debug, Clone, PartialEq, Eq)]
pub struct AlbumFuse {
    pub keep_id: i64,
    pub adopt_artwork: Option<String>,
}

/// Renaming an album (or moving one to another artist) onto a name that
/// already exists fuses it into that album; otherwise it is renamed.
pub open spec fn fuse_spec(source_art: Option<String>, target: Option<(i64, Option<String>)>) -> Option<AlbumFuse> {
    match target {
        Some((keep_id, keep_art)) => Some(
            AlbumFuse {
                keep_id,
                adopt_artwork: if keep_art is None {
                    source_art
                } else {
                    None
                },
            },
        ),
        None => None,
    }
}

pub fn album_fuse(source_art: Option<String>, target: Option<(i64, Option<String>)>) -> (r: Option<AlbumFuse>)
    ensures
        r == fuse_spec(source_art, target),
{
    match target {
        Some((keep_id, keep_art)) => {
            let adopt_artwork = match keep_art {
                None => source_art,
                Some(_) => None,
            };
            Some(AlbumFuse { keep_id, adopt_artwork })
        },
        None => None,
    }
}

/// The artwork the kept album ends up with after a fuse.
pub open spec fn artwork_after_fuse(keep_art: Option<String>, fuse: AlbumFuse) -> Option<String> {
    match fuse.adopt_artwork {
        Some(a) => Some(a),
        None => keep_art,
    }
}

/// A fuse keeps the target's artwork when it has one and falls back to the
/// source's otherwise; the tracks always land on the target album.
pub proof fn law_fuse_keeps_target_artwork(
    source_art: Option<String>,
    keep_id: i64,
    keep_art: Option<String>,
)
    ensures
        fuse_spec(source_art, Some((keep_id, keep_art))) matches Some(f) && f.keep_id == keep_id
            && artwork_after_fuse(keep_art, f) == match keep_art {
            Some(k) => Some(k),
            None => source_art,
        },
        fuse_spec(source_art, None) is None,
{
}

} // verus!

verus! {

// ---------------------------------------------------------------- directories

/// `trim_end_matches('/')`.
pub open spec fn without_trailing_slashes(s: Seq<char>) -> Seq<char>
    decreases s.len(),
{
    if s.len() > 0 && s.last() == '/' {
        without_trailing_slashes(s.drop_last())
    } else {
        s
    }
}

/// The prefix every stored path under the directory `dir` starts with:
/// the directory without trailing slashes, then one slash.
pub fn dir_prefix(dir: &str) -> (s: String)
    ensures
        s@ == without_trailing_slashes(dir@).push('/'),
{
    let cs = chars_of(dir);
    let mut e = cs.len();
    assert(cs@.subrange(0, e as int) =~= cs@);
    while e > 0 && cs[e - 1] == '/'
        invariant
            e <= cs@.len(),
            without_trailing_slashes(cs@) == without_trailing_slashes(cs@.subrange(0, e as int)),
        decreases e,
    {
        assert(cs@.subrange(0, e as int).drop_last() =~= cs@.subrange(0, e - 1));
        e = e - 1;
    }
    let mut out: Vec<char> = Vec::new();
    let mut i: usize = 0;
    while i < e
        invariant
            i <= e <= cs@.len(),
            out@ == cs@.subrange(0, i as int),
        decreases e - i,
    {
        out.push(cs[i]);
        i = i + 1;
        assert(out@ =~= cs@.subrange(0, i as int));
    }
    out.push('/');
    string_of(out.as_slice())
}

} // verus!
