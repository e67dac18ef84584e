//! The searchable fields: their names, the SQL each compiles to, and the
//! kind of value each accepts.
use vstd::prelude::*;

use crate::text::{ascii_lower_char, chars_of, lower_seq, window_is};

verus! {

#[derive(Debug, Clone, Copy, PartialEq, Eq, Structural)]
pub enum FieldType {
    Text,
    Int,
    Bool,
    /// Value like `5m` / `90s` normalized to milliseconds.
    Duration,
    /// Relative date: `last-week`, `last-month`, or `YYYY-MM-DD`.
    Date,
}

/// A searchable field: its query name, the SQL expression it compiles to
/// (against the aliases `t`, `ar`, `al`; `GENRE` stands for a subquery),
/// and its value kind.
#[derive(Debug)]
pub struct FieldDef {
    pub name: String,
    pub column: String,
    pub kind: FieldType,
}

/// What a field definition says, as plain values.
pub struct FieldModel {
    pub name: Seq<char>,
    pub column: Seq<char>,
    pub kind: FieldType,
}

impl View for FieldDef {
    type V = FieldModel;

    open spec fn view(&self) -> FieldModel {
        FieldModel { name: self.name@, column: self.column@, kind: self.kind }
    }
}

pub open spec fn entry(name: &str, column: &str, kind: FieldType) -> FieldModel {
    FieldModel { name: name@, column: column@, kind }
}

/// The field table, looked up by an already lower-cased name.
pub open spec fn field_by_lower_name(lower: Seq<char>) -> Option<FieldModel> {
    if lower == "artist"@ {
        Some(entry("artist", "ar.name", FieldType::Text))
    } else if lower == "album"@ {
        Some(entry("album", "al.name", FieldType::Text))
    } else if lower == "title"@ {
        Some(entry("title", "t.title", FieldType::Text))
    } else if lower == "genre"@ {
        Some(entry("genre", "GENRE", FieldType::Text))
    } else if lower == "year"@ {
        Some(entry("year", "t.year", FieldType::Int))
    } else if lower == "rating"@ {
        Some(entry("rating", "t.rating", FieldType::Int))
    } else if lower == "codec"@ {
        Some(entry("codec", "t.codec", FieldType::Text))
    } else if lower == "bitdepth"@ {
        Some(entry("bitdepth", "t.bit_depth", FieldType::Int))
    } else if lower == "samplerate"@ {
        Some(entry("samplerate", "t.sample_rate_hz", FieldType::Int))
    } else if lower == "bitrate"@ {
        Some(entry("bitrate", "t.bitrate_kbps", FieldType::Int))
    } else if lower == "channels"@ {
        Some(entry("channels", "t.channels", FieldType::Int))
    } else if lower == "duration"@ {
        Some(entry("duration", "t.duration_ms", FieldType::Duration))
    } else if lower == "playcount"@ {
        Some(entry("playcount", "t.play_count", FieldType::Int))
    } else if lower == "favorite"@ {
        Some(entry("favorite", "t.favorite", FieldType::Bool))
    } else if lower == "added"@ {
        Some(entry("added", "t.added_at", FieldType::Date))
    } else {
        None
    }
}

/// The field named `added` is the date field, and no other field is.
pub proof fn lemma_added_is_the_date_field(lower: Seq<char>)
    ensures
        field_by_lower_name(lower) matches Some(f) ==> (f.name == "added"@ <==> f.kind
            == FieldType::Date),
{
    reveal_strlit("added");
    reveal_strlit("artist");
    reveal_strlit("album");
    reveal_strlit("title");
    reveal_strlit("genre");
    reveal_strlit("year");
    reveal_strlit("rating");
    reveal_strlit("codec");
    reveal_strlit("bitdepth");
    reveal_strlit("samplerate");
    reveal_strlit("bitrate");
    reveal_strlit("channels");
    reveal_strlit("duration");
    reveal_strlit("playcount");
    reveal_strlit("favorite");
    assert("artist"@.len() != "added"@.len());
    assert("album"@[1] != "added"@[1]);
    assert("title"@[0] != "added"@[0]);
    assert("genre"@[0] != "added"@[0]);
    assert("year"@.len() != "added"@.len());
    assert("rating"@.len() != "added"@.len());
    assert("codec"@[0] != "added"@[0]);
    assert("bitdepth"@.len() != "added"@.len());
    assert("samplerate"@.len() != "added"@.len());
    assert("bitrate"@.len() != "added"@.len());
    assert("channels"@.len() != "added"@.len());
    assert("duration"@.len() != "added"@.len());
    assert("playcount"@.len() != "added"@.len());
    assert("favorite"@.len() != "added"@.len());
}

/// Case-insensitive field lookup (ASCII case folding).
pub open spec fn field_model(name: Seq<char>) -> Option<FieldModel> {
    field_by_lower_name(lower_seq(name))
}

fn make(name: &str, column: &str, kind: FieldType) -> (f: FieldDef)
    ensures
        f@ == entry(name, column, kind),
{
    FieldDef { name: String::from_str(name), column: String::from_str(column), kind }
}

/// Looks up the field named by `cs[lo..hi]`, ignoring ASCII case.
pub fn field_in(cs: &Vec<char>, lo: usize, hi: usize) -> (r: Option<FieldDef>)
    requires
        lo <= hi <= cs@.len(),
    ensures
        match r {
            Some(f) => field_model(cs@.subrange(lo as int, hi as int)) == Some(f@),
            None => field_model(cs@.subrange(lo as int, hi as int)) is None,
        },
{
    let mut lower: Vec<char> = Vec::new();
    let mut i = lo;
    while i < hi
        invariant
            lo <= i <= hi <= cs@.len(),
            lower@ == lower_seq(cs@.subrange(lo as int, i as int)),
        decreases hi - i,
    {
        lower.push(ascii_lower_char(cs[i]));
        i = i + 1;
        assert(lower_seq(cs@.subrange(lo as int, i as int)) =~= lower_seq(
            cs@.subrange(lo as int, i - 1),
        ).push(crate::text::lower_char(cs@[i - 1])));
    }
    let n = lower.len();
    if window_is(&lower, 0, n, "artist") {
        assert(lower@.subrange(0, n as int) == lower@);
        Some(make("artist", "ar.name", FieldType::Text))
    } else if window_is(&lower, 0, n, "album") {
        assert(lower@.subrange(0, n as int) == lower@);
        Some(make("album", "al.name", FieldType::Text))
    } else if window_is(&lower, 0, n, "title") {
        assert(lower@.subrange(0, n as int) == lower@);
        Some(make("title", "t.title", FieldType::Text))
    } else if window_is(&lower, 0, n, "genre") {
        assert(lower@.subrange(0, n as int) == lower@);
        Some(make("genre", "GENRE", FieldType::Text))
    } else if window_is(&lower, 0, n, "year") {
        assert(lower@.subrange(0, n as int) == lower@);
        Some(make("year", "t.year", FieldType::Int))
    } else if window_is(&lower, 0, n, "rating") {
        assert(lower@.subrange(0, n as int) == lower@);
        Some(make("rating", "t.rating", FieldType::Int))
    } else if window_is(&lower, 0, n, "codec") {
        assert(lower@.subrange(0, n as int) == lower@);
        Some(make("codec", "t.codec", FieldType::Text))
    } else if window_is(&lower, 0, n, "bitdepth") {
        assert(lower@.subrange(0, n as int) == lower@);
        Some(make("bitdepth", "t.bit_depth", FieldType::Int))
    } else if window_is(&lower, 0, n, "samplerate") {
        assert(lower@.subrange(0, n as int) == lower@);
        Some(make("samplerate", "t.sample_rate_hz", FieldType::Int))
    } else if window_is(&lower, 0, n, "bitrate") {
        assert(lower@.subrange(0, n as int) == lower@);
        Some(make("bitrate", "t.bitrate_kbps", FieldType::Int))
    } else if window_is(&lower, 0, n, "channels") {
        assert(lower@.subrange(0, n as int) == lower@);
        Some(make("channels", "t.channels", FieldType::Int))
    } else if window_is(&lower, 0, n, "duration") {
        assert(lower@.subrange(0, n as int) == lower@);
        Some(make("duration", "t.duration_ms", FieldType::Duration))
    } else if window_is(&lower, 0, n, "playcount") {
        assert(lower@.subrange(0, n as int) == lower@);
        Some(make("playcount", "t.play_count", FieldType::Int))
    } else if window_is(&lower, 0, n, "favorite") {
        assert(lower@.subrange(0, n as int) == lower@);
        Some(make("favorite", "t.favorite", FieldType::Bool))
    } else if window_is(&lower, 0, n, "added") {
        assert(lower@.subrange(0, n as int) == lower@);
        Some(make("added", "t.added_at", FieldType::Date))
    } else {
        assert(lower@.subrange(0, n as int) == lower@);
        None
    }
}

/// Case-insensitive lookup; also accepts camelCase spellings such as
/// `sampleRate`, `bitDepth` and `playCount`.
pub fn field(name: &str) -> (r: Option<FieldDef>)
    ensures
        match r {
            Some(f) => field_model(name@) == Some(f@),
            None => field_model(name@) is None,
        },
{
    let cs = chars_of(name);
    let n = cs.len();
    assert(cs@.subrange(0, n as int) == cs@);
    field_in(&cs, 0, n)
}

/// Field lookup ignores ASCII case: a name and its lower-cased form select
/// the same field.
pub proof fn law_field_lookup_ignores_case(name: Seq<char>)
    ensures
        field_model(name) == field_model(lower_seq(name)),
{
    assert(lower_seq(lower_seq(name)) =~= lower_seq(name));
}

} // verus!
