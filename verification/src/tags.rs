//! Tag-derived values: which files count as audio, album names cleaned of
//! ripper disc suffixes, and genre lists split into names.
use vstd::prelude::*;

use crate::text::{
    ascii_lower_char, chars_of, is_whitespace, is_ws, lower_char, lower_seq, needle, parse_u32,
    parse_u32_spec, rfind, rfind_in, skip_ws_end, substring, trim, trim_bounds, trim_end, window_is,
};

verus! {

// ---------------------------------------------------------------- paths

/// Start of the path piece that ends at `hi` (just after the previous `/`).
pub open spec fn piece_start(p: Seq<char>, hi: int) -> int
    decreases hi,
{
    if hi <= 0 {
        0
    } else if p[hi - 1] == '/' {
        hi
    } else {
        piece_start(p, hi - 1)
    }
}

pub proof fn lemma_piece_start(p: Seq<char>, hi: int)
    requires
        0 <= hi <= p.len(),
    ensures
        0 <= piece_start(p, hi) <= hi,
        forall|k: int| piece_start(p, hi) <= k < hi ==> p[k] != '/',
        piece_start(p, hi) > 0 ==> p[piece_start(p, hi) - 1] == '/',
    decreases hi,
{
    if hi > 0 && p[hi - 1] != '/' {
        lemma_piece_start(p, hi - 1);
    }
}

/// The last path component below `hi` that is neither empty nor `.`, as
/// (start, end): how `Path::components` ends for a Unix path.
pub open spec fn last_piece(p: Seq<char>, hi: int) -> Option<(int, int)>
    decreases hi,
{
    if hi <= 0 || hi > p.len() {
        None
    } else if p[hi - 1] == '/' {
        last_piece(p, hi - 1)
    } else {
        let lo = piece_start(p, hi);
        if p.subrange(lo, hi) == seq!['.'] {
            proof {
                lemma_piece_start(p, hi);
            }
            if lo < hi {
                last_piece(p, lo)
            } else {
                None
            }
        } else {
            Some((lo, hi))
        }
    }
}

/// `Path::file_name`: the last normal component; none for `..`, for the
/// root, or for an empty path.
pub open spec fn file_name(p: Seq<char>) -> Option<Seq<char>> {
    match last_piece(p, p.len() as int) {
        Some((lo, hi)) => if p.subrange(lo, hi) == seq!['.', '.'] {
            None
        } else {
            Some(p.subrange(lo, hi))
        },
        None => None,
    }
}

/// `Path::extension`: what follows the last `.` of the file name, unless
/// that dot is the name's first character.
pub open spec fn extension(p: Seq<char>) -> Option<Seq<char>> {
    match file_name(p) {
        Some(f) => match rfind(f, seq!['.']) {
            Some(d) => if d > 0 {
                Some(f.subrange(d + 1, f.len() as int))
            } else {
                None
            },
            None => None,
        },
        None => None,
    }
}

pub open spec fn is_audio_extension(e: Seq<char>) -> bool {
    let l = lower_seq(e);
    l == "flac"@ || l == "mp3"@ || l == "m4a"@ || l == "mp4"@ || l == "aac"@ || l == "wav"@ || l
        == "aiff"@ || l == "aif"@ || l == "ogg"@ || l == "opus"@
}

pub open spec fn audio_path(p: Seq<char>) -> bool {
    match extension(p) {
        Some(e) => is_audio_extension(e),
        None => false,
    }
}

/// The audio extensions, lower-case.
pub open spec fn audio_extensions() -> Set<Seq<char>> {
    set!["flac"@, "mp3"@, "m4a"@, "mp4"@, "aac"@, "wav"@, "aiff"@, "aif"@, "ogg"@, "opus"@]
}

/// A path is an audio file exactly when it has an extension that,
/// ignoring ASCII case, is one of flac, mp3, m4a, mp4, aac, wav, aiff,
/// aif, ogg and opus; a path without an extension never is.
pub proof fn law_audio_extensions(p: Seq<char>)
    ensures
        audio_path(p) == (extension(p) matches Some(e) && audio_extensions().contains(lower_seq(e))),
{
}

fn last_piece_exec(cs: &Vec<char>) -> (r: Option<(usize, usize)>)
    ensures
        match r {
            Some((lo, hi)) => last_piece(cs@, cs@.len() as int) == Some((lo as int, hi as int)) && lo
                <= hi <= cs@.len(),
            None => last_piece(cs@, cs@.len() as int) is None,
        },
{
    let mut hi = cs.len();
    loop
        invariant
            hi <= cs@.len(),
            last_piece(cs@, cs@.len() as int) == last_piece(cs@, hi as int),
        decreases hi,
    {
        if hi == 0 {
            return None;
        }
        if cs[hi - 1] == '/' {
            hi = hi - 1;
        } else {
            let mut lo = hi;
            while lo > 0 && cs[lo - 1] != '/'
                invariant
                    lo <= hi <= cs@.len(),
                    piece_start(cs@, lo as int) == piece_start(cs@, hi as int),
                decreases lo,
            {
                lo = lo - 1;
            }
            proof {
                lemma_piece_start(cs@, hi as int);
            }
            if hi - lo == 1 && cs[lo] == '.' {
                assert(cs@.subrange(lo as int, hi as int) =~= seq!['.']);
                hi = lo;
            } else {
                proof {
                    let w = cs@.subrange(lo as int, hi as int);
                    if w == seq!['.'] {
                        assert(w.len() == 1);
                        assert(w[0] == cs@[lo as int]);
                        assert(seq!['.'][0] == '.');
                    }
                }
                return Some((lo, hi));
            }
        }
    }
}

/// The window of `cs` holding `Path::extension` of the path `cs`.
fn extension_bounds(cs: &Vec<char>) -> (r: Option<(usize, usize)>)
    ensures
        match r {
            Some((a, b)) => a <= b <= cs@.len() && extension(cs@) == Some(cs@.subrange(a as int, b as int)),
            None => extension(cs@) is None,
        },
{
    let (lo, hi) = match last_piece_exec(cs) {
        Some(w) => w,
        None => {
            return None;
        },
    };
    proof {
        reveal_strlit("..");
        assert(".."@ =~= seq!['.', '.']);
    }
    if window_is(cs, lo, hi, "..") {
        return None;
    }
    let dot = needle(".");
    proof {
        reveal_strlit(".");
    }
    assert(dot@ =~= seq!['.']);
    let ghost f = cs@.subrange(lo as int, hi as int);
    let d = match rfind_in(cs, lo, hi, &dot) {
        Some(d) => d,
        None => {
            return None;
        },
    };
    proof {
        crate::text::lemma_rfind_below_bounds(f, seq!['.'], f.len() as int);
    }
    if d == 0 {
        return None;
    }
    assert(f.subrange(d + 1, f.len() as int) =~= cs@.subrange(lo + d + 1, hi as int));
    Some((lo + d + 1, hi))
}

/// `Path::extension` of a path, as a string.
pub fn path_extension(path: &str) -> (r: Option<String>)
    ensures
        match r {
            Some(e) => extension(path@) == Some(e@),
            None => extension(path@) is None,
        },
{
    let cs = chars_of(path);
    match extension_bounds(&cs) {
        Some((a, b)) => Some(substring(&cs, a, b)),
        None => None,
    }
}

/// Whether a path's extension names an audio format (case-insensitive):
/// flac, mp3, m4a, mp4, aac, wav, aiff, aif, ogg, opus.
pub fn is_audio_file(path: &str) -> (b: bool)
    ensures
        b == audio_path(path@),
{
    let cs = chars_of(path);
    let (a, b) = match extension_bounds(&cs) {
        Some(w) => w,
        None => {
            return false;
        },
    };
    let lower = lower_window(&cs, a, b);
    let n = lower.len();
    assert(lower@.subrange(0, n as int) =~= lower@);
    window_is(&lower, 0, n, "flac") || window_is(&lower, 0, n, "mp3") || window_is(&lower, 0, n, "m4a")
        || window_is(&lower, 0, n, "mp4") || window_is(&lower, 0, n, "aac") || window_is(
        &lower,
        0,
        n,
        "wav",
    ) || window_is(&lower, 0, n, "aiff") || window_is(&lower, 0, n, "aif") || window_is(
        &lower,
        0,
        n,
        "ogg",
    ) || window_is(&lower, 0, n, "opus")
}

} // verus!

verus! {

// ---------------------------------------------------------------- discs

pub open spec fn kw_disc() -> Seq<char> {
    seq!['d', 'i', 's', 'c']
}

pub open spec fn kw_disk() -> Seq<char> {
    seq!['d', 'i', 's', 'k']
}

pub open spec fn kw_cd() -> Seq<char> {
    seq!['c', 'd']
}

pub open spec fn starts_with(s: Seq<char>, p: Seq<char>) -> bool {
    p.len() <= s.len() && s.subrange(0, p.len() as int) == p
}

/// What follows the first of `disc`, `disk`, `cd` that `l` starts with.
pub open spec fn after_disc_keyword(l: Seq<char>) -> Option<Seq<char>> {
    if starts_with(l, kw_disc()) {
        Some(l.subrange(4, l.len() as int))
    } else if starts_with(l, kw_disk()) {
        Some(l.subrange(4, l.len() as int))
    } else if starts_with(l, kw_cd()) {
        Some(l.subrange(2, l.len() as int))
    } else {
        None
    }
}

/// The characters skipped between a disc keyword and its number.
pub open spec fn is_disc_punct(c: char) -> bool {
    c == ' ' || c == '.' || c == '#' || c == '-'
}

/// `trim_start_matches([' ', '.', '#', '-'])`.
pub open spec fn skip_disc_punct(s: Seq<char>) -> Seq<char>
    decreases s.len(),
{
    if s.len() > 0 && is_disc_punct(s[0]) {
        skip_disc_punct(s.drop_first())
    } else {
        s
    }
}

/// "disc 2" / "cd1" / "disk #3" (any ASCII case): the disc number when it
/// lies in 1..=20.
pub open spec fn disc_number(s: Seq<char>) -> Option<u32> {
    match after_disc_keyword(lower_seq(s)) {
        Some(rest) => match parse_u32_spec(skip_disc_punct(rest)) {
            Some(n) => if 1 <= n <= 20 {
                Some(n)
            } else {
                None
            },
            None => None,
        },
        None => None,
    }
}

/// The window `cs[lo..hi]` in ASCII lower case.
fn lower_window(cs: &Vec<char>, lo: usize, hi: usize) -> (v: Vec<char>)
    requires
        lo <= hi <= cs@.len(),
    ensures
        v@ == lower_seq(cs@.subrange(lo as int, hi as int)),
{
    let mut v: Vec<char> = Vec::new();
    let mut i = lo;
    while i < hi
        invariant
            lo <= i <= hi <= cs@.len(),
            v@ == lower_seq(cs@.subrange(lo as int, i as int)),
        decreases hi - i,
    {
        v.push(ascii_lower_char(cs[i]));
        i = i + 1;
        assert(lower_seq(cs@.subrange(lo as int, i as int)) =~= lower_seq(
            cs@.subrange(lo as int, i - 1),
        ).push(lower_char(cs@[i - 1])));
    }
    v
}

/// `disc_number` of the window `cs[lo..hi]`.
fn disc_number_in(cs: &Vec<char>, lo: usize, hi: usize) -> (r: Option<u32>)
    requires
        lo <= hi <= cs@.len(),
    ensures
        r == disc_number(cs@.subrange(lo as int, hi as int)),
{
    let l = lower_window(cs, lo, hi);
    let n = l.len();
    proof {
        reveal_strlit("disc");
        reveal_strlit("disk");
        reveal_strlit("cd");
        assert("disc"@ =~= kw_disc());
        assert("disk"@ =~= kw_disk());
        assert("cd"@ =~= kw_cd());
    }
    let k: usize = if n >= 4 && window_is(&l, 0, 4, "disc") {
        4
    } else if n >= 4 && window_is(&l, 0, 4, "disk") {
        4
    } else if n >= 2 && window_is(&l, 0, 2, "cd") {
        2
    } else {
        return None;
    };
    assert(after_disc_keyword(l@) == Some(l@.subrange(k as int, n as int)));
    let mut j = k;
    while j < n && (l[j] == ' ' || l[j] == '.' || l[j] == '#' || l[j] == '-')
        invariant
            k <= j <= n == l@.len(),
            skip_disc_punct(l@.subrange(k as int, n as int)) == skip_disc_punct(
                l@.subrange(j as int, n as int),
            ),
        decreases n - j,
    {
        assert(l@.subrange(j as int, n as int).drop_first() =~= l@.subrange(j + 1, n as int));
        j = j + 1;
    }
    match parse_u32(&l, j, n) {
        Some(v) => if 1 <= v && v <= 20 {
            Some(v)
        } else {
            None
        },
        None => None,
    }
}

/// "disc 2" / "cd1" / "disk 3" → 2/1/3, for numbers 1..=20 (any ASCII case,
/// with spaces, `.`, `#` or `-` allowed before the number). Anything else
/// gives `None`.
pub fn parse_disc_keyword(s: &str) -> (r: Option<u32>)
    ensures
        r == disc_number(s@),
{
    let cs = chars_of(s);
    assert(cs@.subrange(0, cs@.len() as int) =~= cs@);
    disc_number_in(&cs, 0, cs.len())
}

} // verus!

verus! {

// ---------------------------------------------------------------- albums

/// `(N)` / `[N]` with N in 1..=20, or a bracketed disc keyword, closing the
/// (already trimmed) name `t`: the name before the bracket and the number.
pub open spec fn bracket_suffix(t: Seq<char>, open: char, close: char) -> Option<(Seq<char>, u32)> {
    if t.len() > 0 && t.last() == close {
        let rest = t.drop_last();
        match rfind(rest, seq![open]) {
            Some(idx) => {
                let inner = trim(rest.subrange(idx + 1, rest.len() as int));
                let head = trim_end(rest.subrange(0, idx));
                match parse_u32_spec(inner) {
                    Some(n) if 1 <= n <= 20 => Some((head, n)),
                    _ => match disc_number(inner) {
                        Some(n) => Some((head, n)),
                        None => None,
                    },
                }
            },
            None => None,
        }
    } else {
        None
    }
}

/// What may stand just before an unbracketed disc keyword.
pub open spec fn is_disc_sep(c: char) -> bool {
    is_ws(c) || c == '-' || c == '\u{2013}'
}

/// What is stripped from the end of the name before such a keyword.
pub open spec fn is_dangling(c: char) -> bool {
    c == '-' || c == '\u{2013}' || c == ' '
}

/// `trim_end_matches(['-', '–', ' '])`.
pub open spec fn strip_dangling(s: Seq<char>) -> Seq<char>
    decreases s.len(),
{
    if s.len() > 0 && is_dangling(s.last()) {
        strip_dangling(s.drop_last())
    } else {
        s
    }
}

/// A trailing "CD1" / "Disc 2" / "- Disk 3": the last occurrence of the
/// keyword `kw` (matched without case) must follow a separator and run to
/// the end as keyword plus number, and the name before it must not vanish.
pub open spec fn keyword_suffix(t: Seq<char>, kw: Seq<char>) -> Option<(Seq<char>, u32)> {
    match rfind(lower_seq(t), kw) {
        Some(idx) => if idx > 0 && is_disc_sep(t[idx - 1]) {
            match disc_number(t.subrange(idx, t.len() as int)) {
                Some(n) => {
                    let clean = strip_dangling(t.subrange(0, idx));
                    if clean.len() > 0 {
                        Some((clean, n))
                    } else {
                        None
                    }
                },
                None => None,
            }
        } else {
            None
        },
        None => None,
    }
}

/// The album name with a ripper's disc suffix removed, and the disc number
/// that suffix gave; the trimmed name and no number when there is none.
pub open spec fn normalized_album(raw: Seq<char>) -> (Seq<char>, Option<u32>) {
    let t = trim(raw);
    match bracket_suffix(t, '(', ')') {
        Some((h, n)) => (h, Some(n)),
        None => match bracket_suffix(t, '[', ']') {
            Some((h, n)) => (h, Some(n)),
            None => match keyword_suffix(t, kw_disc()) {
                Some((h, n)) => (h, Some(n)),
                None => match keyword_suffix(t, kw_disk()) {
                    Some((h, n)) => (h, Some(n)),
                    None => match keyword_suffix(t, kw_cd()) {
                        Some((h, n)) => (h, Some(n)),
                        None => (t, None),
                    },
                },
            },
        },
    }
}

/// `bracket_suffix` of `cs[a..b]`; the name is `cs[a..e]`.
fn bracket_in(cs: &Vec<char>, a: usize, b: usize, open: char, close: char) -> (r: Option<(usize, u32)>)
    requires
        a <= b <= cs@.len(),
    ensures
        match r {
            Some((e, n)) => a <= e <= b && bracket_suffix(cs@.subrange(a as int, b as int), open, close)
                == Some((cs@.subrange(a as int, e as int), n)),
            None => bracket_suffix(cs@.subrange(a as int, b as int), open, close) is None,
        },
{
    let ghost t = cs@.subrange(a as int, b as int);
    if !(b > a && cs[b - 1] == close) {
        return None;
    }
    let ghost rest = t.drop_last();
    assert(rest =~= cs@.subrange(a as int, b - 1));
    let mut nd: Vec<char> = Vec::new();
    nd.push(open);
    assert(nd@ =~= seq![open]);
    let idx = match rfind_in(cs, a, b - 1, &nd) {
        Some(i) => i,
        None => {
            return None;
        },
    };
    proof {
        crate::text::lemma_rfind_below_bounds(rest, seq![open], rest.len() as int);
    }
    let (ia, ib) = trim_bounds(cs, a + idx + 1, b - 1);
    assert(rest.subrange(idx + 1, rest.len() as int) =~= cs@.subrange(a + idx + 1, b - 1));
    let e = skip_ws_end(cs, a, a + idx);
    proof {
        crate::text::lemma_trim_end_shift(cs@, a as int, a + idx);
        assert(rest.subrange(0, idx as int) =~= cs@.subrange(a as int, a + idx));
        assert(trim_end(rest.subrange(0, idx as int)) =~= cs@.subrange(a as int, e as int));
    }
    match parse_u32(cs, ia, ib) {
        Some(n) => {
            if 1 <= n && n <= 20 {
                return Some((e, n));
            }
        },
        None => {},
    }
    match disc_number_in(cs, ia, ib) {
        Some(n) => Some((e, n)),
        None => None,
    }
}

/// `keyword_suffix` of `t == cs[a..b]`, given `low` is `t` in lower case.
fn keyword_in(cs: &Vec<char>, a: usize, b: usize, low: &Vec<char>, kw: &str) -> (r: Option<(usize, u32)>)
    requires
        a <= b <= cs@.len(),
        low@ == lower_seq(cs@.subrange(a as int, b as int)),
    ensures
        match r {
            Some((e, n)) => a < e <= b && keyword_suffix(cs@.subrange(a as int, b as int), kw@)
                == Some((cs@.subrange(a as int, e as int), n)),
            None => keyword_suffix(cs@.subrange(a as int, b as int), kw@) is None,
        },
{
    let ghost t = cs@.subrange(a as int, b as int);
    let nd = needle(kw);
    assert(low@.subrange(0, low@.len() as int) =~= low@);
    let idx = match rfind_in(low, 0, low.len(), &nd) {
        Some(i) => i,
        None => {
            return None;
        },
    };
    proof {
        crate::text::lemma_rfind_below_bounds(low@, kw@, low@.len() - kw@.len() + 1);
    }
    if !(idx > 0 && (is_whitespace(cs[a + idx - 1]) || cs[a + idx - 1] == '-' || cs[a + idx - 1]
        == '\u{2013}')) {
        return None;
    }
    assert(t.subrange(idx as int, t.len() as int) =~= cs@.subrange(a + idx, b as int));
    let n = match disc_number_in(cs, a + idx, b) {
        Some(n) => n,
        None => {
            return None;
        },
    };
    let mut e = a + idx;
    while e > a && (cs[e - 1] == '-' || cs[e - 1] == '\u{2013}' || cs[e - 1] == ' ')
        invariant
            a <= e <= a + idx <= b <= cs@.len(),
            strip_dangling(cs@.subrange(a as int, a + idx)) == strip_dangling(
                cs@.subrange(a as int, e as int),
            ),
        decreases e,
    {
        assert(cs@.subrange(a as int, e as int).drop_last() =~= cs@.subrange(a as int, e - 1));
        e = e - 1;
    }
    assert(t.subrange(0, idx as int) =~= cs@.subrange(a as int, a + idx));
    if e == a {
        return None;
    }
    Some((e, n))
}

/// Strips the disc-number suffixes rippers put on album names — "Album (1)",
/// "Album [2]", "Album (Disc 2)", "Album CD1", "Album - Disc 3" — so that a
/// multi-disc release groups as one album, and gives the number found.
/// Names like "Volumen 4" or "Vol III" are left alone: a bare trailing number
/// only counts inside `()` or `[]`, or after a cd/disc/disk keyword.
pub fn normalize_album(raw: &str) -> (r: (String, Option<u32>))
    ensures
        r.0@ == normalized_album(raw@).0,
        r.1 == normalized_album(raw@).1,
{
    let cs = chars_of(raw);
    let (a, b) = trim_bounds(&cs, 0, cs.len());
    assert(cs@.subrange(0, cs@.len() as int) =~= cs@);
    if let Some((e, n)) = bracket_in(&cs, a, b, '(', ')') {
        return (substring(&cs, a, e), Some(n));
    }
    if let Some((e, n)) = bracket_in(&cs, a, b, '[', ']') {
        return (substring(&cs, a, e), Some(n));
    }
    let low = lower_window(&cs, a, b);
    proof {
        reveal_strlit("disc");
        reveal_strlit("disk");
        reveal_strlit("cd");
        assert("disc"@ =~= kw_disc());
        assert("disk"@ =~= kw_disk());
        assert("cd"@ =~= kw_cd());
    }
    if let Some((e, n)) = keyword_in(&cs, a, b, &low, "disc") {
        return (substring(&cs, a, e), Some(n));
    }
    if let Some((e, n)) = keyword_in(&cs, a, b, &low, "disk") {
        return (substring(&cs, a, e), Some(n));
    }
    if let Some((e, n)) = keyword_in(&cs, a, b, &low, "cd") {
        return (substring(&cs, a, e), Some(n));
    }
    (substring(&cs, a, b), None)
}

} // verus!

verus! {

// ---------------------------------------------------------------- genres

/// The separators of a genre tag: `;`, `/` and `,`.
pub open spec fn is_genre_sep(c: char) -> bool {
    c == ';' || c == '/' || c == ','
}

/// `str::split` on the genre separators: the pieces between them, empty
/// ones included.
pub open spec fn genre_pieces(s: Seq<char>) -> Seq<Seq<char>>
    decreases s.len(),
{
    if s.len() == 0 {
        seq![Seq::empty()]
    } else {
        let p = genre_pieces(s.drop_last());
        if is_genre_sep(s.last()) {
            p.push(Seq::empty())
        } else {
            p.update(p.len() - 1, p.last().push(s.last()))
        }
    }
}

/// Each piece trimmed, the empty ones dropped.
pub open spec fn named_pieces(p: Seq<Seq<char>>) -> Seq<Seq<char>>
    decreases p.len(),
{
    if p.len() == 0 {
        Seq::empty()
    } else {
        let rest = named_pieces(p.drop_last());
        if trim(p.last()).len() > 0 {
            rest.push(trim(p.last()))
        } else {
            rest
        }
    }
}

/// The genre names of a tag value such as "Rock; Pop/Indie".
pub open spec fn genre_names(s: Seq<char>) -> Seq<Seq<char>> {
    named_pieces(genre_pieces(s))
}

pub open spec fn string_views(v: Seq<String>) -> Seq<Seq<char>> {
    v.map_values(|x: String| x@)
}

pub proof fn lemma_genre_pieces_len(s: Seq<char>)
    ensures
        genre_pieces(s).len() >= 1,
    decreases s.len(),
{
    if s.len() > 0 {
        lemma_genre_pieces_len(s.drop_last());
    }
}

/// Splits a genre tag on `;`, `/` and `,`, trims each name and drops the
/// empty ones.
pub fn split_genres(g: &str) -> (r: Vec<String>)
    ensures
        string_views(r@) == genre_names(g@),
{
    let cs = chars_of(g);
    let n = cs.len();
    let mut out: Vec<String> = Vec::new();
    let mut start: usize = 0;
    let mut i: usize = 0;
    let ghost mut done: Seq<Seq<char>> = Seq::empty();
    assert(cs@.subrange(0, 0) =~= Seq::<char>::empty());
    assert(genre_pieces(Seq::<char>::empty()) =~= seq![Seq::<char>::empty()]);
    while i < n
        invariant
            n == cs@.len(),
            start <= i <= n,
            genre_pieces(cs@.subrange(0, i as int)) == done.push(cs@.subrange(start as int, i as int)),
            string_views(out@) == named_pieces(done),
        decreases n - i,
    {
        let c = cs[i];
        let ghost pre = cs@.subrange(0, i as int);
        assert(cs@.subrange(0, i + 1).drop_last() =~= pre);
        assert(cs@.subrange(0, i + 1).last() == c);
        if c == ';' || c == '/' || c == ',' {
            let (ta, tb) = trim_bounds(&cs, start, i);
            proof {
                let piece = cs@.subrange(start as int, i as int);
                assert(done.push(piece).drop_last() =~= done);
                assert(done.push(piece).last() == piece);
            }
            if ta < tb {
                let ghost before = out@;
                out.push(substring(&cs, ta, tb));
                assert(string_views(out@) =~= string_views(before).push(
                    cs@.subrange(ta as int, tb as int),
                ));
            }
            proof {
                done = done.push(cs@.subrange(start as int, i as int));
            }
            start = i + 1;
            assert(cs@.subrange(start as int, i + 1) =~= Seq::<char>::empty());
        } else {
            proof {
                let p = done.push(cs@.subrange(start as int, i as int));
                assert(cs@.subrange(start as int, i + 1) =~= cs@.subrange(start as int, i as int).push(c));
                assert(p.update(p.len() - 1, p.last().push(c)) =~= done.push(
                    cs@.subrange(start as int, i + 1),
                ));
            }
        }
        i = i + 1;
    }
    assert(cs@.subrange(0, n as int) =~= cs@);
    let (ta, tb) = trim_bounds(&cs, start, n);
    proof {
        let piece = cs@.subrange(start as int, n as int);
        assert(done.push(piece).drop_last() =~= done);
    }
    if ta < tb {
        let ghost before = out@;
        out.push(substring(&cs, ta, tb));
        assert(string_views(out@) =~= string_views(before).push(cs@.subrange(ta as int, tb as int)));
    }
    out
}

} // verus!

verus! {

// ---------------------------------------------------------------- laws

/// A disc number read from an album name always lies in 1..=20, and a name
/// that yields none comes back merely trimmed.
pub proof fn law_album_disc_in_range(raw: Seq<char>)
    ensures
        normalized_album(raw).1 matches Some(n) ==> 1 <= n <= 20,
        normalized_album(raw).1 is None ==> normalized_album(raw).0 == trim(raw),
{
}

proof fn lemma_pieces_have_no_sep(s: Seq<char>)
    ensures
        forall|k: int, j: int|
            0 <= k < genre_pieces(s).len() && 0 <= j < genre_pieces(s)[k].len() ==> !is_genre_sep(
                #[trigger] genre_pieces(s)[k][j],
            ),
    decreases s.len(),
{
    if s.len() > 0 {
        lemma_pieces_have_no_sep(s.drop_last());
        lemma_genre_pieces_len(s.drop_last());
    }
}

proof fn lemma_trim_is_inner(x: Seq<char>)
    ensures
        trim(x).len() > 0 ==> !is_ws(trim(x)[0]) && !is_ws(trim(x).last()),
        forall|j: int| 0 <= j < trim(x).len() ==> exists|i: int| 0 <= i < x.len() && #[trigger] trim(x)[j] == x[i],
{
    crate::text::lemma_trim_start_index_bounds(x, 0, x.len() as int);
    let a = crate::text::trim_start_index(x, 0, x.len() as int);
    let ts = x.subrange(a, x.len() as int);
    crate::text::lemma_trim_end_index_bounds(ts, 0, ts.len() as int);
    let b = crate::text::trim_end_index(ts, 0, ts.len() as int);
    assert(trim(x) == ts.subrange(0, b));
    if b > 0 {
        crate::text::lemma_trim_start_index_bounds(ts, 0, b);
        assert(trim(x)[0] == x[a]);
    }
    assert forall|j: int| 0 <= j < trim(x).len() implies exists|i: int|
        0 <= i < x.len() && #[trigger] trim(x)[j] == x[i] by {
        assert(trim(x)[j] == x[a + j]);
    }
}

proof fn lemma_named_pieces(p: Seq<Seq<char>>)
    ensures
        forall|k: int| 0 <= k < named_pieces(p).len() ==> exists|m: int| 0 <= m < p.len() && #[trigger] named_pieces(p)[k] == trim(p[m]),
        forall|k: int| 0 <= k < named_pieces(p).len() ==> (#[trigger] named_pieces(p)[k]).len() > 0,
    decreases p.len(),
{
    if p.len() > 0 {
        lemma_named_pieces(p.drop_last());
        let rest = named_pieces(p.drop_last());
        assert forall|k: int| 0 <= k < named_pieces(p).len() implies exists|m: int|
            0 <= m < p.len() && #[trigger] named_pieces(p)[k] == trim(p[m]) by {
            if k < rest.len() {
                let m = choose|m: int| 0 <= m < p.drop_last().len() && rest[k] == trim(p.drop_last()[m]);
                assert(p[m] == p.drop_last()[m]);
            } else {
                assert(named_pieces(p)[k] == trim(p[p.len() - 1]));
            }
        }
    }
}

/// Every genre name is non-empty, holds no separator, and neither starts
/// nor ends with whitespace.
pub proof fn law_genre_names_are_clean(s: Seq<char>)
    ensures
        forall|k: int| 0 <= k < genre_names(s).len() ==> {
            let g = #[trigger] genre_names(s)[k];
            &&& g.len() > 0
            &&& !is_ws(g[0])
            &&& !is_ws(g.last())
            &&& forall|j: int| 0 <= j < g.len() ==> !is_genre_sep(g[j])
        },
{
    let p = genre_pieces(s);
    lemma_pieces_have_no_sep(s);
    lemma_named_pieces(p);
    assert forall|k: int| 0 <= k < genre_names(s).len() implies {
        let g = #[trigger] genre_names(s)[k];
        &&& g.len() > 0
        &&& !is_ws(g[0])
        &&& !is_ws(g.last())
        &&& forall|j: int| 0 <= j < g.len() ==> !is_genre_sep(g[j])
    } by {
        let g = genre_names(s)[k];
        let m = choose|m: int| 0 <= m < p.len() && g == trim(p[m]);
        lemma_trim_is_inner(p[m]);
        assert forall|j: int| 0 <= j < g.len() implies !is_genre_sep(g[j]) by {
            let i = choose|i: int| 0 <= i < p[m].len() && trim(p[m])[j] == p[m][i];
            assert(!is_genre_sep(p[m][i]));
        }
    }
}

} // verus!

verus! {

// ---------------------------------------------------------------- formats

/// The container formats the tag reader tells apart.
#[derive(Debug, Clone, Copy, PartialEq, Eq, Structural)]
pub enum AudioFormat {
    Flac,
    Mpeg,
    Mp4,
    Aac,
    Opus,
    Vorbis,
    Wav,
    Aiff,
    Other,
}

/// The codec shown for a format.
pub open spec fn codec_label(f: AudioFormat) -> Seq<char> {
    match f {
        AudioFormat::Flac => "FLAC"@,
        AudioFormat::Mpeg => "MP3"@,
        AudioFormat::Mp4 | AudioFormat::Aac => "AAC"@,
        AudioFormat::Opus => "Opus"@,
        AudioFormat::Vorbis => "Vorbis"@,
        AudioFormat::Wav => "PCM (WAV)"@,
        AudioFormat::Aiff => "PCM (AIFF)"@,
        AudioFormat::Other => "Unknown"@,
    }
}

/// The codec name stored for a track. AAC and ALAC inside MP4 both read as
/// AAC here; playback refines it.
pub fn codec_name(f: AudioFormat) -> (s: String)
    ensures
        s@ == codec_label(f),
{
    let t: &str = match f {
        AudioFormat::Flac => "FLAC",
        AudioFormat::Mpeg => "MP3",
        AudioFormat::Mp4 | AudioFormat::Aac => "AAC",
        AudioFormat::Opus => "Opus",
        AudioFormat::Vorbis => "Vorbis",
        AudioFormat::Wav => "PCM (WAV)",
        AudioFormat::Aiff => "PCM (AIFF)",
        AudioFormat::Other => "Unknown",
    };
    t.to_string()
}

/// What `str::to_uppercase` gives for a string (full Unicode case mapping).
pub uninterp spec fn upper_cased(s: Seq<char>) -> Seq<char>;

/// `str::to_uppercase`.
#[verifier::external_body]
fn to_upper(s: &str) -> (r: String)
    ensures
        r@ == upper_cased(s@),
{
    s.to_uppercase()
}

/// The container shown for a format: a fixed name for the formats the
/// reader knows, else the file's extension in upper case, else "Unknown".
pub open spec fn container_label(path: Seq<char>, f: AudioFormat) -> Seq<char> {
    match f {
        AudioFormat::Flac => "FLAC"@,
        AudioFormat::Mpeg => "MPEG"@,
        AudioFormat::Mp4 => "MP4"@,
        AudioFormat::Opus | AudioFormat::Vorbis => "Ogg"@,
        AudioFormat::Wav => "WAV"@,
        AudioFormat::Aiff => "AIFF"@,
        _ => match extension(path) {
            Some(e) => upper_cased(e),
            None => "Unknown"@,
        },
    }
}

pub fn container_name(path: &str, f: AudioFormat) -> (s: String)
    ensures
        s@ == container_label(path@, f),
{
    match f {
        AudioFormat::Flac => "FLAC".to_string(),
        AudioFormat::Mpeg => "MPEG".to_string(),
        AudioFormat::Mp4 => "MP4".to_string(),
        AudioFormat::Opus | AudioFormat::Vorbis => "Ogg".to_string(),
        AudioFormat::Wav => "WAV".to_string(),
        AudioFormat::Aiff => "AIFF".to_string(),
        _ => match path_extension(path) {
            Some(e) => to_upper(e.as_str()),
            None => "Unknown".to_string(),
        },
    }
}

} // verus!

verus! {

/// Names without a disc suffix come back merely trimmed: a name that ends
/// in neither `)` nor `]` and holds none of the keywords disc, disk or cd
/// (in any case) is never touched, so "Volumen 4" and "Vol III" survive.
pub proof fn law_plain_names_untouched(raw: Seq<char>)
    requires
        trim(raw).len() == 0 || (trim(raw).last() != ')' && trim(raw).last() != ']'),
        forall|i: int| !crate::text::occurs_at(lower_seq(trim(raw)), kw_disc(), i),
        forall|i: int| !crate::text::occurs_at(lower_seq(trim(raw)), kw_disk(), i),
        forall|i: int| !crate::text::occurs_at(lower_seq(trim(raw)), kw_cd(), i),
    ensures
        normalized_album(raw) == (trim(raw), Option::<u32>::None),
{
    let l = lower_seq(trim(raw));
    crate::text::lemma_rfind_below_bounds(l, kw_disc(), l.len() - kw_disc().len() + 1);
    crate::text::lemma_rfind_below_bounds(l, kw_disk(), l.len() - kw_disk().len() + 1);
    crate::text::lemma_rfind_below_bounds(l, kw_cd(), l.len() - kw_cd().len() + 1);
}

} // verus!

verus! {

// ---------------------------------------------------------------- tag fields

/// What a file's tag holds, field by field, as the tag reader gave it
/// (`None` where the tag has no such field, or the file no tag).
#[derive(Debug, Clone)]
pub struct RawTags {
    pub title: Option<String>,
    pub artist: Option<String>,
    pub album_artist: Option<String>,
    pub album: Option<String>,
    pub genre: Option<String>,
    pub track_no: Option<u32>,
    pub disc_no: Option<u32>,
}

/// The names a track is filed under, resolved from its tag.
#[derive(Debug, Clone)]
pub struct TagNames {
    pub title: String,
    pub artist: String,
    pub album_artist: String,
    pub album: Option<String>,
    pub track_no: Option<u32>,
    pub disc_no: Option<u32>,
    pub genres: Vec<String>,
}

/// The title: the tag's, else the file name without its extension, else
/// `unknown`.
pub open spec fn title_of(tag: Option<Seq<char>>, stem: Option<Seq<char>>) -> Seq<char> {
    match tag {
        Some(t) => t,
        None => match stem {
            Some(s) => s,
            None => "unknown"@,
        },
    }
}

/// The artist: the tag's, else `Unknown Artist`.
pub open spec fn artist_of(tag: Option<Seq<char>>) -> Seq<char> {
    match tag {
        Some(a) => a,
        None => "Unknown Artist"@,
    }
}

/// The album artist: the tag's, trimmed, unless that is blank; then the
/// artist.
pub open spec fn album_artist_of(tag: Option<Seq<char>>, artist: Seq<char>) -> Seq<char> {
    match tag {
        Some(a) => if trim(a).len() > 0 {
            trim(a)
        } else {
            artist
        },
        None => artist,
    }
}

/// The disc number: the tag's own, else the one read off the album name.
pub open spec fn disc_of(tag: Option<u32>, album: Option<Seq<char>>) -> Option<u32> {
    match tag {
        Some(d) => Some(d),
        None => match album {
            Some(a) => normalized_album(a).1,
            None => None,
        },
    }
}

pub open spec fn opt_view(s: Option<String>) -> Option<Seq<char>> {
    match s {
        Some(x) => Some(x@),
        None => None,
    }
}

/// `s` without leading and trailing whitespace, if anything is left.
fn trimmed_nonblank(s: &str) -> (r: Option<String>)
    ensures
        match r {
            Some(t) => trim(s@).len() > 0 && t@ == trim(s@),
            None => trim(s@).len() == 0,
        },
{
    let cs = chars_of(s);
    let (a, b) = trim_bounds(&cs, 0, cs.len());
    assert(cs@.subrange(0, cs@.len() as int) =~= cs@);
    if a < b {
        Some(substring(&cs, a, b))
    } else {
        None
    }
}

/// Resolves the names of a track from its tag fields and the file name
/// without extension (`stem`): fallbacks for a missing title and artist,
/// the album artist falling back to the artist, the album cleaned of a
/// disc suffix (whose number stands in for a missing disc tag), and the
/// genre split into names.
pub fn resolve_tags(raw: RawTags, stem: Option<String>) -> (t: TagNames)
    ensures
        t.title@ == title_of(opt_view(raw.title), opt_view(stem)),
        t.artist@ == artist_of(opt_view(raw.artist)),
        t.album_artist@ == album_artist_of(opt_view(raw.album_artist), t.artist@),
        match raw.album {
            Some(a) => t.album is Some && t.album->0@ == normalized_album(a@).0,
            None => t.album is None,
        },
        t.disc_no == disc_of(raw.disc_no, opt_view(raw.album)),
        t.track_no == raw.track_no,
        string_views(t.genres@) == match raw.genre {
            Some(g) => genre_names(g@),
            None => Seq::<Seq<char>>::empty(),
        },
{
    let title = match raw.title {
        Some(t) => t,
        None => match stem {
            Some(s) => s,
            None => "unknown".to_string(),
        },
    };
    let artist = match raw.artist {
        Some(a) => a,
        None => "Unknown Artist".to_string(),
    };
    let album_artist = match &raw.album_artist {
        Some(a) => match trimmed_nonblank(a.as_str()) {
            Some(t) => t,
            None => artist.clone(),
        },
        None => artist.clone(),
    };
    let (album, album_disc) = match &raw.album {
        Some(a) => {
            let (clean, disc) = normalize_album(a.as_str());
            (Some(clean), disc)
        },
        None => (None, None),
    };
    let disc_no = match raw.disc_no {
        Some(d) => Some(d),
        None => album_disc,
    };
    let genres = match &raw.genre {
        Some(g) => split_genres(g.as_str()),
        None => {
            let v: Vec<String> = Vec::new();
            assert(string_views(v@) =~= Seq::<Seq<char>>::empty());
            v
        },
    };
    TagNames { title, artist, album_artist, album, track_no: raw.track_no, disc_no, genres }
}

} // verus!
