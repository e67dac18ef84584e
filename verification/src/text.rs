//! Character-level building blocks shared by the parsers: whitespace and
//! case rules, trimming, searching, and decimal conversions, each with the
//! specification the rest of the library is proved against.
use vstd::prelude::*;

verus! {

/// `char::is_whitespace`: the Unicode `White_Space` property.
pub open spec fn is_ws(c: char) -> bool {
    ||| '\t' <= c && c <= '\r'
    ||| c == ' '
    ||| c == '\u{85}'
    ||| c == '\u{A0}'
    ||| c == '\u{1680}'
    ||| '\u{2000}' <= c && c <= '\u{200A}'
    ||| c == '\u{2028}'
    ||| c == '\u{2029}'
    ||| c == '\u{202F}'
    ||| c == '\u{205F}'
    ||| c == '\u{3000}'
}

pub fn is_whitespace(c: char) -> (b: bool)
    ensures
        b == is_ws(c),
{
    ('\t' <= c && c <= '\r') || c == ' ' || c == '\u{85}' || c == '\u{A0}' || c == '\u{1680}'
        || ('\u{2000}' <= c && c <= '\u{200A}') || c == '\u{2028}' || c == '\u{2029}'
        || c == '\u{202F}' || c == '\u{205F}' || c == '\u{3000}'
}

/// ASCII upper-case letters map to their lower-case forms; every other
/// character is left as it is.
pub open spec fn lower_char(c: char) -> char {
    if 'A' <= c && c <= 'Z' {
        ((c as u32) + 32) as char
    } else {
        c
    }
}

pub open spec fn lower_seq(s: Seq<char>) -> Seq<char> {
    s.map_values(|c: char| lower_char(c))
}

pub fn ascii_lower_char(c: char) -> (r: char)
    ensures
        r == lower_char(c),
{
    if 'A' <= c && c <= 'Z' {
        let b: u8 = (c as u8) + 32;
        b as char
    } else {
        c
    }
}

/// `str::chars`, collected: the characters of `s`, in order.
#[verifier::external_body]
pub(crate) fn chars_of(s: &str) -> (v: Vec<char>)
    ensures
        v@ == s@,
{
    s.chars().collect()
}

/// A `String` collected from a char iterator: exactly the characters of
/// `v`, in order.
#[verifier::external_body]
pub(crate) fn string_of(v: &[char]) -> (s: String)
    ensures
        s@ == v@,
{
    v.iter().collect()
}

/// The characters `cs[lo..hi]` as a new vector.
pub fn slice_chars(cs: &Vec<char>, lo: usize, hi: usize) -> (v: Vec<char>)
    requires
        lo <= hi <= cs@.len(),
    ensures
        v@ == cs@.subrange(lo as int, hi as int),
{
    let mut v: Vec<char> = Vec::new();
    let mut i = lo;
    while i < hi
        invariant
            lo <= i <= hi <= cs@.len(),
            v@ == cs@.subrange(lo as int, i as int),
        decreases hi - i,
    {
        v.push(cs[i]);
        i = i + 1;
    }
    v
}

/// The string `cs[lo..hi]`.
pub fn substring(cs: &Vec<char>, lo: usize, hi: usize) -> (s: String)
    requires
        lo <= hi <= cs@.len(),
    ensures
        s@ == cs@.subrange(lo as int, hi as int),
{
    let v = slice_chars(cs, lo, hi);
    string_of(v.as_slice())
}

/// Appends every character of `src` to `out`.
pub fn push_all(out: &mut Vec<char>, src: &Vec<char>)
    ensures
        final(out)@ == old(out)@ + src@,
{
    let mut i: usize = 0;
    while i < src.len()
        invariant
            i <= src@.len(),
            out@ == old(out)@ + src@.subrange(0, i as int),
        decreases src@.len() - i,
    {
        out.push(src[i]);
        i = i + 1;
        assert(src@.subrange(0, i as int) == src@.subrange(0, i - 1) + seq![src@[i - 1]]);
    }
    assert(src@.subrange(0, src@.len() as int) == src@);
}

/// Appends the characters of the string slice `s` to `out`.
pub fn push_str(out: &mut Vec<char>, s: &str)
    ensures
        final(out)@ == old(out)@ + s@,
{
    let cs = chars_of(s);
    push_all(out, &cs);
}

/// `s[lo..hi]` with leading whitespace removed: the new start index.
pub open spec fn trim_start_index(s: Seq<char>, lo: int, hi: int) -> int
    decreases hi - lo,
{
    if lo < hi && is_ws(s[lo]) {
        trim_start_index(s, lo + 1, hi)
    } else {
        lo
    }
}

/// `s[lo..hi]` with trailing whitespace removed: the new end index.
pub open spec fn trim_end_index(s: Seq<char>, lo: int, hi: int) -> int
    decreases hi - lo,
{
    if lo < hi && is_ws(s[hi - 1]) {
        trim_end_index(s, lo, hi - 1)
    } else {
        hi
    }
}

/// `str::trim_start`.
pub open spec fn trim_start(s: Seq<char>) -> Seq<char> {
    s.subrange(trim_start_index(s, 0, s.len() as int), s.len() as int)
}

/// `str::trim_end`.
pub open spec fn trim_end(s: Seq<char>) -> Seq<char> {
    s.subrange(0, trim_end_index(s, 0, s.len() as int))
}

/// `str::trim`.
pub open spec fn trim(s: Seq<char>) -> Seq<char> {
    trim_end(trim_start(s))
}

pub proof fn lemma_trim_start_index_bounds(s: Seq<char>, lo: int, hi: int)
    requires
        lo <= hi,
    ensures
        lo <= trim_start_index(s, lo, hi) <= hi,
        forall|k: int| lo <= k < trim_start_index(s, lo, hi) ==> is_ws(#[trigger] s[k]),
        trim_start_index(s, lo, hi) < hi ==> !is_ws(s[trim_start_index(s, lo, hi)]),
    decreases hi - lo,
{
    if lo < hi && is_ws(s[lo]) {
        lemma_trim_start_index_bounds(s, lo + 1, hi);
    }
}

pub proof fn lemma_trim_end_index_bounds(s: Seq<char>, lo: int, hi: int)
    requires
        lo <= hi,
    ensures
        lo <= trim_end_index(s, lo, hi) <= hi,
        forall|k: int| trim_end_index(s, lo, hi) <= k < hi ==> is_ws(#[trigger] s[k]),
        lo < trim_end_index(s, lo, hi) ==> !is_ws(s[trim_end_index(s, lo, hi) - 1]),
    decreases hi - lo,
{
    if lo < hi && is_ws(s[hi - 1]) {
        lemma_trim_end_index_bounds(s, lo, hi - 1);
    }
}

/// Start index of `cs[lo..hi]` once leading whitespace is skipped.
pub fn skip_ws_start(cs: &Vec<char>, lo: usize, hi: usize) -> (r: usize)
    requires
        lo <= hi <= cs@.len(),
    ensures
        r == trim_start_index(cs@, lo as int, hi as int),
        lo <= r <= hi,
{
    proof {
        lemma_trim_start_index_bounds(cs@, lo as int, hi as int);
    }
    let mut i = lo;
    while i < hi && is_whitespace(cs[i])
        invariant
            lo <= i <= hi <= cs@.len(),
            trim_start_index(cs@, i as int, hi as int) == trim_start_index(cs@, lo as int, hi as int),
        decreases hi - i,
    {
        i = i + 1;
    }
    i
}

/// End index of `cs[lo..hi]` once trailing whitespace is dropped.
pub fn skip_ws_end(cs: &Vec<char>, lo: usize, hi: usize) -> (r: usize)
    requires
        lo <= hi <= cs@.len(),
    ensures
        r == trim_end_index(cs@, lo as int, hi as int),
        lo <= r <= hi,
{
    proof {
        lemma_trim_end_index_bounds(cs@, lo as int, hi as int);
    }
    let mut j = hi;
    while lo < j && is_whitespace(cs[j - 1])
        invariant
            lo <= j <= hi <= cs@.len(),
            trim_end_index(cs@, lo as int, j as int) == trim_end_index(cs@, lo as int, hi as int),
        decreases j - lo,
    {
        j = j - 1;
    }
    j
}

pub proof fn lemma_trim_start_shift(s: Seq<char>, lo: int, hi: int)
    requires
        0 <= lo <= hi <= s.len(),
    ensures
        trim_start_index(s, lo, hi) - lo == trim_start_index(s.subrange(lo, hi), 0, hi - lo),
    decreases hi - lo,
{
    let t = s.subrange(lo, hi);
    if lo < hi && is_ws(s[lo]) {
        lemma_trim_start_shift(s, lo + 1, hi);
        assert(s.subrange(lo + 1, hi) == t.subrange(1, t.len() as int));
        lemma_trim_start_offset(t, 1, t.len() as int);
    }
}

/// Trimming a suffix window of `s` is trimming `s` there, shifted.
pub proof fn lemma_trim_start_offset(t: Seq<char>, lo: int, hi: int)
    requires
        0 <= lo <= hi == t.len(),
    ensures
        trim_start_index(t, lo, hi) - lo == trim_start_index(t.subrange(lo, hi), 0, hi - lo),
    decreases hi - lo,
{
    let u = t.subrange(lo, hi);
    if lo < hi && is_ws(t[lo]) {
        lemma_trim_start_offset(t, lo + 1, hi);
        assert(t.subrange(lo + 1, hi) == u.subrange(1, u.len() as int));
        lemma_trim_start_offset(u, 1, u.len() as int);
    }
}

pub proof fn lemma_trim_end_shift(s: Seq<char>, lo: int, hi: int)
    requires
        0 <= lo <= hi <= s.len(),
    ensures
        trim_end_index(s, lo, hi) - lo == trim_end_index(s.subrange(lo, hi), 0, hi - lo),
    decreases hi - lo,
{
    let t = s.subrange(lo, hi);
    if lo < hi && is_ws(s[hi - 1]) {
        lemma_trim_end_shift(s, lo, hi - 1);
        assert(s.subrange(lo, hi - 1) == t.subrange(0, t.len() - 1));
        lemma_trim_end_prefix(t, t.len() - 1);
    }
}

pub proof fn lemma_trim_end_prefix(t: Seq<char>, hi: int)
    requires
        0 <= hi <= t.len(),
    ensures
        trim_end_index(t, 0, hi) == trim_end_index(t.subrange(0, hi), 0, hi),
    decreases hi,
{
    let u = t.subrange(0, hi);
    if 0 < hi && is_ws(t[hi - 1]) {
        lemma_trim_end_prefix(t, hi - 1);
        assert(u.subrange(0, hi - 1) == t.subrange(0, hi - 1));
        lemma_trim_end_prefix(u, hi - 1);
    }
}

/// The window `cs[lo..hi]` trimmed on both sides, as bounds into `cs`.
pub fn trim_bounds(cs: &Vec<char>, lo: usize, hi: usize) -> (r: (usize, usize))
    requires
        lo <= hi <= cs@.len(),
    ensures
        lo <= r.0 <= r.1 <= hi,
        cs@.subrange(r.0 as int, r.1 as int) == trim(cs@.subrange(lo as int, hi as int)),
{
    let a = skip_ws_start(cs, lo, hi);
    let b = skip_ws_end(cs, a, hi);
    proof {
        let w = cs@.subrange(lo as int, hi as int);
        lemma_trim_start_shift(cs@, lo as int, hi as int);
        let ts = trim_start(w);
        assert(ts == cs@.subrange(a as int, hi as int));
        lemma_trim_end_shift(cs@, a as int, hi as int);
        assert(trim(w) == ts.subrange(0, trim_end_index(ts, 0, ts.len() as int)));
    }
    (a, b)
}


pub open spec fn is_digit(c: char) -> bool {
    '0' <= c && c <= '9'
}

pub open spec fn digit_value(c: char) -> int {
    (c as int) - ('0' as int)
}

pub open spec fn all_digits(s: Seq<char>) -> bool {
    forall|i: int| 0 <= i < s.len() ==> is_digit(#[trigger] s[i])
}

/// The number written by a run of decimal digits.
pub open spec fn digits_value(s: Seq<char>) -> int
    decreases s.len(),
{
    if s.len() == 0 {
        0
    } else {
        digits_value(s.drop_last()) * 10 + digit_value(s.last())
    }
}

/// The integer denoted by `s` under the grammar of the standard library's
/// integer `FromStr`: an optional `+` or `-` sign, then one or more digits.
pub open spec fn signed_text_value(s: Seq<char>) -> Option<int> {
    if s.len() > 0 && (s[0] == '+' || s[0] == '-') {
        let rest = s.drop_first();
        if rest.len() > 0 && all_digits(rest) {
            Some(if s[0] == '-' { -digits_value(rest) } else { digits_value(rest) })
        } else {
            None
        }
    } else if s.len() > 0 && all_digits(s) {
        Some(digits_value(s))
    } else {
        None
    }
}

/// `str::parse::<i64>`.
pub open spec fn parse_i64_spec(s: Seq<char>) -> Option<i64> {
    match signed_text_value(s) {
        Some(v) => if i64::MIN <= v <= i64::MAX {
            Some(v as i64)
        } else {
            None
        },
        None => None,
    }
}

/// `str::parse::<u32>`: like the signed grammar, but a `-` sign is an
/// invalid digit.
pub open spec fn parse_u32_spec(s: Seq<char>) -> Option<u32> {
    if s.len() > 0 && s[0] == '-' {
        None
    } else {
        match signed_text_value(s) {
            Some(v) => if 0 <= v <= u32::MAX {
                Some(v as u32)
            } else {
                None
            },
            None => None,
        }
    }
}

/// `str::parse::<u64>`.
pub open spec fn parse_u64_spec(s: Seq<char>) -> Option<u64> {
    if s.len() > 0 && s[0] == '-' {
        None
    } else {
        match signed_text_value(s) {
            Some(v) => if 0 <= v <= u64::MAX {
                Some(v as u64)
            } else {
                None
            },
            None => None,
        }
    }
}

pub proof fn lemma_digits_value_nonneg(s: Seq<char>)
    requires
        all_digits(s),
    ensures
        digits_value(s) >= 0,
    decreases s.len(),
{
    if s.len() > 0 {
        assert(all_digits(s.drop_last())) by {
            assert forall|i: int| 0 <= i < s.drop_last().len() implies is_digit(
                #[trigger] s.drop_last()[i],
            ) by {
                assert(s.drop_last()[i] == s[i]);
            }
        }
        lemma_digits_value_nonneg(s.drop_last());
        assert(is_digit(s[s.len() - 1]));
    }
}

/// Appending digits never makes the value smaller.
pub proof fn lemma_digits_value_grows(s: Seq<char>, k: int)
    requires
        all_digits(s),
        0 <= k <= s.len(),
    ensures
        digits_value(s.subrange(0, k)) <= digits_value(s),
    decreases s.len() - k,
{
    if k < s.len() {
        let t = s.subrange(0, k + 1);
        assert(t.drop_last() == s.subrange(0, k));
        assert(all_digits(s.subrange(0, k))) by {
            assert forall|i: int| 0 <= i < k implies is_digit(#[trigger] s.subrange(0, k)[i]) by {
                assert(s.subrange(0, k)[i] == s[i]);
            }
        }
        lemma_digits_value_nonneg(s.subrange(0, k));
        assert(is_digit(s[k]));
        assert(t.last() == s[k]);
        lemma_digits_value_grows(s, k + 1);
        assert(s.subrange(0, s.len() as int) == s);
    } else {
        assert(s.subrange(0, k) == s);
    }
}

/// The value of the digit run `cs[lo..hi]` when it fits in a `u64`;
/// `None` when it does not or when a non-digit occurs.
pub fn digits_u64(cs: &Vec<char>, lo: usize, hi: usize) -> (r: Option<u64>)
    requires
        lo <= hi <= cs@.len(),
    ensures
        ({
            let w = cs@.subrange(lo as int, hi as int);
            match r {
                Some(v) => all_digits(w) && v == digits_value(w),
                None => !all_digits(w) || digits_value(w) > u64::MAX,
            }
        }),
{
    let ghost w = cs@.subrange(lo as int, hi as int);
    let mut acc: u64 = 0;
    let mut i = lo;
    while i < hi
        invariant
            lo <= i <= hi <= cs@.len(),
            w == cs@.subrange(lo as int, hi as int),
            all_digits(w.subrange(0, i - lo)),
            acc == digits_value(w.subrange(0, i - lo)),
        decreases hi - i,
    {
        let c = cs[i];
        let ghost p = w.subrange(0, i - lo + 1);
        assert(p.drop_last() == w.subrange(0, i - lo));
        assert(p.last() == c);
        if !('0' <= c && c <= '9') {
            assert(!all_digits(w)) by {
                assert(w[i - lo] == c);
            }
            return None;
        }
        let d: u64 = (c as u64) - ('0' as u64);
        assert(all_digits(p)) by {
            assert forall|k: int| 0 <= k < p.len() implies is_digit(#[trigger] p[k]) by {
                if k < p.len() - 1 {
                    assert(p[k] == w.subrange(0, i - lo)[k]);
                }
            }
        }
        match acc.checked_mul(10) {
            Some(m) => match m.checked_add(d) {
                Some(n) => {
                    acc = n;
                },
                None => {
                    proof { lemma_tail_digits(w, i - lo + 1); }
                    return None;
                },
            },
            None => {
                proof { lemma_tail_digits(w, i - lo + 1); }
                return None;
            },
        }
        i = i + 1;
    }
    assert(w.subrange(0, hi - lo) == w);
    Some(acc)
}

/// Once a prefix of a digit run is too large, either the run is not all
/// digits or its whole value is too large as well.
proof fn lemma_tail_digits(w: Seq<char>, k: int)
    requires
        0 <= k <= w.len(),
        all_digits(w.subrange(0, k)),
        digits_value(w.subrange(0, k)) > u64::MAX,
    ensures
        !all_digits(w) || digits_value(w) > u64::MAX,
{
    if all_digits(w) {
        lemma_digits_value_grows(w, k);
    }
}

/// `str::parse::<i64>` over the window `cs[lo..hi]`.
pub fn parse_i64(cs: &Vec<char>, lo: usize, hi: usize) -> (r: Option<i64>)
    requires
        lo <= hi <= cs@.len(),
    ensures
        r == parse_i64_spec(cs@.subrange(lo as int, hi as int)),
{
    let ghost w = cs@.subrange(lo as int, hi as int);
    if lo < hi && (cs[lo] == '+' || cs[lo] == '-') {
        assert(w.drop_first() == cs@.subrange(lo + 1, hi as int));
        if lo + 1 == hi {
            return None;
        }
        match digits_u64(cs, lo + 1, hi) {
            Some(m) => {
                if cs[lo] == '-' {
                    if m <= 9223372036854775808u64 {
                        if m == 9223372036854775808u64 {
                            Some(i64::MIN)
                        } else {
                            Some(-(m as i64))
                        }
                    } else {
                        None
                    }
                } else {
                    if m <= 9223372036854775807u64 {
                        Some(m as i64)
                    } else {
                        None
                    }
                }
            },
            None => None,
        }
    } else {
        if lo == hi {
            return None;
        }
        match digits_u64(cs, lo, hi) {
            Some(m) => {
                if m <= 9223372036854775807u64 {
                    Some(m as i64)
                } else {
                    None
                }
            },
            None => None,
        }
    }
}

/// `str::parse::<u64>` over the window `cs[lo..hi]`.
pub fn parse_u64(cs: &Vec<char>, lo: usize, hi: usize) -> (r: Option<u64>)
    requires
        lo <= hi <= cs@.len(),
    ensures
        r == parse_u64_spec(cs@.subrange(lo as int, hi as int)),
{
    let ghost w = cs@.subrange(lo as int, hi as int);
    if lo == hi || cs[lo] == '-' {
        return None;
    }
    if cs[lo] == '+' {
        assert(w.drop_first() == cs@.subrange(lo + 1, hi as int));
        if lo + 1 == hi {
            return None;
        }
        digits_u64(cs, lo + 1, hi)
    } else {
        digits_u64(cs, lo, hi)
    }
}

/// `str::parse::<u32>` over the window `cs[lo..hi]`.
pub fn parse_u32(cs: &Vec<char>, lo: usize, hi: usize) -> (r: Option<u32>)
    requires
        lo <= hi <= cs@.len(),
    ensures
        r == parse_u32_spec(cs@.subrange(lo as int, hi as int)),
{
    match parse_u64(cs, lo, hi) {
        Some(v) => if v <= 4294967295u64 {
            Some(v as u32)
        } else {
            None
        },
        None => None,
    }
}

pub open spec fn digit_char(d: nat) -> char {
    ((d % 10) + 48) as char
}

/// Decimal digits of `n`, most significant first, no leading zeros.
pub open spec fn nat_text(n: nat) -> Seq<char>
    decreases n,
{
    if n < 10 {
        seq![digit_char(n)]
    } else {
        nat_text(n / 10).push(digit_char(n % 10))
    }
}

/// Decimal text of a signed integer, with a leading `-` when negative.
pub open spec fn int_text(n: int) -> Seq<char> {
    if n < 0 {
        seq!['-'] + nat_text((-n) as nat)
    } else {
        nat_text(n as nat)
    }
}

/// Appends the decimal digits of `n`.
pub fn push_u64(out: &mut Vec<char>, n: u64)
    ensures
        final(out)@ == old(out)@ + nat_text(n as nat),
    decreases n,
{
    if n >= 10 {
        push_u64(out, n / 10);
    }
    let d: u8 = (n % 10) as u8;
    out.push((d + 48) as char);
    assert(digit_char(n as nat) == ((d + 48) as char));
}

/// Appends the decimal text of `n`.
pub fn push_i64(out: &mut Vec<char>, n: i64)
    ensures
        final(out)@ == old(out)@ + int_text(n as int),
{
    if n < 0 {
        out.push('-');
        let m: u64 = if n == i64::MIN {
            9223372036854775808u64
        } else {
            (-n) as u64
        };
        push_u64(out, m);
        assert(old(out)@.push('-') + nat_text(m as nat) == old(out)@ + (seq!['-'] + nat_text(m as nat)));
    } else {
        push_u64(out, n as u64);
    }
}

/// Decimal text of `n`.
pub fn u64_text(n: u64) -> (s: String)
    ensures
        s@ == nat_text(n as nat),
{
    let mut v: Vec<char> = Vec::new();
    push_u64(&mut v, n);
    string_of(v.as_slice())
}

/// Decimal text of `n`.
pub fn i64_text(n: i64) -> (s: String)
    ensures
        s@ == int_text(n as int),
{
    let mut v: Vec<char> = Vec::new();
    push_i64(&mut v, n);
    string_of(v.as_slice())
}


/// Whether the window `cs[lo..hi]` reads exactly `lit`.
pub fn window_is(cs: &Vec<char>, lo: usize, hi: usize, lit: &str) -> (r: bool)
    requires
        lo <= hi <= cs@.len(),
    ensures
        r == (cs@.subrange(lo as int, hi as int) == lit@),
{
    let n = lit.unicode_len();
    if hi - lo != n {
        return false;
    }
    let mut i: usize = 0;
    while i < n
        invariant
            n == lit@.len(),
            hi - lo == n,
            lo <= hi <= cs@.len(),
            i <= n,
            forall|k: int| 0 <= k < i ==> cs@[lo + k] == lit@[k],
        decreases n - i,
    {
        if cs[lo + i] != lit.get_char(i) {
            assert(cs@.subrange(lo as int, hi as int)[i as int] != lit@[i as int]);
            return false;
        }
        i = i + 1;
    }
    assert(cs@.subrange(lo as int, hi as int) =~= lit@);
    true
}

/// Whether `needle` occurs in `s` starting at index `i`.
pub open spec fn occurs_at(s: Seq<char>, needle: Seq<char>, i: int) -> bool {
    0 <= i && i + needle.len() <= s.len() && s.subrange(i, i + needle.len()) == needle
}

/// First index at or after `i` where `needle` occurs (`str::find` from `i`).
pub open spec fn find_from(s: Seq<char>, needle: Seq<char>, i: int) -> Option<int>
    decreases s.len() + 1 - i,
{
    if i < 0 || i + needle.len() > s.len() {
        None
    } else if occurs_at(s, needle, i) {
        Some(i)
    } else {
        find_from(s, needle, i + 1)
    }
}

/// `str::find`: the first index where `needle` occurs.
pub open spec fn find(s: Seq<char>, needle: Seq<char>) -> Option<int> {
    find_from(s, needle, 0)
}

/// Last index below `i` (exclusive bound on the start) where `needle`
/// occurs.
pub open spec fn rfind_below(s: Seq<char>, needle: Seq<char>, i: int) -> Option<int>
    decreases i,
{
    if i <= 0 {
        None
    } else if occurs_at(s, needle, i - 1) {
        Some(i - 1)
    } else {
        rfind_below(s, needle, i - 1)
    }
}

/// `str::rfind`: the last index where `needle` occurs.
pub open spec fn rfind(s: Seq<char>, needle: Seq<char>) -> Option<int> {
    if needle.len() > s.len() {
        None
    } else {
        rfind_below(s, needle, s.len() - needle.len() + 1)
    }
}

pub proof fn lemma_find_from_bounds(s: Seq<char>, needle: Seq<char>, i: int)
    ensures
        find_from(s, needle, i) matches Some(k) ==> i <= k && occurs_at(s, needle, k),
    decreases s.len() + 1 - i,
{
    if !(i < 0 || i + needle.len() > s.len()) && !occurs_at(s, needle, i) {
        lemma_find_from_bounds(s, needle, i + 1);
    }
}

pub proof fn lemma_rfind_below_bounds(s: Seq<char>, needle: Seq<char>, i: int)
    ensures
        rfind_below(s, needle, i) matches Some(k) ==> 0 <= k < i && occurs_at(s, needle, k),
    decreases i,
{
    if i > 0 && !occurs_at(s, needle, i - 1) {
        lemma_rfind_below_bounds(s, needle, i - 1);
    }
}

/// Whether `needle` occurs in `cs[lo..hi]` at `lo + i`.
fn matches_at(cs: &Vec<char>, lo: usize, hi: usize, needle: &Vec<char>, i: usize) -> (r: bool)
    requires
        lo <= hi <= cs@.len(),
        i <= hi - lo,
    ensures
        r == occurs_at(cs@.subrange(lo as int, hi as int), needle@, i as int),
{
    let ghost w = cs@.subrange(lo as int, hi as int);
    let n = needle.len();
    if n > hi - lo - i {
        return false;
    }
    let mut k: usize = 0;
    while k < n
        invariant
            lo <= hi <= cs@.len(),
            w == cs@.subrange(lo as int, hi as int),
            n == needle@.len(),
            i + n <= hi - lo,
            k <= n,
            forall|j: int| 0 <= j < k ==> w[i + j] == needle@[j],
        decreases n - k,
    {
        if cs[lo + i + k] != needle[k] {
            assert(w.subrange(i as int, i + n)[k as int] != needle@[k as int]);
            return false;
        }
        k = k + 1;
    }
    assert(w.subrange(i as int, i + n) =~= needle@);
    true
}

/// `str::find` over the window `cs[lo..hi]`; the index is relative to `lo`.
pub fn find_in(cs: &Vec<char>, lo: usize, hi: usize, needle: &Vec<char>) -> (r: Option<usize>)
    requires
        lo <= hi <= cs@.len(),
    ensures
        r matches Some(k) ==> find(cs@.subrange(lo as int, hi as int), needle@) == Some(k as int),
        r is None ==> find(cs@.subrange(lo as int, hi as int), needle@) is None,
{
    let ghost w = cs@.subrange(lo as int, hi as int);
    let n = needle.len();
    if n > hi - lo {
        return None;
    }
    if n == 0 {
        assert(w.subrange(0, 0) =~= needle@);
        assert(occurs_at(w, needle@, 0));
        return Some(0);
    }
    let mut i: usize = 0;
    while i <= hi - lo - n
        invariant
            lo <= hi <= cs@.len(),
            w == cs@.subrange(lo as int, hi as int),
            n == needle@.len(),
            0 < n <= hi - lo,
            i <= hi - lo - n + 1,
            find(w, needle@) == find_from(w, needle@, i as int),
        decreases hi - lo - n + 1 - i,
    {
        if matches_at(cs, lo, hi, needle, i) {
            return Some(i);
        }
        i = i + 1;
    }
    None
}

/// `str::rfind` over the window `cs[lo..hi]`; the index is relative to `lo`.
pub fn rfind_in(cs: &Vec<char>, lo: usize, hi: usize, needle: &Vec<char>) -> (r: Option<usize>)
    requires
        lo <= hi <= cs@.len(),
    ensures
        r matches Some(k) ==> rfind(cs@.subrange(lo as int, hi as int), needle@) == Some(k as int),
        r is None ==> rfind(cs@.subrange(lo as int, hi as int), needle@) is None,
{
    let ghost w = cs@.subrange(lo as int, hi as int);
    let n = needle.len();
    if n > hi - lo {
        return None;
    }
    let mut i: usize = hi - lo - n;
    loop
        invariant
            lo <= hi <= cs@.len(),
            w == cs@.subrange(lo as int, hi as int),
            n == needle@.len(),
            n <= hi - lo,
            i <= hi - lo - n,
            rfind(w, needle@) == rfind_below(w, needle@, i + 1),
        decreases i,
    {
        if matches_at(cs, lo, hi, needle, i) {
            return Some(i);
        }
        if i == 0 {
            assert(rfind_below(w, needle@, 0) is None);
            return None;
        }
        i = i - 1;
    }
}

/// The characters of a string slice, as a vector (for needles).
pub fn needle(s: &str) -> (v: Vec<char>)
    ensures
        v@ == s@,
{
    chars_of(s)
}

} // verus!
