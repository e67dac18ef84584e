//! Numbers as the standard library's `f64` parser reads them, evaluated
//! exactly in integers: sample rates such as `44.1k`, `96k` or `1e3k`.
use vstd::prelude::*;

use crate::text::{
    all_digits, digit_value, digits_value, find, find_in, is_digit, lower_char, lower_seq, needle,
    push_all, signed_text_value, slice_chars, window_is,
};

verus! {

// ---------------------------------------------------------------- arithmetic

/// Ten to the power `n`.
pub open spec fn pow10(n: nat) -> nat
    decreases n,
{
    if n == 0 {
        1
    } else {
        10 * pow10((n - 1) as nat)
    }
}

/// `n × 10^k`, rounded half up when `k` is negative.
pub open spec fn shift_round(n: nat, k: int) -> nat {
    if k >= 0 {
        n * pow10(k as nat)
    } else {
        ((n + 5 * pow10((-k - 1) as nat)) / pow10((-k) as nat)) as nat
    }
}

/// `v`, but no more than `cap`.
pub open spec fn capped(v: int, cap: int) -> int {
    if v < cap {
        v
    } else {
        cap
    }
}

proof fn lemma_pow10_positive(n: nat)
    ensures
        pow10(n) >= 1,
        pow10(n) >= n + 1,
    decreases n,
{
    if n > 0 {
        lemma_pow10_positive((n - 1) as nat);
    }
}

proof fn lemma_pow10_mono(a: nat, b: nat)
    requires
        a <= b,
    ensures
        pow10(a) <= pow10(b),
    decreases b,
{
    if a < b {
        lemma_pow10_mono(a, (b - 1) as nat);
        lemma_pow10_positive((b - 1) as nat);
    }
}

proof fn lemma_all_digits_sub(s: Seq<char>, a: int, b: int)
    requires
        all_digits(s),
        0 <= a <= b <= s.len(),
    ensures
        all_digits(s.subrange(a, b)),
{
    assert forall|i: int| 0 <= i < b - a implies is_digit(#[trigger] s.subrange(a, b)[i]) by {
        assert(s.subrange(a, b)[i] == s[a + i]);
    }
}

/// A run of `n` digits is worth less than `10^n`.
proof fn lemma_digits_bound(s: Seq<char>)
    requires
        all_digits(s),
    ensures
        0 <= digits_value(s) < pow10(s.len()),
    decreases s.len(),
{
    if s.len() > 0 {
        lemma_all_digits_sub(s, 0, s.len() - 1);
        assert(s.drop_last() == s.subrange(0, s.len() - 1));
        lemma_digits_bound(s.drop_last());
        assert(is_digit(s[s.len() - 1]));
        let p = pow10((s.len() - 1) as nat);
        let v = digits_value(s.drop_last());
        let d = digit_value(s.last());
        assert(v * 10 + d < 10 * p) by (nonlinear_arith)
            requires
                0 <= v < p,
                0 <= d <= 9,
        ;
    }
}

/// Digits written after others: `value(a ++ b) = value(a)·10^|b| + value(b)`.
proof fn lemma_digits_concat(a: Seq<char>, b: Seq<char>)
    ensures
        digits_value(a + b) == digits_value(a) * pow10(b.len()) + digits_value(b),
    decreases b.len(),
{
    if b.len() == 0 {
        assert(a + b == a);
        assert(pow10(0) == 1);
        assert(digits_value(a) * 1 == digits_value(a));
    } else {
        let b1 = b.drop_last();
        assert((a + b).drop_last() == a + b1);
        assert((a + b).last() == b.last());
        lemma_digits_concat(a, b1);
        let va = digits_value(a);
        let p = pow10(b1.len());
        let v1 = digits_value(b1);
        let d = digit_value(b.last());
        assert(pow10(b.len()) == 10 * p);
        assert(digits_value(b) == v1 * 10 + d);
        assert(digits_value(a + b) == digits_value(a + b1) * 10 + d);
        assert((va * p + v1) * 10 + d == va * (10 * p) + (v1 * 10 + d)) by (nonlinear_arith);
    }
}

/// The leading digit's weight: `value(b) = b[0]·10^(|b|-1) + value(rest)`.
proof fn lemma_digits_lead(b: Seq<char>)
    requires
        b.len() > 0,
    ensures
        digits_value(b) == digit_value(b[0]) * pow10((b.len() - 1) as nat) + digits_value(
            b.drop_first(),
        ),
{
    let h = seq![b[0]];
    assert(h + b.drop_first() == b);
    lemma_digits_concat(h, b.drop_first());
    assert(h.drop_last() =~= Seq::<char>::empty());
    assert(h.len() == 1 && h.last() == b[0]);
    assert(digits_value(Seq::<char>::empty()) == 0);
    assert(digits_value(h) == digits_value(h.drop_last()) * 10 + digit_value(h.last()));
    assert(digits_value(h) == digit_value(b[0]));
}

/// A number of at most `|s| < m` digits rounds to nothing at `10^-m`.
proof fn lemma_shift_round_vanishes(s: Seq<char>, m: int)
    requires
        all_digits(s),
        m > s.len(),
    ensures
        shift_round(digits_value(s) as nat, -m) == 0,
{
    lemma_digits_bound(s);
    lemma_pow10_mono(s.len(), (m - 1) as nat);
    let q: int = pow10((m - 1) as nat) as int;
    assert(pow10(m as nat) == 10 * q);
    let n = digits_value(s);
    assert(0 <= n + 5 * q < 10 * q);
    vstd::arithmetic::div_mod::lemma_fundamental_div_mod_converse(n + 5 * q, 10 * q, 0, n + 5 * q);
}

/// Rounding at `10^-m` keeps the leading digits and looks at the first
/// dropped one.
proof fn lemma_shift_round_split(s: Seq<char>, m: int)
    requires
        all_digits(s),
        1 <= m <= s.len(),
    ensures
        shift_round(digits_value(s) as nat, -m) == digits_value(s.subrange(0, s.len() - m)) + (
        if digit_value(s[s.len() - m]) >= 5 {
            1int
        } else {
            0int
        }),
{
    let head = s.subrange(0, s.len() - m);
    let tail = s.subrange(s.len() - m, s.len() as int);
    assert(head + tail == s);
    lemma_digits_concat(head, tail);
    lemma_all_digits_sub(s, 0, s.len() - m);
    lemma_all_digits_sub(s, s.len() - m, s.len() as int);
    lemma_digits_bound(head);
    lemma_digits_lead(tail);
    assert(tail.drop_first() == s.subrange(s.len() - m + 1, s.len() as int));
    lemma_all_digits_sub(s, s.len() - m + 1, s.len() as int);
    lemma_digits_bound(tail.drop_first());
    assert(tail[0] == s[s.len() - m]);
    assert(is_digit(s[s.len() - m]));
    let q: int = pow10((m - 1) as nat) as int;
    assert(pow10(m as nat) == 10 * q);
    let h = digits_value(head);
    let d = digit_value(tail[0]);
    let r = digits_value(tail.drop_first());
    let n = digits_value(s);
    assert(n == h * (10 * q) + d * q + r);
    let up: int = if d >= 5 {
        1
    } else {
        0
    };
    let rest = if d >= 5 {
        (d - 5) * q + r
    } else {
        (d + 5) * q + r
    };
    assert(n + 5 * q == (h + up) * (10 * q) + rest) by (nonlinear_arith)
        requires
            n == h * (10 * q) + d * q + r,
            up == (if d >= 5 {
                1int
            } else {
                0int
            }),
            rest == (if d >= 5 {
                (d - 5) * q + r
            } else {
                (d + 5) * q + r
            }),
    ;
    assert(0 <= rest < 10 * q) by (nonlinear_arith)
        requires
            0 <= d <= 9,
            0 <= r < q,
            rest == (if d >= 5 {
                (d - 5) * q + r
            } else {
                (d + 5) * q + r
            }),
    ;
    vstd::arithmetic::div_mod::lemma_fundamental_div_mod_converse(n + 5 * q, 10 * q, h + up, rest);
}

// ---------------------------------------------------------------- grammar

/// Index of the first `e` or `E` at or after `i`.
pub open spec fn exp_at(b: Seq<char>, i: int) -> Option<int>
    decreases b.len() - i,
{
    if i < 0 || i >= b.len() {
        None
    } else if b[i] == 'e' || b[i] == 'E' {
        Some(i)
    } else {
        exp_at(b, i + 1)
    }
}

proof fn lemma_exp_at_bounds(b: Seq<char>, i: int)
    ensures
        exp_at(b, i) matches Some(j) ==> 0 <= i <= j < b.len() && (b[j] == 'e' || b[j] == 'E'),
    decreases b.len() - i,
{
    if 0 <= i < b.len() && !(b[i] == 'e' || b[i] == 'E') {
        lemma_exp_at_bounds(b, i + 1);
    }
}

/// A mantissa `digits[.digits]` with at least one digit: (integer digits,
/// fraction digits).
pub open spec fn mantissa_parts(m: Seq<char>) -> Option<(Seq<char>, Seq<char>)> {
    match find(m, "."@) {
        Some(d) => {
            let ip = m.subrange(0, d);
            let fp = m.subrange(d + 1, m.len() as int);
            if all_digits(ip) && all_digits(fp) && ip.len() + fp.len() > 0 {
                Some((ip, fp))
            } else {
                None
            }
        },
        None => if m.len() > 0 && all_digits(m) {
            Some((m, Seq::<char>::empty()))
        } else {
            None
        },
    }
}

/// What an unsigned `f64` text denotes.
pub enum FloatForm {
    /// `digits × 10^scale`.
    Finite(Seq<char>, int),
    Infinite,
    NotANumber,
}

/// The grammar of `f64::from_str` after its sign: `inf`, `infinity` or
/// `nan` in any ASCII case, or a mantissa with an optional exponent
/// `e`/`E` followed by an optionally signed run of digits.
pub open spec fn float_form(b: Seq<char>) -> Option<FloatForm> {
    let l = lower_seq(b);
    if l == "inf"@ || l == "infinity"@ {
        Some(FloatForm::Infinite)
    } else if l == "nan"@ {
        Some(FloatForm::NotANumber)
    } else {
        match exp_at(b, 0) {
            Some(i) => match (
                mantissa_parts(b.subrange(0, i)),
                signed_text_value(b.subrange(i + 1, b.len() as int)),
            ) {
                (Some((ip, fp)), Some(e)) => Some(FloatForm::Finite(ip + fp, e - fp.len())),
                _ => None,
            },
            None => match mantissa_parts(b) {
                Some((ip, fp)) => Some(FloatForm::Finite(ip + fp, -(fp.len() as int))),
                None => None,
            },
        }
    }
}

pub open spec fn saturate_i64(v: int) -> i64 {
    if v > i64::MAX {
        i64::MAX
    } else if v < i64::MIN {
        i64::MIN
    } else {
        v as i64
    }
}

/// A `k`-suffixed number (`44.1k`, `96k`, `1e3k`): the text before the `k`
/// read as `f64::from_str` reads it, times 1000, rounded half away from
/// zero and saturated to the `i64` range, all computed exactly; an
/// infinity saturates and NaN is 0.
pub open spec fn kilo_spec(m: Seq<char>) -> Option<i64> {
    let neg = m.len() > 0 && m[0] == '-';
    let body = if m.len() > 0 && (m[0] == '-' || m[0] == '+') {
        m.drop_first()
    } else {
        m
    };
    match float_form(body) {
        Some(FloatForm::Finite(ds, scale)) => {
            let v = shift_round(digits_value(ds) as nat, scale + 3) as int;
            Some(
                saturate_i64(
                    if neg {
                        -v
                    } else {
                        v
                    },
                ),
            )
        },
        Some(FloatForm::Infinite) => Some(
            if neg {
                i64::MIN
            } else {
                i64::MAX
            },
        ),
        Some(FloatForm::NotANumber) => Some(0i64),
        None => None,
    }
}

// ---------------------------------------------------------------- evaluation

/// 2^64: above every magnitude an `i64` can take.
pub const MAG_CAP: u128 = 0x1_0000_0000_0000_0000u128;

/// 2^100: exponents beyond this decide the same as this.
pub const EXP_CAP: u128 = 0x10_0000_0000_0000_0000_0000_0000u128;

fn digits_capped(ds: &Vec<char>, lo: usize, hi: usize, cap: u128) -> (r: u128)
    requires
        lo <= hi <= ds@.len(),
        all_digits(ds@.subrange(lo as int, hi as int)),
        0 < cap <= EXP_CAP,
    ensures
        r == capped(digits_value(ds@.subrange(lo as int, hi as int)), cap as int),
{
    let mut acc: u128 = 0;
    let mut i = lo;
    assert(ds@.subrange(lo as int, lo as int) =~= Seq::<char>::empty());
    while i < hi
        invariant
            lo <= i <= hi <= ds@.len(),
            all_digits(ds@.subrange(lo as int, hi as int)),
            0 < cap <= EXP_CAP,
            acc == capped(digits_value(ds@.subrange(lo as int, i as int)), cap as int),
        decreases hi - i,
    {
        let ghost pre = ds@.subrange(lo as int, i as int);
        let ghost next = ds@.subrange(lo as int, i + 1);
        assert(next.drop_last() == pre);
        assert(next.last() == ds@[i as int]);
        assert(ds@.subrange(lo as int, hi as int)[i - lo] == ds@[i as int]);
        assert(is_digit(ds@[i as int]));
        proof {
            lemma_all_digits_sub(ds@.subrange(lo as int, hi as int), 0, i - lo);
            assert(ds@.subrange(lo as int, hi as int).subrange(0, i - lo) == pre);
            lemma_digits_bound(pre);
        }
        let d = (ds[i] as u32 - '0' as u32) as u128;
        if acc < cap {
            let v = acc * 10 + d;
            acc = if v < cap {
                v
            } else {
                cap
            };
        }
        i = i + 1;
    }
    acc
}

/// `capped(shift_round(value(ds), k), 2^64)`.
fn shift_round_capped(ds: &Vec<char>, k: i128) -> (r: u128)
    requires
        all_digits(ds@),
        -4 * EXP_CAP <= k <= 4 * EXP_CAP,
    ensures
        r == capped(shift_round(digits_value(ds@) as nat, k as int) as int, MAG_CAP as int),
{
    let len = ds.len();
    assert(ds@.subrange(0, len as int) == ds@);
    proof {
        lemma_digits_bound(ds@);
    }
    if k >= 0 {
        let n = digits_capped(ds, 0, len, MAG_CAP);
        let mut acc = n;
        assert(pow10(0) == 1);
        assert(digits_value(ds@) * pow10(0) == digits_value(ds@));
        let mut j: i128 = 0;
        while j < k && 0 < acc && acc < MAG_CAP
            invariant
                0 <= j <= k,
                all_digits(ds@),
                digits_value(ds@) >= 0,
                acc == capped(digits_value(ds@) * pow10(j as nat), MAG_CAP as int),
                acc == 0 ==> digits_value(ds@) == 0,
            decreases k - j,
        {
            let ghost nv = digits_value(ds@);
            let ghost p = pow10(j as nat);
            assert(pow10((j + 1) as nat) == 10 * p);
            assert(nv * (10 * p) == (nv * p) * 10) by (nonlinear_arith);
            proof {
                lemma_pow10_positive(j as nat);
            }
            assert(nv * p >= 0) by (nonlinear_arith)
                requires
                    nv >= 0,
                    p >= 1,
            ;
            let v = acc * 10;
            acc = if v < MAG_CAP {
                v
            } else {
                MAG_CAP
            };
            j = j + 1;
        }
        proof {
            let nv = digits_value(ds@);
            lemma_pow10_positive(k as nat);
            lemma_pow10_mono(j as nat, k as nat);
            let pj = pow10(j as nat);
            let pk = pow10(k as nat);
            if acc == 0 {
                assert(nv * pk == 0);
            } else if acc >= MAG_CAP {
                assert(nv * pj <= nv * pk) by (nonlinear_arith)
                    requires
                        nv >= 0,
                        pj <= pk,
                ;
            }
        }
        acc
    } else {
        let m: i128 = -k;
        if m > len as i128 {
            proof {
                lemma_shift_round_vanishes(ds@, m as int);
            }
            0
        } else {
            let cut = len - (m as usize);
            proof {
                lemma_shift_round_split(ds@, m as int);
                lemma_all_digits_sub(ds@, 0, cut as int);
                lemma_digits_bound(ds@.subrange(0, cut as int));
            }
            let h = digits_capped(ds, 0, cut, MAG_CAP);
            assert(is_digit(ds@[cut as int]));
            let up: u128 = if ds[cut] >= '5' {
                1
            } else {
                0
            };
            if h >= MAG_CAP {
                MAG_CAP
            } else {
                let v = h + up;
                if v < MAG_CAP {
                    v
                } else {
                    MAG_CAP
                }
            }
        }
    }
}

/// Exponents of magnitude beyond `EXP_CAP` decide as `EXP_CAP` does: the
/// result overflows (or is 0 for a zero mantissa), or rounds to 0.
proof fn lemma_exponent_cap(ds: Seq<char>, e: int, f: int, e_capped: int)
    requires
        all_digits(ds),
        0 <= f < 0x1_0000_0000_0000_0000,
        ds.len() < 0x1_0000_0000_0000_0000,
        e_capped == if e > EXP_CAP {
            EXP_CAP as int
        } else if e < -EXP_CAP {
            -EXP_CAP
        } else {
            e
        },
    ensures
        capped(shift_round(digits_value(ds) as nat, e - f + 3) as int, MAG_CAP as int) == capped(
            shift_round(digits_value(ds) as nat, e_capped - f + 3) as int,
            MAG_CAP as int,
        ),
{
    lemma_digits_bound(ds);
    let n = digits_value(ds);
    if e > EXP_CAP {
        let k1 = e - f + 3;
        let k2 = e_capped - f + 3;
        lemma_pow10_positive(k1 as nat);
        lemma_pow10_positive(k2 as nat);
        if n > 0 {
            assert(n * pow10(k1 as nat) >= pow10(k1 as nat)) by (nonlinear_arith)
                requires
                    n >= 1,
                    pow10(k1 as nat) >= 1,
            ;
            assert(n * pow10(k2 as nat) >= pow10(k2 as nat)) by (nonlinear_arith)
                requires
                    n >= 1,
                    pow10(k2 as nat) >= 1,
            ;
        } else {
            assert(n * pow10(k1 as nat) == 0) by (nonlinear_arith)
                requires
                    n == 0,
            ;
            assert(n * pow10(k2 as nat) == 0) by (nonlinear_arith)
                requires
                    n == 0,
            ;
        }
    } else if e < -EXP_CAP {
        lemma_shift_round_vanishes(ds, -(e - f + 3));
        lemma_shift_round_vanishes(ds, -(e_capped - f + 3));
    }
}

/// Whether `cs[lo..hi]` lower-cases to the lower-case word `lit`.
fn is_word_ci(cs: &Vec<char>, lo: usize, hi: usize, lit: &str) -> (b: bool)
    requires
        lo <= hi <= cs@.len(),
    ensures
        b == (lower_seq(cs@.subrange(lo as int, hi as int)) == lit@),
{
    let mut low: Vec<char> = Vec::new();
    let mut i = lo;
    while i < hi
        invariant
            lo <= i <= hi <= cs@.len(),
            low@ == lower_seq(cs@.subrange(lo as int, i as int)),
        decreases hi - i,
    {
        let c = crate::text::ascii_lower_char(cs[i]);
        low.push(c);
        assert(low@ =~= lower_seq(cs@.subrange(lo as int, i + 1)));
        i = i + 1;
    }
    let n = low.len();
    let r = window_is(&low, 0, n, lit);
    assert(low@.subrange(0, n as int) == low@);
    r
}

/// The first `e`/`E` in `cs[lo..hi]`, as an offset from `lo`.
fn exp_index(cs: &Vec<char>, lo: usize, hi: usize) -> (r: Option<usize>)
    requires
        lo <= hi <= cs@.len(),
    ensures
        match r {
            Some(i) => exp_at(cs@.subrange(lo as int, hi as int), 0) == Some(i as int),
            None => exp_at(cs@.subrange(lo as int, hi as int), 0) is None,
        },
{
    let ghost b = cs@.subrange(lo as int, hi as int);
    let mut i = lo;
    while i < hi
        invariant
            lo <= i <= hi <= cs@.len(),
            b == cs@.subrange(lo as int, hi as int),
            exp_at(b, 0) == exp_at(b, i - lo),
        decreases hi - i,
    {
        assert(b[i - lo] == cs@[i as int]);
        if cs[i] == 'e' || cs[i] == 'E' {
            return Some(i - lo);
        }
        i = i + 1;
    }
    None
}

/// The mantissa `cs[lo..hi]` split at its point into integer and
/// fraction digits, as positions: `(int_end, frac_start)`.
fn mantissa_split(cs: &Vec<char>, lo: usize, hi: usize) -> (r: Option<(usize, usize)>)
    requires
        lo <= hi <= cs@.len(),
    ensures
        match r {
            Some((a, b)) => lo <= a <= b <= hi && mantissa_parts(cs@.subrange(lo as int, hi as int))
                == Some((cs@.subrange(lo as int, a as int), cs@.subrange(b as int, hi as int))),
            None => mantissa_parts(cs@.subrange(lo as int, hi as int)) is None,
        },
{
    let ghost m = cs@.subrange(lo as int, hi as int);
    let dot = needle(".");
    proof {
        reveal_strlit(".");
    }
    let (int_end, frac_start) = match find_in(cs, lo, hi, &dot) {
        Some(d) => {
            proof {
                crate::text::lemma_find_from_bounds(m, "."@, 0);
            }
            (lo + d, lo + d + 1)
        },
        None => (hi, hi),
    };
    assert(cs@.subrange(lo as int, int_end as int) == m.subrange(0, int_end - lo));
    assert(cs@.subrange(frac_start as int, hi as int) == m.subrange(frac_start - lo, m.len() as int));
    if !crate::search::parser::all_digits_in(cs, lo, int_end) || !crate::search::parser::all_digits_in(
        cs,
        frac_start,
        hi,
    ) {
        return None;
    }
    if int_end - lo + (hi - frac_start) == 0 {
        return None;
    }
    assert(find(m, "."@) is None ==> cs@.subrange(frac_start as int, hi as int) =~= Seq::<char>::empty()
        && cs@.subrange(lo as int, int_end as int) =~= m);
    Some((int_end, frac_start))
}

/// The exponent `cs[lo..hi]` (optional sign, one or more digits), its
/// magnitude capped at `EXP_CAP`.
fn exponent_capped(cs: &Vec<char>, lo: usize, hi: usize) -> (r: Option<i128>)
    requires
        lo <= hi <= cs@.len(),
    ensures
        match r {
            Some(e) => signed_text_value(cs@.subrange(lo as int, hi as int)) matches Some(v) && e
                == (if v > EXP_CAP {
                EXP_CAP as int
            } else if v < -EXP_CAP {
                -EXP_CAP
            } else {
                v
            }),
            None => signed_text_value(cs@.subrange(lo as int, hi as int)) is None,
        },
{
    let ghost s = cs@.subrange(lo as int, hi as int);
    let signed = lo < hi && (cs[lo] == '+' || cs[lo] == '-');
    let start = if signed {
        lo + 1
    } else {
        lo
    };
    assert(signed ==> s.drop_first() == cs@.subrange(start as int, hi as int));
    assert(!signed ==> s == cs@.subrange(start as int, hi as int));
    if start == hi || !crate::search::parser::all_digits_in(cs, start, hi) {
        return None;
    }
    let mag = digits_capped(cs, start, hi, EXP_CAP);
    proof {
        crate::text::lemma_digits_value_nonneg(cs@.subrange(start as int, hi as int));
    }
    if signed && cs[lo] == '-' {
        Some(-(mag as i128))
    } else {
        Some(mag as i128)
    }
}

/// The `k`-suffixed text `cs[lo..hi]` (without its `k`), read as
/// `kilo_spec` says.
pub fn parse_kilo(cs: &Vec<char>, lo: usize, hi: usize) -> (r: Option<i64>)
    requires
        lo <= hi <= cs@.len(),
    ensures
        r == kilo_spec(cs@.subrange(lo as int, hi as int)),
{
    let ghost m = cs@.subrange(lo as int, hi as int);
    let neg = lo < hi && cs[lo] == '-';
    let start = if lo < hi && (cs[lo] == '-' || cs[lo] == '+') {
        lo + 1
    } else {
        lo
    };
    let ghost body = cs@.subrange(start as int, hi as int);
    assert(lo < hi && (m[0] == '-' || m[0] == '+') ==> body == m.drop_first());
    assert(!(lo < hi && (m[0] == '-' || m[0] == '+')) ==> body == m);
    if is_word_ci(cs, start, hi, "inf") || is_word_ci(cs, start, hi, "infinity") {
        return Some(
            if neg {
                i64::MIN
            } else {
                i64::MAX
            },
        );
    }
    if is_word_ci(cs, start, hi, "nan") {
        return Some(0);
    }
    let (mant_end, exp): (usize, i128) = match exp_index(cs, start, hi) {
        Some(i) => {
            proof {
                lemma_exp_at_bounds(body, 0);
            }
            assert(cs@.subrange(start as int, (start + i) as int) == body.subrange(0, i as int));
            assert(cs@.subrange((start + i + 1) as int, hi as int) == body.subrange(
                i + 1,
                body.len() as int,
            ));
            match exponent_capped(cs, start + i + 1, hi) {
                Some(e) => (start + i, e),
                None => {
                    return None;
                },
            }
        },
        None => (hi, 0),
    };
    let (int_end, frac_start) = match mantissa_split(cs, start, mant_end) {
        Some(p) => p,
        None => {
            return None;
        },
    };
    let ghost ip = cs@.subrange(start as int, int_end as int);
    let ghost fp = cs@.subrange(frac_start as int, mant_end as int);
    let mut ds: Vec<char> = slice_chars(cs, start, int_end);
    let frac = slice_chars(cs, frac_start, mant_end);
    push_all(&mut ds, &frac);
    assert(ds@ == ip + fp);
    assert(all_digits(ds@)) by {
        assert forall|i: int| 0 <= i < ds@.len() implies is_digit(#[trigger] ds@[i]) by {
            if i < ip.len() {
                assert(ds@[i] == ip[i]);
            } else {
                assert(ds@[i] == fp[i - ip.len()]);
            }
        }
    }
    let f = (mant_end - frac_start) as i128;
    let k = exp - f + 3;
    let v = shift_round_capped(&ds, k);
    proof {
        if exp_at(body, 0) is Some {
            let e = signed_text_value(body.subrange(exp_at(body, 0)->0 + 1, body.len() as int))->0;
            lemma_exponent_cap(ds@, e, f as int, exp as int);
        } else {
            assert(fp.len() == f);
        }
    }
    if neg {
        if v >= 0x8000_0000_0000_0000u128 {
            Some(i64::MIN)
        } else {
            Some(-(v as i64))
        }
    } else {
        if v > 0x7FFF_FFFF_FFFF_FFFFu128 {
            Some(i64::MAX)
        } else {
            Some(v as i64)
        }
    }
}

} // verus!
