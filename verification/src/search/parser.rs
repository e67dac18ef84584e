//! Query text to AST. A query is split on whitespace (double quotes group
//! words into one token and are dropped); a token is either
//! `field<op>value` for a known field, or a bare full-text term.
use vstd::prelude::*;

use crate::search::decimal::{kilo_spec, parse_kilo};
use crate::search::schema::{
    field_in, field_model, lemma_added_is_the_date_field, FieldDef, FieldModel,
    FieldType,
};
use crate::text::{
    all_digits, chars_of, digit_value, digits_u64, digits_value, find, is_whitespace, is_ws,
    needle, parse_i64, parse_i64_spec, push_all, push_str, string_of, substring, find_in,
    window_is,
};

verus! {

#[derive(Debug, PartialEq, Eq)]
pub enum SearchError {
    UnknownField(String),
    InvalidValue { field: String, value: String },
    InvalidOp { op: String, field: String },
    Execution(String),
}

#[derive(Debug, Clone, Copy, PartialEq, Eq, Structural)]
pub enum Op {
    Eq,
    Gt,
    Gte,
    Lt,
    Lte,
}

#[derive(Debug, PartialEq)]
pub enum Value {
    Text(String),
    Int(i64),
    Bool(bool),
}

#[derive(Debug)]
pub struct Condition {
    pub field: FieldDef,
    pub op: Op,
    pub value: Value,
}

#[derive(Debug)]
pub struct QueryAst {
    /// Bare terms, joined for the full-text MATCH. Empty = no full-text part.
    pub fts_terms: Vec<String>,
    pub conditions: Vec<Condition>,
}

pub enum ValueModel {
    Text(Seq<char>),
    Int(i64),
    Bool(bool),
}

pub struct ConditionModel {
    pub field: FieldModel,
    pub op: Op,
    pub value: ValueModel,
}

pub struct QueryModel {
    pub fts_terms: Seq<Seq<char>>,
    pub conditions: Seq<ConditionModel>,
}

pub enum SearchErrorModel {
    UnknownField(Seq<char>),
    InvalidValue { field: Seq<char>, value: Seq<char> },
    InvalidOp { op: Seq<char>, field: Seq<char> },
    Execution(Seq<char>),
}

impl View for Value {
    type V = ValueModel;

    open spec fn view(&self) -> ValueModel {
        match self {
            Value::Text(s) => ValueModel::Text(s@),
            Value::Int(n) => ValueModel::Int(*n),
            Value::Bool(b) => ValueModel::Bool(*b),
        }
    }
}

impl View for Condition {
    type V = ConditionModel;

    open spec fn view(&self) -> ConditionModel {
        ConditionModel { field: self.field@, op: self.op, value: self.value@ }
    }
}

impl View for QueryAst {
    type V = QueryModel;

    open spec fn view(&self) -> QueryModel {
        QueryModel {
            fts_terms: self.fts_terms@.map_values(|t: String| t@),
            conditions: self.conditions@.map_values(|c: Condition| c@),
        }
    }
}

impl View for SearchError {
    type V = SearchErrorModel;

    open spec fn view(&self) -> SearchErrorModel {
        match self {
            SearchError::UnknownField(f) => SearchErrorModel::UnknownField(f@),
            SearchError::InvalidValue { field, value } => SearchErrorModel::InvalidValue {
                field: field@,
                value: value@,
            },
            SearchError::InvalidOp { op, field } => SearchErrorModel::InvalidOp {
                op: op@,
                field: field@,
            },
            SearchError::Execution(m) => SearchErrorModel::Execution(m@),
        }
    }
}

pub open spec fn result_model<T: View, E: View>(r: Result<T, E>) -> Result<T::V, E::V> {
    match r {
        Ok(v) => Ok(v@),
        Err(e) => Err(e@),
    }
}

// ---------------------------------------------------------------- tokens

pub struct TokState {
    pub tokens: Seq<Seq<char>>,
    pub current: Seq<char>,
    pub in_quotes: bool,
}

/// One character of the tokenizer: a quote toggles quoting and is dropped;
/// unquoted whitespace ends the current token; anything else extends it.
pub open spec fn tok_step(st: TokState, c: char) -> TokState {
    if c == '"' {
        TokState { tokens: st.tokens, current: st.current, in_quotes: !st.in_quotes }
    } else if is_ws(c) && !st.in_quotes {
        if st.current.len() > 0 {
            TokState { tokens: st.tokens.push(st.current), current: seq![], in_quotes: st.in_quotes }
        } else {
            st
        }
    } else {
        TokState { tokens: st.tokens, current: st.current.push(c), in_quotes: st.in_quotes }
    }
}

pub open spec fn tok_run(s: Seq<char>) -> TokState
    decreases s.len(),
{
    if s.len() == 0 {
        TokState { tokens: seq![], current: seq![], in_quotes: false }
    } else {
        tok_step(tok_run(s.drop_last()), s.last())
    }
}

/// The tokens of a query: whitespace-separated, quotes grouping words.
pub open spec fn tokens_of(s: Seq<char>) -> Seq<Seq<char>> {
    let st = tok_run(s);
    if st.current.len() > 0 {
        st.tokens.push(st.current)
    } else {
        st.tokens
    }
}

pub open spec fn char_seqs(v: Seq<Vec<char>>) -> Seq<Seq<char>> {
    v.map_values(|x: Vec<char>| x@)
}

fn tokenize(input: &str) -> (tokens: Vec<Vec<char>>)
    ensures
        char_seqs(tokens@) == tokens_of(input@),
{
    let cs = chars_of(input);
    let mut tokens: Vec<Vec<char>> = Vec::new();
    let mut current: Vec<char> = Vec::new();
    let mut in_quotes = false;
    let mut i: usize = 0;
    assert(char_seqs(tokens@) =~= Seq::<Seq<char>>::empty());
    assert(current@ =~= Seq::<char>::empty());
    assert(cs@.subrange(0, 0) =~= Seq::<char>::empty());
    while i < cs.len()
        invariant
            i <= cs@.len(),
            cs@ == input@,
            tok_run(cs@.subrange(0, i as int)) == (TokState {
                tokens: char_seqs(tokens@),
                current: current@,
                in_quotes,
            }),
        decreases cs@.len() - i,
    {
        let c = cs[i];
        let ghost before = TokState { tokens: char_seqs(tokens@), current: current@, in_quotes };
        if c == '"' {
            in_quotes = !in_quotes;
        } else if is_whitespace(c) && !in_quotes {
            if current.len() > 0 {
                let done = current;
                current = Vec::new();
                tokens.push(done);
                assert(char_seqs(tokens@) =~= before.tokens.push(before.current));
                assert(current@ =~= Seq::<char>::empty());
            }
        } else {
            current.push(c);
        }
        i = i + 1;
        assert(cs@.subrange(0, i as int).drop_last() =~= cs@.subrange(0, i - 1));
        assert(tok_run(cs@.subrange(0, i as int)) == tok_step(before, c));
    }
    assert(cs@.subrange(0, cs@.len() as int) =~= cs@);
    if current.len() > 0 {
        let ghost before = char_seqs(tokens@);
        tokens.push(current);
        assert(char_seqs(tokens@) =~= before.push(tok_run(input@).current));
    }
    tokens
}

// ---------------------------------------------------------------- split

/// `field<needle>value` split at the first `needle`, when both sides are
/// non-empty: (end of the field, start of the value).
pub open spec fn split_at_needle(t: Seq<char>, nd: Seq<char>) -> Option<(int, int)> {
    match find(t, nd) {
        Some(idx) => if idx > 0 && idx + nd.len() < t.len() {
            Some((idx, idx + nd.len()))
        } else {
            None
        },
        None => None,
    }
}

/// Operators are tried in the order `>=`, `<=`, `>`, `<`, `:`.
pub open spec fn split_condition_spec(t: Seq<char>) -> Option<(int, Op, int)> {
    match split_at_needle(t, ">="@) {
        Some((a, b)) => Some((a, Op::Gte, b)),
        None => match split_at_needle(t, "<="@) {
            Some((a, b)) => Some((a, Op::Lte, b)),
            None => match split_at_needle(t, ">"@) {
                Some((a, b)) => Some((a, Op::Gt, b)),
                None => match split_at_needle(t, "<"@) {
                    Some((a, b)) => Some((a, Op::Lt, b)),
                    None => match split_at_needle(t, ":"@) {
                        Some((a, b)) => Some((a, Op::Eq, b)),
                        None => None,
                    },
                },
            },
        },
    }
}

fn split_at(t: &Vec<char>, nd: &str) -> (r: Option<(usize, usize)>)
    ensures
        match r {
            Some((a, b)) => split_at_needle(t@, nd@) == Some((a as int, b as int)),
            None => split_at_needle(t@, nd@) is None,
        },
{
    let n = t.len();
    let nv = needle(nd);
    assert(t@.subrange(0, n as int) == t@);
    match find_in(t, 0, n, &nv) {
        Some(idx) => {
            proof {
                crate::text::lemma_find_from_bounds(t@, nd@, 0);
            }
            if idx > 0 && idx + nv.len() < n {
                Some((idx, idx + nv.len()))
            } else {
                None
            }
        },
        None => None,
    }
}

/// `field:value` / `field>value` / `field>=value` → (field end, op, value
/// start) within the token.
fn split_condition(t: &Vec<char>) -> (r: Option<(usize, Op, usize)>)
    ensures
        match r {
            Some((a, op, b)) => split_condition_spec(t@) == Some((a as int, op, b as int)),
            None => split_condition_spec(t@) is None,
        },
{
    if let Some((a, b)) = split_at(t, ">=") {
        return Some((a, Op::Gte, b));
    }
    if let Some((a, b)) = split_at(t, "<=") {
        return Some((a, Op::Lte, b));
    }
    if let Some((a, b)) = split_at(t, ">") {
        return Some((a, Op::Gt, b));
    }
    if let Some((a, b)) = split_at(t, "<") {
        return Some((a, Op::Lt, b));
    }
    if let Some((a, b)) = split_at(t, ":") {
        return Some((a, Op::Eq, b));
    }
    None
}


// ---------------------------------------------------------------- values

/// Integers: `2000`, or `44.1k` / `96K` / `1e3k` (k = ×1000, for sample
/// rates; the number before it is read as a float text).
pub open spec fn parse_int_spec(raw: Seq<char>) -> Option<i64> {
    if raw.len() > 0 && (raw.last() == 'k' || raw.last() == 'K') {
        kilo_spec(raw.drop_last())
    } else {
        parse_i64_spec(raw)
    }
}

pub open spec fn scaled(v: Option<i64>, factor: int) -> Option<i64> {
    match v {
        Some(x) => if i64::MIN <= x * factor <= i64::MAX {
            Some((x * factor) as i64)
        } else {
            None
        },
        None => None,
    }
}

/// Durations in milliseconds: `5m` → 300000, `90s` → 90000, a bare number
/// is seconds.
pub open spec fn duration_spec(raw: Seq<char>) -> Option<i64> {
    if raw.len() > 0 && raw.last() == 'm' {
        scaled(parse_i64_spec(raw.drop_last()), 60000)
    } else if raw.len() > 0 && raw.last() == 's' {
        scaled(parse_i64_spec(raw.drop_last()), 1000)
    } else {
        scaled(parse_i64_spec(raw), 1000)
    }
}

/// An absolute date as `YYYY-MM-DD`: ten characters, digits everywhere
/// but the dashes at positions 4 and 7.
pub open spec fn iso_date_shape(raw: Seq<char>) -> bool {
    &&& raw.len() == 10
    &&& forall|i: int|
        0 <= i < 10 ==> if i == 4 || i == 7 {
            #[trigger] raw[i] == '-'
        } else {
            crate::text::is_digit(raw[i])
        }
}

/// The four relative keywords and the `SQLite` `date()` expression each
/// stands for.
pub open spec fn date_keyword_expr(raw: Seq<char>) -> Option<Seq<char>> {
    if raw == "today"@ {
        Some("date('now')"@)
    } else if raw == "last-week"@ {
        Some("date('now', '-7 days')"@)
    } else if raw == "last-month"@ {
        Some("date('now', '-1 month')"@)
    } else if raw == "last-year"@ {
        Some("date('now', '-1 year')"@)
    } else {
        None
    }
}

/// Relative keywords become `SQLite` `date()` expressions; an absolute
/// `YYYY-MM-DD` date is quoted. Nothing else is a date: these expressions
/// are written into the SQL text, so no other input may become one.
pub open spec fn date_spec(raw: Seq<char>) -> Option<Seq<char>> {
    match date_keyword_expr(raw) {
        Some(e) => Some(e),
        None => if iso_date_shape(raw) {
            Some("'"@ + raw + "'"@)
        } else {
            None
        },
    }
}

/// The SQL text a date condition may carry: one of the keyword expressions,
/// or a `YYYY-MM-DD` date in single quotes.
pub open spec fn safe_date_sql(e: Seq<char>) -> bool {
    ||| e == "date('now')"@
    ||| e == "date('now', '-7 days')"@
    ||| e == "date('now', '-1 month')"@
    ||| e == "date('now', '-1 year')"@
    ||| (e.len() == 12 && e[0] == '\'' && e[11] == '\'' && iso_date_shape(e.subrange(1, 11)))
}

pub open spec fn bool_spec(raw: Seq<char>) -> Option<bool> {
    if raw == "true"@ || raw == "yes"@ || raw == "1"@ {
        Some(true)
    } else if raw == "false"@ || raw == "no"@ || raw == "0"@ {
        Some(false)
    } else {
        None
    }
}

/// How an operator reads in error messages.
pub open spec fn op_name(op: Op) -> Seq<char> {
    match op {
        Op::Eq => "Eq"@,
        Op::Gt => "Gt"@,
        Op::Gte => "Gte"@,
        Op::Lt => "Lt"@,
        Op::Lte => "Lte"@,
    }
}

/// A condition on a known field: text fields take only `:`; the other
/// kinds must parse.
pub open spec fn condition_spec(f: FieldModel, op: Op, raw: Seq<char>) -> Result<
    ConditionModel,
    SearchErrorModel,
> {
    let invalid = SearchErrorModel::InvalidValue { field: f.name, value: raw };
    let value = match f.kind {
        FieldType::Text => if op != Op::Eq {
            Err(SearchErrorModel::InvalidOp { op: op_name(op), field: f.name })
        } else {
            Ok(ValueModel::Text(raw))
        },
        FieldType::Int => match parse_int_spec(raw) {
            Some(n) => Ok(ValueModel::Int(n)),
            None => Err(invalid),
        },
        FieldType::Bool => match bool_spec(raw) {
            Some(b) => Ok(ValueModel::Bool(b)),
            None => Err(invalid),
        },
        FieldType::Duration => match duration_spec(raw) {
            Some(n) => Ok(ValueModel::Int(n)),
            None => Err(invalid),
        },
        FieldType::Date => match date_spec(raw) {
            Some(e) => Ok(ValueModel::Text(e)),
            None => Err(invalid),
        },
    };
    match value {
        Ok(v) => Ok(ConditionModel { field: f, op, value: v }),
        Err(e) => Err(e),
    }
}

pub(crate) fn all_digits_in(cs: &Vec<char>, lo: usize, hi: usize) -> (r: bool)
    requires
        lo <= hi <= cs@.len(),
    ensures
        r == all_digits(cs@.subrange(lo as int, hi as int)),
{
    let ghost w = cs@.subrange(lo as int, hi as int);
    let mut i = lo;
    while i < hi
        invariant
            lo <= i <= hi <= cs@.len(),
            w == cs@.subrange(lo as int, hi as int),
            forall|k: int| 0 <= k < i - lo ==> crate::text::is_digit(#[trigger] w[k]),
        decreases hi - i,
    {
        if !('0' <= cs[i] && cs[i] <= '9') {
            assert(!crate::text::is_digit(w[i - lo]));
            return false;
        }
        i = i + 1;
    }
    true
}

/// Accepts `2000`, `44.1k`, `96k` (k = ×1000, for sample rates).
fn parse_int(cs: &Vec<char>, lo: usize, hi: usize) -> (r: Option<i64>)
    requires
        lo <= hi <= cs@.len(),
    ensures
        r == parse_int_spec(cs@.subrange(lo as int, hi as int)),
{
    let ghost w = cs@.subrange(lo as int, hi as int);
    if lo < hi && (cs[hi - 1] == 'k' || cs[hi - 1] == 'K') {
        assert(w.drop_last() == cs@.subrange(lo as int, hi - 1));
        parse_kilo(cs, lo, hi - 1)
    } else {
        parse_i64(cs, lo, hi)
    }
}

fn scale(v: Option<i64>, factor: i64) -> (r: Option<i64>)
    requires
        factor > 0,
    ensures
        r == scaled(v, factor as int),
{
    match v {
        Some(x) => x.checked_mul(factor),
        None => None,
    }
}

/// `5m` → 300000, `90s` → 90000, bare number = seconds.
fn parse_duration_ms(cs: &Vec<char>, lo: usize, hi: usize) -> (r: Option<i64>)
    requires
        lo <= hi <= cs@.len(),
    ensures
        r == duration_spec(cs@.subrange(lo as int, hi as int)),
{
    let ghost w = cs@.subrange(lo as int, hi as int);
    if lo < hi && cs[hi - 1] == 'm' {
        assert(w.drop_last() == cs@.subrange(lo as int, hi - 1));
        return scale(parse_i64(cs, lo, hi - 1), 60000);
    }
    if lo < hi && cs[hi - 1] == 's' {
        assert(w.drop_last() == cs@.subrange(lo as int, hi - 1));
        return scale(parse_i64(cs, lo, hi - 1), 1000);
    }
    scale(parse_i64(cs, lo, hi), 1000)
}

/// Relative keywords compile to `SQLite` `date()` expressions; absolute
/// dates pass through quoted (ISO dates sort lexically).
fn parse_date(cs: &Vec<char>, lo: usize, hi: usize) -> (r: Option<String>)
    requires
        lo <= hi <= cs@.len(),
    ensures
        match r {
            Some(s) => date_spec(cs@.subrange(lo as int, hi as int)) == Some(s@),
            None => date_spec(cs@.subrange(lo as int, hi as int)) is None,
        },
{
    if window_is(cs, lo, hi, "today") {
        return Some(String::from_str("date('now')"));
    }
    if window_is(cs, lo, hi, "last-week") {
        return Some(String::from_str("date('now', '-7 days')"));
    }
    if window_is(cs, lo, hi, "last-month") {
        return Some(String::from_str("date('now', '-1 month')"));
    }
    if window_is(cs, lo, hi, "last-year") {
        return Some(String::from_str("date('now', '-1 year')"));
    }
    if is_iso_date(cs, lo, hi) {
        let mut out: Vec<char> = Vec::new();
        push_str(&mut out, "'");
        let part = slice_of(cs, lo, hi);
        push_all(&mut out, &part);
        push_str(&mut out, "'");
        Some(string_of(out.as_slice()))
    } else {
        None
    }
}

fn is_iso_date(cs: &Vec<char>, lo: usize, hi: usize) -> (b: bool)
    requires
        lo <= hi <= cs@.len(),
    ensures
        b == iso_date_shape(cs@.subrange(lo as int, hi as int)),
{
    let ghost w = cs@.subrange(lo as int, hi as int);
    if hi - lo != 10 {
        return false;
    }
    let mut k: usize = 0;
    while k < 10
        invariant
            hi - lo == 10,
            lo <= hi <= cs@.len(),
            w == cs@.subrange(lo as int, hi as int),
            k <= 10,
            forall|i: int|
                0 <= i < k ==> if i == 4 || i == 7 {
                    #[trigger] w[i] == '-'
                } else {
                    crate::text::is_digit(w[i])
                },
        decreases 10 - k,
    {
        let c = cs[lo + k];
        assert(c == w[k as int]);
        if k == 4 || k == 7 {
            if c != '-' {
                return false;
            }
        } else if !('0' <= c && c <= '9') {
            return false;
        }
        k = k + 1;
    }
    true
}

fn slice_of(cs: &Vec<char>, lo: usize, hi: usize) -> (v: Vec<char>)
    requires
        lo <= hi <= cs@.len(),
    ensures
        v@ == cs@.subrange(lo as int, hi as int),
{
    crate::text::slice_chars(cs, lo, hi)
}

fn op_debug_name(op: Op) -> (s: String)
    ensures
        s@ == op_name(op),
{
    match op {
        Op::Eq => String::from_str("Eq"),
        Op::Gt => String::from_str("Gt"),
        Op::Gte => String::from_str("Gte"),
        Op::Lt => String::from_str("Lt"),
        Op::Lte => String::from_str("Lte"),
    }
}

fn condition(field: FieldDef, op: Op, cs: &Vec<char>, lo: usize, hi: usize) -> (r: Result<
    Condition,
    SearchError,
>)
    requires
        lo <= hi <= cs@.len(),
    ensures
        result_model(r) == condition_spec(field@, op, cs@.subrange(lo as int, hi as int)),
{
    let ghost f = field@;
    let ghost raw = cs@.subrange(lo as int, hi as int);
    let value = match field.kind {
        FieldType::Text => {
            if op != Op::Eq {
                return Err(SearchError::InvalidOp { op: op_debug_name(op), field: field.name });
            }
            Value::Text(substring(cs, lo, hi))
        },
        FieldType::Int => match parse_int(cs, lo, hi) {
            Some(n) => Value::Int(n),
            None => {
                return Err(SearchError::InvalidValue { field: field.name, value: substring(cs, lo, hi) });
            },
        },
        FieldType::Bool => {
            if window_is(cs, lo, hi, "true") || window_is(cs, lo, hi, "yes") || window_is(
                cs,
                lo,
                hi,
                "1",
            ) {
                Value::Bool(true)
            } else if window_is(cs, lo, hi, "false") || window_is(cs, lo, hi, "no") || window_is(
                cs,
                lo,
                hi,
                "0",
            ) {
                Value::Bool(false)
            } else {
                return Err(SearchError::InvalidValue { field: field.name, value: substring(cs, lo, hi) });
            }
        },
        FieldType::Duration => match parse_duration_ms(cs, lo, hi) {
            Some(n) => Value::Int(n),
            None => {
                return Err(SearchError::InvalidValue { field: field.name, value: substring(cs, lo, hi) });
            },
        },
        FieldType::Date => match parse_date(cs, lo, hi) {
            Some(e) => Value::Text(e),
            None => {
                return Err(SearchError::InvalidValue { field: field.name, value: substring(cs, lo, hi) });
            },
        },
    };
    Ok(Condition { field, op, value })
}


// ---------------------------------------------------------------- parse

pub open spec fn empty_query() -> QueryModel {
    QueryModel { fts_terms: seq![], conditions: seq![] }
}

/// One token: a condition on a known field, or a full-text term (bare
/// words and `x:y` with an unknown `x` alike — "AC:DC" searches text).
pub open spec fn parse_step(ast: QueryModel, t: Seq<char>) -> Result<QueryModel, SearchErrorModel> {
    let as_term = QueryModel { fts_terms: ast.fts_terms.push(t), conditions: ast.conditions };
    match split_condition_spec(t) {
        Some((a, op, b)) => match field_model(t.subrange(0, a)) {
            None => Ok(as_term),
            Some(f) => match condition_spec(f, op, t.subrange(b, t.len() as int)) {
                Ok(c) => Ok(
                    QueryModel { fts_terms: ast.fts_terms, conditions: ast.conditions.push(c) },
                ),
                Err(e) => Err(e),
            },
        },
        None => Ok(as_term),
    }
}

/// Tokens left to right; the first invalid condition is the error.
pub open spec fn parse_tokens(ts: Seq<Seq<char>>) -> Result<QueryModel, SearchErrorModel>
    decreases ts.len(),
{
    if ts.len() == 0 {
        Ok(empty_query())
    } else {
        match parse_tokens(ts.drop_last()) {
            Ok(ast) => parse_step(ast, ts.last()),
            Err(e) => Err(e),
        }
    }
}

/// What `parse` computes for a query text.
pub open spec fn parse_spec(input: Seq<char>) -> Result<QueryModel, SearchErrorModel> {
    parse_tokens(tokens_of(input))
}

impl Default for QueryAst {
    fn default() -> (q: QueryAst)
        ensures
            q@ == empty_query(),
    {
        let q = QueryAst { fts_terms: Vec::new(), conditions: Vec::new() };
        assert(q@.fts_terms =~= Seq::<Seq<char>>::empty());
        assert(q@.conditions =~= Seq::<ConditionModel>::empty());
        q
    }
}

/// Splits on whitespace; a token is either `field<op>value` or a bare term.
/// Quoted values (`artist:"pink floyd"`) keep spaces.
pub fn parse(input: &str) -> (r: Result<QueryAst, SearchError>)
    ensures
        result_model(r) == parse_spec(input@),
{
    let tokens = tokenize(input);
    let ghost ts = char_seqs(tokens@);
    let mut fts: Vec<String> = Vec::new();
    let mut conds: Vec<Condition> = Vec::new();
    let mut i: usize = 0;
    assert(ts.subrange(0, 0) =~= Seq::<Seq<char>>::empty());
    assert(fts@.map_values(|t: String| t@) =~= Seq::<Seq<char>>::empty());
    assert(conds@.map_values(|c: Condition| c@) =~= Seq::<ConditionModel>::empty());
    while i < tokens.len()
        invariant
            i <= tokens@.len(),
            ts == char_seqs(tokens@),
            ts == tokens_of(input@),
            parse_tokens(ts.subrange(0, i as int)) == Ok::<QueryModel, SearchErrorModel>(
                QueryModel {
                    fts_terms: fts@.map_values(|t: String| t@),
                    conditions: conds@.map_values(|c: Condition| c@),
                },
            ),
        decreases tokens@.len() - i,
    {
        let t = &tokens[i];
        let ghost before = QueryModel {
            fts_terms: fts@.map_values(|t: String| t@),
            conditions: conds@.map_values(|c: Condition| c@),
        };
        assert(ts.subrange(0, i + 1).drop_last() =~= ts.subrange(0, i as int));
        assert(ts.subrange(0, i + 1).last() == t@);
        let n = t.len();
        assert(t@.subrange(0, n as int) == t@);
        match split_condition(t) {
            Some((a, op, b)) => {
                proof {
                    crate::text::lemma_find_from_bounds(t@, ">="@, 0);
                    crate::text::lemma_find_from_bounds(t@, "<="@, 0);
                    crate::text::lemma_find_from_bounds(t@, ">"@, 0);
                    crate::text::lemma_find_from_bounds(t@, "<"@, 0);
                    crate::text::lemma_find_from_bounds(t@, ":"@, 0);
                }
                match field_in(t, 0, a) {
                    None => {
                        fts.push(string_of(t.as_slice()));
                        assert(fts@.map_values(|t: String| t@) =~= before.fts_terms.push(t@));
                    },
                    Some(f) => {
                        match condition(f, op, t, b, n) {
                            Ok(c) => {
                                conds.push(c);
                                assert(conds@.map_values(|c: Condition| c@) =~= before.conditions.push(c@));
                            },
                            Err(e) => {
                                proof {
                                    lemma_parse_tokens_error_sticks(ts, i as int + 1);
                                }
                                assert(ts.subrange(0, ts.len() as int) == ts);
                                return Err(e);
                            },
                        }
                    },
                }
            },
            None => {
                fts.push(string_of(t.as_slice()));
                assert(fts@.map_values(|t: String| t@) =~= before.fts_terms.push(t@));
            },
        }
        i = i + 1;
    }
    assert(ts.subrange(0, ts.len() as int) == ts);
    Ok(QueryAst { fts_terms: fts, conditions: conds })
}

/// Once a prefix of the tokens fails, the whole token list fails the same
/// way.
proof fn lemma_parse_tokens_error_sticks(ts: Seq<Seq<char>>, k: int)
    requires
        0 <= k <= ts.len(),
        parse_tokens(ts.subrange(0, k)) is Err,
    ensures
        parse_tokens(ts) == parse_tokens(ts.subrange(0, k)),
    decreases ts.len() - k,
{
    if k < ts.len() {
        assert(ts.subrange(0, k + 1).drop_last() =~= ts.subrange(0, k));
        lemma_parse_tokens_error_sticks(ts, k + 1);
    } else {
        assert(ts.subrange(0, k) =~= ts);
    }
}


/// The human-readable text of a search error.
pub open spec fn error_message(e: SearchErrorModel) -> Seq<char> {
    match e {
        SearchErrorModel::UnknownField(f) => "unknown field: "@ + f,
        SearchErrorModel::InvalidValue { field, value } => "invalid value for "@ + field + ": "@
            + value,
        SearchErrorModel::InvalidOp { op, field } => "operator "@ + op + " not valid for "@ + field,
        SearchErrorModel::Execution(m) => "query failed: "@ + m,
    }
}

impl SearchError {
    /// The error's message, as shown to the user.
    pub fn message(&self) -> (s: String)
        ensures
            s@ == error_message(self@),
    {
        let mut out: Vec<char> = Vec::new();
        match self {
            SearchError::UnknownField(f) => {
                push_str(&mut out, "unknown field: ");
                push_str(&mut out, f.as_str());
            },
            SearchError::InvalidValue { field, value } => {
                push_str(&mut out, "invalid value for ");
                push_str(&mut out, field.as_str());
                push_str(&mut out, ": ");
                push_str(&mut out, value.as_str());
            },
            SearchError::InvalidOp { op, field } => {
                push_str(&mut out, "operator ");
                push_str(&mut out, op.as_str());
                push_str(&mut out, " not valid for ");
                push_str(&mut out, field.as_str());
            },
            SearchError::Execution(m) => {
                push_str(&mut out, "query failed: ");
                push_str(&mut out, m.as_str());
            },
        }
        assert(out@ =~= error_message(self@));
        string_of(out.as_slice())
    }
}


// ---------------------------------------------------------------- laws

pub open spec fn quote_free(t: Seq<char>) -> bool {
    !t.contains('"')
}

proof fn lemma_tok_run_shape(s: Seq<char>)
    ensures
        forall|k: int|
            0 <= k < tok_run(s).tokens.len() ==> (#[trigger] tok_run(s).tokens[k]).len() > 0
                && quote_free(tok_run(s).tokens[k]),
        quote_free(tok_run(s).current),
    decreases s.len(),
{
    if s.len() > 0 {
        lemma_tok_run_shape(s.drop_last());
        let st = tok_run(s.drop_last());
        let c = s.last();
        if c != '"' && !(is_ws(c) && !st.in_quotes) {
            assert forall|j: int| 0 <= j < st.current.push(c).len() implies st.current.push(c)[j]
                != '"' by {
                if j < st.current.len() {
                    assert(st.current.push(c)[j] == st.current[j]);
                }
            }
        }
        if c != '"' && is_ws(c) && !st.in_quotes && st.current.len() > 0 {
            assert(tok_run(s).current =~= Seq::<char>::empty());
        }
    }
}

/// Tokens are never empty and never contain a double quote: quotes only
/// group words.
pub proof fn law_tokens_are_nonempty_and_unquoted(input: Seq<char>)
    ensures
        forall|k: int|
            0 <= k < tokens_of(input).len() ==> (#[trigger] tokens_of(input)[k]).len() > 0
                && quote_free(tokens_of(input)[k]),
{
    lemma_tok_run_shape(input);
}

pub open spec fn has_operator_char(t: Seq<char>) -> bool {
    t.contains(':') || t.contains('<') || t.contains('>')
}

proof fn lemma_find_absent(s: Seq<char>, nd: Seq<char>, i: int)
    requires
        nd.len() > 0,
        !s.contains(nd[0]),
    ensures
        crate::text::find_from(s, nd, i) is None,
    decreases s.len() + 1 - i,
{
    if !(i < 0 || i + nd.len() > s.len()) {
        if crate::text::occurs_at(s, nd, i) {
            assert(s.subrange(i, i + nd.len())[0] == nd[0]);
            assert(s[i] == nd[0]);
        }
        lemma_find_absent(s, nd, i + 1);
    }
}

proof fn lemma_no_split(t: Seq<char>)
    requires
        !has_operator_char(t),
    ensures
        split_condition_spec(t) is None,
{
    reveal_strlit(">=");
    reveal_strlit("<=");
    reveal_strlit(">");
    reveal_strlit("<");
    reveal_strlit(":");
    lemma_find_absent(t, ">="@, 0);
    lemma_find_absent(t, "<="@, 0);
    lemma_find_absent(t, ">"@, 0);
    lemma_find_absent(t, "<"@, 0);
    lemma_find_absent(t, ":"@, 0);
}

proof fn lemma_plain_tokens(ts: Seq<Seq<char>>)
    requires
        forall|k: int| 0 <= k < ts.len() ==> !has_operator_char(#[trigger] ts[k]),
    ensures
        parse_tokens(ts) == Ok::<QueryModel, SearchErrorModel>(
            QueryModel { fts_terms: ts, conditions: seq![] },
        ),
    decreases ts.len(),
{
    if ts.len() == 0 {
        assert(ts =~= Seq::<Seq<char>>::empty());
    } else {
        assert forall|k: int| 0 <= k < ts.drop_last().len() implies !has_operator_char(
            #[trigger] ts.drop_last()[k],
        ) by {
            assert(ts.drop_last()[k] == ts[k]);
        }
        lemma_plain_tokens(ts.drop_last());
        assert(!has_operator_char(ts[ts.len() - 1]));
        lemma_no_split(ts.last());
        assert(ts.drop_last().push(ts.last()) =~= ts);
    }
}

/// Bare terms go to full-text search: when no token holds `:`, `<` or `>`,
/// every token becomes a full-text term, in order, and there are no
/// conditions.
pub proof fn law_plain_words_are_full_text(input: Seq<char>)
    requires
        forall|k: int|
            0 <= k < tokens_of(input).len() ==> !has_operator_char(#[trigger] tokens_of(input)[k]),
    ensures
        parse_spec(input) == Ok::<QueryModel, SearchErrorModel>(
            QueryModel { fts_terms: tokens_of(input), conditions: seq![] },
        ),
{
    lemma_plain_tokens(tokens_of(input));
}

proof fn lemma_no_unknown_field(ts: Seq<Seq<char>>)
    ensures
        parse_tokens(ts) matches Err(e) ==> !(e is UnknownField),
    decreases ts.len(),
{
    if ts.len() > 0 {
        lemma_no_unknown_field(ts.drop_last());
    }
}

/// An unknown field name never fails a query: `x:y` with an unrecognised
/// `x` is searched as text, so parsing never reports an unknown field.
pub proof fn law_unknown_fields_never_fail(input: Seq<char>)
    ensures
        parse_spec(input) matches Err(e) ==> !(e is UnknownField),
{
    lemma_no_unknown_field(tokens_of(input));
}

/// Whether a condition's value is a date expression that may be written
/// into SQL text.
pub open spec fn safe_date_condition(c: ConditionModel) -> bool {
    match c.value {
        ValueModel::Text(e) => safe_date_sql(e),
        _ => false,
    }
}

proof fn lemma_date_spec_safe(raw: Seq<char>)
    ensures
        date_spec(raw) matches Some(e) ==> safe_date_sql(e),
{
    if date_keyword_expr(raw) is None && iso_date_shape(raw) {
        reveal_strlit("'");
        let e = "'"@ + raw + "'"@;
        assert(e.subrange(1, 11) =~= raw);
    }
}

proof fn lemma_step_keeps_dates(ast: QueryModel, t: Seq<char>)
    requires
        forall|k: int|
            0 <= k < ast.conditions.len() && (#[trigger] ast.conditions[k]).field.name == "added"@
                ==> safe_date_condition(ast.conditions[k]),
    ensures
        parse_step(ast, t) matches Ok(q) ==> forall|k: int|
            0 <= k < q.conditions.len() && (#[trigger] q.conditions[k]).field.name == "added"@
                ==> safe_date_condition(q.conditions[k]),
{
    if let Some((a, op, b)) = split_condition_spec(t) {
        let name = t.subrange(0, a);
        if let Some(f) = field_model(name) {
            let raw = t.subrange(b, t.len() as int);
            lemma_added_is_the_date_field(crate::text::lower_seq(name));
            lemma_date_spec_safe(raw);
            if let Ok(c) = condition_spec(f, op, raw) {
                let q = QueryModel { fts_terms: ast.fts_terms, conditions: ast.conditions.push(c) };
                assert forall|k: int|
                    0 <= k < q.conditions.len() && (#[trigger] q.conditions[k]).field.name
                        == "added"@ implies safe_date_condition(q.conditions[k]) by {
                    if k < ast.conditions.len() {
                        assert(q.conditions[k] == ast.conditions[k]);
                    }
                }
            }
        }
    }
}

proof fn lemma_tokens_keep_dates(ts: Seq<Seq<char>>)
    ensures
        parse_tokens(ts) matches Ok(q) ==> forall|k: int|
            0 <= k < q.conditions.len() && (#[trigger] q.conditions[k]).field.name == "added"@
                ==> safe_date_condition(q.conditions[k]),
    decreases ts.len(),
{
    if ts.len() > 0 {
        lemma_tokens_keep_dates(ts.drop_last());
        if let Ok(ast) = parse_tokens(ts.drop_last()) {
            lemma_step_keeps_dates(ast, ts.last());
        }
    }
}

/// Only validated dates reach the SQL text: in every query that parses,
/// each condition on the `added` field (the one whose value the compiler
/// writes into the SQL) carries one of the four keyword `date('now', ..)`
/// expressions or a `YYYY-MM-DD` date made of digits and dashes in single
/// quotes.
pub proof fn law_only_validated_dates_reach_sql(input: Seq<char>)
    ensures
        parse_spec(input) matches Ok(q) ==> forall|k: int|
            0 <= k < q.conditions.len() && (#[trigger] q.conditions[k]).field.name == "added"@
                ==> safe_date_condition(q.conditions[k]),
{
    lemma_tokens_keep_dates(tokens_of(input));
}

/// The error a single token raises: a condition on a known field whose
/// operator or value that field refuses. Bare words and unknown fields
/// raise none.
pub open spec fn token_error(t: Seq<char>) -> Option<SearchErrorModel> {
    match split_condition_spec(t) {
        Some((a, op, b)) => match field_model(t.subrange(0, a)) {
            Some(f) => match condition_spec(f, op, t.subrange(b, t.len() as int)) {
                Err(e) => Some(e),
                Ok(_) => None,
            },
            None => None,
        },
        None => None,
    }
}

proof fn lemma_step_error(ast: QueryModel, t: Seq<char>)
    ensures
        parse_step(ast, t) is Err <==> token_error(t) is Some,
        parse_step(ast, t) matches Err(e) ==> token_error(t) == Some(e),
{
}

proof fn lemma_tokens_error(ts: Seq<Seq<char>>)
    ensures
        parse_tokens(ts) is Ok <==> forall|k: int|
            0 <= k < ts.len() ==> (#[trigger] token_error(ts[k])) is None,
        parse_tokens(ts) matches Err(e) ==> exists|k: int|
            0 <= k < ts.len() && token_error(ts[k]) == Some(e) && forall|j: int|
                0 <= j < k ==> (#[trigger] token_error(ts[j])) is None,
    decreases ts.len(),
{
    if ts.len() > 0 {
        let init = ts.drop_last();
        lemma_tokens_error(init);
        assert forall|k: int| 0 <= k < init.len() implies init[k] == ts[k] by {}
        match parse_tokens(init) {
            Ok(ast) => {
                lemma_step_error(ast, ts.last());
                if parse_tokens(ts) is Ok {
                    assert forall|k: int| 0 <= k < ts.len() implies (#[trigger] token_error(
                        ts[k],
                    )) is None by {
                        if k < init.len() {
                            assert(token_error(init[k]) is None);
                        }
                    }
                } else {
                    let k = ts.len() - 1;
                    assert(token_error(ts[k]) is Some);
                    assert forall|j: int| 0 <= j < k implies (#[trigger] token_error(ts[j])) is None by {
                        assert(token_error(init[j]) is None);
                    }
                }
            },
            Err(e) => {
                let k = choose|k: int|
                    0 <= k < init.len() && token_error(init[k]) == Some(e) && forall|j: int|
                        0 <= j < k ==> (#[trigger] token_error(init[j])) is None;
                assert(token_error(ts[k]) == Some(e));
                assert forall|j: int| 0 <= j < k implies (#[trigger] token_error(ts[j])) is None by {
                    assert(token_error(init[j]) is None);
                }
            },
        }
    }
}

/// A query fails exactly when one of its tokens is a condition on a known
/// field with an operator or value that field refuses, and the error is
/// that of the first such token; everything else parses.
pub proof fn law_parse_fails_only_on_refused_conditions(input: Seq<char>)
    ensures
        parse_spec(input) is Ok <==> forall|k: int|
            0 <= k < tokens_of(input).len() ==> (#[trigger] token_error(tokens_of(input)[k])) is None,
        parse_spec(input) matches Err(e) ==> exists|k: int|
            0 <= k < tokens_of(input).len() && token_error(tokens_of(input)[k]) == Some(e)
                && forall|j: int|
                0 <= j < k ==> (#[trigger] token_error(tokens_of(input)[j])) is None,
{
    lemma_tokens_error(tokens_of(input));
}

/// Each relative date keyword stands for its own span: `today` for
/// `date('now')`, `last-week` for seven days back, `last-month` for one
/// month back and `last-year` for one year back; an ISO `YYYY-MM-DD` date
/// is compared as itself, quoted; any other value on a date field is
/// refused as an invalid value. This holds for every date field and every
/// operator, and so for every token that names the date field.
pub proof fn law_date_values(f: FieldModel, op: Op, raw: Seq<char>)
    requires
        f.kind == FieldType::Date,
    ensures
        raw == "today"@ ==> condition_spec(f, op, raw) == Ok::<ConditionModel, SearchErrorModel>(
            ConditionModel { field: f, op, value: ValueModel::Text("date('now')"@) },
        ),
        raw == "last-week"@ ==> condition_spec(f, op, raw) == Ok::<
            ConditionModel,
            SearchErrorModel,
        >(ConditionModel { field: f, op, value: ValueModel::Text("date('now', '-7 days')"@) }),
        raw == "last-month"@ ==> condition_spec(f, op, raw) == Ok::<
            ConditionModel,
            SearchErrorModel,
        >(ConditionModel { field: f, op, value: ValueModel::Text("date('now', '-1 month')"@) }),
        raw == "last-year"@ ==> condition_spec(f, op, raw) == Ok::<
            ConditionModel,
            SearchErrorModel,
        >(ConditionModel { field: f, op, value: ValueModel::Text("date('now', '-1 year')"@) }),
        iso_date_shape(raw) ==> condition_spec(f, op, raw) == Ok::<ConditionModel, SearchErrorModel>(
            ConditionModel { field: f, op, value: ValueModel::Text("'"@ + raw + "'"@) },
        ),
        raw != "today"@ && raw != "last-week"@ && raw != "last-month"@ && raw != "last-year"@
            && !iso_date_shape(raw) ==> condition_spec(f, op, raw) == Err::<
            ConditionModel,
            SearchErrorModel,
        >(SearchErrorModel::InvalidValue { field: f.name, value: raw }),
{
    reveal_strlit("today");
    reveal_strlit("last-week");
    reveal_strlit("last-month");
    reveal_strlit("last-year");
    if iso_date_shape(raw) {
        assert(raw[4] == '-');
        assert(raw != "today"@ && raw != "last-week"@ && raw != "last-month"@ && raw != "last-year"@);
    }
}

/// Yes-or-no values: `true`, `yes` and `1` mean true, `false`, `no` and
/// `0` mean false, on every boolean field and whatever the operator;
/// anything else is refused as an invalid value.
pub proof fn law_bool_values(f: FieldModel, op: Op, raw: Seq<char>)
    requires
        f.kind == FieldType::Bool,
    ensures
        raw == "true"@ || raw == "yes"@ || raw == "1"@ ==> condition_spec(f, op, raw) == Ok::<
            ConditionModel,
            SearchErrorModel,
        >(ConditionModel { field: f, op, value: ValueModel::Bool(true) }),
        raw == "false"@ || raw == "no"@ || raw == "0"@ ==> condition_spec(f, op, raw) == Ok::<
            ConditionModel,
            SearchErrorModel,
        >(ConditionModel { field: f, op, value: ValueModel::Bool(false) }),
        !(raw == "true"@ || raw == "yes"@ || raw == "1"@ || raw == "false"@ || raw == "no"@ || raw
            == "0"@) ==> condition_spec(f, op, raw) == Err::<ConditionModel, SearchErrorModel>(
            SearchErrorModel::InvalidValue { field: f.name, value: raw },
        ),
{
    reveal_strlit("true");
    reveal_strlit("yes");
    reveal_strlit("1");
    reveal_strlit("false");
    reveal_strlit("no");
    reveal_strlit("0");
    assert("true"@.len() != "false"@.len() && "true"@.len() != "no"@.len() && "true"@.len()
        != "0"@.len());
    assert("yes"@.len() != "false"@.len() && "yes"@.len() != "no"@.len() && "yes"@.len()
        != "0"@.len());
    assert("1"@.len() != "false"@.len() && "1"@.len() != "no"@.len());
    assert("1"@[0] != "0"@[0]);
}

/// Durations count milliseconds: a whole number followed by `m` is that
/// many minutes (60 000 ms each), followed by `s` or by nothing that many
/// seconds (1 000 ms each); a count whose milliseconds overflow is refused.
pub proof fn law_duration_units(raw: Seq<char>, v: i64)
    ensures
        raw.len() > 0 && raw.last() == 'm' && parse_i64_spec(raw.drop_last()) == Some(v) ==> duration_spec(raw)
            == if i64::MIN <= v * 60000 <= i64::MAX {
            Some((v * 60000) as i64)
        } else {
            None
        },
        raw.len() > 0 && raw.last() == 's' && parse_i64_spec(raw.drop_last()) == Some(v) ==> duration_spec(raw)
            == if i64::MIN <= v * 1000 <= i64::MAX {
            Some((v * 1000) as i64)
        } else {
            None
        },
        !(raw.len() > 0 && (raw.last() == 'm' || raw.last() == 's')) && parse_i64_spec(raw) == Some(v)
            ==> duration_spec(raw) == if i64::MIN <= v * 1000 <= i64::MAX {
            Some((v * 1000) as i64)
        } else {
            None
        },
{
}

} // verus!
