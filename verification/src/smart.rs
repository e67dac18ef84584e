//! Smart-playlist rules compiled into a parameterized WHERE clause and an
//! ORDER BY / LIMIT tail. Field and order-by names go through fixed tables;
//! rule values travel as bind parameters, except the validated day count of
//! `within_days`.
use vstd::prelude::*;

use crate::text::{chars_of, int_text, nat_text, push_str, push_u64, string_of, window_is};

verus! {

#[verifier::external_type_specification]
#[verifier::external_body]
pub struct ExJsonError(serde_json::Error);

#[derive(Debug, Clone, Copy, PartialEq, Eq, Structural)]
pub enum MatchMode {
    All,
    Any,
}

/// The match mode when the rules do not name one.
pub fn default_match() -> (m: MatchMode)
    ensures
        m == MatchMode::All,
{
    MatchMode::All
}

/// A rule's value as the stored JSON gave it.
#[derive(Debug)]
pub enum RuleValue {
    Null,
    Bool(bool),
    /// A number that fits an `i64`.
    Int(i64),
    /// A whole number above `i64::MAX`.
    UInt(u64),
    /// Any other number, as its JSON text.
    Float(String),
    Text(String),
    /// An array or object, as its JSON text.
    Composite(String),
}

#[derive(Debug)]
pub struct SmartCondition {
    pub field: String,
    pub op: String,
    pub value: RuleValue,
}

#[derive(Debug)]
pub struct SmartRules {
    pub match_mode: MatchMode,
    pub conditions: Vec<SmartCondition>,
    pub order_by: Option<String>,
    pub order_dir: Option<String>,
    pub limit: Option<u32>,
}

#[derive(Debug)]
pub enum SmartError {
    Json(serde_json::Error),
    UnknownField(String),
    UnknownOp(String),
    BadValue { field: String, value: String },
}

#[derive(Debug)]
pub enum Bind {
    Text(String),
    Int(i64),
    /// A non-integer number, as its JSON text.
    Real(String),
}

pub enum RuleValueModel {
    Null,
    Bool(bool),
    Int(i64),
    UInt(u64),
    Float(Seq<char>),
    Text(Seq<char>),
    Composite(Seq<char>),
}

pub struct SmartConditionModel {
    pub field: Seq<char>,
    pub op: Seq<char>,
    pub value: RuleValueModel,
}

pub struct SmartRulesModel {
    pub match_mode: MatchMode,
    pub conditions: Seq<SmartConditionModel>,
    pub order_by: Option<Seq<char>>,
    pub order_dir: Option<Seq<char>>,
    pub limit: Option<u32>,
}

pub enum SmartErrorModel {
    Json,
    UnknownField(Seq<char>),
    UnknownOp(Seq<char>),
    BadValue { field: Seq<char>, value: Seq<char> },
}

pub enum BindModel {
    Text(Seq<char>),
    Int(i64),
    Real(Seq<char>),
}

impl View for RuleValue {
    type V = RuleValueModel;

    open spec fn view(&self) -> RuleValueModel {
        match self {
            RuleValue::Null => RuleValueModel::Null,
            RuleValue::Bool(b) => RuleValueModel::Bool(*b),
            RuleValue::Int(n) => RuleValueModel::Int(*n),
            RuleValue::UInt(n) => RuleValueModel::UInt(*n),
            RuleValue::Float(t) => RuleValueModel::Float(t@),
            RuleValue::Text(t) => RuleValueModel::Text(t@),
            RuleValue::Composite(t) => RuleValueModel::Composite(t@),
        }
    }
}

impl View for SmartCondition {
    type V = SmartConditionModel;

    open spec fn view(&self) -> SmartConditionModel {
        SmartConditionModel { field: self.field@, op: self.op@, value: self.value@ }
    }
}

pub open spec fn opt_text(o: Option<String>) -> Option<Seq<char>> {
    match o {
        Some(s) => Some(s@),
        None => None,
    }
}

impl View for SmartRules {
    type V = SmartRulesModel;

    open spec fn view(&self) -> SmartRulesModel {
        SmartRulesModel {
            match_mode: self.match_mode,
            conditions: self.conditions@.map_values(|c: SmartCondition| c@),
            order_by: opt_text(self.order_by),
            order_dir: opt_text(self.order_dir),
            limit: self.limit,
        }
    }
}

impl View for SmartError {
    type V = SmartErrorModel;

    open spec fn view(&self) -> SmartErrorModel {
        match self {
            SmartError::Json(_) => SmartErrorModel::Json,
            SmartError::UnknownField(f) => SmartErrorModel::UnknownField(f@),
            SmartError::UnknownOp(o) => SmartErrorModel::UnknownOp(o@),
            SmartError::BadValue { field, value } => SmartErrorModel::BadValue {
                field: field@,
                value: value@,
            },
        }
    }
}

impl View for Bind {
    type V = BindModel;

    open spec fn view(&self) -> BindModel {
        match self {
            Bind::Text(s) => BindModel::Text(s@),
            Bind::Int(n) => BindModel::Int(*n),
            Bind::Real(s) => BindModel::Real(s@),
        }
    }
}

/// A lower-case hexadecimal digit.
pub open spec fn hex_digit(n: int) -> char {
    if n < 10 {
        ('0' as int + n) as char
    } else {
        ('a' as int + n - 10) as char
    }
}

/// How one character is written inside a JSON string literal: quote and
/// backslash escaped, the five controls with short escapes as such, the
/// other controls below U+0020 as `\u00xx`, everything else as it is.
pub open spec fn json_escape(c: char) -> Seq<char> {
    if c == '"' {
        seq!['\\', '"']
    } else if c == '\\' {
        seq!['\\', '\\']
    } else if c == '\u{8}' {
        seq!['\\', 'b']
    } else if c == '\t' {
        seq!['\\', 't']
    } else if c == '\n' {
        seq!['\\', 'n']
    } else if c == '\u{c}' {
        seq!['\\', 'f']
    } else if c == '\r' {
        seq!['\\', 'r']
    } else if (c as u32) < 0x20 {
        seq!['\\', 'u', '0', '0', hex_digit(((c as u32) / 16) as int), hex_digit(((c as u32) % 16) as int)]
    } else {
        seq![c]
    }
}

/// Every character of `s` escaped, in order.
pub open spec fn json_escaped(s: Seq<char>) -> Seq<char>
    decreases s.len(),
{
    if s.len() == 0 {
        Seq::empty()
    } else {
        json_escaped(s.drop_last()) + json_escape(s.last())
    }
}

/// The JSON string literal of a text.
pub open spec fn json_quoted(text: Seq<char>) -> Seq<char> {
    seq!['"'] + json_escaped(text) + seq!['"']
}

/// `serde_json::to_string` on a string slice: the text in double quotes,
/// each character escaped as `format_escaped_str_contents` and the compact
/// formatter's `write_char_escape` do it. Serialising a `str` into memory
/// does not fail.
#[verifier::external_body]
pub(crate) fn json_quote(s: &str) -> (r: String)
    ensures
        r@ == json_quoted(s@),
{
    serde_json::to_string(s).unwrap_or_default()
}

/// The JSON text of a rule value (used in error messages).
pub open spec fn value_json(v: RuleValueModel) -> Seq<char> {
    match v {
        RuleValueModel::Null => "null"@,
        RuleValueModel::Bool(b) => if b {
            "true"@
        } else {
            "false"@
        },
        RuleValueModel::Int(n) => int_text(n as int),
        RuleValueModel::UInt(n) => nat_text(n as nat),
        RuleValueModel::Float(t) => t,
        RuleValueModel::Text(t) => json_quoted(t),
        RuleValueModel::Composite(t) => t,
    }
}

fn value_json_text(v: &RuleValue) -> (s: String)
    ensures
        s@ == value_json(v@),
{
    match v {
        RuleValue::Null => String::from_str("null"),
        RuleValue::Bool(b) => if *b {
            String::from_str("true")
        } else {
            String::from_str("false")
        },
        RuleValue::Int(n) => crate::text::i64_text(*n),
        RuleValue::UInt(n) => crate::text::u64_text(*n),
        RuleValue::Float(t) => t.clone(),
        RuleValue::Text(t) => json_quote(t.as_str()),
        RuleValue::Composite(t) => t.clone(),
    }
}

/// A value as a bind parameter: strings as text, booleans as 0/1, integers
/// as integers, other numbers as reals; null, arrays and objects have none.
pub open spec fn value_bind(v: RuleValueModel) -> Option<BindModel> {
    match v {
        RuleValueModel::Text(t) => Some(BindModel::Text(t)),
        RuleValueModel::Bool(b) => Some(BindModel::Int(if b { 1i64 } else { 0i64 })),
        RuleValueModel::Int(n) => Some(BindModel::Int(n)),
        RuleValueModel::UInt(n) => Some(BindModel::Real(nat_text(n as nat))),
        RuleValueModel::Float(t) => Some(BindModel::Real(t)),
        _ => None,
    }
}

fn json_to_bind(v: &RuleValue) -> (r: Option<Bind>)
    ensures
        match r {
            Some(b) => value_bind(v@) == Some(b@),
            None => value_bind(v@) is None,
        },
{
    match v {
        RuleValue::Text(t) => Some(Bind::Text(t.clone())),
        RuleValue::Bool(b) => Some(Bind::Int(if *b { 1 } else { 0 })),
        RuleValue::Int(n) => Some(Bind::Int(*n)),
        RuleValue::UInt(n) => Some(Bind::Real(crate::text::u64_text(*n))),
        RuleValue::Float(t) => Some(Bind::Real(t.clone())),
        _ => None,
    }
}

/// A value as a day count: non-negative integers only.
pub open spec fn value_days(v: RuleValueModel) -> Option<u64> {
    match v {
        RuleValueModel::Int(n) => if n >= 0 {
            Some(n as u64)
        } else {
            None
        },
        RuleValueModel::UInt(n) => Some(n),
        _ => None,
    }
}

/// The fields rules may name: (SQL column, whether the column is text).
/// `GENRE` compiles to an EXISTS subquery over the genre links.
pub open spec fn rule_field(name: Seq<char>) -> Option<(Seq<char>, bool)> {
    if name == "title"@ {
        Some(("t.title"@, true))
    } else if name == "artist_name"@ {
        Some(("ar.name"@, true))
    } else if name == "album_name"@ {
        Some(("al.name"@, true))
    } else if name == "genre"@ {
        Some(("GENRE"@, true))
    } else if name == "year"@ {
        Some(("t.year"@, false))
    } else if name == "rating"@ {
        Some(("t.rating"@, false))
    } else if name == "favorite"@ {
        Some(("t.favorite"@, false))
    } else if name == "play_count"@ {
        Some(("t.play_count"@, false))
    } else if name == "skip_count"@ {
        Some(("t.skip_count"@, false))
    } else if name == "added_at"@ {
        Some(("t.added_at"@, true))
    } else if name == "last_played_at"@ {
        Some(("t.last_played_at"@, true))
    } else if name == "codec"@ {
        Some(("t.codec"@, true))
    } else if name == "bit_depth"@ {
        Some(("t.bit_depth"@, false))
    } else if name == "sample_rate_hz"@ {
        Some(("t.sample_rate_hz"@, false))
    } else if name == "channels"@ {
        Some(("t.channels"@, false))
    } else if name == "duration_ms"@ {
        Some(("t.duration_ms"@, false))
    } else {
        None
    }
}

/// The fields rules may order by.
pub open spec fn is_order_field(name: Seq<char>) -> bool {
    name == "added_at"@ || name == "last_played_at"@ || name == "play_count"@ || name == "year"@
        || name == "rating"@ || name == "sample_rate_hz"@ || name == "bit_depth"@ || name
        == "duration_ms"@ || name == "title"@
}

fn lookup_field(name: &String) -> (r: Option<(&'static str, bool)>)
    ensures
        match r {
            Some((c, t)) => rule_field(name@) == Some((c@, t)),
            None => rule_field(name@) is None,
        },
{
    let cs = chars_of(name.as_str());
    let n = cs.len();
    assert(cs@.subrange(0, n as int) == cs@);
    if window_is(&cs, 0, n, "title") {
        Some(("t.title", true))
    } else if window_is(&cs, 0, n, "artist_name") {
        Some(("ar.name", true))
    } else if window_is(&cs, 0, n, "album_name") {
        Some(("al.name", true))
    } else if window_is(&cs, 0, n, "genre") {
        Some(("GENRE", true))
    } else if window_is(&cs, 0, n, "year") {
        Some(("t.year", false))
    } else if window_is(&cs, 0, n, "rating") {
        Some(("t.rating", false))
    } else if window_is(&cs, 0, n, "favorite") {
        Some(("t.favorite", false))
    } else if window_is(&cs, 0, n, "play_count") {
        Some(("t.play_count", false))
    } else if window_is(&cs, 0, n, "skip_count") {
        Some(("t.skip_count", false))
    } else if window_is(&cs, 0, n, "added_at") {
        Some(("t.added_at", true))
    } else if window_is(&cs, 0, n, "last_played_at") {
        Some(("t.last_played_at", true))
    } else if window_is(&cs, 0, n, "codec") {
        Some(("t.codec", true))
    } else if window_is(&cs, 0, n, "bit_depth") {
        Some(("t.bit_depth", false))
    } else if window_is(&cs, 0, n, "sample_rate_hz") {
        Some(("t.sample_rate_hz", false))
    } else if window_is(&cs, 0, n, "channels") {
        Some(("t.channels", false))
    } else if window_is(&cs, 0, n, "duration_ms") {
        Some(("t.duration_ms", false))
    } else {
        None
    }
}

fn order_field_ok(name: &String) -> (r: bool)
    ensures
        r == is_order_field(name@),
{
    let cs = chars_of(name.as_str());
    let n = cs.len();
    assert(cs@.subrange(0, n as int) == cs@);
    window_is(&cs, 0, n, "added_at") || window_is(&cs, 0, n, "last_played_at") || window_is(
        &cs,
        0,
        n,
        "play_count",
    ) || window_is(&cs, 0, n, "year") || window_is(&cs, 0, n, "rating") || window_is(
        &cs,
        0,
        n,
        "sample_rate_hz",
    ) || window_is(&cs, 0, n, "bit_depth") || window_is(&cs, 0, n, "duration_ms") || window_is(
        &cs,
        0,
        n,
        "title",
    )
}

pub open spec fn genre_exists(neg: Seq<char>, sql_op: Seq<char>) -> Seq<char> {
    neg
        + "EXISTS (SELECT 1 FROM track_genres tg JOIN genres g ON g.id = tg.genre_id WHERE tg.track_id = t.id AND g.name "@
        + sql_op + " ? COLLATE NOCASE)"@
}

/// The comparison operators by rule name.
pub open spec fn comparison_op(op: Seq<char>) -> Option<Seq<char>> {
    if op == "eq"@ {
        Some("="@)
    } else if op == "neq"@ {
        Some("<>"@)
    } else if op == "gt"@ {
        Some(">"@)
    } else if op == "gte"@ {
        Some(">="@)
    } else if op == "lt"@ {
        Some("<"@)
    } else if op == "lte"@ {
        Some("<="@)
    } else {
        None
    }
}

/// One condition: its SQL fragment and the binds it adds.
pub open spec fn condition_sql(c: SmartConditionModel, column: Seq<char>, is_text: bool) -> Result<
    (Seq<char>, Seq<BindModel>),
    SmartErrorModel,
> {
    let bad = SmartErrorModel::BadValue { field: c.field, value: value_json(c.value) };
    match comparison_op(c.op) {
        Some(sql_op) => match value_bind(c.value) {
            Some(b) => if column == "GENRE"@ {
                Ok((genre_exists(Seq::<char>::empty(), sql_op), seq![b]))
            } else {
                Ok((column + " "@ + sql_op + " ?"@, seq![b]))
            },
            None => Err(bad),
        },
        None => if c.op == "contains"@ || c.op == "not_contains"@ {
            match c.value {
                RuleValueModel::Text(text) => {
                    let neg = if c.op == "not_contains"@ {
                        "NOT "@
                    } else {
                        Seq::<char>::empty()
                    };
                    let b = BindModel::Text("%"@ + text + "%"@);
                    if column == "GENRE"@ {
                        Ok((genre_exists(neg, "LIKE"@), seq![b]))
                    } else if is_text {
                        Ok((neg + "("@ + column + " LIKE ? COLLATE NOCASE)"@, seq![b]))
                    } else {
                        Err(bad)
                    }
                },
                _ => Err(bad),
            }
        } else if c.op == "is_null"@ {
            Ok((column + " IS NULL"@, Seq::<BindModel>::empty()))
        } else if c.op == "is_not_null"@ {
            Ok((column + " IS NOT NULL"@, Seq::<BindModel>::empty()))
        } else if c.op == "within_days"@ {
            match value_days(c.value) {
                Some(days) => Ok(
                    (
                        "date("@ + column + ") >= date('now', '-"@ + nat_text(days as nat)
                            + " days')"@,
                        Seq::<BindModel>::empty(),
                    ),
                ),
                None => Err(bad),
            }
        } else {
            Err(SmartErrorModel::UnknownOp(c.op))
        },
    }
}

/// All conditions in order: (clauses, binds), or the first error.
pub open spec fn conditions_sql(cs: Seq<SmartConditionModel>) -> Result<
    (Seq<Seq<char>>, Seq<BindModel>),
    SmartErrorModel,
>
    decreases cs.len(),
{
    if cs.len() == 0 {
        Ok((Seq::<Seq<char>>::empty(), Seq::<BindModel>::empty()))
    } else {
        match conditions_sql(cs.drop_last()) {
            Err(e) => Err(e),
            Ok((clauses, binds)) => {
                let c = cs.last();
                match rule_field(c.field) {
                    None => Err(SmartErrorModel::UnknownField(c.field)),
                    Some((column, is_text)) => match condition_sql(c, column, is_text) {
                        Ok((sql, b)) => Ok((clauses.push(sql), binds + b)),
                        Err(e) => Err(e),
                    },
                }
            },
        }
    }
}

/// Clauses joined by `sep`.
pub open spec fn joined(clauses: Seq<Seq<char>>, sep: Seq<char>) -> Seq<char>
    decreases clauses.len(),
{
    if clauses.len() == 0 {
        Seq::<char>::empty()
    } else if clauses.len() == 1 {
        clauses[0]
    } else {
        joined(clauses.drop_last(), sep) + sep + clauses.last()
    }
}

pub open spec fn joiner(m: MatchMode) -> Seq<char> {
    match m {
        MatchMode::All => " AND "@,
        MatchMode::Any => " OR "@,
    }
}

pub open spec fn where_clause(clauses: Seq<Seq<char>>, m: MatchMode) -> Seq<char> {
    if clauses.len() == 0 {
        "1=1"@
    } else {
        "("@ + joined(clauses, joiner(m)) + ")"@
    }
}

/// `" ORDER BY <column> <dir>"` and/or `" LIMIT <n>"`.
pub open spec fn tail_spec(r: SmartRulesModel) -> Result<Seq<char>, SmartErrorModel> {
    let limit_part = match r.limit {
        Some(n) => " LIMIT "@ + nat_text(n as nat),
        None => Seq::<char>::empty(),
    };
    match r.order_by {
        Some(name) => if is_order_field(name) {
            let dir = if r.order_dir == Some("desc"@) {
                "DESC"@
            } else {
                "ASC"@
            };
            let column = match rule_field(name) {
                Some((c, _)) => c,
                None => "t.added_at"@,
            };
            Ok(" ORDER BY "@ + column + " "@ + dir + limit_part)
        } else {
            Err(SmartErrorModel::UnknownField(name))
        },
        None => Ok(limit_part),
    }
}

/// What `compile_rules` produces: (where clause, binds, order/limit tail).
pub open spec fn compile_spec(r: SmartRulesModel) -> Result<
    (Seq<char>, Seq<BindModel>, Seq<char>),
    SmartErrorModel,
> {
    match conditions_sql(r.conditions) {
        Err(e) => Err(e),
        Ok((clauses, binds)) => match tail_spec(r) {
            Err(e) => Err(e),
            Ok(tail) => Ok((where_clause(clauses, r.match_mode), binds, tail)),
        },
    }
}


fn text_is(s: &String, lit: &str) -> (r: bool)
    ensures
        r == (s@ == lit@),
{
    let cs = chars_of(s.as_str());
    let n = cs.len();
    assert(cs@.subrange(0, n as int) == cs@);
    window_is(&cs, 0, n, lit)
}

fn comparison_sql(op: &String) -> (r: Option<&'static str>)
    ensures
        match r {
            Some(s) => comparison_op(op@) == Some(s@),
            None => comparison_op(op@) is None,
        },
{
    if text_is(op, "eq") {
        Some("=")
    } else if text_is(op, "neq") {
        Some("<>")
    } else if text_is(op, "gt") {
        Some(">")
    } else if text_is(op, "gte") {
        Some(">=")
    } else if text_is(op, "lt") {
        Some("<")
    } else if text_is(op, "lte") {
        Some("<=")
    } else {
        None
    }
}

fn bad_value(cond: &SmartCondition) -> (e: SmartError)
    ensures
        e@ == (SmartErrorModel::BadValue { field: cond.field@, value: value_json(cond.value@) }),
{
    SmartError::BadValue { field: cond.field.clone(), value: value_json_text(&cond.value) }
}

fn push_genre_exists(out: &mut Vec<char>, neg: &str, sql_op: &str)
    ensures
        final(out)@ == old(out)@ + genre_exists(neg@, sql_op@),
{
    let ghost start = out@;
    push_str(out, neg);
    push_str(out, "EXISTS (SELECT 1 FROM track_genres tg JOIN genres g ON g.id = tg.genre_id WHERE tg.track_id = t.id AND g.name ");
    push_str(out, sql_op);
    push_str(out, " ? COLLATE NOCASE)");
    assert(out@ =~= start + genre_exists(neg@, sql_op@));
}

fn compile_condition(cond: &SmartCondition, column: &str, is_text: bool, binds: &mut Vec<Bind>) -> (r:
    Result<String, SmartError>)
    ensures
        match r {
            Ok(sql) => condition_sql(cond@, column@, is_text) matches Ok((s, b)) && sql@ == s
                && final(binds)@.map_values(|x: Bind| x@) == old(binds)@.map_values(|x: Bind| x@)
                + b,
            Err(e) => condition_sql(cond@, column@, is_text) == Err::<
                (Seq<char>, Seq<BindModel>),
                SmartErrorModel,
            >(e@),
        },
{
    let ghost old_binds = binds@.map_values(|x: Bind| x@);
    let col_cs = chars_of(column);
    let ncol = col_cs.len();
    assert(col_cs@.subrange(0, ncol as int) == col_cs@);
    let is_genre = window_is(&col_cs, 0, ncol, "GENRE");
    let mut out: Vec<char> = Vec::new();
    match comparison_sql(&cond.op) {
        Some(sql_op) => {
            match json_to_bind(&cond.value) {
                Some(b) => {
                    binds.push(b);
                    assert(binds@.map_values(|x: Bind| x@) =~= old_binds + seq![b@]);
                },
                None => {
                    return Err(bad_value(cond));
                },
            }
            if is_genre {
                push_genre_exists(&mut out, "", sql_op);
                assert(""@ =~= Seq::<char>::empty()) by {
                    reveal_strlit("");
                }
            } else {
                push_str(&mut out, column);
                push_str(&mut out, " ");
                push_str(&mut out, sql_op);
                push_str(&mut out, " ?");
            }
            assert(out@ =~= condition_sql(cond@, column@, is_text)->Ok_0.0);
            return Ok(string_of(out.as_slice()));
        },
        None => {},
    }
    if text_is(&cond.op, "contains") || text_is(&cond.op, "not_contains") {
        let text = match &cond.value {
            RuleValue::Text(t) => t,
            _ => {
                return Err(bad_value(cond));
            },
        };
        let mut pat: Vec<char> = Vec::new();
        push_str(&mut pat, "%");
        push_str(&mut pat, text.as_str());
        push_str(&mut pat, "%");
        let b = Bind::Text(string_of(pat.as_slice()));
        binds.push(b);
        assert(binds@.map_values(|x: Bind| x@) =~= old_binds + seq![b@]);
        let neg = if text_is(&cond.op, "not_contains") {
            "NOT "
        } else {
            ""
        };
        proof {
            reveal_strlit("");
        }
        if is_genre {
            push_genre_exists(&mut out, neg, "LIKE");
        } else if is_text {
            push_str(&mut out, neg);
            push_str(&mut out, "(");
            push_str(&mut out, column);
            push_str(&mut out, " LIKE ? COLLATE NOCASE)");
        } else {
            return Err(bad_value(cond));
        }
        assert(out@ =~= condition_sql(cond@, column@, is_text)->Ok_0.0);
        return Ok(string_of(out.as_slice()));
    }
    assert(binds@.map_values(|x: Bind| x@) =~= old_binds + Seq::<BindModel>::empty());
    if text_is(&cond.op, "is_null") {
        push_str(&mut out, column);
        push_str(&mut out, " IS NULL");
        return Ok(string_of(out.as_slice()));
    }
    if text_is(&cond.op, "is_not_null") {
        push_str(&mut out, column);
        push_str(&mut out, " IS NOT NULL");
        return Ok(string_of(out.as_slice()));
    }
    if text_is(&cond.op, "within_days") {
        let days: u64 = match &cond.value {
            RuleValue::Int(n) => {
                if *n >= 0 {
                    *n as u64
                } else {
                    return Err(bad_value(cond));
                }
            },
            RuleValue::UInt(n) => *n,
            _ => {
                return Err(bad_value(cond));
            },
        };
        push_str(&mut out, "date(");
        push_str(&mut out, column);
        push_str(&mut out, ") >= date('now', '-");
        push_u64(&mut out, days);
        push_str(&mut out, " days')");
        assert(out@ =~= condition_sql(cond@, column@, is_text)->Ok_0.0);
        return Ok(string_of(out.as_slice()));
    }
    Err(SmartError::UnknownOp(cond.op.clone()))
}

/// Compiles rules to (WHERE clause, binds, ORDER BY/LIMIT tail). Conditions
/// are joined with AND (`all`) or OR (`any`) inside parentheses; no
/// conditions means `1=1`.
pub fn compile_rules(rules: &SmartRules) -> (r: Result<(String, Vec<Bind>, String), SmartError>)
    ensures
        match r {
            Ok((w, b, t)) => compile_spec(rules@) == Ok::<
                (Seq<char>, Seq<BindModel>, Seq<char>),
                SmartErrorModel,
            >((w@, b@.map_values(|x: Bind| x@), t@)),
            Err(e) => compile_spec(rules@) == Err::<
                (Seq<char>, Seq<BindModel>, Seq<char>),
                SmartErrorModel,
            >(e@),
        },
{
    let ghost cs = rules@.conditions;
    let mut clauses: Vec<String> = Vec::new();
    let mut binds: Vec<Bind> = Vec::new();
    let mut i: usize = 0;
    assert(cs.subrange(0, 0) =~= Seq::<SmartConditionModel>::empty());
    assert(clauses@.map_values(|c: String| c@) =~= Seq::<Seq<char>>::empty());
    assert(binds@.map_values(|x: Bind| x@) =~= Seq::<BindModel>::empty());
    while i < rules.conditions.len()
        invariant
            i <= rules.conditions@.len(),
            cs == rules@.conditions,
            conditions_sql(cs.subrange(0, i as int)) == Ok::<
                (Seq<Seq<char>>, Seq<BindModel>),
                SmartErrorModel,
            >((clauses@.map_values(|c: String| c@), binds@.map_values(|x: Bind| x@))),
        decreases rules.conditions@.len() - i,
    {
        let cond = &rules.conditions[i];
        let ghost prev_clauses = clauses@.map_values(|c: String| c@);
        assert(cs.subrange(0, i + 1).drop_last() =~= cs.subrange(0, i as int));
        assert(cs.subrange(0, i + 1).last() == cond@);
        match lookup_field(&cond.field) {
            None => {
                proof {
                    lemma_conditions_error_sticks(cs, i as int + 1);
                }
                assert(cs.subrange(0, cs.len() as int) == cs);
                return Err(SmartError::UnknownField(cond.field.clone()));
            },
            Some((column, is_text)) => {
                match compile_condition(cond, column, is_text, &mut binds) {
                    Ok(sql) => {
                        clauses.push(sql);
                        assert(clauses@.map_values(|c: String| c@) =~= prev_clauses.push(sql@));
                    },
                    Err(e) => {
                        proof {
                            lemma_conditions_error_sticks(cs, i as int + 1);
                        }
                        assert(cs.subrange(0, cs.len() as int) == cs);
                        return Err(e);
                    },
                }
            },
        }
        i = i + 1;
    }
    assert(cs.subrange(0, cs.len() as int) == cs);
    let ghost all_clauses = clauses@.map_values(|c: String| c@);
    let mut where_out: Vec<char> = Vec::new();
    if clauses.len() == 0 {
        push_str(&mut where_out, "1=1");
    } else {
        push_str(&mut where_out, "(");
        let mut k: usize = 0;
        while k < clauses.len()
            invariant
                k <= clauses@.len(),
                clauses@.len() > 0,
                all_clauses == clauses@.map_values(|c: String| c@),
                where_out@ == "("@ + joined(all_clauses.subrange(0, k as int), joiner(rules.match_mode)),
            decreases clauses@.len() - k,
        {
            let ghost prev = where_out@;
            if k > 0 {
                match rules.match_mode {
                    MatchMode::All => push_str(&mut where_out, " AND "),
                    MatchMode::Any => push_str(&mut where_out, " OR "),
                }
            }
            push_str(&mut where_out, clauses[k].as_str());
            k = k + 1;
            assert(all_clauses.subrange(0, k as int).drop_last() =~= all_clauses.subrange(0, k - 1));
            if k == 1 {
                assert(all_clauses.subrange(0, 0) =~= Seq::<Seq<char>>::empty());
            }
            assert(where_out@ =~= "("@ + joined(all_clauses.subrange(0, k as int), joiner(rules.match_mode)));
        }
        assert(all_clauses.subrange(0, all_clauses.len() as int) =~= all_clauses);
        push_str(&mut where_out, ")");
    }
    let mut tail: Vec<char> = Vec::new();
    match &rules.order_by {
        Some(order_by) => {
            if !order_field_ok(order_by) {
                return Err(SmartError::UnknownField(order_by.clone()));
            }
            let desc = match &rules.order_dir {
                Some(d) => text_is(d, "desc"),
                None => false,
            };
            let column = match lookup_field(order_by) {
                Some((c, _)) => c,
                None => "t.added_at",
            };
            push_str(&mut tail, " ORDER BY ");
            push_str(&mut tail, column);
            push_str(&mut tail, " ");
            if desc {
                push_str(&mut tail, "DESC");
            } else {
                push_str(&mut tail, "ASC");
            }
        },
        None => {},
    }
    match rules.limit {
        Some(n) => {
            push_str(&mut tail, " LIMIT ");
            push_u64(&mut tail, n as u64);
        },
        None => {},
    }
    proof {
        reveal_strlit("");
    }
    assert(where_out@ =~= where_clause(all_clauses, rules.match_mode));
    assert(tail@ =~= tail_spec(rules@)->Ok_0);
    Ok((string_of(where_out.as_slice()), binds, string_of(tail.as_slice())))
}

proof fn lemma_conditions_error_sticks(cs: Seq<SmartConditionModel>, k: int)
    requires
        0 <= k <= cs.len(),
        conditions_sql(cs.subrange(0, k)) is Err,
    ensures
        conditions_sql(cs) == conditions_sql(cs.subrange(0, k)),
    decreases cs.len() - k,
{
    if k < cs.len() {
        assert(cs.subrange(0, k + 1).drop_last() =~= cs.subrange(0, k));
        lemma_conditions_error_sticks(cs, k + 1);
    } else {
        assert(cs.subrange(0, k) =~= cs);
    }
}


/// Which JSON shape a rule value has.
pub open spec fn value_kind(v: RuleValueModel) -> int {
    match v {
        RuleValueModel::Null => 0,
        RuleValueModel::Bool(_) => 1,
        RuleValueModel::Int(n) => if n >= 0 {
            2
        } else {
            3
        },
        RuleValueModel::UInt(_) => 4,
        RuleValueModel::Float(_) => 5,
        RuleValueModel::Text(_) => 6,
        RuleValueModel::Composite(_) => 7,
    }
}

/// Two conditions that differ at most in values that travel as binds: same
/// field, same operator, values of the same shape, and the same day count
/// for `within_days` (which is written into the SQL).
pub open spec fn same_shape(a: SmartConditionModel, b: SmartConditionModel) -> bool {
    &&& a.field == b.field
    &&& a.op == b.op
    &&& value_kind(a.value) == value_kind(b.value)
    &&& a.op == "within_days"@ ==> value_days(a.value) == value_days(b.value)
}

proof fn lemma_condition_same_shape(a: SmartConditionModel, b: SmartConditionModel, column: Seq<char>, is_text: bool)
    requires
        same_shape(a, b),
    ensures
        condition_sql(a, column, is_text) is Ok == condition_sql(b, column, is_text) is Ok,
        condition_sql(a, column, is_text) is Ok ==> condition_sql(a, column, is_text)->Ok_0.0
            == condition_sql(b, column, is_text)->Ok_0.0,
        condition_sql(a, column, is_text) is Err ==> (condition_sql(a, column, is_text)->Err_0 is BadValue
            == condition_sql(b, column, is_text)->Err_0 is BadValue),
{
}

proof fn lemma_conditions_same_shape(c1: Seq<SmartConditionModel>, c2: Seq<SmartConditionModel>)
    requires
        c1.len() == c2.len(),
        forall|i: int| 0 <= i < c1.len() ==> same_shape(#[trigger] c1[i], c2[i]),
    ensures
        conditions_sql(c1) is Ok == conditions_sql(c2) is Ok,
        conditions_sql(c1) is Ok ==> conditions_sql(c1)->Ok_0.0 == conditions_sql(c2)->Ok_0.0,
    decreases c1.len(),
{
    if c1.len() > 0 {
        assert forall|i: int| 0 <= i < c1.drop_last().len() implies same_shape(
            #[trigger] c1.drop_last()[i],
            c2.drop_last()[i],
        ) by {
            assert(same_shape(c1[i], c2[i]));
        }
        lemma_conditions_same_shape(c1.drop_last(), c2.drop_last());
        let n = c1.len() - 1;
        assert(same_shape(c1[n], c2[n]));
        match rule_field(c1.last().field) {
            Some((column, is_text)) => {
                lemma_condition_same_shape(c1.last(), c2.last(), column, is_text);
            },
            None => {},
        }
    }
}

/// Rule values never reach the SQL text: rule sets that differ only in the
/// values of their conditions (same fields, operators and value shapes,
/// same `within_days` counts) either both compile, to the same WHERE clause
/// and the same tail, or both fail.
pub proof fn law_rule_values_stay_out_of_sql(r1: SmartRulesModel, r2: SmartRulesModel)
    requires
        r1.match_mode == r2.match_mode,
        r1.order_by == r2.order_by,
        r1.order_dir == r2.order_dir,
        r1.limit == r2.limit,
        r1.conditions.len() == r2.conditions.len(),
        forall|i: int|
            0 <= i < r1.conditions.len() ==> same_shape(#[trigger] r1.conditions[i], r2.conditions[i]),
    ensures
        compile_spec(r1) is Ok == compile_spec(r2) is Ok,
        compile_spec(r1) is Ok ==> compile_spec(r1)->Ok_0.0 == compile_spec(r2)->Ok_0.0
            && compile_spec(r1)->Ok_0.2 == compile_spec(r2)->Ok_0.2,
{
    lemma_conditions_same_shape(r1.conditions, r2.conditions);
}

/// Two conditions that differ at most in their values, where a
/// `within_days` condition keeps its value (its day count is written into
/// the SQL).
pub open spec fn same_slot(a: SmartConditionModel, b: SmartConditionModel) -> bool {
    &&& a.field == b.field
    &&& a.op == b.op
    &&& a.op == "within_days"@ ==> a.value == b.value
}

proof fn lemma_condition_same_slot(a: SmartConditionModel, b: SmartConditionModel, column: Seq<char>, is_text: bool)
    requires
        same_slot(a, b),
        condition_sql(a, column, is_text) is Ok,
        condition_sql(b, column, is_text) is Ok,
    ensures
        condition_sql(a, column, is_text)->Ok_0.0 == condition_sql(b, column, is_text)->Ok_0.0,
        condition_sql(a, column, is_text)->Ok_0.1.len() == condition_sql(b, column, is_text)->Ok_0.1.len(),
{
}

proof fn lemma_conditions_same_slot(c1: Seq<SmartConditionModel>, c2: Seq<SmartConditionModel>)
    requires
        c1.len() == c2.len(),
        forall|i: int| 0 <= i < c1.len() ==> same_slot(#[trigger] c1[i], c2[i]),
        conditions_sql(c1) is Ok,
        conditions_sql(c2) is Ok,
    ensures
        conditions_sql(c1)->Ok_0.0 == conditions_sql(c2)->Ok_0.0,
        conditions_sql(c1)->Ok_0.1.len() == conditions_sql(c2)->Ok_0.1.len(),
    decreases c1.len(),
{
    if c1.len() > 0 {
        assert forall|i: int| 0 <= i < c1.drop_last().len() implies same_slot(
            #[trigger] c1.drop_last()[i],
            c2.drop_last()[i],
        ) by {
            assert(same_slot(c1[i], c2[i]));
        }
        lemma_conditions_same_slot(c1.drop_last(), c2.drop_last());
        let n = c1.len() - 1;
        assert(same_slot(c1[n], c2[n]));
        match rule_field(c1.last().field) {
            Some((column, is_text)) => {
                lemma_condition_same_slot(c1.last(), c2.last(), column, is_text);
            },
            None => {},
        }
    }
}

/// Rule values only ever become binds: two rule sets that differ only in
/// the values of conditions (except `within_days`, whose validated day
/// count is part of the SQL), whatever the kinds of those values, compile,
/// when both compile, to the same WHERE clause, the same tail and the same
/// number of binds.
pub proof fn law_rule_values_only_bind(r1: SmartRulesModel, r2: SmartRulesModel)
    requires
        r1.match_mode == r2.match_mode,
        r1.order_by == r2.order_by,
        r1.order_dir == r2.order_dir,
        r1.limit == r2.limit,
        r1.conditions.len() == r2.conditions.len(),
        forall|i: int|
            0 <= i < r1.conditions.len() ==> same_slot(#[trigger] r1.conditions[i], r2.conditions[i]),
        compile_spec(r1) is Ok,
        compile_spec(r2) is Ok,
    ensures
        compile_spec(r1)->Ok_0.0 == compile_spec(r2)->Ok_0.0,
        compile_spec(r1)->Ok_0.1.len() == compile_spec(r2)->Ok_0.1.len(),
        compile_spec(r1)->Ok_0.2 == compile_spec(r2)->Ok_0.2,
{
    lemma_conditions_same_slot(r1.conditions, r2.conditions);
}

proof fn lemma_clause_at(cs: Seq<SmartConditionModel>, k: int)
    requires
        conditions_sql(cs) is Ok,
        0 <= k < cs.len(),
    ensures
        conditions_sql(cs)->Ok_0.0.len() == cs.len(),
        rule_field(cs[k].field) matches Some((column, is_text)) && condition_sql(
            cs[k],
            column,
            is_text,
        ) matches Ok((sql, _)) && conditions_sql(cs)->Ok_0.0[k] == sql,
    decreases cs.len(),
{
    let init = cs.drop_last();
    if k < cs.len() - 1 {
        lemma_clause_at(init, k);
        assert(init[k] == cs[k]);
    } else if init.len() > 0 {
        lemma_clause_at(init, 0);
    }
}

/// A `within_days` rule keeps the tracks of the last `n` days: for every
/// rule set that compiles, the clause of a `within_days` condition with a
/// day count `n` on a field with column `c` is
/// `date(c) >= date('now', '-n days')`, the count written out in decimal.
pub proof fn law_within_days_clause(r: SmartRulesModel, k: int)
    requires
        compile_spec(r) is Ok,
        0 <= k < r.conditions.len(),
        r.conditions[k].op == "within_days"@,
    ensures
        rule_field(r.conditions[k].field) matches Some((column, _)) && value_days(
            r.conditions[k].value,
        ) matches Some(n) && conditions_sql(r.conditions)->Ok_0.0[k] == "date("@ + column
            + ") >= "@ + "date('now', "@ + "'-"@ + nat_text(n as nat) + " days')"@,
{
    lemma_clause_at(r.conditions, k);
    reveal_strlit(") >= ");
    reveal_strlit("date('now', ");
    reveal_strlit("'-");
    reveal_strlit(") >= date('now', '-");
    assert(") >= "@ + "date('now', "@ + "'-"@ =~= ") >= date('now', '-"@);
    reveal_strlit("within_days");
    reveal_strlit("eq");
    reveal_strlit("neq");
    reveal_strlit("gt");
    reveal_strlit("gte");
    reveal_strlit("lt");
    reveal_strlit("lte");
    reveal_strlit("contains");
    reveal_strlit("not_contains");
    reveal_strlit("is_null");
    reveal_strlit("is_not_null");
    let op = r.conditions[k].op;
    assert(op.len() != "eq"@.len() && op.len() != "neq"@.len() && op.len() != "gt"@.len()
        && op.len() != "gte"@.len() && op.len() != "lt"@.len() && op.len() != "lte"@.len()
        && op.len() != "contains"@.len() && op.len() != "not_contains"@.len() && op.len()
        != "is_null"@.len());
    assert(op[0] != "is_not_null"@[0]);
}

/// How one rule condition reads in SQL on a plain column `c`: `eq`,
/// `neq`, `gt`, `gte`, `lt` and `lte` compare `c` with `=`, `<>`, `>`,
/// `>=`, `<`, `<=` against one bound value (a boolean bound as 1 for true
/// and 0 for false); `contains` and `not_contains` match a text column
/// with `LIKE` (negated for the latter) against the text wrapped in `%`;
/// `is_null` and `is_not_null` test `c` for NULL and bind nothing.
pub proof fn law_rule_condition_reading(c: SmartConditionModel, column: Seq<char>, is_text: bool)
    requires
        column != "GENRE"@,
    ensures
        c.op == "eq"@ && value_bind(c.value) is Some ==> condition_sql(c, column, is_text)
            == Ok::<(Seq<char>, Seq<BindModel>), SmartErrorModel>(
            (column + " = ?"@, seq![value_bind(c.value)->0]),
        ),
        c.op == "neq"@ && value_bind(c.value) is Some ==> condition_sql(c, column, is_text)
            == Ok::<(Seq<char>, Seq<BindModel>), SmartErrorModel>(
            (column + " <> ?"@, seq![value_bind(c.value)->0]),
        ),
        c.op == "gt"@ && value_bind(c.value) is Some ==> condition_sql(c, column, is_text)
            == Ok::<(Seq<char>, Seq<BindModel>), SmartErrorModel>(
            (column + " > ?"@, seq![value_bind(c.value)->0]),
        ),
        c.op == "gte"@ && value_bind(c.value) is Some ==> condition_sql(c, column, is_text)
            == Ok::<(Seq<char>, Seq<BindModel>), SmartErrorModel>(
            (column + " >= ?"@, seq![value_bind(c.value)->0]),
        ),
        c.op == "lt"@ && value_bind(c.value) is Some ==> condition_sql(c, column, is_text)
            == Ok::<(Seq<char>, Seq<BindModel>), SmartErrorModel>(
            (column + " < ?"@, seq![value_bind(c.value)->0]),
        ),
        c.op == "lte"@ && value_bind(c.value) is Some ==> condition_sql(c, column, is_text)
            == Ok::<(Seq<char>, Seq<BindModel>), SmartErrorModel>(
            (column + " <= ?"@, seq![value_bind(c.value)->0]),
        ),
        c.value == RuleValueModel::Bool(true) ==> value_bind(c.value) == Some(BindModel::Int(1)),
        c.value == RuleValueModel::Bool(false) ==> value_bind(c.value) == Some(BindModel::Int(0)),
        c.value matches RuleValueModel::Text(t) ==> (is_text && c.op == "contains"@
            ==> condition_sql(c, column, is_text) == Ok::<
            (Seq<char>, Seq<BindModel>),
            SmartErrorModel,
        >(("("@ + column + " LIKE ? COLLATE NOCASE)"@, seq![BindModel::Text(seq!['%'] + t + seq!['%'])]))),
        c.value matches RuleValueModel::Text(t) ==> (is_text && c.op == "not_contains"@
            ==> condition_sql(c, column, is_text) == Ok::<
            (Seq<char>, Seq<BindModel>),
            SmartErrorModel,
        >(("NOT ("@ + column + " LIKE ? COLLATE NOCASE)"@, seq![BindModel::Text(seq!['%'] + t + seq!['%'])]))),
        c.op == "is_null"@ ==> condition_sql(c, column, is_text) == Ok::<
            (Seq<char>, Seq<BindModel>),
            SmartErrorModel,
        >((column + " IS NULL"@, Seq::<BindModel>::empty())),
        c.op == "is_not_null"@ ==> condition_sql(c, column, is_text) == Ok::<
            (Seq<char>, Seq<BindModel>),
            SmartErrorModel,
        >((column + " IS NOT NULL"@, Seq::<BindModel>::empty())),
{
    reveal_strlit("eq");
    reveal_strlit("neq");
    reveal_strlit("gt");
    reveal_strlit("gte");
    reveal_strlit("lt");
    reveal_strlit("lte");
    reveal_strlit("contains");
    reveal_strlit("not_contains");
    reveal_strlit("is_null");
    reveal_strlit("is_not_null");
    reveal_strlit("=");
    reveal_strlit("<>");
    reveal_strlit(">");
    reveal_strlit(">=");
    reveal_strlit("<");
    reveal_strlit("<=");
    reveal_strlit(" ");
    reveal_strlit(" ?");
    reveal_strlit(" = ?");
    reveal_strlit(" <> ?");
    reveal_strlit(" > ?");
    reveal_strlit(" >= ?");
    reveal_strlit(" < ?");
    reveal_strlit(" <= ?");
    reveal_strlit("%");
    reveal_strlit("NOT ");
    reveal_strlit("(");
    reveal_strlit("NOT (");
    assert(" "@ + "="@ + " ?"@ =~= " = ?"@);
    assert(" "@ + "<>"@ + " ?"@ =~= " <> ?"@);
    assert(" "@ + ">"@ + " ?"@ =~= " > ?"@);
    assert(" "@ + ">="@ + " ?"@ =~= " >= ?"@);
    assert(" "@ + "<"@ + " ?"@ =~= " < ?"@);
    assert(" "@ + "<="@ + " ?"@ =~= " <= ?"@);
    assert(forall|o: Seq<char>| #![auto] column + " "@ + o + " ?"@ =~= column + (" "@ + o + " ?"@));
    assert(forall|t: Seq<char>| #![auto] "%"@ + t + "%"@ =~= seq!['%'] + t + seq!['%']);
    assert(forall|t: Seq<char>| #![auto] "NOT "@ + "("@ + t =~= "NOT ("@ + t);
    assert(forall|t: Seq<char>| #![auto] Seq::<char>::empty() + "("@ + t =~= "("@ + t);
    let op = c.op;
    if op == "neq"@ {
        assert(op.len() != "eq"@.len());
        assert(comparison_op(op) == Some("<>"@));
    }
    if op == "gt"@ {
        assert(op[0] != "eq"@[0] && op.len() != "neq"@.len());
        assert(comparison_op(op) == Some(">"@));
    }
    if op == "gte"@ {
        assert(op.len() != "eq"@.len() && op[0] != "neq"@[0] && op.len() != "gt"@.len());
        assert(comparison_op(op) == Some(">="@));
    }
    if op == "lt"@ {
        assert(op[0] != "eq"@[0] && op.len() != "neq"@.len() && op[0] != "gt"@[0] && op.len()
            != "gte"@.len());
        assert(comparison_op(op) == Some("<"@));
    }
    if op == "lte"@ {
        assert(op.len() != "eq"@.len() && op[0] != "neq"@[0] && op.len() != "gt"@.len() && op[0]
            != "gte"@[0] && op.len() != "lt"@.len());
        assert(comparison_op(op) == Some("<="@));
    }
    if op == "is_null"@ || op == "is_not_null"@ {
        assert(op.len() != "eq"@.len() && op.len() != "neq"@.len() && op.len() != "gt"@.len()
            && op.len() != "gte"@.len() && op.len() != "lt"@.len() && op.len() != "lte"@.len());
        assert(comparison_op(op) is None);
        assert(op[0] != "contains"@[0] && op[0] != "not_contains"@[0]);
        assert("is_null"@.len() != "is_not_null"@.len());
    }
    if op == "contains"@ || op == "not_contains"@ {
        assert(op.len() != "eq"@.len() && op.len() != "neq"@.len() && op.len() != "gt"@.len()
            && op.len() != "gte"@.len() && op.len() != "lt"@.len() && op.len() != "lte"@.len());
        assert(comparison_op(op) is None);
        assert("contains"@.len() != "not_contains"@.len());
    }
}

proof fn lemma_compiled_fields_known(cs: Seq<SmartConditionModel>)
    ensures
        conditions_sql(cs) is Ok ==> forall|i: int|
            0 <= i < cs.len() ==> rule_field(#[trigger] cs[i].field) is Some,
    decreases cs.len(),
{
    if cs.len() > 0 {
        lemma_compiled_fields_known(cs.drop_last());
        if conditions_sql(cs) is Ok {
            assert forall|i: int| 0 <= i < cs.len() implies rule_field(#[trigger] cs[i].field) is Some by {
                if i < cs.len() - 1 {
                    assert(cs.drop_last()[i] == cs[i]);
                }
            }
        }
    }
}

/// Field and order-by names go through fixed tables: rules compile only
/// when every condition names a known field and the order-by, if any, is
/// one of the orderable fields.
pub proof fn law_only_known_names_compile(r: SmartRulesModel)
    ensures
        compile_spec(r) is Ok ==> (forall|i: int|
            0 <= i < r.conditions.len() ==> rule_field(#[trigger] r.conditions[i].field) is Some)
            && (r.order_by matches Some(name) ==> is_order_field(name)),
{
    lemma_compiled_fields_known(r.conditions);
}

} // verus!

verus! {

/// `serde_json::Error`'s `Display` text. Nothing is stated of it: the
/// error value is opaque here.
#[verifier::external_body]
fn json_error_text(e: &serde_json::Error) -> (s: String) {
    e.to_string()
}

impl SmartError {
    /// The error's message, as shown to the user.
    pub fn message(&self) -> (s: String)
        ensures
            match self {
                SmartError::Json(_) => "invalid rules json: "@.is_prefix_of(s@),
                SmartError::UnknownField(f) => s@ == "unknown field: "@ + f@,
                SmartError::UnknownOp(o) => s@ == "unknown operator: "@ + o@,
                SmartError::BadValue { field, value } => s@ == "bad value for "@ + field@ + ": "@
                    + value@,
            },
    {
        let mut out: Vec<char> = Vec::new();
        match self {
            SmartError::Json(e) => {
                push_str(&mut out, "invalid rules json: ");
                let ghost head = out@;
                let t = json_error_text(e);
                push_str(&mut out, t.as_str());
                assert(out@.subrange(0, head.len() as int) =~= head);
            },
            SmartError::UnknownField(f) => {
                push_str(&mut out, "unknown field: ");
                push_str(&mut out, f.as_str());
            },
            SmartError::UnknownOp(o) => {
                push_str(&mut out, "unknown operator: ");
                push_str(&mut out, o.as_str());
            },
            SmartError::BadValue { field, value } => {
                push_str(&mut out, "bad value for ");
                push_str(&mut out, field.as_str());
                push_str(&mut out, ": ");
                push_str(&mut out, value.as_str());
            },
        }
        string_of(out.as_slice())
    }
}

} // verus!
