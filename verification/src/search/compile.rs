//! AST to one parameterized SELECT over tracks joined with artists and
//! albums. User text travels as bind parameters; only the date expressions
//! of `added` conditions are written into the SQL text, and the parser
//! lets through none but its four keyword expressions and quoted
//! `YYYY-MM-DD` dates (`law_only_validated_dates_reach_sql`).
use vstd::prelude::*;

use crate::search::parser::{Condition, ConditionModel, Op, QueryAst, QueryModel, Value, ValueModel};
use crate::text::{chars_of, nat_text, push_str, push_u64, string_of, window_is};

verus! {

#[derive(Debug, Clone)]
pub enum Bind {
    Text(String),
    Int(i64),
}

/// A ready-to-run SQL query with its bind parameters, in order.
pub struct CompiledQuery {
    pub sql: String,
    pub binds: Vec<Bind>,
}

pub enum BindModel {
    Text(Seq<char>),
    Int(i64),
}

pub struct CompiledModel {
    pub sql: Seq<char>,
    pub binds: Seq<BindModel>,
}

impl View for Bind {
    type V = BindModel;

    open spec fn view(&self) -> BindModel {
        match self {
            Bind::Text(s) => BindModel::Text(s@),
            Bind::Int(n) => BindModel::Int(*n),
        }
    }
}

impl View for CompiledQuery {
    type V = CompiledModel;

    open spec fn view(&self) -> CompiledModel {
        CompiledModel { sql: self.sql@, binds: self.binds@.map_values(|b: Bind| b@) }
    }
}

pub open spec fn op_sql(op: Op) -> Seq<char> {
    match op {
        Op::Eq => "="@,
        Op::Gt => ">"@,
        Op::Gte => ">="@,
        Op::Lt => "<"@,
        Op::Lte => "<="@,
    }
}

impl Op {
    /// The SQL comparison operator.
    pub fn sql(self) -> (s: &'static str)
        ensures
            s@ == op_sql(self),
    {
        match self {
            Op::Eq => "=",
            Op::Gt => ">",
            Op::Gte => ">=",
            Op::Lt => "<",
            Op::Lte => "<=",
        }
    }
}

pub open spec fn base_select() -> Seq<char> {
    "SELECT t.* FROM tracks t JOIN artists ar ON ar.id = t.artist_id LEFT JOIN albums al ON al.id = t.album_id WHERE 1=1"@
}

pub open spec fn fts_clause() -> Seq<char> {
    " AND t.id IN (SELECT rowid FROM tracks_fts WHERE tracks_fts MATCH ?)"@
}

pub open spec fn genre_clause() -> Seq<char> {
    " AND EXISTS (SELECT 1 FROM track_genres tg JOIN genres g ON g.id = tg.genre_id WHERE tg.track_id = t.id AND g.name LIKE ? COLLATE NOCASE)"@
}

pub open spec fn order_clause() -> Seq<char> {
    " ORDER BY ar.name COLLATE NOCASE, al.name COLLATE NOCASE, t.disc_no, t.track_no"@
}

/// `t` with every double quote removed.
pub open spec fn without_quotes(t: Seq<char>) -> Seq<char>
    decreases t.len(),
{
    if t.len() == 0 {
        t
    } else {
        without_quotes(t.drop_last()) + (if t.last() == '"' {
            Seq::<char>::empty()
        } else {
            seq![t.last()]
        })
    }
}

/// One full-text term as a quoted prefix match: `"term"*`.
pub open spec fn fts_item(t: Seq<char>) -> Seq<char> {
    "\""@ + without_quotes(t) + "\"*"@
}

/// The terms' prefix matches joined by single spaces (implicit AND).
pub open spec fn fts_joined(ts: Seq<Seq<char>>) -> Seq<char>
    decreases ts.len(),
{
    if ts.len() == 0 {
        Seq::<char>::empty()
    } else if ts.len() == 1 {
        fts_item(ts[0])
    } else {
        fts_joined(ts.drop_last()) + " "@ + fts_item(ts.last())
    }
}

pub open spec fn like_pattern(text: Seq<char>) -> Seq<char> {
    "%"@ + text + "%"@
}

/// Whether a condition's value is written into the SQL text (a date
/// expression from the parser) rather than bound.
pub open spec fn inlines_value(c: ConditionModel) -> bool {
    &&& c.value matches ValueModel::Text(_)
    &&& c.field.column != "GENRE"@
    &&& c.field.name == "added"@
}

/// The SQL and binds one condition contributes.
pub open spec fn condition_sql(c: ConditionModel) -> (Seq<char>, Seq<BindModel>) {
    match c.value {
        ValueModel::Text(text) => if c.field.column == "GENRE"@ {
            (genre_clause(), seq![BindModel::Text(like_pattern(text))])
        } else if c.field.name == "added"@ {
            (
                " AND date(t.added_at) "@ + (if c.op == Op::Eq {
                    ">="@
                } else {
                    op_sql(c.op)
                }) + " "@ + text,
                Seq::<BindModel>::empty(),
            )
        } else {
            (
                " AND "@ + c.field.column + " LIKE ? COLLATE NOCASE"@,
                seq![BindModel::Text(like_pattern(text))],
            )
        },
        ValueModel::Int(n) => (
            " AND "@ + c.field.column + " "@ + op_sql(c.op) + " ?"@,
            seq![BindModel::Int(n)],
        ),
        ValueModel::Bool(b) => (
            " AND "@ + c.field.column + " = ?"@,
            seq![BindModel::Int(if b { 1i64 } else { 0i64 })],
        ),
    }
}

pub open spec fn conditions_sql(cs: Seq<ConditionModel>) -> (Seq<char>, Seq<BindModel>)
    decreases cs.len(),
{
    if cs.len() == 0 {
        (Seq::<char>::empty(), Seq::<BindModel>::empty())
    } else {
        let (s, b) = conditions_sql(cs.drop_last());
        let (s2, b2) = condition_sql(cs.last());
        (s + s2, b + b2)
    }
}

/// The query `compile` builds for an AST and a row limit.
pub open spec fn compile_spec(q: QueryModel, limit: u32) -> CompiledModel {
    let (fts_sql, fts_binds) = if q.fts_terms.len() > 0 {
        (fts_clause(), seq![BindModel::Text(fts_joined(q.fts_terms))])
    } else {
        (Seq::<char>::empty(), Seq::<BindModel>::empty())
    };
    let (cond_sql, cond_binds) = conditions_sql(q.conditions);
    CompiledModel {
        sql: base_select() + fts_sql + cond_sql + order_clause() + " LIMIT "@ + nat_text(
            limit as nat,
        ),
        binds: fts_binds + cond_binds,
    }
}

fn push_without_quotes(out: &mut Vec<char>, t: &String)
    ensures
        final(out)@ == old(out)@ + without_quotes(t@),
{
    let cs = chars_of(t.as_str());
    let mut i: usize = 0;
    assert(cs@.subrange(0, 0) =~= Seq::<char>::empty());
    while i < cs.len()
        invariant
            i <= cs@.len(),
            cs@ == t@,
            out@ == old(out)@ + without_quotes(cs@.subrange(0, i as int)),
        decreases cs@.len() - i,
    {
        let ghost prev = out@;
        if cs[i] != '"' {
            out.push(cs[i]);
        }
        i = i + 1;
        assert(cs@.subrange(0, i as int).drop_last() =~= cs@.subrange(0, i - 1));
        assert(out@ =~= old(out)@ + without_quotes(cs@.subrange(0, i as int)));
    }
    assert(cs@.subrange(0, cs@.len() as int) =~= cs@);
}

fn fts_match_expr(terms: &Vec<String>) -> (s: String)
    requires
        terms@.len() > 0,
    ensures
        s@ == fts_joined(terms@.map_values(|t: String| t@)),
{
    let ghost ts = terms@.map_values(|t: String| t@);
    let mut out: Vec<char> = Vec::new();
    let mut i: usize = 0;
    while i < terms.len()
        invariant
            i <= terms@.len(),
            ts == terms@.map_values(|t: String| t@),
            out@ == fts_joined(ts.subrange(0, i as int)),
        decreases terms@.len() - i,
    {
        let ghost prev = out@;
        if i > 0 {
            push_str(&mut out, " ");
        }
        push_str(&mut out, "\"");
        push_without_quotes(&mut out, &terms[i]);
        push_str(&mut out, "\"*");
        i = i + 1;
        assert(ts.subrange(0, i as int).drop_last() =~= ts.subrange(0, i - 1));
        assert(ts.subrange(0, i as int).last() == terms@[i - 1]@);
        if i == 1 {
            assert(ts.subrange(0, 1)[0] == terms@[0]@);
            assert(prev =~= Seq::<char>::empty());
        }
        assert(out@ =~= fts_joined(ts.subrange(0, i as int)));
    }
    assert(ts.subrange(0, terms@.len() as int) =~= ts);
    string_of(out.as_slice())
}

fn like_bind(text: &String) -> (b: Bind)
    ensures
        b@ == BindModel::Text(like_pattern(text@)),
{
    let mut out: Vec<char> = Vec::new();
    push_str(&mut out, "%");
    push_str(&mut out, text.as_str());
    push_str(&mut out, "%");
    Bind::Text(string_of(out.as_slice()))
}

fn compile_condition(cond: &Condition, sql: &mut Vec<char>, binds: &mut Vec<Bind>)
    ensures
        final(sql)@ == old(sql)@ + condition_sql(cond@).0,
        final(binds)@.map_values(|b: Bind| b@) == old(binds)@.map_values(|b: Bind| b@)
            + condition_sql(cond@).1,
{
    let ghost old_binds = binds@.map_values(|b: Bind| b@);
    let column = cond.field.column.as_str();
    let col_cs = chars_of(column);
    let ncol = col_cs.len();
    assert(col_cs@.subrange(0, ncol as int) == col_cs@);
    let name_cs = chars_of(cond.field.name.as_str());
    let nname = name_cs.len();
    assert(name_cs@.subrange(0, nname as int) == name_cs@);
    match &cond.value {
        Value::Text(text) => {
            if window_is(&col_cs, 0, ncol, "GENRE") {
                push_str(sql, " AND EXISTS (SELECT 1 FROM track_genres tg JOIN genres g ON g.id = tg.genre_id WHERE tg.track_id = t.id AND g.name LIKE ? COLLATE NOCASE)");
                binds.push(like_bind(text));
            } else if window_is(&name_cs, 0, nname, "added") {
                push_str(sql, " AND date(t.added_at) ");
                if cond.op == Op::Eq {
                    push_str(sql, ">=");
                } else {
                    push_str(sql, cond.op.sql());
                }
                push_str(sql, " ");
                push_str(sql, text.as_str());
            } else {
                push_str(sql, " AND ");
                push_str(sql, column);
                push_str(sql, " LIKE ? COLLATE NOCASE");
                binds.push(like_bind(text));
            }
        },
        Value::Int(n) => {
            push_str(sql, " AND ");
            push_str(sql, column);
            push_str(sql, " ");
            push_str(sql, cond.op.sql());
            push_str(sql, " ?");
            binds.push(Bind::Int(*n));
        },
        Value::Bool(b) => {
            push_str(sql, " AND ");
            push_str(sql, column);
            push_str(sql, " = ?");
            binds.push(Bind::Int(if *b { 1 } else { 0 }));
        },
    }
    assert(sql@ =~= old(sql)@ + condition_sql(cond@).0);
    assert(binds@.map_values(|b: Bind| b@) =~= old_binds + condition_sql(cond@).1);
}

/// Builds one SELECT over tracks joined with artists/albums, with a
/// full-text subquery filter when bare terms are present, every condition
/// ANDed, a fixed artist/album/disc/track order and the row limit.
pub fn compile(ast: &QueryAst, limit: u32) -> (q: CompiledQuery)
    ensures
        q@ == compile_spec(ast@, limit),
{
    let mut sql: Vec<char> = Vec::new();
    push_str(&mut sql, "SELECT t.* FROM tracks t JOIN artists ar ON ar.id = t.artist_id LEFT JOIN albums al ON al.id = t.album_id WHERE 1=1");
    let mut binds: Vec<Bind> = Vec::new();
    let ghost q = ast@;
    if ast.fts_terms.len() > 0 {
        push_str(&mut sql, " AND t.id IN (SELECT rowid FROM tracks_fts WHERE tracks_fts MATCH ?)");
        binds.push(Bind::Text(fts_match_expr(&ast.fts_terms)));
    }
    let ghost head_sql = sql@;
    let ghost head_binds = binds@.map_values(|b: Bind| b@);
    assert(q.fts_terms.len() > 0 ==> head_binds =~= seq![BindModel::Text(fts_joined(q.fts_terms))]);
    assert(q.fts_terms.len() == 0 ==> head_binds =~= Seq::<BindModel>::empty());
    let mut i: usize = 0;
    assert(q.conditions.subrange(0, 0) =~= Seq::<ConditionModel>::empty());
    assert(sql@ =~= head_sql + conditions_sql(q.conditions.subrange(0, 0)).0);
    assert(binds@.map_values(|b: Bind| b@) =~= head_binds + conditions_sql(q.conditions.subrange(0, 0)).1);
    while i < ast.conditions.len()
        invariant
            i <= ast.conditions@.len(),
            q == ast@,
            sql@ == head_sql + conditions_sql(q.conditions.subrange(0, i as int)).0,
            binds@.map_values(|b: Bind| b@) == head_binds + conditions_sql(
                q.conditions.subrange(0, i as int),
            ).1,
        decreases ast.conditions@.len() - i,
    {
        compile_condition(&ast.conditions[i], &mut sql, &mut binds);
        i = i + 1;
        assert(q.conditions.subrange(0, i as int).drop_last() =~= q.conditions.subrange(0, i - 1));
        assert(q.conditions.subrange(0, i as int).last() == ast.conditions@[i - 1]@);
        assert(sql@ =~= head_sql + conditions_sql(q.conditions.subrange(0, i as int)).0);
        assert(binds@.map_values(|b: Bind| b@) =~= head_binds + conditions_sql(
            q.conditions.subrange(0, i as int),
        ).1);
    }
    assert(q.conditions.subrange(0, q.conditions.len() as int) =~= q.conditions);
    push_str(&mut sql, " ORDER BY ar.name COLLATE NOCASE, al.name COLLATE NOCASE, t.disc_no, t.track_no");
    push_str(&mut sql, " LIMIT ");
    push_u64(&mut sql, limit as u64);
    let out = CompiledQuery { sql: string_of(sql.as_slice()), binds };
    assert(out@.sql =~= compile_spec(q, limit).sql);
    assert(out@.binds =~= compile_spec(q, limit).binds);
    out
}


/// Two conditions that differ at most in values that travel as bind
/// parameters.
pub open spec fn same_shape(a: ConditionModel, b: ConditionModel) -> bool {
    &&& a.field == b.field
    &&& a.op == b.op
    &&& match (a.value, b.value) {
        (ValueModel::Text(x), ValueModel::Text(y)) => inlines_value(a) ==> x == y,
        (ValueModel::Int(_), ValueModel::Int(_)) => true,
        (ValueModel::Bool(_), ValueModel::Bool(_)) => true,
        _ => false,
    }
}

/// How many of the conditions bind a parameter.
pub open spec fn bound_count(cs: Seq<ConditionModel>) -> int
    decreases cs.len(),
{
    if cs.len() == 0 {
        0
    } else {
        bound_count(cs.drop_last()) + (if inlines_value(cs.last()) {
            0int
        } else {
            1int
        })
    }
}

proof fn lemma_conditions_same_shape(c1: Seq<ConditionModel>, c2: Seq<ConditionModel>)
    requires
        c1.len() == c2.len(),
        forall|i: int| 0 <= i < c1.len() ==> same_shape(#[trigger] c1[i], c2[i]),
    ensures
        conditions_sql(c1).0 == conditions_sql(c2).0,
        conditions_sql(c1).1.len() == conditions_sql(c2).1.len(),
    decreases c1.len(),
{
    if c1.len() > 0 {
        let n = c1.len() - 1;
        assert forall|i: int| 0 <= i < c1.drop_last().len() implies same_shape(
            #[trigger] c1.drop_last()[i],
            c2.drop_last()[i],
        ) by {
            assert(same_shape(c1[i], c2[i]));
        }
        lemma_conditions_same_shape(c1.drop_last(), c2.drop_last());
        assert(same_shape(c1[n], c2[n]));
    }
}

proof fn lemma_bind_count(cs: Seq<ConditionModel>)
    ensures
        conditions_sql(cs).1.len() == bound_count(cs),
    decreases cs.len(),
{
    if cs.len() > 0 {
        lemma_bind_count(cs.drop_last());
    }
}

/// User input never lands in the SQL text: queries whose conditions have the
/// same fields, operators and value kinds, and whose full-text parts are
/// both present or both absent, compile to the same SQL with the same
/// number of binds, whatever the bound texts and numbers are. The values of
/// `added` conditions are part of the text; which values those can be is
/// `law_only_validated_dates_reach_sql`.
pub proof fn law_sql_independent_of_bound_values(q1: QueryModel, q2: QueryModel, limit: u32)
    requires
        (q1.fts_terms.len() > 0) == (q2.fts_terms.len() > 0),
        q1.conditions.len() == q2.conditions.len(),
        forall|i: int|
            0 <= i < q1.conditions.len() ==> same_shape(#[trigger] q1.conditions[i], q2.conditions[i]),
    ensures
        compile_spec(q1, limit).sql == compile_spec(q2, limit).sql,
        compile_spec(q1, limit).binds.len() == compile_spec(q2, limit).binds.len(),
{
    lemma_conditions_same_shape(q1.conditions, q2.conditions);
}

/// One bind for the full-text part when there are terms (first, holding the
/// prefix-match expression), then one per condition, except conditions
/// whose date expression is inlined.
pub proof fn law_bind_count(q: QueryModel, limit: u32)
    ensures
        compile_spec(q, limit).binds.len() == (if q.fts_terms.len() > 0 {
            1int
        } else {
            0int
        }) + bound_count(q.conditions),
        q.fts_terms.len() > 0 ==> compile_spec(q, limit).binds[0] == BindModel::Text(
            fts_joined(q.fts_terms),
        ),
{
    lemma_bind_count(q.conditions);
}

proof fn lemma_conditions_concat(a: Seq<ConditionModel>, b: Seq<ConditionModel>)
    ensures
        conditions_sql(a + b).0 == conditions_sql(a).0 + conditions_sql(b).0,
        conditions_sql(a + b).1 == conditions_sql(a).1 + conditions_sql(b).1,
    decreases b.len(),
{
    if b.len() == 0 {
        assert(a + b == a);
        assert(conditions_sql(a).0 + Seq::<char>::empty() == conditions_sql(a).0);
        assert(conditions_sql(a).1 + Seq::<BindModel>::empty() == conditions_sql(a).1);
    } else {
        assert((a + b).drop_last() == a + b.drop_last());
        assert((a + b).last() == b.last());
        lemma_conditions_concat(a, b.drop_last());
        let (sa, ba) = conditions_sql(a);
        let (sb, bb) = conditions_sql(b.drop_last());
        let (sc, bc) = condition_sql(b.last());
        assert((sa + sb) + sc == sa + (sb + sc));
        assert((ba + bb) + bc == ba + (bb + bc));
    }
}

/// A yes-or-no condition binds 1 for true and 0 for false: in the compiled
/// query, the bind a boolean condition contributes (after the full-text
/// bind, if any, and one for each earlier condition whose value is bound)
/// is `Int(1)` exactly when the condition's value is true.
pub proof fn law_bool_binds(q: QueryModel, limit: u32, k: int)
    requires
        0 <= k < q.conditions.len(),
        q.conditions[k].value matches ValueModel::Bool(_),
    ensures
        ({
            let at = (if q.fts_terms.len() > 0 {
                1int
            } else {
                0int
            }) + bound_count(q.conditions.subrange(0, k));
            &&& 0 <= at < compile_spec(q, limit).binds.len()
            &&& (q.conditions[k].value == ValueModel::Bool(true) ==> compile_spec(q, limit).binds[at]
                == BindModel::Int(1))
            &&& (q.conditions[k].value == ValueModel::Bool(false) ==> compile_spec(q, limit).binds[at]
                == BindModel::Int(0))
        }),
{
    let cs = q.conditions;
    let pre = cs.subrange(0, k);
    let post = cs.subrange(k + 1, cs.len() as int);
    let one = seq![cs[k]];
    assert(pre + one + post == cs);
    lemma_conditions_concat(pre + one, post);
    lemma_conditions_concat(pre, one);
    lemma_bind_count(pre);
    assert(one.drop_last() =~= Seq::<ConditionModel>::empty());
    assert(one.last() == cs[k]);
    let fts_n: int = if q.fts_terms.len() > 0 {
        1
    } else {
        0
    };
    let fb = if q.fts_terms.len() > 0 {
        seq![BindModel::Text(fts_joined(q.fts_terms))]
    } else {
        Seq::<BindModel>::empty()
    };
    assert(fb.len() == fts_n);
    let binds = compile_spec(q, limit).binds;
    let bp = conditions_sql(pre).1;
    let bc = condition_sql(cs[k]).1;
    let bq = conditions_sql(post).1;
    assert(conditions_sql(one.drop_last()).1 == Seq::<BindModel>::empty());
    assert(conditions_sql(one).1 == conditions_sql(one.drop_last()).1 + condition_sql(one.last()).1);
    assert(conditions_sql(one).1 =~= bc);
    assert(binds =~= fb + ((bp + bc) + bq));
    assert(bc.len() == 1);
    assert(binds[fts_n + bp.len()] == bc[0]);
}

/// How one condition reads in SQL. A number compares the field's column
/// with the operator the query wrote (`:` meaning equality) against one
/// bound number; a text on a plain field matches the column with `LIKE`
/// against the bound text wrapped in `%` on both sides; a date on `added`
/// compares the day the track was added, `:` meaning "on or after", with
/// the date expression itself and binds nothing.
pub proof fn law_condition_reading(c: ConditionModel)
    ensures
        c.value matches ValueModel::Int(n) ==> condition_sql(c).1 == seq![BindModel::Int(n)],
        c.value is Int && c.op == Op::Eq ==> condition_sql(c).0 == " AND "@ + c.field.column
            + " = ?"@,
        c.value is Int && c.op == Op::Gt ==> condition_sql(c).0 == " AND "@ + c.field.column
            + " > ?"@,
        c.value is Int && c.op == Op::Gte ==> condition_sql(c).0 == " AND "@ + c.field.column
            + " >= ?"@,
        c.value is Int && c.op == Op::Lt ==> condition_sql(c).0 == " AND "@ + c.field.column
            + " < ?"@,
        c.value is Int && c.op == Op::Lte ==> condition_sql(c).0 == " AND "@ + c.field.column
            + " <= ?"@,
        c.value matches ValueModel::Text(t) ==> (c.field.column != "GENRE"@ && c.field.name
            != "added"@ ==> condition_sql(c) == (
            " AND "@ + c.field.column + " LIKE ? COLLATE NOCASE"@,
            seq![BindModel::Text(seq!['%'] + t + seq!['%'])],
        )),
        c.value matches ValueModel::Text(t) ==> (c.field.column == "GENRE"@ ==> condition_sql(c).1
            == seq![BindModel::Text(seq!['%'] + t + seq!['%'])]),
        c.value matches ValueModel::Text(t) ==> (c.field.column != "GENRE"@ && c.field.name
            == "added"@ && c.op == Op::Eq ==> condition_sql(c) == (
            " AND date(t.added_at) >= "@ + t,
            Seq::<BindModel>::empty(),
        )),
{
    reveal_strlit("%");
    reveal_strlit(" = ?");
    reveal_strlit(" > ?");
    reveal_strlit(" >= ?");
    reveal_strlit(" < ?");
    reveal_strlit(" <= ?");
    reveal_strlit(" ");
    reveal_strlit(" ?");
    reveal_strlit("=");
    reveal_strlit(">");
    reveal_strlit(">=");
    reveal_strlit("<");
    reveal_strlit("<=");
    reveal_strlit(" AND date(t.added_at) ");
    reveal_strlit(" AND date(t.added_at) >= ");
    let col = c.field.column;
    assert(" "@ + "="@ + " ?"@ =~= " = ?"@);
    assert(" "@ + ">"@ + " ?"@ =~= " > ?"@);
    assert(" "@ + ">="@ + " ?"@ =~= " >= ?"@);
    assert(" "@ + "<"@ + " ?"@ =~= " < ?"@);
    assert(" "@ + "<="@ + " ?"@ =~= " <= ?"@);
    assert(" AND "@ + col + " "@ + op_sql(c.op) + " ?"@ =~= " AND "@ + col + (" "@ + op_sql(c.op)
        + " ?"@));
    assert(" AND date(t.added_at) "@ + ">="@ + " "@ =~= " AND date(t.added_at) >= "@);
    if let ValueModel::Text(t) = c.value {
        assert(like_pattern(t) =~= seq!['%'] + t + seq!['%']);
        assert(" AND date(t.added_at) "@ + ">="@ + " "@ + t =~= " AND date(t.added_at) >= "@ + t);
    }
}

} // verus!
