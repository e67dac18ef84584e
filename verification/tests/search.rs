use signal::search::{compile, field, parse, Bind, FieldType, Op, SearchError, Value};

#[test]
fn bare_terms_go_to_fts() {
    let ast = parse("bocanada cerati").unwrap();
    assert_eq!(ast.fts_terms, vec!["bocanada", "cerati"]);
    assert!(ast.conditions.is_empty());
}

#[test]
fn field_conditions() {
    let ast = parse("artist:cerati year>1998 rating>=4 codec:flac").unwrap();
    assert_eq!(ast.conditions.len(), 4);
    assert_eq!(ast.conditions[0].field.name, "artist");
    assert_eq!(ast.conditions[1].op, Op::Gt);
    assert_eq!(ast.conditions[1].value, Value::Int(1998));
    assert_eq!(ast.conditions[2].op, Op::Gte);
}

#[test]
fn quoted_values_keep_spaces() {
    let ast = parse("album:\"the dark side\"").unwrap();
    assert_eq!(ast.conditions[0].value, Value::Text("the dark side".into()));
}

#[test]
fn samplerate_k_suffix_and_camelcase() {
    let ast = parse("sampleRate>48k bitDepth:24").unwrap();
    assert_eq!(ast.conditions[0].value, Value::Int(48_000));
    assert_eq!(ast.conditions[1].value, Value::Int(24));
}

#[test]
fn duration_units() {
    let ast = parse("duration>5m").unwrap();
    assert_eq!(ast.conditions[0].value, Value::Int(300_000));
}

#[test]
fn date_keywords() {
    let ast = parse("added:last-week").unwrap();
    assert_eq!(
        ast.conditions[0].value,
        Value::Text("date('now', '-7 days')".into())
    );
}

#[test]
fn unknown_field_falls_back_to_fts() {
    let ast = parse("AC:DC").unwrap();
    assert!(ast.conditions.is_empty());
    assert_eq!(ast.fts_terms, vec!["AC:DC"]);
}

#[test]
fn text_field_rejects_range_op() {
    assert!(matches!(
        parse("artist>cerati"),
        Err(SearchError::InvalidOp { .. })
    ));
}

#[test]
fn bad_int_value_errors() {
    assert!(matches!(
        parse("year:banana"),
        Err(SearchError::InvalidValue { .. })
    ));
}

#[test]
fn fts_plus_conditions() {
    let ast = parse("cerati codec:flac year>1998").unwrap();
    let q = compile(&ast, 50);
    assert!(q.sql.contains("tracks_fts MATCH ?"));
    assert!(q.sql.contains("t.codec LIKE ? COLLATE NOCASE"));
    assert!(q.sql.contains("t.year > ?"));
    assert!(q.sql.contains("LIMIT 50"));
    assert_eq!(q.binds.len(), 3);
}

#[test]
fn genre_uses_exists_subquery() {
    let ast = parse("genre:jazz").unwrap();
    let q = compile(&ast, 10);
    assert!(q.sql.contains("EXISTS (SELECT 1 FROM track_genres"));
}

#[test]
fn date_condition_inlines_expression_not_value() {
    let ast = parse("added:last-week").unwrap();
    let q = compile(&ast, 10);
    assert!(q.sql.contains("date(t.added_at) >= date('now', '-7 days')"));
    assert!(q.binds.is_empty());
}

#[test]
fn fts_quotes_stripped_prefix_added() {
    let ast = parse("boca\"nada").unwrap();
    let q = compile(&ast, 10);
    match &q.binds[0] {
        Bind::Text(s) => assert_eq!(s, "\"bocanada\"*"),
        Bind::Int(_) => panic!("expected text bind"),
    }
}

#[test]
fn field_lookup_ignores_case() {
    let a = field("SAMPLERATE").unwrap();
    let b = field("samplerate").unwrap();
    assert_eq!(a.name, b.name);
    assert_eq!(a.column, b.column);
    assert_eq!(a.kind, FieldType::Int);
    assert!(field("nosuchfield").is_none());
}

#[test]
fn unknown_field_with_value_stays_a_term() {
    let ast = parse("foo:bar year:2001").unwrap();
    assert_eq!(ast.fts_terms, vec!["foo:bar"]);
    assert_eq!(ast.conditions.len(), 1);
    assert_eq!(ast.conditions[0].value, Value::Int(2001));
}

#[test]
fn empty_query_is_empty_ast() {
    let ast = parse("   ").unwrap();
    assert!(ast.fts_terms.is_empty());
    assert!(ast.conditions.is_empty());
}

#[test]
fn duration_in_seconds_and_bare_numbers() {
    let ast = parse("duration<90s").unwrap();
    assert_eq!(ast.conditions[0].value, Value::Int(90_000));
    assert_eq!(ast.conditions[0].op, Op::Lt);
    // a bare number counts seconds; there is no hour unit
    let ast = parse("duration<=240").unwrap();
    assert_eq!(ast.conditions[0].value, Value::Int(240_000));
    assert!(matches!(
        parse("duration<=1h"),
        Err(SearchError::InvalidValue { .. })
    ));
    assert_eq!(ast.conditions[0].op, Op::Lte);
}

#[test]
fn kilo_suffix_with_fraction() {
    let ast = parse("samplerate:44.1k").unwrap();
    assert_eq!(ast.conditions[0].value, Value::Int(44_100));
}

#[test]
fn bool_fields_accept_words() {
    let ast = parse("favorite:yes").unwrap();
    assert_eq!(ast.conditions[0].value, Value::Bool(true));
    assert!(matches!(
        parse("favorite:maybe"),
        Err(SearchError::InvalidValue { .. })
    ));
}

#[test]
fn error_messages_name_the_problem() {
    let e = parse("year:banana").unwrap_err();
    assert_eq!(e.message(), "invalid value for year: banana");
    let e = parse("artist>cerati").unwrap_err();
    assert_eq!(e.message(), "operator Gt not valid for artist");
    assert_eq!(
        SearchError::UnknownField("x".into()).message(),
        "unknown field: x"
    );
    assert_eq!(
        SearchError::Execution("boom".into()).message(),
        "query failed: boom"
    );
}

#[test]
fn sql_text_does_not_carry_user_values() {
    let a = compile(&parse("artist:cerati").unwrap(), 10);
    let b = compile(&parse("artist:spinetta").unwrap(), 10);
    assert_eq!(a.sql, b.sql);
    assert_eq!(a.binds.len(), 1);
    assert!(!a.sql.contains("cerati"));
}

#[test]
fn op_sql_symbols() {
    assert_eq!(Op::Eq.sql(), "=");
    assert_eq!(Op::Gt.sql(), ">");
    assert_eq!(Op::Gte.sql(), ">=");
    assert_eq!(Op::Lt.sql(), "<");
    assert_eq!(Op::Lte.sql(), "<=");
}

#[test]
fn absolute_dates_must_be_iso() {
    let ast = parse("added:2024-01-15").unwrap();
    assert_eq!(ast.conditions[0].value, Value::Text("'2024-01-15'".into()));
    for bad in ["2020-'OR'1", "2020-01-1x", "2020/01/15", "2020-0115-", "1999-12-3"] {
        match parse(&format!("added:{bad}")) {
            Err(SearchError::InvalidValue { field, value }) => {
                assert_eq!(field, "added");
                assert_eq!(value, bad);
            }
            other => panic!("{bad} not refused (ok: {})", other.is_ok()),
        }
    }
}

fn kilo(text: &str) -> Option<i64> {
    match parse(&format!("samplerate:{text}")) {
        Ok(ast) => match &ast.conditions[0].value {
            Value::Int(n) => Some(*n),
            _ => None,
        },
        Err(_) => None,
    }
}

#[test]
fn kilo_values_read_as_float_text() {
    assert_eq!(kilo("1e3k"), Some(1_000_000));
    assert_eq!(kilo("1E+3K"), Some(1_000_000));
    assert_eq!(kilo("2.5e-3k"), Some(3));
    assert_eq!(kilo("-2.5e-3k"), Some(-3));
    assert_eq!(kilo("1e-5k"), Some(0));
    assert_eq!(kilo(".5k"), Some(500));
    assert_eq!(kilo("1.e1k"), Some(10_000));
    assert_eq!(kilo("1e20k"), Some(i64::MAX));
    assert_eq!(kilo("-1e99999999999999999999999k"), Some(i64::MIN));
    assert_eq!(kilo("0e99999999999999999999999k"), Some(0));
    assert_eq!(kilo("infk"), Some(i64::MAX));
    assert_eq!(kilo("-Infinityk"), Some(i64::MIN));
    assert_eq!(kilo("NaNk"), Some(0));
    assert_eq!(kilo("1ek"), None);
    assert_eq!(kilo("e3k"), None);
    assert_eq!(kilo("1e3.0k"), None);
    assert_eq!(kilo("infinik"), None);
}
