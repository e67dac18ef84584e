use signal::smart::{
    compile_rules, default_match, Bind, MatchMode, RuleValue, SmartCondition, SmartError,
    SmartRules,
};

fn cond(field: &str, op: &str, value: RuleValue) -> SmartCondition {
    SmartCondition {
        field: field.to_owned(),
        op: op.to_owned(),
        value,
    }
}

fn rules(conditions: Vec<SmartCondition>) -> SmartRules {
    SmartRules {
        match_mode: default_match(),
        conditions,
        order_by: None,
        order_dir: None,
        limit: None,
    }
}

#[test]
fn never_played_compiles() {
    let r = SmartRules {
        match_mode: MatchMode::All,
        conditions: vec![cond("play_count", "eq", RuleValue::Int(0))],
        order_by: Some("added_at".to_owned()),
        order_dir: Some("desc".to_owned()),
        limit: None,
    };
    let (where_c, binds, tail) = compile_rules(&r).unwrap();
    assert_eq!(where_c, "(t.play_count = ?)");
    assert_eq!(binds.len(), 1);
    assert!(tail.contains("ORDER BY t.added_at DESC"));
}

#[test]
fn genre_and_year() {
    let r = SmartRules {
        match_mode: MatchMode::All,
        conditions: vec![
            cond("genre", "contains", RuleValue::Text("Jazz".to_owned())),
            cond("year", "gt", RuleValue::Int(1990)),
        ],
        order_by: Some("year".to_owned()),
        order_dir: Some("asc".to_owned()),
        limit: None,
    };
    let (where_c, binds, _) = compile_rules(&r).unwrap();
    assert!(where_c.contains("EXISTS (SELECT 1 FROM track_genres"));
    assert!(where_c.contains("t.year > ?"));
    assert!(where_c.contains(" AND "));
    assert_eq!(binds.len(), 2);
}

#[test]
fn within_days_inlines_validated_number() {
    let r = rules(vec![cond("added_at", "within_days", RuleValue::Int(30))]);
    let (where_c, binds, _) = compile_rules(&r).unwrap();
    assert!(where_c.contains("date('now', '-30 days')"));
    assert!(binds.is_empty());
}

#[test]
fn unknown_field_rejected() {
    let r = rules(vec![cond("evil; DROP", "eq", RuleValue::Int(1))]);
    assert!(compile_rules(&r).is_err());
}

#[test]
fn any_uses_or() {
    let r = SmartRules {
        match_mode: MatchMode::Any,
        conditions: vec![
            cond("rating", "gte", RuleValue::Int(4)),
            cond("favorite", "eq", RuleValue::Bool(true)),
        ],
        order_by: None,
        order_dir: None,
        limit: None,
    };
    let (where_c, _, _) = compile_rules(&r).unwrap();
    assert!(where_c.contains(" OR "));
}

#[test]
fn no_conditions_match_everything() {
    let (where_c, binds, tail) = compile_rules(&rules(vec![])).unwrap();
    assert_eq!(where_c, "1=1");
    assert!(binds.is_empty());
    assert_eq!(tail, "");
}

#[test]
fn text_values_are_bound_not_inlined() {
    let r = rules(vec![cond("title", "eq", RuleValue::Text("x'; DROP".to_owned()))]);
    let (where_c, binds, _) = compile_rules(&r).unwrap();
    assert!(!where_c.contains("DROP"));
    match &binds[0] {
        Bind::Text(s) => assert_eq!(s, "x'; DROP"),
        _ => panic!("expected a text bind"),
    }
}

#[test]
fn errors_name_what_was_wrong() {
    let r = rules(vec![cond("year", "between", RuleValue::Int(1))]);
    assert!(matches!(compile_rules(&r), Err(SmartError::UnknownOp(op)) if op == "between"));
    let r = rules(vec![cond("added_at", "within_days", RuleValue::Text("30; x".to_owned()))]);
    assert!(matches!(compile_rules(&r), Err(SmartError::BadValue { .. })));
    let mut r = rules(vec![]);
    r.order_by = Some("file_path".to_owned());
    assert!(matches!(compile_rules(&r), Err(SmartError::UnknownField(f)) if f == "file_path"));
}

#[test]
fn limit_lands_in_the_tail() {
    let mut r = rules(vec![]);
    r.limit = Some(25);
    let (_, _, tail) = compile_rules(&r).unwrap();
    assert!(tail.contains("LIMIT 25"));
}

#[test]
fn smart_error_messages() {
    assert_eq!(
        SmartError::UnknownField("evil".to_owned()).message(),
        "unknown field: evil"
    );
    assert_eq!(
        SmartError::UnknownOp("between".to_owned()).message(),
        "unknown operator: between"
    );
    assert_eq!(
        SmartError::BadValue {
            field: "year".to_owned(),
            value: "\"x\"".to_owned()
        }
        .message(),
        "bad value for year: \"x\""
    );
    let e = serde_json::from_str::<serde_json::Value>("{").unwrap_err();
    assert!(SmartError::Json(e).message().starts_with("invalid rules json: "));
}

#[test]
fn values_of_any_kind_only_bind() {
    let a = rules(vec![cond("title", "eq", RuleValue::Text("x' OR 1=1 --".to_owned()))]);
    let b = rules(vec![cond("title", "eq", RuleValue::Int(7))]);
    let (wa, ba, ta) = compile_rules(&a).unwrap();
    let (wb, bb, tb) = compile_rules(&b).unwrap();
    assert_eq!(wa, wb);
    assert_eq!(ta, tb);
    assert_eq!(ba.len(), bb.len());
    assert!(!wa.contains("OR 1=1"));
}
