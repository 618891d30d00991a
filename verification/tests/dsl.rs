//! Conditions as text.

use vaultdb::dsl::parse;
use vaultdb::error::VaultdbError;
use vaultdb::query::{CompareOp, Expr, Predicate};
use vaultdb::record::Value;

fn parse_ok(input: &str) -> Expr {
    parse(input).unwrap_or_else(|e| panic!("expected parse to succeed for {:?}: {}", input, e.to_string()))
}

#[test]
fn simple_equals() {
    let e = parse_ok("status = active");
    match e {
        Expr::Predicate(Predicate::Equals { field, value }) => {
            assert_eq!(field, "status");
            assert_eq!(value, Value::String("active".into()));
        }
        other => panic!("expected Equals, got {:?}", other),
    }
}

#[test]
fn numeric_coercion_on_equals() {
    let e = parse_ok("year = 2020");
    if let Expr::Predicate(Predicate::Equals { value, .. }) = e {
        assert_eq!(value, Value::Integer(2020));
    } else {
        panic!("expected Equals");
    }
}

#[test]
fn quoted_string_with_spaces() {
    let e = parse_ok(r#"title = "two words""#);
    if let Expr::Predicate(Predicate::Equals { value, .. }) = e {
        assert_eq!(value, Value::String("two words".into()));
    } else {
        panic!("expected Equals");
    }
}

#[test]
fn quoted_string_with_escaped_quote() {
    let e = parse_ok(r#"label = "she said \"hi\"""#);
    if let Expr::Predicate(Predicate::Equals { value, .. }) = e {
        assert_eq!(value, Value::String(r#"she said "hi""#.into()));
    } else {
        panic!("expected Equals");
    }
}

#[test]
fn single_quoted_string() {
    let e = parse_ok("status = 'in review'");
    if let Expr::Predicate(Predicate::Equals { value, .. }) = e {
        assert_eq!(value, Value::String("in review".into()));
    } else {
        panic!("expected Equals");
    }
}

#[test]
fn contains_with_unquoted_path_value() {
    let e = parse_ok("tags contains topic/ai");
    if let Expr::Predicate(Predicate::Contains { field, value }) = e {
        assert_eq!(field, "tags");
        assert_eq!(value, Value::String("topic/ai".into()));
    } else {
        panic!("expected Contains");
    }
}

#[test]
fn negation_via_bang_op() {
    let e = parse_ok("tags !contains topic/movies");
    if let Expr::Not(inner) = e {
        if let Expr::Predicate(Predicate::Contains { .. }) = *inner {
            // ok
        } else {
            panic!("expected Not(Contains)");
        }
    } else {
        panic!("expected Not");
    }
}

#[test]
fn negation_via_not_word() {
    let e = parse_ok("NOT status = draft");
    assert!(matches!(e, Expr::Not(_)));
}

#[test]
fn exists_and_missing() {
    assert!(matches!(
        parse_ok("title exists"),
        Expr::Predicate(Predicate::Exists { .. })
    ));
    assert!(matches!(
        parse_ok("title missing"),
        Expr::Predicate(Predicate::Missing { .. })
    ));
    assert!(matches!(
        parse_ok("title !exists"),
        Expr::Predicate(Predicate::Missing { .. })
    ));
    assert!(matches!(
        parse_ok("title !missing"),
        Expr::Predicate(Predicate::Exists { .. })
    ));
}

#[test]
fn is_null_and_is_not_null() {
    assert!(matches!(
        parse_ok("title IS NULL"),
        Expr::Predicate(Predicate::Missing { .. })
    ));
    assert!(matches!(
        parse_ok("title IS NOT NULL"),
        Expr::Predicate(Predicate::Exists { .. })
    ));
}

#[test]
fn matches_and_not_matches() {
    let e = parse_ok("director matches ^Sam");
    assert!(matches!(e, Expr::Predicate(Predicate::Matches { .. })));
    let e = parse_ok("director !matches ^Sam");
    assert!(matches!(e, Expr::Not(_)));
}

#[test]
fn invalid_regex_at_parse_time() {
    let result = parse("director matches [unclosed");
    assert!(matches!(result, Err(VaultdbError::RegexError { .. })));
}

#[test]
fn comparison_ops_coerce_to_numeric() {
    let e = parse_ok("year > 2020");
    if let Expr::Predicate(Predicate::Compare { op, value, .. }) = e {
        assert_eq!(op, CompareOp::Gt);
        assert_eq!(value, Value::Integer(2020));
    } else {
        panic!("expected Compare");
    }
}

#[test]
fn or_combines_two_clauses() {
    let e = parse_ok("status = draft || status = active");
    match e {
        Expr::Or(parts) => assert_eq!(parts.len(), 2),
        other => panic!("expected Or, got {:?}", other),
    }
}

#[test]
fn and_combines_two_clauses() {
    let e = parse_ok("year > 2020 && status = active");
    match e {
        Expr::And(parts) => assert_eq!(parts.len(), 2),
        other => panic!("expected And, got {:?}", other),
    }
}

#[test]
fn and_binds_tighter_than_or_sql_convention() {
    // "a = 1 || b = 2 && c = 3" should parse as (a = 1) || ((b = 2) && (c = 3)).
    // Top-level is Or; second arm is And.
    let e = parse_ok("status = draft || status = active && hsk = 1");
    match e {
        Expr::Or(parts) => {
            assert_eq!(parts.len(), 2);
            assert!(
                matches!(parts[0], Expr::Predicate(Predicate::Equals { .. })),
                "first arm should be a single Equals predicate, got {:?}",
                parts[0]
            );
            assert!(
                matches!(parts[1], Expr::And(_)),
                "second arm should be And, got {:?}",
                parts[1]
            );
        }
        other => panic!("expected Or at top level, got {:?}", other),
    }
}

#[test]
fn parens_override_precedence() {
    // Without parens this would be a || (b && c). With parens we
    // get (a || b) && c.
    let e = parse_ok("(status = draft || status = active) && hsk = 1");
    match e {
        Expr::And(parts) => {
            assert_eq!(parts.len(), 2);
            assert!(matches!(parts[0], Expr::Or(_)));
        }
        other => panic!("expected And, got {:?}", other),
    }
}

#[test]
fn nested_parens() {
    let e = parse_ok("((status = draft))");
    assert!(matches!(e, Expr::Predicate(Predicate::Equals { .. })));
}

#[test]
fn in_predicate_desugars_to_or() {
    let e = parse_ok("status IN (draft, active, pending)");
    match e {
        Expr::Or(parts) => {
            assert_eq!(parts.len(), 3);
            for p in &parts {
                assert!(matches!(p, Expr::Predicate(Predicate::Equals { .. })));
            }
        }
        other => panic!("expected Or, got {:?}", other),
    }
}

#[test]
fn in_predicate_with_quoted_values() {
    let e = parse_ok(r#"status IN ("in review", "needs follow-up")"#);
    match e {
        Expr::Or(parts) => {
            assert_eq!(parts.len(), 2);
            if let Expr::Predicate(Predicate::Equals { value, .. }) = &parts[0] {
                assert_eq!(*value, Value::String("in review".into()));
            }
        }
        other => panic!("expected Or, got {:?}", other),
    }
}

#[test]
fn in_predicate_single_value_does_not_or_wrap() {
    let e = parse_ok("status IN (draft)");
    assert!(matches!(e, Expr::Predicate(Predicate::Equals { .. })));
}

#[test]
fn not_in_predicate_is_negated() {
    let e = parse_ok("status NOT IN (draft, archived)");
    assert!(matches!(e, Expr::Not(_)));
}

#[test]
fn empty_input_errors() {
    assert!(parse("").is_err());
    assert!(parse("   ").is_err());
}

#[test]
fn unbalanced_parens_error() {
    assert!(parse("(status = active").is_err());
    assert!(parse("status = active)").is_err());
}

#[test]
fn unknown_op_errors() {
    assert!(parse("status :- active").is_err());
}

#[test]
fn deeply_nested_combinator_tree() {
    let e = parse_ok("((a = 1 || b = 2) && (c = 3 || d = 4)) || NOT (e contains foo)");
    match e {
        Expr::Or(parts) => {
            assert_eq!(parts.len(), 2);
        }
        other => panic!("expected Or, got {:?}", other),
    }
}
