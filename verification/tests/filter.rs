//! Conditions on records.

use std::cmp::Ordering;
use vaultdb::filter::{compare_values, evaluate_expr, evaluate_predicate, expr_uses_links};
use vaultdb::float::Float;
use vaultdb::query::{CompareOp, Expr, Predicate};
use vaultdb::record::Record;
use vaultdb::record::Value as V;

fn make_record(fields: Vec<(&str, V)>) -> Record {
    note(
        "/vault/notes/Test.md",
        fields.into_iter().map(|(k, v)| (k.to_string(), v)).collect(),
    )
}

fn note(path: &str, fields: Vec<(String, V)>) -> Record {
    Record {
        path: path.into(),
        fields,
        raw_content: None,
        modified: None,
        created: None,
    }
}

fn float(x: f64) -> V {
    V::Float(Float {
        bits: x.to_bits(),
        text: x.to_string(),
    })
}

fn eval(record: &Record, where_str: &str) -> bool {
    let expr = Expr::parse(where_str).expect("parse");
    evaluate_expr(&expr, record, "/vault", None)
}

#[test]
fn eval_eq_string() {
    let record = make_record(vec![("status", V::String("to-watch".into()))]);
    assert!(eval(&record, "status = to-watch"));
    assert!(!eval(&record, "status = watched"));
}

#[test]
fn eval_numeric_compare() {
    let record = make_record(vec![("hsk", V::Integer(3))]);
    assert!(eval(&record, "hsk > 2"));
    assert!(!eval(&record, "hsk > 5"));
    assert!(eval(&record, "hsk <= 3"));
}

#[test]
fn eval_list_and_string_contains() {
    let list = make_record(vec![(
        "tags",
        V::List(vec![V::String("topic/chinese".into())]),
    )]);
    assert!(eval(&list, "tags contains topic/chinese"));
    assert!(!eval(&list, "tags contains topic/movies"));

    let s = make_record(vec![("director", V::String("Sam Mendes".into()))]);
    assert!(eval(&s, "director contains Mendes"));
}

#[test]
fn eval_exists_and_missing() {
    let active = make_record(vec![("status", V::String("active".into()))]);
    assert!(eval(&active, "status exists"));
    assert!(!eval(&active, "status missing"));

    let null = make_record(vec![("rating", V::Null)]);
    assert!(!eval(&null, "rating exists"));
    assert!(eval(&null, "rating missing"));

    let absent = make_record(vec![]);
    assert!(!eval(&absent, "rating exists"));
    assert!(eval(&absent, "rating missing"));
}

#[test]
fn eval_matches_regex() {
    let record = make_record(vec![("director", V::String("Sam Mendes".into()))]);
    assert!(eval(&record, "director matches ^Sam"));
    assert!(!eval(&record, "director matches ^Chris"));
}

#[test]
fn eval_virtual_field_name() {
    let r = note("/vault/notes/Interstellar.md", vec![]);
    assert!(eval(&r, "_name = Interstellar"));
}

#[test]
fn eval_virtual_field_folder() {
    let r = note("/vault/3-Notes/TypeScript.md", vec![]);
    assert!(eval(&r, "_folder = 3-Notes"));
}

#[test]
fn eval_negation_via_not_prefix() {
    let r = make_record(vec![(
        "tags",
        V::List(vec![V::String("topic/chinese".into())]),
    )]);
    assert!(!eval(&r, "tags !contains topic/chinese"));
    assert!(eval(&r, "tags !contains topic/movies"));

    let active = make_record(vec![("status", V::String("active".into()))]);
    assert!(!eval(&active, "status !exists"));
    assert!(eval(&active, "rating !exists"));
}

#[test]
fn eval_or_within_one_clause() {
    let to_watch = make_record(vec![("status", V::String("to-watch".into()))]);
    let watching = make_record(vec![("status", V::String("watching".into()))]);
    let watched = make_record(vec![("status", V::String("watched".into()))]);

    assert!(eval(&to_watch, "status = to-watch || status = watching"));
    assert!(eval(&watching, "status = to-watch || status = watching"));
    assert!(!eval(&watched, "status = to-watch || status = watching"));
}

#[test]
fn compare_values_cross_numeric_uses_float_scale() {

    // Numbers of both kinds are compared on one scale.
    assert_eq!(
        compare_values(&V::Integer(3), &float(2.5)),
        Ordering::Greater
    );
    assert_eq!(
        compare_values(&float(2.5), &V::Integer(3)),
        Ordering::Less
    );
    assert_eq!(
        compare_values(&V::Integer(2), &float(2.0)),
        Ordering::Equal
    );
}

#[test]
fn compare_values_cross_type_non_numeric_returns_equal() {
    // Pairs of different kinds that are not numbers are Equal.

    // String vs Integer
    assert_eq!(
        compare_values(&V::String("3".into()), &V::Integer(3)),
        Ordering::Equal
    );
    assert_eq!(
        compare_values(&V::Integer(3), &V::String("3".into())),
        Ordering::Equal
    );

    // Bool vs String
    assert_eq!(
        compare_values(&V::Bool(true), &V::String("true".into())),
        Ordering::Equal
    );

    // List vs Integer
    assert_eq!(
        compare_values(&V::List(vec![V::Integer(1)]), &V::Integer(1)),
        Ordering::Equal
    );

    // Map vs anything
    let m = vec![("k".into(), V::Integer(1))];
    assert_eq!(
        compare_values(&V::Mapping(m), &V::String("k".into())),
        Ordering::Equal
    );

    // List vs List
    assert_eq!(
        compare_values(
            &V::List(vec![V::Integer(1), V::Integer(2)]),
            &V::List(vec![V::Integer(1), V::Integer(3)])
        ),
        Ordering::Equal
    );
}

#[test]
fn predicate_compare_with_mismatched_types_returns_consistent_results() {

    // stored as string
    let record = note(
        "/v/notes/r.md",
        vec![("year".into(), V::String("2020".into()))],
    );
    let vault_root = "/v";

    let mk = |op| Predicate::Compare {
        field: "year".into(),
        op,
        value: V::Integer(2020),
    };

    // Equal -> Lt false, Le true, Gt false, Ge true, Ne false.
    assert!(!evaluate_predicate(
        &mk(CompareOp::Lt),
        &record,
        vault_root,
        None
    ));
    assert!(evaluate_predicate(
        &mk(CompareOp::Le),
        &record,
        vault_root,
        None
    ));
    assert!(!evaluate_predicate(
        &mk(CompareOp::Gt),
        &record,
        vault_root,
        None
    ));
    assert!(evaluate_predicate(
        &mk(CompareOp::Ge),
        &record,
        vault_root,
        None
    ));
    assert!(!evaluate_predicate(
        &mk(CompareOp::Ne),
        &record,
        vault_root,
        None
    ));
}

#[test]
fn parse_and_combinator() {

    // "a = 1 && b = 2" -> And([Equals a, Equals b])
    let e = Expr::parse("hsk = 1 && status = active").unwrap();
    match e {
        Expr::And(parts) => {
            assert_eq!(parts.len(), 2);
            assert!(matches!(
                parts[0],
                Expr::Predicate(Predicate::Equals { .. })
            ));
            assert!(matches!(
                parts[1],
                Expr::Predicate(Predicate::Equals { .. })
            ));
        }
        other => panic!("expected And, got {:?}", other),
    }
}

#[test]
fn parse_and_binds_tighter_than_or_sql_convention() {

    // SQL convention: AND binds tighter than OR. So
    // "a = 1 || b = 2 && c = 3" parses as (a=1) || (b=2 && c=3),
    // i.e. top-level Or with one Predicate arm and one And arm.
    let e = Expr::parse("status = draft || status = active && hsk = 1").unwrap();
    match e {
        Expr::Or(parts) => {
            assert_eq!(parts.len(), 2, "expected two OR alternatives");
            assert!(
                matches!(
                    parts[0],
                    Expr::Predicate(Predicate::Equals { .. })
                ),
                "first arm should be a single Equals predicate, got {:?}",
                parts[0]
            );
            assert!(
                matches!(parts[1], Expr::And(_)),
                "second arm should be And, got {:?}",
                parts[1]
            );
        }
        other => panic!("expected Or at top, got {:?}", other),
    }
}

#[test]
fn parse_empty_and_conjunct_errors() {

    // The middle conjunct is empty.
    let e = Expr::parse("a = 1 && && b = 2");
    assert!(e.is_err(), "expected parse error for empty conjunct");
}

#[test]
fn expr_uses_links_detects_graph_virtual_field_predicates() {

    let e = Expr::parse("_link_count > 0").unwrap();
    assert!(
        expr_uses_links(&e),
        "_link_count > 0 must trigger link-graph build"
    );

    let e2 = Expr::parse("_backlink_count = 5").unwrap();
    assert!(expr_uses_links(&e2));

    let e3 = Expr::parse("_backlinks contains React").unwrap();
    assert!(expr_uses_links(&e3));

    // Non-graph predicates still must NOT trigger the build (otherwise
    // every query pays the link-graph cost).
    let e4 = Expr::parse("status = active").unwrap();
    assert!(!expr_uses_links(&e4));
}
