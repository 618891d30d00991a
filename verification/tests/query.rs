//! Queries.

use vaultdb::query::{CompareOp, Expr, Predicate, Query, SortKey};
use vaultdb::record::Value;

#[test]
fn parse_simple_equals() {
    let e = Expr::parse("status = active").unwrap();
    match e {
        Expr::Predicate(Predicate::Equals { field, value }) => {
            assert_eq!(field, "status");
            assert_eq!(value, Value::String("active".into()));
        }
        other => panic!("expected Equals, got {:?}", other),
    }
}

#[test]
fn parse_exists() {
    let e = Expr::parse("title exists").unwrap();
    match e {
        Expr::Predicate(Predicate::Exists { field }) => assert_eq!(field, "title"),
        other => panic!("expected Exists, got {:?}", other),
    }
}

#[test]
fn parse_compare_gt() {
    let e = Expr::parse("year > 2020").unwrap();
    match e {
        Expr::Predicate(Predicate::Compare { field, op, value }) => {
            assert_eq!(field, "year");
            assert_eq!(op, CompareOp::Gt);
            assert_eq!(value, Value::Integer(2020));
        }
        other => panic!("expected Compare, got {:?}", other),
    }
}

#[test]
fn query_struct_construction() {
    let q = Query {
        folder: "notes".into(),
        filter: Some(Expr::Predicate(Predicate::Exists {
            field: "title".into(),
        })),
        select: Some(vec!["_name".into(), "title".into()]),
        sort: Some(SortKey {
            field: "_modified".into(),
            descending: true,
        }),
        limit: Some(10),
        recursive: false,
    };
    assert_eq!(q.folder, "notes");
    assert!(q.filter.is_some());
    assert_eq!(q.limit, Some(10));
}

fn p_eq(field: &str, v: Value) -> Expr {
    Expr::Predicate(Predicate::Equals {
        field: field.into(),
        value: v,
    })
}

#[test]
fn bitand_flattens_chains() {
    let a = p_eq("a", Value::Integer(1));
    let b = p_eq("b", Value::Integer(2));
    let c = p_eq("c", Value::Integer(3));
    let combined = a.bitand(b).bitand(c);
    match combined {
        Expr::And(parts) => assert_eq!(parts.len(), 3),
        other => panic!("expected flattened And, got {:?}", other),
    }
}

#[test]
fn bitor_flattens_chains() {
    let a = p_eq("a", Value::Integer(1));
    let b = p_eq("b", Value::Integer(2));
    let c = p_eq("c", Value::Integer(3));
    let combined = a.bitor(b).bitor(c);
    match combined {
        Expr::Or(parts) => assert_eq!(parts.len(), 3),
        other => panic!("expected flattened Or, got {:?}", other),
    }
}

#[test]
fn not_double_negation_cancels() {
    let a = p_eq("a", Value::Integer(1));
    let twice = a.clone().not().not();
    assert_eq!(a, twice);
}

#[test]
fn mixed_operators_respect_precedence() {
    let a = p_eq("a", Value::Integer(1));
    let b = p_eq("b", Value::Integer(2));
    let c = p_eq("c", Value::Integer(3));
    let combined = a.clone().bitor(b.clone().bitand(c.clone()));
    match combined {
        Expr::Or(parts) if parts.len() == 2 => {
            assert_eq!(parts[0], a);
            assert!(matches!(&parts[1], Expr::And(inner) if inner.len() == 2));
        }
        other => panic!("expected Or-of-(a, And(b,c)), got {:?}", other),
    }
}
