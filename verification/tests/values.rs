//! Values as JSON and YAML.

use vaultdb::json::{
    from_yaml, json_to_cell_string, json_to_table, json_to_vaultdb_value, to_compact, to_pretty, to_yaml,
    value_to_json, Json,
};
use vaultdb::record::Value;

#[test]
fn value_serializes_untagged() {
    let v = Value::List(vec![Value::Integer(1), Value::String("x".into())]);
    let json = to_compact(&value_to_json(&v)).unwrap();
    assert_eq!(json, r#"[1,"x"]"#);
}

#[test]
fn value_deserializes_untagged() {
    let v = json_to_vaultdb_value(&from_yaml(r#"[1,"x"]"#).unwrap());
    assert_eq!(
        v,
        Value::List(vec![Value::Integer(1), Value::String("x".into())])
    );
}

#[test]
fn documents_are_written() {
    let v = Json::Object(vec![
        ("b".into(), Json::Array(vec![Json::Null, Json::Bool(true)])),
        ("a".into(), Json::Int(-1)),
    ]);
    assert_eq!(to_compact(&v).unwrap(), r#"{"a":-1,"b":[null,true]}"#);
    assert_eq!(
        to_pretty(&v).unwrap(),
        "{\n  \"a\": -1,\n  \"b\": [\n    null,\n    true\n  ]\n}"
    );
    assert_eq!(to_yaml(&v).unwrap(), "a: -1\nb:\n- null\n- true\n");
}

#[test]
fn documents_are_read() {
    assert_eq!(
        from_yaml("a: 1\nb: [x, 18446744073709551615]\n").unwrap(),
        Json::Object(vec![
            ("a".into(), Json::Int(1)),
            (
                "b".into(),
                Json::Array(vec![Json::Text("x".into()), Json::Large(u64::MAX)])
            ),
        ])
    );
    match from_yaml("1.5").unwrap() {
        Json::Float(f) => assert_eq!(f64::from_bits(f.bits), 1.5),
        other => panic!("unexpected {:?}", other),
    }
    assert!(from_yaml("a: [").is_err());
}

#[test]
fn tables_have_a_column_per_key() {
    let row = |a: i64| Json::Object(vec![("a".into(), Json::Int(a)), ("b".into(), Json::Null)]);
    let (header, rows) = json_to_table(&Json::Array(vec![row(1), row(2)])).unwrap();
    assert_eq!(header, vec!["a", "b"]);
    assert_eq!(rows, vec![vec!["1", ""], vec!["2", ""]]);
    assert!(json_to_table(&Json::Int(1)).is_none());
    assert_eq!(json_to_cell_string(&Json::Bool(true)), "true");
    assert_eq!(json_to_cell_string(&Json::Text("x".into())), "x");
}
