//! Records and their values.

use vaultdb::float::Float;
use vaultdb::record::{Record, Value};

fn note(path: &str) -> Record {
    Record {
        path: path.into(),
        fields: vec![],
        raw_content: None,
        modified: None,
        created: None,
    }
}

fn float(x: f64) -> Float {
    Float {
        bits: x.to_bits(),
        text: x.to_string(),
    }
}

#[test]
fn virtual_name_strips_extension() {
    let record = note("/vault/3-Notes/TypeScript.md");
    assert_eq!(record.virtual_name(), "TypeScript");
}

#[test]
fn virtual_name_handles_chinese() {
    let record = note("/vault/3-Notes/快.md");
    assert_eq!(record.virtual_name(), "快");
}

#[test]
fn virtual_path_relative_to_root() {
    let record = note("/vault/3-Notes/TypeScript.md");
    assert_eq!(
        record.virtual_path("/vault"),
        "3-Notes/TypeScript.md"
    );
}

#[test]
fn virtual_folder() {
    let record = note("/vault/3-Notes/TypeScript.md");
    assert_eq!(record.virtual_folder(), "3-Notes");
}

#[test]
fn field_value_list_contains() {
    let val = Value::List(vec![
        Value::String("type/concept".into()),
        Value::String("topic/chinese".into()),
    ]);
    assert!(val.list_contains("topic/chinese"));
    assert!(!val.list_contains("topic/movies"));
}

#[test]
fn field_value_string_contains_substring() {
    let val = Value::String("hello world".into());
    assert!(val.list_contains("world"));
}

#[test]
fn field_value_type_names() {
    assert_eq!(Value::Null.kind_name(), "null");
    assert_eq!(Value::Integer(5).kind_name(), "integer");
    assert_eq!(Value::String("x".into()).kind_name(), "string");
    assert_eq!(Value::List(vec![]).kind_name(), "list");
}

#[test]
fn field_value_numeric_coercion() {
    assert_eq!(Value::Integer(42).as_float(), Some(float(42.0)));
    assert_eq!(Value::Float(float(3.14)).as_integer(), Some(3));
    assert_eq!(Value::String("7".into()).as_integer(), Some(7));
    assert_eq!(Value::String("not a number".into()).as_integer(), None);
}

#[test]
fn display_value_formatting() {
    assert_eq!(Value::Null.display_value(), "");
    assert_eq!(Value::Integer(2019).display_value(), "2019");
    assert_eq!(
        Value::List(vec![
            Value::String("a".into()),
            Value::String("b".into()),
        ])
        .display_value(),
        "a, b"
    );
}

#[test]
fn value_helpers_string() {
    let v = Value::String("hi".into());
    assert_eq!(v.as_str(), Some("hi"));
    assert_eq!(v.as_integer(), None);
    assert!(!v.is_null());
}

#[test]
fn value_helpers_integer() {
    let v = Value::Integer(7);
    assert_eq!(v.as_integer(), Some(7));
    assert_eq!(v.as_float(), Some(float(7.0)));
    assert!(!v.is_null());
}

#[test]
fn value_helpers_float() {
    let v = Value::Float(float(1.5));
    assert_eq!(v.as_float(), Some(float(1.5)));
}

#[test]
fn value_helpers_bool() {
    let v = Value::Bool(true);
    assert_eq!(v.as_bool(), Some(true));
}

#[test]
fn value_helpers_list() {
    let v = Value::List(vec![Value::Integer(1), Value::Integer(2)]);
    assert_eq!(v.as_list().map(|s| s.len()), Some(2));
}

#[test]
fn value_helpers_map() {
    let v = Value::Mapping(vec![("k".into(), Value::String("v".into()))]);
    assert_eq!(v.as_map().map(|m| m.len()), Some(1));
}

#[test]
fn value_helpers_null() {
    let v = Value::Null;
    assert!(v.is_null());
    assert_eq!(v.as_str(), None);
}
