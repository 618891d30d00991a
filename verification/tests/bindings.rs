//! What the bindings to other languages are given.

use vaultdb::bindings::{
    evaluate_where, extract_links_wasm, link_graph, list_records, open_vault, parse_record, parse_sort_key,
    parse_where_dsl, query, split_frontmatter, ExceptionKind,
};
use vaultdb::json::{json_to_vaultdb_value, Json};
use vaultdb::record::Value;
use vaultdb::tree::{FileEntry, Tree};
use vaultdb::vault::Vault;

fn tree() -> Tree {
    let file = |path: &str, content: &str| FileEntry {
        path: path.into(),
        content: Ok(content.into()),
        modified: None,
        created: None,
    };
    Tree {
        folders: vec!["/vault".into(), "/vault/.obsidian".into(), "/vault/notes".into()],
        files: vec![
            file("/vault/notes/a.md", "---\nyear: 2\n---\nSee [[b]].\n"),
            file("/vault/notes/b.md", "---\nyear: 1\n---\n"),
        ],
    }
}

#[test]
fn split_frontmatter_basic() {
    let input = "---\nname: X\n---\nbody\n";
    let (yaml, body) = split_frontmatter(input).unwrap();
    assert_eq!(yaml, "name: X");
    assert_eq!(body, "body\n");
}

#[test]
fn split_returns_none_when_delimiters_missing() {
    assert!(split_frontmatter("no frontmatter here").is_none());
}

#[test]
fn json_to_vaultdb_value_round_trip() {
    let input = Json::Object(vec![
        ("a".into(), Json::Int(1)),
        ("b".into(), Json::Text("two".into())),
        ("c".into(), Json::Array(vec![Json::Bool(true), Json::Null])),
    ]);
    match json_to_vaultdb_value(&input) {
        Value::Mapping(m) => {
            assert!(matches!(&m[0], (k, Value::Integer(1)) if k == "a"));
            assert!(matches!(&m[1], (k, Value::String(s)) if k == "b" && s == "two"));
        }
        _ => panic!("expected Mapping"),
    }
}

#[test]
fn a_vault_is_opened_and_queried() {
    let tree = tree();
    let root = open_vault("/vault", &tree).unwrap();
    assert_eq!(root, "/vault");
    assert!(open_vault("/elsewhere", &tree).is_err());
    let vault = Vault::with_root(root);
    assert_eq!(list_records(&vault, &tree, "notes", false).unwrap().len(), 2);
    let sorted = query(&vault, &tree, "notes", Some("year > 0"), Some("year"), Some(1)).unwrap();
    assert_eq!(sorted[0].virtual_name(), "b");
    let e = query(&vault, &tree, "notes", Some("year >"), None, None).unwrap_err();
    assert_eq!(e.kind, ExceptionKind::Io);
    let e = query(&vault, &tree, "notes", None, Some(" "), None).unwrap_err();
    assert_eq!(e.kind, ExceptionKind::Value);
    assert_eq!(e.message, "sort key cannot be empty");
    let maps = link_graph(&vault, &tree).unwrap();
    assert!(maps.outgoing.iter().any(|(n, to)| n == "a" && to[0] == "b"));
    assert!(maps.incoming.iter().any(|(n, from)| n == "b" && from[0] == "a"));
}

#[test]
fn sort_keys_are_read() {
    let key = parse_sort_key("year desc").unwrap();
    assert_eq!(key.field, "year");
    assert!(key.descending);
    let key = parse_sort_key("year").unwrap();
    assert!(!key.descending);
}

#[test]
fn records_are_parsed_and_tested() {
    let record = parse_record("notes/a.md", "---\nstatus: active\n---\nbody\n").unwrap();
    assert_eq!(record.body.as_deref(), Some("body\n"));
    assert!(evaluate_where(record, "status = active").unwrap());
    let record = parse_record("notes/a.md", "---\nstatus: draft\n---\n").unwrap();
    assert!(!evaluate_where(record, "status = active").unwrap());
    let record = parse_record("notes/a.md", "---\nstatus: draft\n---\n").unwrap();
    assert!(evaluate_where(record, "status =").is_err());
}

#[test]
fn conditions_are_read_up_front() {
    assert!(parse_where_dsl("status = active").is_ok());
    assert!(parse_where_dsl("status =").unwrap_err().starts_with("invalid where expression"));
}

#[test]
fn links_in_code_do_not_count() {
    let body = "[[b]] `[[x]]` [[a]]\n```\n[[y]]\n```\n[[b|again]]\n";
    assert_eq!(extract_links_wasm(body), vec!["a", "b"]);
}
