//! What holds of every note and every condition, on chosen ones.

use vaultdb::error::VaultdbError;
use vaultdb::filter::{evaluate_expr, expr_uses_links};
use vaultdb::frontmatter::{load_record, load_record_with_content, parse_frontmatter, split_note};
use vaultdb::links::LinkGraph;
use vaultdb::query::{Expr, LinkPredicate};
use vaultdb::record::{set_entry, Record, Value};
use vaultdb::sort::{best_positions, sort_positions};
use vaultdb::tree::FileEntry;
use vaultdb::vault::DirectedValue;
use vaultdb::writer::{add_tag, append_body, clear_body, remove_tag, set_body, set_field, unset_field};

const NOTE: &str = "---\nstatus: active\ntags:\n  - x\n---\nSee [[b]].\n";

fn file(content: &str) -> FileEntry {
    FileEntry {
        path: "/vault/a.md".into(),
        content: Ok(content.into()),
        modified: None,
        created: None,
    }
}

fn record(name: &str, fields: Vec<(&str, Value)>, content: &str) -> Record {
    Record {
        path: format!("/vault/{}.md", name),
        fields: fields.into_iter().map(|(k, v)| (k.to_string(), v)).collect(),
        raw_content: Some(content.into()),
        modified: None,
        created: None,
    }
}

fn holds(r: &Record, clause: &str) -> bool {
    evaluate_expr(&Expr::parse(clause).unwrap(), r, "/vault", None)
}

#[test]
fn a_field_that_is_set_is_read_back() {
    let (text, _) = set_field(NOTE, "status", "draft").unwrap();
    let (yaml, _, _) = split_note(&text).unwrap();
    let fields = parse_frontmatter(&yaml).unwrap();
    assert!(fields.contains(&("status".to_string(), Value::String("draft".into()))));
    assert!(text.ends_with("---\nSee [[b]].\n"));
}

#[test]
fn removing_undoes_setting() {
    let (with, _) = set_field(NOTE, "year", "1999").unwrap();
    let (without, _) = unset_field(&with, "year").unwrap();
    assert_eq!(without, NOTE);
    let (with, _) = add_tag(NOTE, "y").unwrap();
    let (without, _) = remove_tag(&with, "y").unwrap();
    assert_eq!(without, NOTE);
}

#[test]
fn a_body_that_is_set_is_the_body() {
    let (text, _) = set_body(NOTE, "New.\n").unwrap();
    assert_eq!(text, "---\nstatus: active\ntags:\n  - x\n---\nNew.\n");
    assert!(clear_body(&text).unwrap().0.ends_with("---\n"));
    assert!(append_body(&text, "More.\n", "\n").unwrap().0.ends_with("More.\n"));
}

#[test]
fn line_endings_are_kept() {
    let crlf = "---\r\na: 1\r\n---\r\nbody\r\n";
    let (text, _) = set_field(crlf, "a", "x").unwrap();
    assert_eq!(text, "---\r\na: x\r\n---\r\nbody\r\n");
}

#[test]
fn a_note_without_frontmatter_has_no_fields() {
    let e = load_record(&file("# Heading\n"));
    match e {
        Ok(r) => assert!(r.fields.is_empty()),
        Err(e) => assert_eq!(e, VaultdbError::NoFrontmatter("/vault/a.md".into())),
    }
}

#[test]
fn notes_are_loaded_with_or_without_their_text() {
    let r = load_record(&file(NOTE)).unwrap();
    assert_eq!(r.raw_content, None);
    assert_eq!(r.fields[0].0, "status");
    assert_eq!(r.fields[1].0, "tags");
    let r = load_record_with_content(&file(NOTE)).unwrap();
    assert_eq!(r.raw_content.as_deref(), Some(NOTE));
    let mut unreadable = file("");
    unreadable.content = Err("denied".into());
    assert_eq!(
        load_record(&unreadable).unwrap_err(),
        VaultdbError::Io("denied".into())
    );
    let e = load_record(&file("---\na: [\n---\n")).unwrap_err();
    assert!(matches!(e, VaultdbError::InvalidFrontmatter { .. } | VaultdbError::Yaml(_)));
}

#[test]
fn fields_ascend() {
    let fields = parse_frontmatter("b: 1\na: 2\nc: 3\n").unwrap();
    let names: Vec<&str> = fields.iter().map(|(k, _)| k.as_str()).collect();
    assert_eq!(names, vec!["a", "b", "c"]);
    let mut m = fields;
    set_entry(&mut m, "aa", Value::Null);
    set_entry(&mut m, "b", Value::Integer(9));
    let names: Vec<&str> = m.iter().map(|(k, _)| k.as_str()).collect();
    assert_eq!(names, vec!["a", "aa", "b", "c"]);
    assert_eq!(m[2].1, Value::Integer(9));
}

#[test]
fn conditions_combine() {
    let r = record("a", vec![("n", Value::Integer(1)), ("s", Value::String("x".into()))], "");
    assert_eq!(holds(&r, "m IS NULL"), !holds(&r, "m IS NOT NULL"));
    assert_eq!(holds(&r, "NOT n = 1"), !holds(&r, "n = 1"));
    assert!(holds(&r, "n = 1 && s = x"));
    assert!(!holds(&r, "n = 1 && s = y"));
    assert!(holds(&r, "n = 2 || s = x"));
    assert!(!holds(&r, "n = 2 || s = y"));
    assert!(holds(&r, "s IN (x, y)"));
    assert!(!holds(&r, "s IN (y, z)"));
    assert!(holds(&r, "s NOT IN (y, z)"));
}

#[test]
fn linking_to_is_being_linked_from() {
    let a = record("a", vec![], "[[b]]");
    let b = record("b", vec![], "");
    let g = LinkGraph::build(&vec![a.clone(), b.clone()]);
    let to = Expr::LinksTo(LinkPredicate::Target("b".into()));
    let from = Expr::LinkedFrom(LinkPredicate::Target("a".into()));
    assert!(evaluate_expr(&to, &a, "/vault", Some(&g)));
    assert!(evaluate_expr(&from, &b, "/vault", Some(&g)));
    assert!(!evaluate_expr(&to, &b, "/vault", Some(&g)));
    assert!(!evaluate_expr(&from, &a, "/vault", Some(&g)));
    assert!(expr_uses_links(&to));
    let plain = Expr::parse("a = 1").unwrap();
    assert_eq!(
        evaluate_expr(&plain, &a, "/vault", Some(&g)),
        evaluate_expr(&plain, &a, "/vault", None)
    );
}

#[test]
fn the_best_are_the_first_of_the_sorted() {
    let keys: Vec<DirectedValue> = [3, 1, 2, 1]
        .iter()
        .map(|n| DirectedValue {
            value: Value::Integer(*n),
            descending: false,
        })
        .collect();
    assert_eq!(sort_positions(&keys), vec![1, 3, 2, 0]);
    assert_eq!(best_positions(&keys, 2), vec![1, 3]);
    assert_eq!(best_positions(&keys, 9), vec![1, 3, 2, 0]);
}

#[test]
fn errors_say_what_failed() {
    let shown = |e: VaultdbError| e.to_string();
    assert_eq!(
        shown(VaultdbError::VaultNotFound("/x".into())),
        "vault not found: no .obsidian/ directory in /x or any parent"
    );
    assert_eq!(shown(VaultdbError::FolderNotFound("x".into())), "folder not found: x");
    assert_eq!(
        shown(VaultdbError::NoFrontmatter("x.md".into())),
        "no frontmatter in file: x.md"
    );
    assert_eq!(
        shown(VaultdbError::InvalidFrontmatter {
            file: "x.md".into(),
            reason: "bad".into()
        }),
        "invalid frontmatter YAML in x.md: bad"
    );
    assert_eq!(
        shown(VaultdbError::TypeMismatch {
            field: "f".into(),
            actual: "list".into(),
            expected: "integer".into()
        }),
        "type mismatch: field 'f' is list, cannot compare as integer"
    );
    assert_eq!(
        shown(VaultdbError::RegexError {
            pattern: "[".into(),
            reason: "open".into()
        }),
        "regex error in pattern '[': open"
    );
    assert_eq!(shown(VaultdbError::SchemaError("x".into())), "schema error: x");
    assert_eq!(
        shown(VaultdbError::SafetyRefused { reason: "no".into() }),
        "operation refused: no"
    );
    assert_eq!(shown(VaultdbError::Io("gone".into())), "gone");
    assert_eq!(shown(VaultdbError::Yaml("bad".into())), "bad");
    assert!(matches!(
        Expr::parse("a matches /[/").unwrap_err(),
        VaultdbError::RegexError { .. } | VaultdbError::InvalidWhereExpr(_)
    ));
}
