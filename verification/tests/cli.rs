//! The commands.

use vaultdb::cli::files::{free_trash_place, run_delete, run_move};
use vaultdb::cli::query::{
    compare_field_values, needs_graph, parse_select, parse_where_clauses, run_count, run_query, CommandError,
    Purpose, QueryCommand, RelationalFilters,
};
use vaultdb::cli::report::{run_fields, run_links, run_tags, run_traverse, TraverseCommand};
use vaultdb::error::VaultdbError;
use vaultdb::links::Direction;
use vaultdb::record::Value;
use vaultdb::text::Order;
use vaultdb::tree::{FileEntry, Tree};
use vaultdb::vault::Vault;

fn vault() -> (Vault, Tree) {
    let file = |path: &str, content: &str| FileEntry {
        path: path.into(),
        content: Ok(content.into()),
        modified: None,
        created: None,
    };
    let tree = Tree {
        folders: vec!["/vault".into(), "/vault/notes".into(), "/vault/archive".into()],
        files: vec![
            file(
                "/vault/notes/a.md",
                "---\nstatus: active\ntags:\n  - x\n  - y\nyear: 2001\n---\n[[b]]\n",
            ),
            file("/vault/notes/b.md", "---\nstatus: draft\ntags:\n  - x\n---\n[[c]] [[gone]]\n"),
            file("/vault/notes/c.md", "---\nstatus: active\nyear: 1999\n---\n"),
        ],
    };
    (Vault::with_root("/vault".into()), tree)
}

fn texts(v: &[&str]) -> Vec<String> {
    v.iter().map(|s| s.to_string()).collect()
}

fn no_relations() -> RelationalFilters {
    RelationalFilters {
        links_to: vec![],
        linked_from: vec![],
        links_to_where: vec![],
        linked_from_where: vec![],
    }
}

fn command(wheres: &[&str]) -> QueryCommand {
    QueryCommand {
        folder: "notes".into(),
        where_strs: texts(wheres),
        select: None,
        sort_field: None,
        desc: false,
        limit: None,
        relational: no_relations(),
        recursive: false,
    }
}

fn names(c: &QueryCommand) -> Vec<String> {
    let (vault, tree) = vault();
    run_query(&vault, &tree, c)
        .unwrap()
        .records
        .iter()
        .map(|r| r.virtual_name())
        .collect()
}

#[test]
fn query_filters_sorts_and_limits() {
    assert_eq!(names(&command(&["status = active"])), vec!["a", "c"]);
    assert_eq!(names(&command(&["status = active", "year > 2000"])), vec!["a"]);
    let mut c = command(&["status = active"]);
    c.sort_field = Some("year".into());
    assert_eq!(names(&c), vec!["c", "a"]);
    c.desc = true;
    assert_eq!(names(&c), vec!["a", "c"]);
    c.limit = Some(1);
    assert_eq!(names(&c), vec!["a"]);
}

#[test]
fn query_follows_relations() {
    let mut c = command(&[]);
    c.relational.links_to = texts(&["b"]);
    assert_eq!(names(&c), vec!["a"]);
    let mut c = command(&[]);
    c.relational.linked_from = texts(&["b"]);
    assert_eq!(names(&c), vec!["c"]);
    let mut c = command(&[]);
    c.relational.links_to_where = texts(&["status = draft"]);
    assert_eq!(names(&c), vec!["a"]);
    let mut c = command(&[]);
    c.relational.linked_from_where = texts(&["status = draft"]);
    assert_eq!(names(&c), vec!["c"]);
    assert!(no_relations().is_empty());
    assert!(!c.relational.is_empty());
}

#[test]
fn query_fails_on_a_bad_condition() {
    let (vault, tree) = vault();
    let e = run_query(&vault, &tree, &command(&["status ="])).unwrap_err();
    assert!(matches!(e, CommandError::InContext { .. }));
    let mut c = command(&[]);
    c.folder = "nowhere".into();
    let e = run_query(&vault, &tree, &c).unwrap_err();
    match e {
        CommandError::Failed(VaultdbError::FolderNotFound(_)) => {}
        CommandError::InContext {
            cause: VaultdbError::FolderNotFound(_),
            ..
        } => {}
        other => panic!("unexpected {:?}", other),
    }
    assert!(parse_where_clauses(&texts(&["a = 1"]), Purpose::Where).is_ok());
    assert!(parse_where_clauses(&texts(&["a = "]), Purpose::Traverse).is_err());
}

#[test]
fn counts_agree_with_queries() {
    let (vault, tree) = vault();
    let count = |w: &[&str]| run_count(&vault, &tree, "notes", &texts(w), false).unwrap();
    assert_eq!(count(&[]), 3);
    assert_eq!(count(&["status = active"]), 2);
    assert_eq!(count(&["status = none"]), 0);
}

#[test]
fn graph_is_built_when_asked_for() {
    assert!(!needs_graph(&texts(&["a = 1"]), None, None, &no_relations()));
    assert!(needs_graph(&texts(&["_link_count > 1"]), None, None, &no_relations()));
    assert!(needs_graph(&vec![], Some("_name,_links"), None, &no_relations()));
    assert!(needs_graph(&vec![], None, Some("_backlink_count"), &no_relations()));
}

#[test]
fn missing_fields_sort_first() {
    let one = Some(Value::Integer(1));
    let two = Some(Value::Integer(2));
    assert_eq!(compare_field_values(&one, &two), Order::Less);
    assert_eq!(compare_field_values(&two, &one), Order::Greater);
    assert_eq!(compare_field_values(&one, &None), Order::Greater);
    assert_eq!(compare_field_values(&None, &None), Order::Equal);
    assert_eq!(parse_select(Some("a, b")), vec!["a", "b"]);
}

#[test]
fn fields_are_reported() {
    let (vault, tree) = vault();
    let out = run_fields(&vault, &tree, "notes", false).unwrap();
    assert_eq!(out.total, 3);
    let year = out.fields.iter().find(|f| f.name == "year").unwrap();
    assert_eq!(year.non_null, 2);
    assert_eq!(year.types, vec!["integer"]);
}

#[test]
fn tags_are_counted_most_frequent_first() {
    let (vault, tree) = vault();
    assert_eq!(
        run_tags(&vault, &tree, "notes", false).unwrap(),
        vec![("x".to_string(), 2), ("y".to_string(), 1)]
    );
}

#[test]
fn links_are_reported() {
    let (vault, tree) = vault();
    let r = run_links(&vault, &tree, "b", "notes", Direction::Both, false).unwrap();
    assert_eq!(
        r.outgoing,
        Some(vec![("c".to_string(), true), ("gone".to_string(), false)])
    );
    assert_eq!(r.incoming, Some(texts(&["a"])));
    let r = run_links(&vault, &tree, "b", "notes", Direction::Incoming, false).unwrap();
    assert_eq!(r.outgoing, None);
}

#[test]
fn traversal_is_reported() {
    let (vault, tree) = vault();
    let c = TraverseCommand {
        name: "a".into(),
        folder: "notes".into(),
        depth: 2,
        direction: Direction::Outgoing,
        where_strs: texts(&["status = active"]),
        select: Some("status".into()),
        recursive: false,
    };
    let out = run_traverse(&vault, &tree, &c).unwrap().unwrap();
    let shown: Vec<(&str, usize)> = out.lines.iter().map(|l| (l.name.as_str(), l.depth)).collect();
    assert!(shown.contains(&("c", 2)));
    assert!(out.filtered_out >= 1);
}

#[test]
fn deleting_lists_what_would_dangle() {
    let (vault, tree) = vault();
    let out = run_delete(&vault, &tree, "notes", &texts(&["status = draft"]), false).unwrap();
    assert_eq!(out.notes.len(), 1);
    assert_eq!(out.notes[0].path, "/vault/notes/b.md");
    assert_eq!(out.notes[0].shown, "notes/b.md");
    assert_eq!(out.notes[0].backlinks, vec!["a"]);
    assert_eq!(out.dangling, 1);
    assert_eq!(
        free_trash_place("/vault", "/vault/notes/b.md", &vec![], 5),
        Some("/vault/.trash/b.md".to_string())
    );
}

#[test]
fn moving_keeps_the_name() {
    let (vault, tree) = vault();
    let out = run_move(&vault, &tree, "notes", &texts(&["status = draft"]), "archive", false).unwrap();
    assert_eq!(out.len(), 1);
    assert_eq!(out[0].from, "/vault/notes/b.md");
    assert_eq!(out[0].to, "/vault/archive/b.md");
    assert_eq!(out[0].shown_to, "archive/b.md");
}

#[test]
fn moving_two_notes_to_one_place_is_refused() {
    let (vault, mut tree) = vault();
    let note = |path: &str| FileEntry {
        path: path.into(),
        content: Ok("---\nstatus: late\n---\n".into()),
        modified: None,
        created: None,
    };
    tree.folders.push("/vault/notes/sub".into());
    tree.files.push(note("/vault/notes/late.md"));
    tree.files.push(note("/vault/notes/sub/late.md"));
    let late = texts(&["status = late"]);
    let err = run_move(&vault, &tree, "notes", &late, "archive", true).unwrap_err();
    assert!(matches!(err, CommandError::Message(m) if m == "conflict: late.md already exists in archive"));
    let one = run_move(&vault, &tree, "notes", &late, "archive", false).unwrap();
    assert_eq!(one.len(), 1);
    assert_eq!(one[0].to, "/vault/archive/late.md");
}
