//! The full-text index.

use vaultdb::error::VaultdbError;
use vaultdb::fts::{
    init_schema, notes_to_index, reconcile, scan_limit, search, split_words, tags_column, FtsError,
    OwnedDocument, SearchRow, FTS_SCHEMA_VERSION,
};
use vaultdb::tree::{FileEntry, Tree};
use vaultdb::vault::Vault;

fn row(id: &str, name: &str, tags: &str) -> SearchRow {
    SearchRow {
        file_id: id.into(),
        name: name.into(),
        snippet: "match".into(),
        row_tags: tags.into(),
    }
}

fn strings(v: &[&str]) -> Vec<String> {
    v.iter().map(|s| s.to_string()).collect()
}

fn document(id: &str, mtime_ns: i64) -> OwnedDocument {
    OwnedDocument {
        file_id: id.into(),
        path: format!("{}.md", id),
        mtime_ns,
        body: "world".into(),
        name: id.into(),
        tags: strings(&["kind/note"]),
        custom_text: String::new(),
    }
}

#[test]
fn search_finds_body_match() {
    let hits = search(&vec![row("n1", "Alpha", "")], 10, &vec![]);
    assert_eq!(hits.len(), 1);
    assert_eq!(hits[0].name, "Alpha");
}

#[test]
fn search_intersects_with_tag_filter() {
    let rows = vec![row("n1", "Alpha", "draft"), row("n2", "Beta", "published")];
    let hits = search(&rows, 10, &strings(&["draft"]));
    assert_eq!(hits.len(), 1);
    assert_eq!(hits[0].name, "Alpha");
}

#[test]
fn search_requires_all_tags() {
    let rows = vec![row("a", "Alpha", "draft japan"), row("b", "Beta", "draft")];
    let hits = search(&rows, 10, &strings(&["draft", "japan"]));
    assert_eq!(hits.len(), 1);
    assert_eq!(hits[0].name, "Alpha");
    assert_eq!(hits[0].tags, strings(&["draft", "japan"]));
}

#[test]
fn search_gives_no_more_than_asked_for() {
    let rows = vec![row("a", "A", "x"), row("b", "B", "x"), row("c", "C", "x")];
    assert_eq!(search(&rows, 2, &strings(&["x"])).len(), 2);
    assert_eq!(search(&rows, 0, &vec![]).len(), 0);
    assert_eq!(scan_limit(10, &vec![]), 10);
    assert_eq!(scan_limit(10, &strings(&["x"])), 40);
}

#[test]
fn tags_survive_the_column() {
    let tags = strings(&["kind/note", "topic/ai"]);
    let column = tags_column(&tags);
    assert_eq!(column, "kind/note topic/ai");
    assert_eq!(split_words(&column), tags);
    assert_eq!(split_words("  a \t b\n"), strings(&["a", "b"]));
}

#[test]
fn reconcile_picks_up_new_file() {
    let docs = vec![Some(document("hello", 5))];
    let plan = reconcile(&vec![], &docs);
    assert_eq!(plan.summary.added, 1);
    assert_eq!(plan.summary.removed, 0);
    assert_eq!(plan.writes, vec![0]);

    // Second pass: all unchanged.
    let plan = reconcile(&vec![("hello".into(), 5)], &docs);
    assert_eq!(plan.summary.unchanged, 1);
    assert_eq!(plan.summary.added, 0);
    assert!(plan.writes.is_empty());
}

#[test]
fn reconcile_removes_deleted_file() {
    let plan = reconcile(&vec![("gone".into(), 5)], &vec![]);
    assert_eq!(plan.summary.removed, 1);
    assert_eq!(plan.removals, strings(&["gone"]));
}

#[test]
fn reconcile_respects_projection_none() {
    let plan = reconcile(&vec![], &vec![None]);
    assert_eq!(plan.summary.skipped, 1);
    assert_eq!(plan.summary.added, 0);
}

#[test]
fn reconcile_updates_what_changed() {
    let plan = reconcile(&vec![("a".into(), 5)], &vec![Some(document("a", 6))]);
    assert_eq!(plan.summary.updated, 1);
    assert_eq!(plan.writes, vec![0]);
}

#[test]
fn notes_are_indexed_with_their_texts() {
    let tree = Tree {
        folders: vec!["/vault".into()],
        files: vec![FileEntry {
            path: "/vault/a.md".into(),
            content: Ok("---\nname: A\n---\nbody\n".into()),
            modified: None,
            created: None,
        }],
    };
    let notes = notes_to_index(&Vault::with_root("/vault".into()), &tree).unwrap();
    assert_eq!(notes.len(), 1);
    assert_eq!(notes[0].body(), "body\n");
}

#[test]
fn fresh_database_initialises_cleanly() {
    assert!(!init_schema(0).fts_rebuilt);
}

#[test]
fn init_schema_is_idempotent() {
    assert!(!init_schema(FTS_SCHEMA_VERSION).fts_rebuilt);
}

#[test]
fn version_mismatch_drops_fts_table() {
    assert!(init_schema(999).fts_rebuilt);
}

#[test]
fn errors_have_messages() {
    assert_eq!(FtsError::Data("x".into()).to_string(), "data error: x");
    assert_eq!(FtsError::Io("x".into()).to_string(), "io error: x");
    let e = VaultdbError::FolderNotFound("notes".into());
    let text = e.to_string();
    assert_eq!(FtsError::Vault(e).to_string(), text);
}
