//! Loading and querying a vault.

use vaultdb::error::VaultdbError;
use vaultdb::query::{Expr, LinkPredicate, Predicate, Query, SortKey};
use vaultdb::record::{Record, Value};
use vaultdb::tree::{FileEntry, Tree};
use vaultdb::vault::{GraphScope, QueryIter, Vault};

fn file(path: &str, content: &str) -> FileEntry {
    FileEntry {
        path: path.into(),
        content: Ok(content.into()),
        modified: None,
        created: None,
    }
}

fn add(tree: &mut Tree, path: &str, content: &str) {
    tree.files.push(file(path, content));
}

fn bare_vault() -> Tree {
    Tree {
        folders: vec![
            "/vault".into(),
            "/vault/.obsidian".into(),
            "/vault/notes".into(),
        ],
        files: vec![],
    }
}

fn test_vault() -> Tree {
    let mut tree = bare_vault();
    add(
        &mut tree,
        "/vault/notes/test1.md",
        "---\ntags:\n  - type/concept\nstatus: active\n---\nBody 1\n",
    );
    add(
        &mut tree,
        "/vault/notes/test2.md",
        "---\ntags:\n  - type/leaf\nstatus: draft\n---\nBody 2\n",
    );
    // A file without frontmatter
    add(
        &mut tree,
        "/vault/notes/no_fm.md",
        "# Just a heading\nNo frontmatter.\n",
    );
    // A non-md file (should be ignored)
    add(&mut tree, "/vault/notes/readme.txt", "not markdown");
    tree
}

fn keys(r: &Record) -> Vec<String> {
    r.fields.iter().map(|(k, _)| k.clone()).collect()
}

/// Runs a query note by note, reading one file at a time.
fn collect(vault: &Vault, q: &Query, tree: &Tree) -> Vec<Record> {
    match vault.query_iter(q, tree).unwrap() {
        QueryIter::Materialized(records) => records,
        QueryIter::Streaming(mut stream) => {
            let mut out = vec![];
            while let Some(path) = stream.next_path() {
                let path = path.to_string();
                let file = tree.files.iter().find(|f| f.path == path).unwrap();
                if let Some(r) = stream.next_record(file) {
                    out.push(r.unwrap());
                }
            }
            out
        }
    }
}

#[test]
fn discover_vault_from_subfolder() {
    let tree = test_vault();
    let vault = Vault::discover("/vault/notes", "/", &tree).unwrap();
    assert_eq!(vault.root, "/vault");
}

#[test]
fn discover_vault_not_found() {
    let tree = Tree {
        folders: vec!["/elsewhere".into()],
        files: vec![],
    };
    let result = Vault::discover("/elsewhere", "/", &tree);
    assert!(matches!(result, Err(VaultdbError::VaultNotFound(_))));
}

#[test]
fn resolve_folder_existing() {
    let tree = test_vault();
    let vault = Vault::with_root("/vault".into());
    let path = vault.resolve_folder("notes", &tree).unwrap();
    assert_eq!(path, "/vault/notes");
}

#[test]
fn resolve_folder_missing() {
    let tree = test_vault();
    let vault = Vault::with_root("/vault".into());
    let result = vault.resolve_folder("nonexistent", &tree);
    assert!(matches!(result, Err(VaultdbError::FolderNotFound(_))));
}

#[test]
fn list_files_only_md() {
    let tree = test_vault();
    let vault = Vault::with_root("/vault".into());
    let files = vault.list_files("/vault/notes", false, &tree);
    assert_eq!(files.len(), 3); // test1.md, test2.md, no_fm.md
    assert!(files.iter().all(|f| f.ends_with(".md")));
}

#[test]
fn load_records_includes_no_frontmatter() {
    let tree = test_vault();
    let vault = Vault::with_root("/vault".into());
    let records = vault
        .load_records("/vault/notes", false, &tree)
        .unwrap()
        .records;
    // Should load all 3 .md files, including no_fm.md with empty fields
    assert_eq!(records.len(), 3);

    let no_fm = records
        .iter()
        .find(|r| r.virtual_name() == "no_fm")
        .unwrap();
    assert!(no_fm.fields.is_empty());
}

#[test]
fn load_records_surfaces_invalid_frontmatter_as_parse_errors() {

    let mut tree = test_vault();
    // Add a file with malformed YAML frontmatter
    add(&mut tree, "/vault/notes/broken.md", "---\n: : : not yaml\n---\nbody\n");

    let vault = Vault::with_root("/vault".into());
    let result = vault
        .load_records("/vault/notes", false, &tree)
        .unwrap();

    // The 3 valid-or-empty files (test1, test2, no_fm) load as records;
    // broken.md is collected as a parse error.
    assert_eq!(result.records.len(), 3);
    assert_eq!(result.parse_errors.len(), 1);
    assert!(result.parse_errors[0].file.ends_with("broken.md"));
    assert!(!result.parse_errors[0].message.is_empty());
}

#[test]
fn recursive_listing() {
    let mut tree = test_vault();
    tree.folders.push("/vault/notes/sub".into());
    add(&mut tree, "/vault/notes/sub/nested.md", "---\ntags:\n  - type/concept\n---\nNested.\n");

    let vault = Vault::with_root("/vault".into());
    let files_flat = vault.list_files("/vault/notes", false, &tree);
    let files_recursive = vault.list_files("/vault/notes", true, &tree);

    assert_eq!(files_flat.len(), 3);
    assert_eq!(files_recursive.len(), 4); // includes nested.md
}

#[test]
fn find_by_name_existing() {
    let tree = test_vault();
    let vault = Vault::with_root("/vault".into());
    let r = vault.find_by_name("notes", "test1", &tree).unwrap();
    assert!(r.is_some());
    assert_eq!(r.unwrap().virtual_name(), "test1");
}

#[test]
fn find_by_name_missing() {
    let tree = test_vault();
    let vault = Vault::with_root("/vault".into());
    let r = vault.find_by_name("notes", "no-such-record", &tree).unwrap();
    assert!(r.is_none());
}

#[test]
fn find_by_name_no_frontmatter_loads_as_empty() {
    let tree = test_vault();
    let vault = Vault::with_root("/vault".into());
    // The vault writes notes/no_fm.md with no frontmatter
    let r = vault.find_by_name("notes", "no_fm", &tree).unwrap().unwrap();
    assert!(r.fields.is_empty());
    assert_eq!(r.virtual_name(), "no_fm");
}

#[test]
fn find_by_name_invalid_frontmatter_errors() {
    let mut tree = test_vault();
    add(&mut tree, "/vault/notes/broken.md", "---\n: : :\n---\n");
    let vault = Vault::with_root("/vault".into());
    let result = vault.find_by_name("notes", "broken", &tree);
    assert!(matches!(
        result,
        Err(VaultdbError::InvalidFrontmatter { .. })
    ));
}

#[test]
fn query_basic_filter() {

    let tree = test_vault();
    let vault = Vault::with_root("/vault".into());

    // The vault writes test1.md (status: active) and
    // test2.md (status: draft), plus no_fm.md (no frontmatter).
    let q = Query {
        folder: "notes".into(),
        filter: Some(Expr::Predicate(Predicate::Equals {
            field: "status".into(),
            value: Value::String("active".into()),
        })),
        select: None,
        sort: None,
        limit: None,
        recursive: false,
    };

    let results = vault.query(&q, &tree).unwrap();
    assert_eq!(results.len(), 1, "only test1 has status=active");
    assert!(results.iter().all(|r| {
        matches!(
            r.get("status", &vault.root),
            Some(Value::String(ref s)) if s == "active"
        )
    }));
}

#[test]
fn query_with_limit_and_sort() {

    let tree = test_vault();
    let vault = Vault::with_root("/vault".into());

    // Exists predicate on _name matches all 3 records; limit cuts to 2.
    let q = Query {
        folder: "notes".into(),
        filter: Some(Expr::Predicate(Predicate::Exists {
            field: "_name".into(),
        })),
        select: None,
        sort: Some(SortKey {
            field: "_name".into(),
            descending: false,
        }),
        limit: Some(2),
        recursive: false,
    };

    let results = vault.query(&q, &tree).unwrap();
    assert!(results.len() <= 2, "limit must be respected");
    // Verify ascending sort: first element's name <= second's
    if results.len() == 2 {
        let a = results[0].virtual_name();
        let b = results[1].virtual_name();
        assert!(a <= b, "expected ascending order, got {:?} then {:?}", a, b);
    }
}

#[test]
fn query_with_projection() {

    let tree = test_vault();
    let vault = Vault::with_root("/vault".into());

    // Select only "status"; after projection every record's fields map
    // must contain only "status" (or be empty if the record had no status).
    let q = Query {
        folder: "notes".into(),
        filter: Some(Expr::Predicate(Predicate::Exists {
            field: "_name".into(),
        })),
        select: Some(vec!["status".into()]),
        sort: None,
        limit: None,
        recursive: false,
    };

    let results = vault.query(&q, &tree).unwrap();
    // All 3 records are returned (no_fm.md has _name), but after projection
    // each record's frontmatter fields should only contain "status".
    assert!(!results.is_empty());
    let mut found_record_with_status = false;
    for r in &results {
        // Every record should have at most "status" in concrete fields
        assert!(
            r.fields.iter().all(|(k, _)| k == "status"),
            "expected only 'status' in fields, got {:?}",
            r.fields
        );
        if r.fields.iter().any(|(k, _)| k == "status") {
            found_record_with_status = true;
        }
    }
    // Some test record must actually have had "status" — otherwise we're testing nothing
    assert!(
        found_record_with_status,
        "expected at least one record to retain 'status' after projection"
    );
}

#[test]
fn query_links_to_target() {

    let mut tree = test_vault();
    // Add a record that links to test1
    add(&mut tree, "/vault/notes/linker.md", "---\ntags:\n  - linker\n---\nLinks to [[test1]]\n");

    let vault = Vault::with_root("/vault".into());
    let q = Query {
        folder: "notes".into(),
        filter: Some(Expr::LinksTo(LinkPredicate::Target("test1".into()))),
        select: None,
        sort: None,
        limit: None,
        recursive: false,
    };

    let results = vault.query(&q, &tree).unwrap();
    // Only `linker` links to test1
    let names: Vec<String> = results.iter().map(|r| r.virtual_name()).collect();
    assert!(
        names.contains(&"linker".to_string()),
        "expected linker, got {:?}",
        names
    );
}

#[test]
fn vault_link_graph_all_walks_full_vault() {
    let mut tree = test_vault();
    // Add a file with an outgoing wikilink so the graph has at least one edge
    add(&mut tree, "/vault/notes/with_link.md", "---\nstatus: active\n---\nLinks to [[test1]]\n");
    let vault = Vault::with_root("/vault".into());
    let graph = vault.link_graph(&GraphScope::All, &tree).unwrap();
    assert!(
        graph.incoming_links("test1").contains(&"with_link".to_string()),
        "expected with_link in test1's backlinks"
    );
}

#[test]
fn vault_link_graph_folder_scopes_correctly() {
    let mut tree = test_vault();
    add(&mut tree, "/vault/notes/with_link.md", "---\nstatus: active\n---\nLinks to [[test1]]\n");
    let vault = Vault::with_root("/vault".into());
    let graph = vault
        .link_graph(&GraphScope::Folder("notes".into()), &tree)
        .unwrap();
    assert!(graph.outgoing_links("with_link").contains(&"test1".to_string()));
}

// ── query_iter tests ────────────────────────────────────────────────

#[test]
fn query_iter_pure_streaming_yields_all_records() {

    let tree = test_vault();
    let vault = Vault::with_root("/vault".into());

    // No filter, no sort, no limit, no graph predicate ⇒ pure stream.
    let q = Query {
        folder: "notes".into(),
        filter: None,
        select: None,
        sort: None,
        limit: None,
        recursive: false,
    };
    let records: Vec<_> = collect(&vault, &q, &tree);
    // The vault writes test1.md, test2.md, no_fm.md.
    assert_eq!(records.len(), 3);
}

#[test]
fn query_iter_pure_streaming_filters_inline() {

    let tree = test_vault();
    let vault = Vault::with_root("/vault".into());
    let q = Query {
        folder: "notes".into(),
        filter: Some(Expr::Predicate(Predicate::Equals {
            field: "status".into(),
            value: Value::String("active".into()),
        })),
        select: None,
        sort: None,
        limit: None,
        recursive: false,
    };
    let records: Vec<_> = collect(&vault, &q, &tree);
    assert_eq!(records.len(), 1, "only test1 has status=active");
    assert_eq!(records[0].virtual_name(), "test1");
}

#[test]
fn query_iter_streaming_respects_limit_without_loading_more() {
    // Streaming + limit should stop pulling files once `limit`
    // matches have been yielded. We can't directly observe the
    // load count from the public API, but we can at least verify
    // the limit is honored.

    let tree = test_vault();
    let vault = Vault::with_root("/vault".into());
    let q = Query {
        folder: "notes".into(),
        filter: Some(Expr::Predicate(Predicate::Exists {
            field: "_name".into(),
        })),
        select: None,
        sort: None,
        limit: Some(2),
        recursive: false,
    };
    let records: Vec<_> = collect(&vault, &q, &tree);
    assert_eq!(records.len(), 2);
}

#[test]
fn query_iter_top_k_when_sort_and_limit_set() {
    // Top-K via bounded heap: with N=3 records and limit=2, we should
    // see the smallest two (or descending=true: largest two) by name.

    let tree = test_vault();
    let vault = Vault::with_root("/vault".into());

    // The vault has test1, test2, no_fm. Sort ascending
    // by _name and limit 2 → should produce ["no_fm", "test1"].
    let q = Query {
        folder: "notes".into(),
        filter: Some(Expr::Predicate(Predicate::Exists {
            field: "_name".into(),
        })),
        select: None,
        sort: Some(SortKey {
            field: "_name".into(),
            descending: false,
        }),
        limit: Some(2),
        recursive: false,
    };
    let records: Vec<_> = collect(&vault, &q, &tree);
    assert_eq!(records.len(), 2);
    assert_eq!(records[0].virtual_name(), "no_fm");
    assert_eq!(records[1].virtual_name(), "test1");

    // Descending: should produce ["test2", "test1"].
    let q_desc = Query {
        folder: "notes".into(),
        filter: Some(Expr::Predicate(Predicate::Exists {
            field: "_name".into(),
        })),
        select: None,
        sort: Some(SortKey {
            field: "_name".into(),
            descending: true,
        }),
        limit: Some(2),
        recursive: false,
    };
    let records: Vec<_> = collect(&vault, &q_desc, &tree);
    assert_eq!(records.len(), 2);
    assert_eq!(records[0].virtual_name(), "test2");
    assert_eq!(records[1].virtual_name(), "test1");
}

#[test]
fn query_iter_falls_back_to_buffered_for_graph_predicates() {
    // Graph predicates can't run in pure-streaming mode (would need
    // the full link graph built upfront). The query_iter call must
    // still succeed and return the expected results — it just goes
    // through the materialized path internally.

    let mut tree = test_vault();
    add(&mut tree, "/vault/notes/linker.md", "---\ntags:\n  - linker\n---\nLinks to [[test1]]\n");
    let vault = Vault::with_root("/vault".into());
    let q = Query {
        folder: "notes".into(),
        filter: Some(Expr::LinksTo(LinkPredicate::Target("test1".into()))),
        select: None,
        sort: None,
        limit: None,
        recursive: false,
    };
    let records: Vec<_> = collect(&vault, &q, &tree);
    let names: Vec<String> = records.iter().map(|r| r.virtual_name()).collect();
    assert!(
        names.contains(&"linker".to_string()),
        "expected linker, got {:?}",
        names
    );
}

#[test]
fn query_eager_and_query_iter_produce_identical_results() {
    // Property: for any query, `query()` and `query_iter().collect()`
    // should produce exactly the same Vec<Record>. This is a small
    // sample but it exercises filter + sort + limit + projection all
    // at once.

    let tree = test_vault();
    let vault = Vault::with_root("/vault".into());

    let q = Query {
        folder: "notes".into(),
        filter: Some(Expr::Predicate(Predicate::Exists {
            field: "_name".into(),
        })),
        select: Some(vec!["status".into()]),
        sort: Some(SortKey {
            field: "_name".into(),
            descending: false,
        }),
        limit: Some(3),
        recursive: false,
    };

    let eager = vault.query(&q, &tree).unwrap();
    let streamed: Vec<_> = collect(&vault, &q, &tree);

    assert_eq!(eager.len(), streamed.len());
    for (a, b) in eager.iter().zip(streamed.iter()) {
        assert_eq!(a.virtual_name(), b.virtual_name());
        assert_eq!(
            keys(a),
            keys(b)
        );
    }
}

#[test]
fn query_iter_body_contains_finds_records_by_body_text() {
    // `_body contains "needle"` is the body-search predicate.
    // Records whose body (the file content after the frontmatter)
    // contains the needle should match. Frontmatter content does
    // NOT count.

    let mut tree = bare_vault();

    // a.md: matches in body
    add(&mut tree, "/vault/notes/a.md", "---\nstatus: active\n---\nThis note discusses microservices.\n");
    // b.md: needle appears in frontmatter, NOT body
    add(&mut tree, "/vault/notes/b.md", "---\ntags:\n  - microservices\n---\nNothing relevant.\n");
    // c.md: doesn't match anywhere
    add(&mut tree, "/vault/notes/c.md", "---\nstatus: draft\n---\nIrrelevant text.\n");

    let vault = Vault::with_root("/vault".into());
    let q = Query {
        folder: "notes".into(),
        filter: Some(Expr::Predicate(Predicate::Contains {
            field: "_body".into(),
            value: Value::String("microservices".into()),
        })),
        select: None,
        sort: None,
        limit: None,
        recursive: false,
    };

    let records: Vec<_> = collect(&vault, &q, &tree);

    assert_eq!(
        records.len(),
        1,
        "only a.md has 'microservices' in its body, got: {:?}",
        records.iter().map(|r| r.virtual_name()).collect::<Vec<_>>()
    );
    assert_eq!(records[0].virtual_name(), "a");
}

#[test]
fn query_iter_body_matches_runs_regex_on_body_text() {

    let mut tree = bare_vault();
    add(&mut tree, "/vault/notes/intro.md", "---\nstatus: active\n---\n# Introduction\n\nThis is the intro.\n");
    add(&mut tree, "/vault/notes/no_heading.md", "---\nstatus: active\n---\nJust text, no heading.\n");

    let vault = Vault::with_root("/vault".into());

    // Match files whose body starts with a level-1 heading.
    let q = Query {
        folder: "notes".into(),
        filter: Some(Expr::Predicate(Predicate::Matches {
            field: "_body".into(),
            regex: r"^\s*# ".into(),
        })),
        select: None,
        sort: None,
        limit: None,
        recursive: false,
    };
    let records: Vec<_> = collect(&vault, &q, &tree);
    assert_eq!(records.len(), 1);
    assert_eq!(records[0].virtual_name(), "intro");
}

#[test]
fn body_search_works_via_dsl_with_quoted_needle() {
    // End-to-end: parse a where-DSL string that uses _body, run
    // through query_iter, verify the right records come out.

    let mut tree = bare_vault();
    add(&mut tree, "/vault/notes/match.md", "---\nstatus: active\n---\nApplied to Stanford last week.\n");
    add(&mut tree, "/vault/notes/skip.md", "---\nstatus: active\n---\nApplied to MIT.\n");

    let vault = Vault::with_root("/vault".into());
    let filter = Expr::parse(r#"_body contains "Stanford""#).unwrap();
    let q = Query {
        folder: "notes".into(),
        filter: Some(filter),
        select: None,
        sort: None,
        limit: None,
        recursive: false,
    };
    let records: Vec<_> = collect(&vault, &q, &tree);
    assert_eq!(records.len(), 1);
    assert_eq!(records[0].virtual_name(), "match");
}

#[test]
fn body_search_combines_with_frontmatter_and_uses_streaming_path() {
    // A query that looks at the body but doesn't reference the link graph, so it should still go
    // through the streaming path (just with content loaded).

    let mut tree = bare_vault();
    add(&mut tree, "/vault/notes/active_match.md", "---\nstatus: active\n---\nApplied to Stanford.\n");
    add(&mut tree, "/vault/notes/draft_match.md", "---\nstatus: draft\n---\nApplied to Stanford.\n");
    add(&mut tree, "/vault/notes/active_no_match.md", "---\nstatus: active\n---\nApplied to MIT.\n");

    let vault = Vault::with_root("/vault".into());
    let filter = Expr::parse(r#"status = active && _body contains "Stanford""#).unwrap();
    let q = Query {
        folder: "notes".into(),
        filter: Some(filter),
        select: None,
        sort: None,
        limit: None,
        recursive: false,
    };
    let records: Vec<_> = collect(&vault, &q, &tree);
    assert_eq!(records.len(), 1);
    assert_eq!(records[0].virtual_name(), "active_match");
}

#[test]
fn query_iter_skips_invalid_frontmatter_in_streaming_mode() {
    // Streaming mode should silently skip files whose YAML
    // frontmatter is malformed. The eager path collects them as
    // parse_errors; the streaming path matches the eager-path
    // behaviour for record yield (the broken file just doesn't
    // appear in the result).

    let mut tree = test_vault();
    add(&mut tree, "/vault/notes/broken.md", "---\n: : : not yaml\n---\nbody\n");

    let vault = Vault::with_root("/vault".into());
    let q = Query {
        folder: "notes".into(),
        filter: None,
        select: None,
        sort: None,
        limit: None,
        recursive: false,
    };
    let records: Vec<_> = collect(&vault, &q, &tree);
    // 3 valid + no broken record = 3 (broken.md skipped silently in streaming mode).
    assert_eq!(records.len(), 3);
    let names: Vec<String> = records.iter().map(|r| r.virtual_name()).collect();
    assert!(!names.contains(&"broken".to_string()));
}
