//! What the library promises of whole vaults, and of values at the edge.

use std::collections::BTreeMap;

use vaultdb::cli::files::free_trash_place;
use vaultdb::error::VaultdbError;
use vaultdb::filter::evaluate_expr;
use vaultdb::float::Float;
use vaultdb::frontmatter::{parse_frontmatter, split_note};
use vaultdb::journal::rewrite_wikilinks;
use vaultdb::query::{Expr, Query, SortKey};
use vaultdb::record::{decode_percent_encoding, epoch_days_to_date, format_date, Record, Value};
use vaultdb::render::{export_notes, export_records, folder_to_make, Format, Rendered};
use vaultdb::schema::{
    infer_schema, validate_record, validate_schema_consistency, CollectionSchema, FieldSchema, VaultSchema,
};
use vaultdb::tree::{FileEntry, Tree};
use vaultdb::vault::{sort_records, top_k_sorted, with_texts, Vault};
use vaultdb::writer::{
    add_tag, quote_value, remove_tag, set_body, set_field, set_field_block, unset_field, ChangeDescription,
};

fn record(name: &str, fields: Vec<(&str, Value)>) -> Record {
    Record {
        path: format!("/vault/notes/{}.md", name),
        fields: fields.into_iter().map(|(k, v)| (k.to_string(), v)).collect(),
        raw_content: None,
        modified: None,
        created: None,
    }
}

fn holds(r: &Record, clause: &str) -> bool {
    evaluate_expr(&Expr::parse(clause).unwrap(), r, "/vault", None)
}

fn float(x: f64) -> Float {
    Float {
        bits: x.to_bits(),
        text: x.to_string(),
    }
}

fn tree(folders: &[&str], files: &[(&str, &str)]) -> Tree {
    Tree {
        folders: folders.iter().map(|f| f.to_string()).collect(),
        files: files
            .iter()
            .map(|(path, content)| FileEntry {
                path: path.to_string(),
                content: Ok(content.to_string()),
                modified: None,
                created: None,
            })
            .collect(),
    }
}

fn fields_of(text: &str) -> Vec<(String, Value)> {
    let (yaml, _, _) = split_note(text).unwrap();
    parse_frontmatter(&yaml).unwrap()
}

// Conditions

#[test]
fn a_list_is_its_equalities() {
    for n in 0..4 {
        let r = record("a", vec![("hsk", Value::Integer(n))]);
        assert_eq!(holds(&r, "hsk IN (1, 2)"), holds(&r, "hsk = 1 || hsk = 2"));
        assert_eq!(holds(&r, "hsk IN (1, 2)"), n == 1 || n == 2);
        assert_eq!(holds(&r, "hsk NOT IN (1, 2)"), !(n == 1 || n == 2));
    }
    let r = record("a", vec![("done", Value::Bool(true))]);
    assert_eq!(holds(&r, "done IN (true)"), holds(&r, "done = true"));
    assert_eq!(holds(&r, "done IN (false)"), holds(&r, "done = false"));
}

#[test]
fn a_name_of_digits_is_found() {
    let r = record("1917", vec![("title", Value::String("1917".into()))]);
    assert!(holds(&r, "_name = 1917"));
    assert!(holds(&r, "title = 1917"));
    assert!(!holds(&r, "_name = 1918"));
}

#[test]
fn what_was_written_is_what_is_meant() {
    let number = record("a", vec![("x", Value::Integer(7))]);
    let plain = record("b", vec![("x", Value::String("7".into()))]);
    let agent = record("c", vec![("x", Value::String("007".into()))]);
    for (clause, expected) in [
        ("x = 007", [true, false, true]),
        ("x = +7", [true, false, false]),
        ("x = 7", [true, true, false]),
        ("x contains 007", [false, false, true]),
        ("x contains 7", [false, true, true]),
    ] {
        let found = [holds(&number, clause), holds(&plain, clause), holds(&agent, clause)];
        assert_eq!(found, expected, "{}", clause);
    }
    let film = record("d", vec![("title", Value::String("James Bond 007".into()))]);
    let other = record("e", vec![("title", Value::String("Apollo 7".into()))]);
    assert!(holds(&film, "title contains 007"));
    assert!(!holds(&other, "title contains 007"));
    assert!(holds(&other, "title contains 7"));
    let list = record("f", vec![("x", Value::List(vec![Value::Integer(7)]))]);
    assert!(holds(&list, "x contains 007"));
    assert!(holds(&list, "x contains 7"));
    assert!(!holds(&list, "x contains 8"));
}

// Edits

#[test]
fn only_fields_of_the_note_itself_are_set() {
    let note = "---\nmeta:\n  status: old\nyear: 1999\n---\nBody.\n";
    let (text, _) = set_field(note, "status", "new").unwrap();
    assert!(text.contains("meta:\n  status: old\n"));
    assert!(fields_of(&text).contains(&("status".to_string(), Value::String("new".into()))));
}

#[test]
fn a_block_of_text_is_unset_as_a_whole() {
    let note = "---\na: 1\ndescription: |\n  First.\n\n  Second.\nb: 2\n---\nBody.\n";
    let (text, _) = unset_field(note, "description").unwrap();
    assert_eq!(text, "---\na: 1\nb: 2\n---\nBody.\n");
}

#[test]
fn a_new_body_keeps_the_frontmatter() {
    let (text, change) = set_body("---\na: 1\n---\nx\r\ny\n", "z").unwrap();
    assert_eq!(text, "---\na: 1\n---\nz");
    assert_eq!(change, ChangeDescription::SetBody { old_len: 5, new_len: 1 });
}

#[test]
fn a_tag_that_was_added_is_removed() {
    let note = "---\ntags:\n  - x\n---\nBody.\n";
    let (with, _) = add_tag(note, "y").unwrap();
    assert_ne!(with, note);
    let (without, _) = remove_tag(&with, "y").unwrap();
    assert_eq!(without, note);
}

#[test]
fn texts_are_read_back_as_texts() {
    assert_eq!(quote_value(""), "''");
    assert_eq!(quote_value(".inf"), "'.inf'");
    assert_eq!(quote_value("0x1F"), "'0x1F'");
    assert_eq!(quote_value("it's a \\ mark"), "\"it's a \\\\ mark\"");
    assert_eq!(quote_value("plain"), "plain");
    for text in ["", ".inf", "0x1F", "it's a \\ mark", "a\"b'c", "line\nbreak", "true", "~", "1e3", ", x"] {
        let (note, _) = set_field("---\na: 1\n---\n", "t", text).unwrap();
        assert!(
            fields_of(&note).contains(&("t".to_string(), Value::String(text.into()))),
            "{:?}",
            text
        );
    }
}

#[test]
fn an_indented_frontmatter_is_edited_in_place() {
    let note = "---\n  status: x\n  tags:\n    - a\n---\nB\n";
    let (text, change) = set_field(note, "status", "y").unwrap();
    assert_eq!(text, "---\n  status: y\n  tags:\n    - a\n---\nB\n");
    assert_eq!(
        change,
        ChangeDescription::SetField {
            field: "status".into(),
            old_value: "x".into(),
            new_value: "y".into()
        }
    );
    let (text, _) = set_field(note, "year", "1999").unwrap();
    assert_eq!(text, "---\n  status: x\n  tags:\n    - a\n  year: '1999'\n---\nB\n");
    let (text, _) = add_tag(note, "b").unwrap();
    assert_eq!(text, "---\n  status: x\n  tags:\n    - a\n    - b\n---\nB\n");
    let (text, _) = remove_tag(note, "a").unwrap();
    assert_eq!(text, "---\n  status: x\n  tags:\n---\nB\n");
    let (text, _) = unset_field(note, "tags").unwrap();
    assert_eq!(text, "---\n  status: x\n---\nB\n");
    let list = Value::List(vec![Value::String("p".into()), Value::String("q".into())]);
    let (text, _) = set_field_block(note, "tags", &list).unwrap();
    assert_eq!(
        fields_of(&text),
        vec![
            ("status".to_string(), Value::String("x".into())),
            ("tags".to_string(), list),
        ]
    );
    assert!(unset_field("---\n  meta:\n    status: x\n---\nB\n", "status").is_err());
    let (text, _) = set_field("---\n# note\n\n  a: 1\n---\n", "a", "b").unwrap();
    assert_eq!(text, "---\n# note\n\n  a: b\n---\n");
}

#[test]
fn a_value_that_starts_like_a_block_is_set() {
    let (text, change) = set_field("---\nk: >= 5\n---\n", "k", "six").unwrap();
    assert_eq!(text, "---\nk: six\n---\n");
    assert!(matches!(change, ChangeDescription::SetField { old_value, .. } if old_value == ">= 5"));
    for header in ["|", ">", "|-", ">+", "|2", ">2-", "| # text"] {
        let note = format!("---\nk: {}\n  text\n---\n", header);
        let refused = set_field(&note, "k", "six").unwrap_err().to_string();
        assert!(refused.contains("k"), "{}", refused);
        let gone = unset_field(&note, "k").unwrap().0;
        assert_eq!(gone, "---\n---\n");
    }
}

#[test]
fn a_scalar_that_goes_on_is_replaced_as_a_whole() {
    let (text, change) = set_field("---\nk: hello\n  world\nn: 1\n---\n", "k", "bye").unwrap();
    assert_eq!(text, "---\nk: bye\nn: 1\n---\n");
    assert_eq!(
        change,
        ChangeDescription::SetField {
            field: "k".into(),
            old_value: "hello".into(),
            new_value: "bye".into()
        }
    );
    let (text, _) = set_field("---\nk: a\n  # kept\nn: 1\n---\n", "k", "b").unwrap();
    assert_eq!(text, "---\nk: b\n  # kept\nn: 1\n---\n");
}

// Schemas

fn rule(field_type: &str) -> FieldSchema {
    FieldSchema {
        field_type: field_type.into(),
        enum_values: vec![],
        min: None,
        max: None,
        default: None,
        default_expr: None,
    }
}

fn collection(folder: &str, name: &str, rule: FieldSchema) -> CollectionSchema {
    CollectionSchema {
        description: None,
        folder: folder.into(),
        filter: vec![],
        required: vec![],
        fields: vec![(name.into(), rule)],
    }
}

#[test]
fn a_default_below_the_minimum_of_a_sibling_is_refused() {
    let mut wide = rule("integer");
    wide.min = Some(float(10.0));
    let mut narrow = rule("integer");
    narrow.default = Some(Value::Integer(5));
    let schema = VaultSchema {
        collections: vec![
            ("all".into(), collection("Notes", "n", wide)),
            ("some".into(), collection("Notes/sub", "n", narrow)),
        ],
    };
    let message = validate_schema_consistency(&schema, 0).unwrap_err().to_string();
    assert!(message.contains("value 5 is below minimum 10"), "{}", message);
}

#[test]
fn filters_exclude_each_other_in_whatever_form_their_values_are() {
    let filtered = |filter: &str, field_type: &str| {
        let mut c = collection("Notes", "n", rule(field_type));
        c.filter = vec![filter.to_string()];
        c
    };
    let consistent = |a: &str, b: &str| {
        let schema = VaultSchema {
            collections: vec![
                ("one".into(), filtered(a, "integer")),
                ("two".into(), filtered(b, "string")),
            ],
        };
        validate_schema_consistency(&schema, 0).is_ok()
    };
    assert!(consistent("version = 1.0", "version = 2.0"));
    assert!(consistent("version = 007", "version = 8"));
    assert!(consistent("kind = a && version = 1.0", "version = 2.0"));
    assert!(!consistent("version = 007", "version = 7"));
    assert!(!consistent("version = 1.0", "version = 1.0"));
    assert!(!consistent("version = 1.0 || kind = a", "version = 2.0"));
}

#[test]
fn notes_meet_the_schema_that_they_suggest() {
    let mut notes: Vec<Record> = Vec::new();
    for i in 0..12 {
        notes.push(record(
            &format!("n{}", i),
            vec![
                ("n", Value::Integer(i % 2 - 1)),
                ("ok", Value::Bool(i % 2 == 0)),
                ("rest", if i == 3 { Value::Null } else { Value::List(vec![]) }),
                ("status", Value::String(if i < 6 { "open" } else { "done" }.into())),
            ],
        ));
    }
    let schema = infer_schema("notes", &notes);
    assert_eq!(schema.required, vec!["n", "ok", "status"]);
    let status = &schema.fields.iter().find(|(k, _)| k == "status").unwrap().1;
    assert_eq!(status.enum_values.len(), 2);
    for note in &notes {
        assert!(validate_record(&note.path, &note.fields, &schema).is_empty());
    }
}

#[test]
fn a_schema_asks_for_the_kind_of_the_values() {
    let notes: Vec<Record> = (0..3)
        .map(|i| {
            record(
                &format!("n{}", i),
                vec![
                    ("b", Value::Bool(true)),
                    ("c", if i == 0 { Value::Null } else { Value::Integer(i) }),
                    ("a", Value::List(vec![])),
                    ("d", Value::Null),
                    ("e", Value::Float(float(1.5))),
                    ("f", Value::Mapping(vec![])),
                    ("g", Value::String(format!("text {}", i))),
                ],
            )
        })
        .collect();
    let schema = infer_schema("notes/sub", &notes);
    assert_eq!(schema.folder, "notes/sub");
    assert_eq!(schema.required, vec!["a", "b", "e", "f", "g"]);
    let kinds: Vec<(&str, &str)> = schema
        .fields
        .iter()
        .map(|(k, r)| (k.as_str(), r.field_type.as_str()))
        .collect();
    assert_eq!(
        kinds,
        vec![
            ("a", "list"),
            ("b", "bool"),
            ("c", "integer"),
            ("d", "string"),
            ("e", "float"),
            ("f", "map"),
            ("g", "string"),
        ]
    );
    for note in &notes {
        assert!(validate_record(&note.path, &note.fields, &schema).is_empty());
    }
    let nothing = infer_schema("empty", &vec![]);
    assert!(nothing.required.is_empty() && nothing.fields.is_empty());
}

// Values

#[test]
fn percent_escapes_are_utf8() {
    assert_eq!(decode_percent_encoding("%E5%BF%AB"), "快");
    assert_eq!(decode_percent_encoding("a%20b"), "a b");
    assert_eq!(decode_percent_encoding("%E9"), "\u{e9}");
    assert_eq!(decode_percent_encoding("%E5%BF"), "\u{e5}\u{bf}");
    assert_eq!(decode_percent_encoding("100%"), "100%");
}

#[test]
fn dates_count_back_to_their_days() {
    let months = [31u64, 28, 31, 30, 31, 30, 31, 31, 30, 31, 30, 31];
    let leap = |y: u64| y % 4 == 0 && (y % 100 != 0 || y % 400 == 0);
    for days in [0u64, 58, 59, 60, 364, 365, 789, 10_956, 11_016, 11_017, 19_782, 47_540, 146_096] {
        let (y, m, d) = epoch_days_to_date(days);
        let mut n = d - 1;
        for before in 1..m {
            n += months[before as usize - 1];
            if before == 2 && leap(y) {
                n += 1;
            }
        }
        for before in 1970..y {
            n += if leap(before) { 366 } else { 365 };
        }
        assert_eq!(n, days);
    }
    assert_eq!(epoch_days_to_date(11_016), (2000, 2, 29));
    assert_eq!(epoch_days_to_date(u64::MAX - 719468).1, epoch_days_to_date(u64::MAX - 719468 - 1).1);
    assert_eq!(format_date(19_782 * 86_400), "2024-02-29");
}

// Vaults

#[test]
fn a_vault_is_found_from_a_relative_path() {
    let marked = tree(&["/home/v/.obsidian", "/home/v/a/.obsidian"], &[]);
    assert_eq!(Vault::discover(".", "/home/v/x/y", &marked).unwrap().root, "/home/v");
    assert_eq!(Vault::discover("b", "/home/v/a", &marked).unwrap().root, "/home/v/a");
    assert_eq!(Vault::discover("..", "/home/v/a", &marked).unwrap().root, "/home/v");
    assert_eq!(Vault::discover("/home/v/a/b", "/", &marked).unwrap().root, "/home/v/a");
    let err = Vault::discover(".", "/home", &marked).unwrap_err();
    assert!(matches!(err, VaultdbError::VaultNotFound(p) if p == "."));
    let root = tree(&["/.obsidian"], &[]);
    assert_eq!(Vault::discover(".", "/a/b", &root).unwrap().root, "/");
}

#[test]
fn files_of_one_name_all_survive_the_trash() {
    let mut taken: Vec<String> = Vec::new();
    for folder in ["a", "b", "c", "d"] {
        let path = format!("/vault/{}/note.md", folder);
        let place = free_trash_place("/vault", &path, &taken, 7).unwrap();
        assert!(place.starts_with("/vault/.trash/note"));
        assert!(!taken.contains(&place));
        taken.push(place);
    }
    assert_eq!(taken[0], "/vault/.trash/note.md");
    assert_eq!(taken[1], "/vault/.trash/note.7.md");
    assert_eq!(taken[2], "/vault/.trash/note.7-1.md");
    assert_eq!(free_trash_place("/vault", "..", &taken, 7), None);
}

#[test]
fn an_export_that_leads_outside_makes_nothing() {
    let refused = folder_to_make("/vault", "link/sub/foo.csv", "/vault", 2, "/elsewhere").unwrap_err();
    assert!(matches!(refused, VaultdbError::SafetyRefused { .. }));
    assert!(refused.to_string().contains("resolved to /elsewhere/sub"));
    assert_eq!(
        folder_to_make("/vault", "out/sub/foo.csv", "/vault", 1, "/vault").unwrap(),
        "/vault/out/sub"
    );
    assert_eq!(
        folder_to_make("/vault", "foo.csv", "/real", 1, "/real").unwrap(),
        "/real"
    );
    assert!(folder_to_make("/vault", "../foo.csv", "/vault", 1, "/vault").is_err());
}

#[test]
fn an_export_shows_how_long_notes_are() {
    let text = "---\na: 1\n---\nBody.\n";
    let all = tree(&["/vault", "/vault/notes"], &[("/vault/notes/n.md", text)]);
    let vault = Vault::with_root("/vault".into());
    let query = Query {
        folder: "notes".into(),
        filter: None,
        select: None,
        sort: None,
        limit: None,
        recursive: false,
    };
    let found = vault.query(&query, &all).unwrap();
    assert!(found[0].raw_content.is_none());
    let select = Some(vec!["_name".to_string(), "_length".to_string()]);
    let csv = Format::Csv { delimiter: b',' };
    let shown = |r: Result<Rendered, VaultdbError>| match r.unwrap() {
        Rendered::Text(t) => t,
        Rendered::Bytes(b) => String::from_utf8(b).unwrap(),
        Rendered::Sheet(_) => panic!("expected text"),
    };
    let out = shown(export_notes(&found, &all, &select, "/vault", None, csv));
    assert_eq!(out, format!("_name,_length\nn,{}\n", text.len()));
    let with = with_texts(&found, &all);
    assert_eq!(with[0].raw_content.as_deref(), Some(text));
    assert_eq!(shown(export_records(&with, &select, "/vault", None, csv)), out);
}

#[test]
fn each_file_is_a_record_or_an_error() {
    let all = tree(
        &["/vault", "/vault/notes"],
        &[
            ("/vault/notes/a.md", "---\na: 1\n---\n"),
            ("/vault/notes/b.md", "---\na: [1\n---\n"),
            ("/vault/notes/c.md", "Plain.\n"),
        ],
    );
    let vault = Vault::with_root("/vault".into());
    let load = vault.load_records("/vault/notes", false, &all).unwrap();
    let read: Vec<&str> = load.records.iter().map(|r| r.path.as_str()).collect();
    let failed: Vec<&str> = load.parse_errors.iter().map(|e| e.file.as_str()).collect();
    assert_eq!(read, vec!["/vault/notes/a.md", "/vault/notes/c.md"]);
    assert_eq!(failed, vec!["/vault/notes/b.md"]);
}

#[test]
fn notes_are_loaded_in_the_order_of_their_paths() {
    let all = tree(
        &["/vault", "/vault/notes", "/vault/notes/b"],
        &[
            ("/vault/notes/c.md", "---\na: 1\n---\n"),
            ("/vault/notes/b/z.md", "Plain.\n"),
            ("/vault/notes/b.md", "---\na: 2\n---\n"),
            ("/vault/notes/a.txt", "no note"),
            ("/vault/notes/a.md", "---\na: 3\n---\n"),
        ],
    );
    let vault = Vault::with_root("/vault".into());
    let listed = vault.list_files("/vault/notes", true, &all);
    assert_eq!(
        listed,
        vec![
            "/vault/notes/a.md",
            "/vault/notes/b/z.md",
            "/vault/notes/b.md",
            "/vault/notes/c.md",
        ]
    );
    let load = vault.load_records("/vault/notes", true, &all).unwrap();
    let read: Vec<&str> = load.records.iter().map(|r| r.path.as_str()).collect();
    assert_eq!(read, listed);
    assert!(load.records.iter().all(|r| r.raw_content.is_none()));
    assert!(load.records[1].fields.is_empty());
    assert!(load.parse_errors.is_empty());
}

#[test]
fn sorting_keeps_each_record_as_often_as_it_was_there() {
    let twin = || record("twin", vec![("n", Value::Integer(2))]);
    let notes = vec![
        twin(),
        record("x", vec![("n", Value::Integer(1))]),
        twin(),
        record("y", vec![("n", Value::String("z".into()))]),
        record("z", vec![]),
    ];
    let key = SortKey {
        field: "n".into(),
        descending: false,
    };
    let count = |v: &[Record], r: &Record| v.iter().filter(|s| *s == r).count();
    let sorted = sort_records(&notes, &key, "/vault");
    assert_eq!(sorted.len(), notes.len());
    for note in &notes {
        assert_eq!(count(&sorted, note), count(&notes, note));
    }
    for k in 0..6 {
        let first = top_k_sorted(&notes, &key, k, "/vault");
        assert_eq!(first.len(), k.min(notes.len()));
        for note in &first {
            assert!(count(&first, note) <= count(&notes, note));
        }
    }
}

#[test]
fn the_first_records_are_those_of_the_sorted() {
    let notes: Vec<Record> = [3, 1, 2, 1]
        .iter()
        .enumerate()
        .map(|(i, n)| record(&format!("n{}", i), vec![("n", Value::Integer(*n))]))
        .collect();
    for descending in [false, true] {
        let key = SortKey {
            field: "n".into(),
            descending,
        };
        let sorted = sort_records(&notes, &key, "/vault");
        for k in 0..7 {
            let first = top_k_sorted(&notes, &key, k, "/vault");
            assert_eq!(first, sorted.iter().take(k).cloned().collect::<Vec<_>>());
        }
    }
}

// Links

#[test]
fn rewriting_back_gives_the_text_back() {
    let text = "A [[from]], [[from|alias]], [[from#part]], [[[from]]], plain from, [[from-x]], [[x from]].";
    let there = rewrite_wikilinks(text, "from", "to");
    assert_eq!(
        there,
        "A [[to]], [[to|alias]], [[to#part]], [[[to]]], plain from, [[from-x]], [[x from]]."
    );
    assert_eq!(rewrite_wikilinks(&there, "to", "from"), text);
    let other = "No links to it: [[a]] and [[b|from]].";
    assert_eq!(rewrite_wikilinks(other, "from", "to"), other);
}

#[test]
fn names_of_notes_are_kept_apart() {
    let mut texts: BTreeMap<&str, String> = BTreeMap::new();
    texts.insert("short", rewrite_wikilinks("[[a]] [[ab]]", "a", "c"));
    texts.insert("long", rewrite_wikilinks("[[a]] [[ab]]", "ab", "c"));
    assert_eq!(texts["short"], "[[c]] [[ab]]");
    assert_eq!(texts["long"], "[[a]] [[c]]");
}
