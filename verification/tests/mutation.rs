//! Changes to a vault, carried out on a picture of a disk.

use vaultdb::journal::{journal_path, list_pending, RenameJournal, ReplayRun};
use vaultdb::mutation::create::CreateBuilder;
use vaultdb::mutation::relocate::{Action, DeleteBuilder, FileRun, MoveBuilder, Outcome};
use vaultdb::mutation::rename::RenameBuilder;
use vaultdb::mutation::{MutationReport, UpdateBuilder};
use vaultdb::query::{Expr, Predicate};
use vaultdb::record::{Record, Value};
use vaultdb::schema::{CollectionSchema, FieldSchema, VaultSchema};
use vaultdb::tree::{FileEntry, Tree};
use vaultdb::vault::Vault;
use vaultdb::writer::WriteOptions;

/// A moment of 13 May 2024, in seconds since 1970.
const NOW: u64 = 1_715_600_000;

/// A disk that does what it is told.
struct Disk {
    tree: Tree,
    journals: Vec<(String, RenameJournal)>,
    synced: Vec<String>,
    /// A path that cannot be written.
    broken: Option<String>,
}

impl Disk {
    fn new() -> Disk {
        Disk {
            tree: Tree {
                folders: vec!["/vault".into(), "/vault/.obsidian".into()],
                files: vec![],
            },
            journals: vec![],
            synced: vec![],
            broken: None,
        }
    }

    fn vault(&self) -> Vault {
        Vault::with_root("/vault".into())
    }

    fn folder(&mut self, path: &str) {
        if !self.tree.folders.iter().any(|p| p == path) {
            self.tree.folders.push(path.into());
        }
    }

    fn file(&mut self, path: &str, content: &str) {
        self.tree.files.retain(|f| f.path != path);
        self.tree.files.push(FileEntry {
            path: path.into(),
            content: Ok(content.into()),
            modified: None,
            created: None,
        });
    }

    fn has(&self, path: &str) -> bool {
        self.tree.files.iter().any(|f| f.path == path)
    }

    fn read(&self, path: &str) -> String {
        let file = self.tree.files.iter().find(|f| f.path == path).unwrap();
        file.content.clone().unwrap()
    }

    fn notes(&self) -> Vec<Record> {
        self.vault()
            .load_records("/vault/notes", false, &self.tree)
            .unwrap()
            .records
    }

    fn pending(&self) -> Vec<String> {
        list_pending(&self.journals.iter().map(|(p, _)| p.clone()).collect())
    }

    fn plant(&mut self, journal: RenameJournal) {
        let path = journal_path("/vault", self.journals.len() as u64);
        self.journals.push((path, journal));
    }

    /// Does one thing, on behalf of the rename that the journal describes.
    fn perform(&mut self, action: Action, journal: Option<(&str, &RenameJournal)>) -> Outcome {
        match action {
            Action::MakeFolder(p) => self.folder(&p),
            Action::RemoveFile(p) => {
                if !self.has(&p) {
                    return Outcome::Missing;
                }
                self.tree.files.retain(|f| f.path != p);
            }
            Action::MoveFile { from, to } => {
                if !self.has(&from) {
                    return Outcome::Missing;
                }
                let text = self.read(&from);
                self.tree.files.retain(|f| f.path != from);
                self.file(&to, &text);
            }
            Action::ReadFile(p) => {
                return if self.has(&p) {
                    Outcome::Text(self.read(&p))
                } else {
                    Outcome::Missing
                };
            }
            Action::WriteFile { path, content } => {
                if self.broken.as_ref() == Some(&path) {
                    return Outcome::Failed("disk full".into());
                }
                self.file(&path, &content);
            }
            Action::WriteJournal => {
                let (path, j) = journal.unwrap();
                self.journals.push((path.into(), copy(j)));
            }
            Action::DropJournal => {
                let (path, _) = journal.unwrap();
                self.journals.retain(|(p, _)| p != path);
            }
            Action::SyncFolder(p) => self.synced.push(p),
        }
        Outcome::Done
    }

    fn update(&mut self, builder: UpdateBuilder) -> MutationReport {
        let (report, writes) = builder.execute(&self.vault(), &self.tree).unwrap();
        for w in writes {
            self.file(&w.path, &w.modified_content);
        }
        report
    }

    fn create(&mut self, builder: CreateBuilder) -> MutationReport {
        let (report, write) = builder.execute(&self.vault(), &self.tree, NOW).unwrap();
        if let Some(w) = write {
            assert!(!self.has(&w.path));
            self.file(&w.path, &w.modified_content);
        }
        report
    }

    fn run(&mut self, mut run: FileRun) -> MutationReport {
        while let Some(action) = run.next() {
            let outcome = self.perform(action, None);
            run.done(&outcome);
        }
        run.finish().unwrap()
    }

    fn delete(&mut self, builder: DeleteBuilder) -> MutationReport {
        let run = builder.execute(&self.vault(), &self.tree).unwrap();
        self.run(run)
    }

    fn relocate(&mut self, builder: MoveBuilder) -> MutationReport {
        let run = builder.execute(&self.vault(), &self.tree).unwrap();
        self.run(run)
    }

    fn rename(&mut self, builder: RenameBuilder) -> MutationReport {
        self.recover();
        let path = journal_path("/vault", 1000 + self.journals.len() as u64);
        let mut run = builder.execute(&self.vault(), &self.tree).unwrap();
        let journal = copy(run.journal());
        while let Some(action) = run.next() {
            let outcome = self.perform(action, Some((&path, &journal)));
            run.done(&outcome);
        }
        run.finish().unwrap()
    }

    fn recover(&mut self) -> usize {
        let paths = self.journals.iter().map(|(p, _)| p.clone()).collect();
        let mut recovery = self.vault().recover(&paths);
        while let Some(path) = recovery.next() {
            let path = path.to_string();
            let (_, journal) = self.journals.iter().find(|(p, _)| *p == path).unwrap();
            let journal = copy(journal);
            let mut run = ReplayRun::new(
                copy(&journal),
                self.has(&journal.source),
                self.has(&journal.dest),
            );
            while let Some(action) = run.next() {
                let outcome = self.perform(action, Some((&path, &journal)));
                run.done(&outcome);
            }
            recovery.done(run.finish());
        }
        recovery.finish().unwrap()
    }
}

fn copy(j: &RenameJournal) -> RenameJournal {
    RenameJournal {
        source: j.source.clone(),
        dest: j.dest.clone(),
        from_name: j.from_name.clone(),
        to_name: j.to_name.clone(),
        backlinks: j.backlinks.clone(),
    }
}

fn get<'a>(r: &'a Record, key: &str) -> Option<&'a Value> {
    r.fields.iter().find(|(k, _)| k == key).map(|(_, v)| v)
}

#[test]
fn update_builder_writes_url_string_without_double_quoting() {
    let mut disk = Disk::new();
    disk.folder("/vault/notes");
    disk.file("/vault/notes/product.md", "---\nname: bialetti\nurl:\n---\n\n# Bialetti\n");

    let filter = Expr::Predicate(Predicate::Equals {
        field: "_name".into(),
        value: Value::String("product".into()),
    });
    let url = Value::String("https://www.amazon.com.tr/Bialetti/foo".into());
    disk.update(UpdateBuilder::new("notes", filter)
        .set("url", url));

    let written = disk.read("/vault/notes/product.md");
    // Correct: single quotes, no enclosing double quotes.
    assert!(
        written.contains("url: 'https://www.amazon.com.tr/Bialetti/foo'"),
        "got:\n{}",
        written
    );
    // Nothing is quoted twice.
    assert!(!written.contains("url: \"'https://"), "got:\n{}", written);

    // Re-read through Vault::load_records: the field must come back
    // as the bare URL, not a string containing literal quotes.
    let records = disk.notes();
    let product = &records[0];
    match get(product, "url") {
        Some(Value::String(s)) => {
            assert_eq!(s, "https://www.amazon.com.tr/Bialetti/foo");
        }
        other => panic!("expected Value::String(bare URL), got {:?}", other),
    }
}

#[test]
fn update_builder_preserves_string_that_looks_like_bool() {
    let mut disk = Disk::new();
    disk.folder("/vault/notes");
    disk.file("/vault/notes/n.md", "---\nname: n\nstatus:\n---\n");

    let filter = Expr::Predicate(Predicate::Equals {
        field: "_name".into(),
        value: Value::String("n".into()),
    });
    disk.update(UpdateBuilder::new("notes", filter)
        .set("status", Value::String("true".into())));

    let records = disk.notes();
    match get(&records[0], "status") {
        Some(Value::String(s)) if s == "true" => {}
        other => panic!(
            "expected status to round-trip as Value::String(\"true\"), got {:?}",
            other
        ),
    }
}

#[test]
fn update_builder_writes_list_as_block_yaml() {
    let mut disk = Disk::new();
    disk.folder("/vault/notes");
    disk.file("/vault/notes/cat.md", "---\nanlam: kedi\n---\n\n# 猫\n");

    let filter = Expr::Predicate(Predicate::Equals {
        field: "_name".into(),
        value: Value::String("cat".into()),
    });
    let anlamlar = Value::List(vec![
        Value::String("kedi".into()),
        Value::String("pisi".into()),
    ]);
    let report = disk.update(UpdateBuilder::new("notes", filter)
        .set("anlamlar", anlamlar));
    assert_eq!(report.errors.len(), 0);
    assert_eq!(report.changes.len(), 1);

    let written = disk.read("/vault/notes/cat.md");
    // Block-style: a `key:` line followed by `- item` lines.
    assert!(
        written.contains("anlamlar:\n- kedi\n- pisi"),
        "got:\n{}",
        written
    );
    // Nothing is quoted twice.
    assert!(!written.contains("anlamlar: '- kedi"), "got:\n{}", written);

    // Re-read through Vault::query: the field must come back as a List,
    // not a String. This is the assertion that catches a regression of
    // the original bug end-to-end.
    let records = disk.notes();
    let cat = &records[0];
    match get(cat, "anlamlar") {
        Some(Value::List(items)) => {
            assert_eq!(items.len(), 2);
            assert!(matches!(&items[0], Value::String(s) if s == "kedi"));
            assert!(matches!(&items[1], Value::String(s) if s == "pisi"));
        }
        other => panic!("expected Value::List, got {:?}", other),
    }
}

#[test]
fn update_builder_chains() {
    let filter = Expr::Predicate(Predicate::Equals {
        field: "status".into(),
        value: Value::String("active".into()),
    });
    let b = UpdateBuilder::new("notes", filter)
        .set("priority", Value::Integer(1))
        .unset("draft")
        .add_tag("urgent")
        .remove_tag("stale");
    assert_eq!(b.set_fields.len(), 1);
    assert_eq!(b.unset_fields.len(), 1);
    assert_eq!(b.add_tags.len(), 1);
    assert_eq!(b.remove_tags.len(), 1);
}

#[test]
fn delete_builder_trash_moves_to_dot_trash() {
    let mut disk = Disk::new();
    disk.folder("/vault/notes");
    disk.file("/vault/notes/a.md", "---\nstatus: stale\n---\n");
    let filter = Expr::Predicate(Predicate::Equals {
        field: "status".into(),
        value: Value::String("stale".into()),
    });
    let report = disk.delete(DeleteBuilder::new("notes", filter));
    assert_eq!(report.changes.len(), 1);
    assert_eq!(report.errors.len(), 0);
    assert!(!disk.has("/vault/notes/a.md"));
    assert!(disk.has("/vault/.trash/a.md"));
}

#[test]
fn delete_builder_permanent_removes_file() {
    let mut disk = Disk::new();
    disk.folder("/vault/notes");
    disk.file("/vault/notes/a.md", "---\nstatus: stale\n---\n");
    let filter = Expr::Predicate(Predicate::Equals {
        field: "status".into(),
        value: Value::String("stale".into()),
    });
    disk.delete(DeleteBuilder::new("notes", filter).permanent(true));
    assert!(!disk.has("/vault/notes/a.md"));
    assert!(!disk.has("/vault/.trash/a.md"));
}

#[test]
fn move_builder_relocates_files() {
    let mut disk = Disk::new();
    disk.folder("/vault/notes");
    disk.file("/vault/notes/a.md", "---\nstatus: archived\n---\n");
    let filter = Expr::Predicate(Predicate::Equals {
        field: "status".into(),
        value: Value::String("archived".into()),
    });
    let report = disk.relocate(MoveBuilder::new("notes", "archive", filter));
    assert_eq!(report.changes.len(), 1);
    assert_eq!(report.errors.len(), 0);
    assert!(!disk.has("/vault/notes/a.md"));
    assert!(disk.has("/vault/archive/a.md"));
}

#[test]
fn rename_builder_renames_and_rewrites_links() {
    let mut disk = Disk::new();
    disk.folder("/vault/notes");
    disk.file("/vault/notes/old.md", "---\nstatus: x\n---\nBody\n");
    disk.file("/vault/notes/source.md", "---\nstatus: y\n---\nLinks to [[old]] and [[old|alias]] and [[old#section]].\n");

    let report = disk.rename(RenameBuilder::new("notes", "old", "new"));
    // 1 rename + 1 backlink rewrite = 2 changes
    assert_eq!(report.changes.len(), 2);
    assert_eq!(report.errors.len(), 0);
    assert!(!disk.has("/vault/notes/old.md"));
    assert!(disk.has("/vault/notes/new.md"));
    let source_after = disk.read("/vault/notes/source.md");
    assert!(source_after.contains("[[new]]"));
    assert!(source_after.contains("[[new|alias]]"));
    assert!(source_after.contains("[[new#section]]"));
    assert!(!source_after.contains("[[old"));
}

#[test]
fn rename_builder_target_conflict_returns_error() {
    let mut disk = Disk::new();
    disk.folder("/vault/notes");
    disk.file("/vault/notes/old.md", "---\nstatus: x\n---\n");
    disk.file("/vault/notes/new.md", "---\nstatus: y\n---\n");
    let report = disk.rename(RenameBuilder::new("notes", "old", "new"));
    assert_eq!(report.changes.len(), 0);
    assert_eq!(report.errors.len(), 1);
    // Source file should be untouched
    assert!(disk.has("/vault/notes/old.md"));
}

#[test]
fn update_builder_plan_and_execute_against_a_temp_vault() {

    let mut disk = Disk::new();
    disk.folder("/vault/notes");
    disk.file("/vault/notes/a.md", "---\nstatus: active\n---\nBody A\n");
    disk.file("/vault/notes/b.md", "---\nstatus: pending\n---\nBody B\n");

    let filter = Expr::Predicate(Predicate::Equals {
        field: "status".into(),
        value: Value::String("active".into()),
    });
    let builder = UpdateBuilder::new("notes", filter).set("priority", Value::Integer(1));

    // plan() does not touch disk
    let plan_report = builder.plan(&disk.vault(), &disk.tree).unwrap();
    assert_eq!(plan_report.changes.len(), 1);
    assert_eq!(plan_report.errors.len(), 0);
    assert!(plan_report.changes[0].path.ends_with("a.md"));
    let before = disk.read("/vault/notes/a.md");
    assert!(!before.contains("priority"));

    // execute() applies the change
    let exec_report = disk.update(builder);
    assert_eq!(exec_report.changes.len(), 1);
    let after = disk.read("/vault/notes/a.md");
    assert!(after.contains("priority"));
    // b.md was NOT touched (its status is pending, doesn't match the filter)
    let b_after = disk.read("/vault/notes/b.md");
    assert!(!b_after.contains("priority"));
}

#[test]
fn write_options_fsync_propagates_through_update_builder() {
    // We can't easily test that fsync was actually called (no kernel
    // hook from user space), but we can test that:
    // 1. The fsync(true) builder method round-trips through to
    //    write_options.fsync = true.
    // 2. An update with fsync(true) still produces correct content
    //    on disk.
    // 3. WriteOptions::durable() is a shorthand for { fsync: true }.

    // 1. The fluent API.
    let f1 = Expr::Predicate(Predicate::Equals {
        field: "x".into(),
        value: Value::Integer(1),
    });
    let b = UpdateBuilder::new("notes", f1).fsync(true);
    assert!(b.write_options.fsync);

    let f2 = Expr::Predicate(Predicate::Equals {
        field: "x".into(),
        value: Value::Integer(1),
    });
    let b =
        UpdateBuilder::new("notes", f2).write_options(WriteOptions::durable());
    assert!(b.write_options.fsync);

    // 2. Real execute with fsync=true still produces correct content.
    let mut disk = Disk::new();
    disk.folder("/vault/notes");
    disk.file("/vault/notes/durable.md", "---\nstatus: active\n---\nBody.\n");

    let f3 = Expr::Predicate(Predicate::Equals {
        field: "status".into(),
        value: Value::String("active".into()),
    });
    let report = disk.update(UpdateBuilder::new("notes", f3)
        .set("priority", Value::Integer(99))
        .fsync(true));
    assert_eq!(report.changes.len(), 1);
    assert_eq!(report.errors.len(), 0);

    let after = disk.read("/vault/notes/durable.md");
    assert!(after.contains("priority: 99"));
    assert!(after.contains("status: active"));
}

#[test]
fn rename_clean_run_leaves_no_journal_behind() {
    // Successful rename writes a journal then deletes it. After the
    // call, the journal directory should be empty (or absent).
    let mut disk = Disk::new();
    disk.folder("/vault/notes");
    disk.file("/vault/notes/old.md", "---\nstatus: x\n---\nBody\n");
    disk.file("/vault/notes/source.md", "---\nstatus: y\n---\nLinks to [[old]].\n");

    disk.rename(RenameBuilder::new("notes", "old", "new"));

    let pending = disk.pending();
    assert!(
        pending.is_empty(),
        "successful rename must not leave journals behind: {:?}",
        pending
    );
}

#[test]
fn rename_recovers_from_pre_existing_journal() {
    // Simulate a crashed rename by hand-writing a journal that points
    // at an unrenamed source file with stale backlinks. Vault::recover
    // should pick it up and complete the work.
    let mut disk = Disk::new();
    disk.folder("/vault/notes");
    let source = "/vault/notes/Stanford.md";
    let dest = "/vault/notes/Stanford University.md";
    let backlink = "/vault/notes/Application.md";
    disk.file(source, "---\nkind: university\n---\nMain note.\n");
    disk.file(backlink, "---\nkind: application\n---\nApplied to [[Stanford]].\n");

    // Plant a journal as if a previous rename had crashed mid-flight.
    let journal = RenameJournal {
        source: source.into(),
        dest: dest.into(),
        from_name: "Stanford".into(),
        to_name: "Stanford University".into(),
        backlinks: vec![backlink.into()],
    };
    disk.plant(journal);

    let recovered = disk.recover();
    assert_eq!(recovered, 1, "expected exactly one journal replayed");

    // Source renamed, backlink rewritten, journal gone.
    assert!(!disk.has(source));
    assert!(disk.has(dest));
    let backlink_content = disk.read(backlink);
    assert!(backlink_content.contains("[[Stanford University]]"));
    assert!(!backlink_content.contains("[[Stanford]]"));
    assert!(disk.pending().is_empty());
}

#[test]
fn rename_replays_pending_journal_before_starting_new_rename() {
    // A pending journal from a previous crashed rename must be
    // replayed before the next mutation starts. Otherwise we'd be
    // operating on a stale view of the vault.
    let mut disk = Disk::new();
    disk.folder("/vault/notes");

    // Pre-existing files: A.md (will be renamed to B.md by the
    // pending journal), and C.md (will be renamed to D.md by the
    // new RenameBuilder call).
    let a = "/vault/notes/A.md";
    let b = "/vault/notes/B.md";
    let c = "/vault/notes/C.md";
    let d = "/vault/notes/D.md";
    disk.file(a, "---\n---\nA body.\n");
    disk.file(c, "---\n---\nC body.\n");

    // Plant a pending journal that says "rename A -> B".
    disk.plant(RenameJournal {
            source: a.into(),
            dest: b.into(),
            from_name: "A".into(),
            to_name: "B".into(),
            backlinks: vec![],
        });

    // Now call execute() on a separate rename C -> D.
    disk.rename(RenameBuilder::new("notes", "C", "D"));

    // BOTH renames must have completed: the journal-replay before the
    // new rename did A -> B, and the new RenameBuilder did C -> D.
    assert!(!disk.has(a), "A.md should be gone (replayed journal)");
    assert!(disk.has(b), "B.md should exist (replayed journal)");
    assert!(!disk.has(c), "C.md should be gone (new rename)");
    assert!(disk.has(d), "D.md should exist (new rename)");

    // No leftover journals.
    assert!(disk.pending().is_empty());
}

// ── Creating ───

fn movie_schema() -> CollectionSchema {
    let mut fields = vec![];
    fields.push((
        "db-table".into(),
        FieldSchema {
            field_type: "string".into(),
            enum_values: vec![Value::String("movie".into())],
            min: None,
            max: None,
            default: Some(Value::String("movie".into())),
            default_expr: None,
        },
    ));
    fields.push((
        "status".into(),
        FieldSchema {
            field_type: "string".into(),
            enum_values: vec![
                Value::String("to-watch".into()),
                Value::String("watched".into()),
            ],
            min: None,
            max: None,
            default: Some(Value::String("to-watch".into())),
            default_expr: None,
        },
    ));
    fields.push((
        "director".into(),
        FieldSchema {
            field_type: "string".into(),
            enum_values: vec![],
            min: None,
            max: None,
            default: None,
            default_expr: None,
        },
    ));
    fields.push((
        "year".into(),
        FieldSchema {
            field_type: "integer".into(),
            enum_values: vec![],
            min: None,
            max: None,
            default: None,
            default_expr: None,
        },
    ));
    CollectionSchema {
        description: None,
        folder: "Notes/movie".into(),
        filter: vec![],
        required: vec![
            "db-table".into(),
            "director".into(),
            "status".into(),
            "year".into(),
        ],
        fields,
    }
}

#[test]
fn create_without_schema_writes_minimal_file() {
    let mut disk = Disk::new();
    let report = disk.create(CreateBuilder::new("Notes/movie", "Dune"));
    assert_eq!(report.errors.len(), 0);
    assert_eq!(report.changes.len(), 1);
    let written = "/vault/Notes/movie/Dune.md";
    assert!(disk.has(written));
    let content = disk.read(written);
    // Empty frontmatter + "# Dune" body.
    assert!(content.contains("---\n---"));
    assert!(content.contains("# Dune"));
}

#[test]
fn create_with_set_writes_typed_frontmatter() {
    let mut disk = Disk::new();
    disk.create(CreateBuilder::new("Notes/movie", "Dune")
        .set("director", Value::String("Denis Villeneuve".into()))
        .set("year", Value::Integer(2021)));
    let content = disk.read("/vault/Notes/movie/Dune.md");
    assert!(content.contains("director: Denis Villeneuve"));
    // YAML int rendering — no quotes.
    assert!(content.contains("year: 2021"));
}

#[test]
fn create_fills_schema_defaults() {
    let mut disk = Disk::new();
    disk.create(CreateBuilder::new("Notes/movie", "Dune")
        .with_schema(movie_schema())
        .set("director", Value::String("Denis Villeneuve".into()))
        .set("year", Value::Integer(2021)));
    let content = disk.read("/vault/Notes/movie/Dune.md");
    // Defaults applied.
    assert!(content.contains("db-table: movie"));
    assert!(content.contains("status: to-watch"));
    // User-supplied values preserved.
    assert!(content.contains("director: Denis Villeneuve"));
    assert!(content.contains("year: 2021"));
}

#[test]
fn create_set_overrides_default() {
    let mut disk = Disk::new();
    disk.create(CreateBuilder::new("Notes/movie", "Watched")
        .with_schema(movie_schema())
        .set("director", Value::String("X".into()))
        .set("year", Value::Integer(2020))
        .set("status", Value::String("watched".into())));
    let content = disk.read("/vault/Notes/movie/Watched.md");
    assert!(content.contains("status: watched"));
    assert!(!content.contains("status: to-watch"));
}

#[test]
fn create_rejects_missing_required_before_writing() {
    let mut disk = Disk::new();
    // No director / year → required check should fail.
    let report = disk.create(CreateBuilder::new("Notes/movie", "Blank")
        .with_schema(movie_schema()));
    assert!(!report.errors.is_empty());
    assert!(report.errors.iter().any(|e| e.message.contains("director")));
    assert!(report.errors.iter().any(|e| e.message.contains("year")));
    // File must NOT have been written.
    assert!(!disk.has("/vault/Notes/movie/Blank.md"));
}

#[test]
fn create_rejects_existing_file() {
    let mut disk = Disk::new();
    disk.folder("/vault/Notes/movie");
    disk.file("/vault/Notes/movie/Dune.md", "existing\n");
    let report = disk.create(CreateBuilder::new("Notes/movie", "Dune"));
    assert_eq!(report.errors.len(), 1);
    assert!(report.errors[0].message.contains("already exists"));
    // Original file preserved.
    let content = disk.read("/vault/Notes/movie/Dune.md");
    assert_eq!(content, "existing\n");
}

#[test]
fn create_resolves_default_expr_today() {
    let mut disk = Disk::new();
    let mut fields = vec![];
    fields.push((
        "due".into(),
        FieldSchema {
            field_type: "date".into(),
            enum_values: vec![],
            min: None,
            max: None,
            default: None,
            default_expr: Some("today".into()),
        },
    ));
    let schema = CollectionSchema {
        description: None,
        folder: "tasks".into(),
        filter: vec![],
        required: vec![],
        fields,
    };
    disk.create(CreateBuilder::new("tasks", "t1")
        .with_schema(schema));
    let content = disk.read("/vault/tasks/t1.md");
    let today = "2024-05-13";
    assert!(
        content.contains(&format!("due: {}", today)),
        "expected due={} in: {}",
        today,
        content
    );
}

#[test]
fn create_plan_does_not_touch_disk() {
    let mut disk = Disk::new();
    let (report, content) = CreateBuilder::new("Notes/movie", "Dune")
        .with_schema(movie_schema())
        .set("director", Value::String("DV".into()))
        .set("year", Value::Integer(2021))
        .plan_with_content(&disk.vault(), &disk.tree, NOW)
        .unwrap();
    assert_eq!(report.errors.len(), 0);
    assert_eq!(report.changes.len(), 1);
    assert!(!disk.has("/vault/Notes/movie/Dune.md"));
    let c = content.unwrap();
    assert!(c.contains("director: DV"));
    assert!(c.contains("db-table: movie")); // default applied even in plan
}

#[test]
fn create_from_template_preserves_body_and_merges_frontmatter() {
    let mut disk = Disk::new();
    disk.folder("/vault/templates");
    disk.file("/vault/templates/movie.md", "---\nstatus: to-watch\naliases: []\n---\n\n# Title\n\nReview goes here.\n");
    disk.create(CreateBuilder::new("Notes/movie", "Dune")
        .template("templates/movie.md")
        .set("year", Value::Integer(2021)));
    let content = disk.read("/vault/Notes/movie/Dune.md");
    // Template field preserved.
    assert!(content.contains("status: to-watch"));
    // --set added.
    assert!(content.contains("year: 2021"));
    // Body preserved.
    assert!(content.contains("Review goes here"));
}

// ── Schemas ───

fn vault_schema_movies() -> VaultSchema {
    VaultSchema {
        collections: vec![("movies".into(), movie_schema())],
    }
}

fn vault_schema_catchall_and_movies() -> VaultSchema {
    // A `Notes` catch-all (folder is
    // an ancestor of every subcollection, no filter) + `movies`
    // (folder Notes/movie, filter db-table = movie).
    let mut collections = vec![];

    let mut catchall_fields = vec![];
    catchall_fields.push((
        "db-table".into(),
        FieldSchema {
            field_type: "string".into(),
            enum_values: vec![Value::String("movie".into()), Value::String("book".into())],
            min: None,
            max: None,
            default: None,
            default_expr: None,
        },
    ));
    collections.push((
        "Notes".into(),
        CollectionSchema {
            description: None,
            folder: "Notes".into(),
            filter: vec![],
            required: vec!["db-table".into()],
            fields: catchall_fields,
        },
    ));
    collections.push(("movies".into(), {
        let mut m = movie_schema();
        m.filter = vec!["db-table = movie".into()];
        m
    }));

    VaultSchema { collections }
}

#[test]
fn update_rejects_type_mismatch() {
    let mut disk = Disk::new();
    disk.folder("/vault/Notes/movie");
    disk.file("/vault/Notes/movie/Dune.md", "---\ndb-table: movie\ndirector: DV\nstatus: to-watch\nyear: 2021\n---\nBody\n");

    let filter = Expr::Predicate(Predicate::Equals {
        field: "director".into(),
        value: Value::String("DV".into()),
    });
    let report = disk.update(UpdateBuilder::new("Notes/movie", filter)
        .set("year", Value::String("nope".into()))
        .with_vault_schema(vault_schema_movies()));

    assert!(report.changes.is_empty(), "no write should be reported");
    assert!(
        report
            .errors
            .iter()
            .any(|e| e.message.contains("year") && e.message.contains("integer")),
        "expected year/integer type-mismatch error, got: {:?}",
        report.errors
    );
    // File on disk is unchanged.
    let content = disk.read("/vault/Notes/movie/Dune.md");
    assert!(content.contains("year: 2021"));
    assert!(!content.contains("year: nope"));
}

#[test]
fn update_rejects_enum_violation() {
    let mut disk = Disk::new();
    disk.folder("/vault/Notes/movie");
    disk.file("/vault/Notes/movie/Dune.md", "---\ndb-table: movie\ndirector: DV\nstatus: to-watch\nyear: 2021\n---\n");

    let filter = Expr::Predicate(Predicate::Equals {
        field: "director".into(),
        value: Value::String("DV".into()),
    });
    let report = disk.update(UpdateBuilder::new("Notes/movie", filter)
        .set("status", Value::String("watching".into()))
        .with_vault_schema(vault_schema_movies()));

    assert!(report.changes.is_empty());
    assert!(
        report
            .errors
            .iter()
            .any(|e| e.message.contains("status") && e.message.contains("watching")),
        "expected status enum violation, got: {:?}",
        report.errors
    );
}

#[test]
fn update_passes_when_unconstrained_field_changes() {
    // Schema doesn't declare `notes-to-self`; setting it should be
    // allowed without complaint. The other required/typed fields
    // must already be valid for the post-state to pass strict mode.
    let mut disk = Disk::new();
    disk.folder("/vault/Notes/movie");
    disk.file("/vault/Notes/movie/Dune.md", "---\ndb-table: movie\ndirector: DV\nstatus: to-watch\nyear: 2021\n---\n");

    let filter = Expr::Predicate(Predicate::Equals {
        field: "director".into(),
        value: Value::String("DV".into()),
    });
    let report = disk.update(UpdateBuilder::new("Notes/movie", filter)
        .set("notes-to-self", Value::String("rewatch".into()))
        .with_vault_schema(vault_schema_movies()));
    assert!(
        report.errors.is_empty(),
        "no errors expected, got: {:?}",
        report.errors
    );
    assert_eq!(report.changes.len(), 1);
    let content = disk.read("/vault/Notes/movie/Dune.md");
    assert!(content.contains("notes-to-self: rewatch"));
}

#[test]
fn update_surfaces_preexisting_violation() {
    // Strict mode (chosen explicitly): a file already missing a
    // required field is unwritable through vaultdb until the field
    // is supplied — even if the user's update touches a totally
    // unrelated field.
    let mut disk = Disk::new();
    disk.folder("/vault/Notes/movie");
    disk.file("/vault/Notes/movie/Old.md", "---\ndb-table: movie\nstatus: to-watch\nyear: 2021\n---\n");

    let filter = Expr::Predicate(Predicate::Equals {
        field: "db-table".into(),
        value: Value::String("movie".into()),
    });
    let report = disk.update(UpdateBuilder::new("Notes/movie", filter)
        .set("year", Value::Integer(2022))
        .with_vault_schema(vault_schema_movies()));
    assert!(
        report.errors.iter().any(|e| e.message.contains("director")),
        "expected pre-existing required-field violation, got: {:?}",
        report.errors
    );
    // File untouched.
    let content = disk.read("/vault/Notes/movie/Old.md");
    assert!(content.contains("year: 2021"));
}

#[test]
fn update_skips_one_blocks_one_in_batch() {
    // Two matched records: one update is valid (year change within
    // range), the other (also matched) wasn't even attempted but
    // demonstrates per-record isolation by being in a separate test
    // alongside. Real per-record skip-vs-write batching covered by
    // this scenario: matched records both processed; valid one
    // writes, invalid one errors.
    let mut disk = Disk::new();
    disk.folder("/vault/Notes/movie");
    disk.file("/vault/Notes/movie/Good.md", "---\ndb-table: movie\ndirector: A\nstatus: to-watch\nyear: 2021\n---\n");
    disk.file("/vault/Notes/movie/Bad.md", "---\ndb-table: movie\nstatus: to-watch\nyear: 2021\n---\n");

    let filter = Expr::Predicate(Predicate::Equals {
        field: "db-table".into(),
        value: Value::String("movie".into()),
    });
    let report = disk.update(UpdateBuilder::new("Notes/movie", filter)
        .set("year", Value::Integer(2022))
        .with_vault_schema(vault_schema_movies()));
    assert_eq!(report.changes.len(), 1, "exactly one record should write");
    assert!(report.changes[0].path.ends_with("Good.md"));
    assert!(report.errors.iter().any(|e| e.path.ends_with("Bad.md")));
    // Disk: Good updated, Bad untouched.
    assert!(
        disk.read("/vault/Notes/movie/Good.md")
            .contains("year: 2022")
    );
    assert!(
        disk.read("/vault/Notes/movie/Bad.md")
            .contains("year: 2021")
    );
}

#[test]
fn update_validates_against_catchall_and_subfolder() {
    // The `Notes` catch-all requires `db-table`; `movies`
    // additionally requires director, year. A movie record at
    // Notes/movie/ activates BOTH. Unsetting db-table fails the
    // catch-all; the test confirms the catch-all is actually
    // evaluated for sub-folder records.
    let mut disk = Disk::new();
    disk.folder("/vault/Notes/movie");
    disk.file("/vault/Notes/movie/Dune.md", "---\ndb-table: movie\ndirector: DV\nstatus: to-watch\nyear: 2021\n---\n");

    let filter = Expr::Predicate(Predicate::Equals {
        field: "director".into(),
        value: Value::String("DV".into()),
    });
    let report = disk.update(UpdateBuilder::new("Notes/movie", filter)
        .unset("db-table")
        .with_vault_schema(vault_schema_catchall_and_movies()));

    // db-table being unset removes the `movies` filter match too,
    // so only the catch-all still applies — and the catch-all
    // requires db-table. So we get a required-field error from the
    // catch-all (proving it was evaluated).
    assert!(report.changes.is_empty());
    assert!(
        report.errors.iter().any(|e| e.message.contains("db-table")),
        "expected db-table missing error from catch-all, got: {:?}",
        report.errors
    );
}

#[test]
fn create_rejects_type_mismatch() {
    let mut disk = Disk::new();
    let report = disk.create(CreateBuilder::new("Notes/movie", "Dune")
        .with_vault_schema(vault_schema_movies())
        .set("director", Value::String("DV".into()))
        .set("year", Value::String("not-a-year".into())));
    assert!(
        report
            .errors
            .iter()
            .any(|e| e.message.contains("year") && e.message.contains("integer")),
        "expected year/integer type error, got: {:?}",
        report.errors
    );
    assert!(!disk.has("/vault/Notes/movie/Dune.md"));
}

#[test]
fn create_validates_against_multiple_applicable_collections() {
    // Creating a movie note: both `Notes` catch-all and `movies`
    // apply. Required: db-table (both), director + year (movies).
    // Set only db-table → catch-all passes, movies fails on
    // missing director + year.
    let mut disk = Disk::new();
    let report = disk.create(CreateBuilder::new("Notes/movie", "X")
        .with_vault_schema(vault_schema_catchall_and_movies())
        .set("db-table", Value::String("movie".into())));
    assert!(report.errors.iter().any(|e| e.message.contains("director")));
    assert!(report.errors.iter().any(|e| e.message.contains("year")));
    assert!(!disk.has("/vault/Notes/movie/X.md"));
}

// ── More of the same ───

fn all() -> Expr {
    Expr::parse("_name exists").unwrap()
}

#[test]
fn a_rename_reaches_notes_of_one_name_and_the_note_itself() {
    let mut disk = Disk::new();
    disk.folder("/vault/a");
    disk.folder("/vault/b");
    disk.file("/vault/a/old.md", "Me: [[old]].\n");
    disk.file("/vault/a/twin.md", "See [[old]].\n");
    disk.file("/vault/b/twin.md", "See [[old|it]].\n");
    let report = disk.rename(RenameBuilder::new("a", "old", "new"));
    assert_eq!(report.errors, vec![]);
    assert_eq!(report.changes.len(), 4);
    assert_eq!(disk.read("/vault/a/new.md"), "Me: [[new]].\n");
    assert_eq!(disk.read("/vault/a/twin.md"), "See [[new]].\n");
    assert_eq!(disk.read("/vault/b/twin.md"), "See [[new|it]].\n");
    assert!(disk.pending().is_empty());
}

#[test]
fn a_rename_that_fails_halfway_keeps_its_journal() {
    let mut disk = Disk::new();
    disk.folder("/vault/notes");
    disk.file("/vault/notes/old.md", "Body\n");
    disk.file("/vault/notes/source.md", "Links to [[old]].\n");
    disk.broken = Some("/vault/notes/source.md".into());
    let report = disk.rename(RenameBuilder::new("notes", "old", "new"));
    assert_eq!(report.errors.len(), 1);
    assert_eq!(report.errors[0].message, "write failed: disk full");
    assert_eq!(disk.pending().len(), 1);
    disk.broken = None;
    assert_eq!(disk.recover(), 1);
    assert_eq!(disk.read("/vault/notes/source.md"), "Links to [[new]].\n");
    assert!(disk.pending().is_empty());
    assert_eq!(disk.recover(), 0);
}

#[test]
fn a_durable_rename_syncs_the_folder() {
    let mut disk = Disk::new();
    disk.folder("/vault/notes");
    disk.file("/vault/notes/old.md", "Body\n");
    disk.rename(RenameBuilder::new("notes", "old", "new").fsync(true));
    assert_eq!(disk.synced, vec!["/vault/notes"]);
}

#[test]
fn a_deleted_note_does_not_land_on_another() {
    let mut disk = Disk::new();
    disk.folder("/vault/notes");
    disk.folder("/vault/.trash");
    disk.file("/vault/.trash/a.md", "older\n");
    disk.file("/vault/.trash/a-1.md", "old\n");
    disk.file("/vault/notes/a.md", "new\n");
    disk.delete(DeleteBuilder::new("notes", all()));
    assert_eq!(disk.read("/vault/.trash/a.md"), "older\n");
    assert_eq!(disk.read("/vault/.trash/a-1.md"), "old\n");
    assert_eq!(disk.read("/vault/.trash/a-2.md"), "new\n");
}

#[test]
fn a_move_onto_another_note_is_a_conflict() {
    let mut disk = Disk::new();
    disk.folder("/vault/notes");
    disk.folder("/vault/archive");
    disk.file("/vault/archive/a.md", "there\n");
    disk.file("/vault/notes/a.md", "here\n");
    let report = disk.relocate(MoveBuilder::new("notes", "archive", all()));
    assert_eq!(report.changes, vec![]);
    assert!(report.errors[0].message.contains("move conflict"));
    assert_eq!(disk.read("/vault/archive/a.md"), "there\n");
    assert_eq!(disk.read("/vault/notes/a.md"), "here\n");
}

#[test]
fn a_missing_folder_is_an_error() {
    let disk = Disk::new();
    let r = UpdateBuilder::new("nowhere", all()).plan(&disk.vault(), &disk.tree);
    assert!(r.is_err());
}

#[test]
fn a_template_that_is_not_there_is_reported() {
    let mut disk = Disk::new();
    let report = disk.create(CreateBuilder::new("notes", "x").template("templates/none.md"));
    assert!(report.errors[0].message.contains("template not found"));
    assert!(!disk.has("/vault/notes/x.md"));
}

#[test]
fn a_run_changes_what_it_reports_and_nothing_else() {
    let mut disk = Disk::new();
    disk.folder("/vault/notes");
    disk.file("/vault/notes/a.md", "---\nstatus: open\n---\nSee [[b]].\n");
    disk.file("/vault/notes/b.md", "---\nstatus: done\n---\nB.\n");
    disk.file("/vault/notes/c.md", "---\nstatus: open\n---\nC.\n");
    let open = || Expr::parse("status = open").unwrap();
    let plan = UpdateBuilder::new("notes", open())
        .set("year", Value::Integer(1999))
        .plan(&disk.vault(), &disk.tree)
        .unwrap();
    let before_b = disk.read("/vault/notes/b.md");
    assert!(!disk.read("/vault/notes/a.md").contains("1999"));
    let report = disk.update(UpdateBuilder::new("notes", open()).set("year", Value::Integer(1999)));
    assert_eq!(report, plan);
    let changed: Vec<&str> = report.changes.iter().map(|c| c.path.as_str()).collect();
    assert_eq!(changed, vec!["/vault/notes/a.md", "/vault/notes/c.md"]);
    assert_eq!(
        disk.read("/vault/notes/a.md"),
        "---\nstatus: open\nyear: 1999\n---\nSee [[b]].\n"
    );
    assert_eq!(disk.read("/vault/notes/b.md"), before_b);

    let before_c = disk.read("/vault/notes/c.md");
    disk.rename(RenameBuilder::new("notes", "b", "d"));
    assert!(!disk.has("/vault/notes/b.md"));
    assert_eq!(disk.read("/vault/notes/d.md"), before_b);
    assert!(disk.read("/vault/notes/a.md").ends_with("See [[d]].\n"));
    assert_eq!(disk.read("/vault/notes/c.md"), before_c);
    assert!(disk.pending().is_empty());

    disk.delete(DeleteBuilder::new("notes", open()));
    assert_eq!(disk.read("/vault/.trash/c.md"), before_c);
    assert!(disk.has("/vault/.trash/a.md") && !disk.has("/vault/notes/a.md"));
    assert_eq!(disk.read("/vault/notes/d.md"), before_b);
}

#[test]
fn notes_of_one_name_are_not_moved_onto_each_other() {
    let mut disk = Disk::new();
    disk.folder("/vault/notes");
    disk.folder("/vault/notes/sub");
    disk.file("/vault/notes/a.md", "---\nk: 1\n---\nfirst\n");
    disk.file("/vault/notes/sub/a.md", "---\nk: 1\n---\nsecond\n");
    let report = disk.relocate(MoveBuilder::new("notes", "done", Expr::parse("k = 1").unwrap()).recursive(true));
    assert_eq!(report.changes.len(), 1);
    assert_eq!(report.errors.len(), 1);
    assert!(report.errors[0].message.contains("move conflict: a.md already exists in done"));
    assert!(disk.read("/vault/done/a.md").ends_with("first\n"));
    assert!(disk.read("/vault/notes/sub/a.md").ends_with("second\n"));
}
