//! Replaying the journals of renames.

use std::collections::BTreeMap;
use vaultdb::journal::{
    journal_dir, journal_path, list_pending, lock_path, replay_all, rewrite_wikilinks, unreadable_journal,
    RenameJournal, ReplayRun,
};
use vaultdb::error::VaultdbError;
use vaultdb::mutation::relocate::{Action, Outcome};

/// Files and journals by path.
struct Disk {
    files: BTreeMap<String, String>,
    journals: BTreeMap<String, RenameJournal>,
}

fn make_vault() -> Disk {
    Disk {
        files: BTreeMap::new(),
        journals: BTreeMap::new(),
    }
}

fn rename(source: &str, dest: &str, from: &str, to: &str, backlinks: &[&str]) -> RenameJournal {
    RenameJournal {
        source: source.into(),
        dest: dest.into(),
        from_name: from.into(),
        to_name: to.into(),
        backlinks: backlinks.iter().map(|p| p.to_string()).collect(),
    }
}

impl Disk {
    fn write_md(&mut self, path: &str, content: &str) {
        self.files.insert(path.into(), content.into());
    }

    fn write(&mut self, journal: RenameJournal) -> String {
        let path = journal_path("/vault", self.journals.len() as u64);
        self.journals.insert(path.clone(), journal);
        path
    }

    fn list_pending(&self) -> Vec<String> {
        list_pending(&self.journals.keys().cloned().collect())
    }

    fn perform(&mut self, action: Action, journal: &str) -> Outcome {
        match action {
            Action::MoveFile { from, to } => match self.files.remove(&from) {
                Some(text) => {
                    self.files.insert(to, text);
                    Outcome::Done
                }
                None => Outcome::Missing,
            },
            Action::ReadFile(p) => match self.files.get(&p) {
                Some(text) => Outcome::Text(text.clone()),
                None => Outcome::Missing,
            },
            Action::WriteFile { path, content } => {
                self.files.insert(path, content);
                Outcome::Done
            }
            Action::DropJournal => {
                self.journals.remove(journal);
                Outcome::Done
            }
            other => panic!("unexpected {:?}", other),
        }
    }

    fn replay(&mut self, path: &str) -> Option<VaultdbError> {
        let j = &self.journals[path];
        let backlinks: Vec<&str> = j.backlinks.iter().map(|p| p.as_str()).collect();
        let mut run = ReplayRun::new(
            rename(&j.source, &j.dest, &j.from_name, &j.to_name, &backlinks),
            self.files.contains_key(&j.source),
            self.files.contains_key(&j.dest),
        );
        while let Some(action) = run.next() {
            let outcome = self.perform(action, path);
            run.done(&outcome);
        }
        run.finish()
    }

    fn replay_all(&mut self) -> usize {
        let mut recovery = replay_all(&self.journals.keys().cloned().collect());
        while let Some(path) = recovery.next() {
            let path = path.to_string();
            let failure = self.replay(&path);
            recovery.done(failure);
        }
        recovery.finish().unwrap()
    }
}

#[test]
fn write_and_list_journal() {
    let mut disk = make_vault();
    let path = disk.write(rename(
        "/vault/notes/old.md",
        "/vault/notes/new.md",
        "old",
        "new",
        &["/vault/notes/other.md"],
    ));
    let pending = disk.list_pending();
    assert_eq!(pending.len(), 1);
    assert_eq!(pending[0], path);
}

#[test]
fn replay_state_a_renames_then_rewrites() {
    // The note is at its old place.
    let mut disk = make_vault();
    let source = "/vault/notes/Stanford.md";
    let dest = "/vault/notes/Stanford University.md";
    let other = "/vault/notes/Application.md";
    disk.write_md(source, "---\nstatus: active\n---\nMain note.\n");
    disk.write_md(
        other,
        "---\nrelated:\n  - \"[[Stanford]]\"\n---\nApplied to [[Stanford]] last week.\n",
    );
    let path = disk.write(rename(source, dest, "Stanford", "Stanford University", &[other]));
    assert_eq!(disk.replay(&path), None);

    assert!(!disk.files.contains_key(source));
    assert!(disk.files.contains_key(dest));
    assert!(disk.files[other].contains("[[Stanford University]]"));
    assert!(!disk.files[other].contains("[[Stanford]]"));
    assert!(!disk.journals.contains_key(&path));
}

#[test]
fn replay_state_b_finishes_partial_backlink_rewrites() {
    // The note has moved, and one file still has the old name.
    let mut disk = make_vault();
    let source = "/vault/notes/Stanford.md";
    let dest = "/vault/notes/Stanford University.md";
    let already = "/vault/notes/AlreadyRewritten.md";
    let pending = "/vault/notes/StillOldName.md";
    disk.write_md(dest, "---\n---\nMain note.\n");
    disk.write_md(already, "Sees [[Stanford University]] only.\n");
    disk.write_md(pending, "Sees [[Stanford]] and needs rewriting.\n");
    let path = disk.write(rename(
        source,
        dest,
        "Stanford",
        "Stanford University",
        &[already, pending],
    ));
    assert_eq!(disk.replay(&path), None);

    assert_eq!(disk.files[already], "Sees [[Stanford University]] only.\n");
    assert!(disk.files[pending].contains("[[Stanford University]]"));
    assert!(!disk.files[pending].contains("[[Stanford]] "));
    assert!(!disk.journals.contains_key(&path));
}

#[test]
fn replay_state_c_stale_journal_is_cleaned() {
    // The note is nowhere.
    let mut disk = make_vault();
    let path = disk.write(rename(
        "/vault/notes/Gone.md",
        "/vault/notes/AlsoGone.md",
        "Gone",
        "AlsoGone",
        &[],
    ));
    assert_eq!(disk.replay(&path), None);
    assert!(!disk.journals.contains_key(&path));
}

#[test]
fn replay_state_d_leaves_both_files() {
    // Something else is at the new place.
    let mut disk = make_vault();
    disk.write_md("/vault/a.md", "old\n");
    disk.write_md("/vault/b.md", "other\n");
    disk.write_md("/vault/c.md", "[[a]]\n");
    let path = disk.write(rename("/vault/a.md", "/vault/b.md", "a", "b", &["/vault/c.md"]));
    assert_eq!(disk.replay(&path), None);
    assert_eq!(disk.files["/vault/a.md"], "old\n");
    assert_eq!(disk.files["/vault/b.md"], "other\n");
    assert_eq!(disk.files["/vault/c.md"], "[[b]]\n");
}

#[test]
fn replay_skips_files_that_are_gone() {
    let mut disk = make_vault();
    disk.write_md("/vault/a.md", "x\n");
    let path = disk.write(rename("/vault/a.md", "/vault/b.md", "a", "b", &["/vault/gone.md"]));
    assert_eq!(disk.replay(&path), None);
    assert!(!disk.journals.contains_key(&path));
}

#[test]
fn replay_is_idempotent_when_called_twice() {
    let mut disk = make_vault();
    disk.write_md("/vault/notes/X.md", "Body.\n");
    disk.write(rename("/vault/notes/X.md", "/vault/notes/Y.md", "X", "Y", &[]));
    let n1 = disk.replay_all();
    let n2 = disk.replay_all();
    assert_eq!(n1, 1);
    assert_eq!(n2, 0);
    assert!(disk.files.contains_key("/vault/notes/Y.md"));
}

#[test]
fn replay_all_processes_multiple_journals_in_order() {
    let mut disk = make_vault();
    let (a, b, c) = ("/vault/notes/A.md", "/vault/notes/B.md", "/vault/notes/C.md");
    disk.write_md(a, "Body.\n");
    disk.write(rename(a, b, "A", "B", &[]));
    disk.write(rename(b, c, "B", "C", &[]));
    assert_eq!(disk.replay_all(), 2);
    assert!(!disk.files.contains_key(a));
    assert!(!disk.files.contains_key(b));
    assert!(disk.files.contains_key(c), "expected final state to be C");
}

#[test]
fn journals_are_listed_oldest_first() {
    let paths = vec![
        journal_path("/vault", 7),
        "/vault/.vaultdb/rename-journal/notes.txt".into(),
        journal_path("/vault", 3),
    ];
    assert_eq!(
        list_pending(&paths),
        vec![journal_path("/vault", 3), journal_path("/vault", 7)]
    );
    assert_eq!(journal_dir("/vault"), "/vault/.vaultdb/rename-journal");
    assert_eq!(lock_path("/vault"), "/vault/.vaultdb/lock");
}

#[test]
fn a_failed_replay_ends_the_recovery() {
    let paths = vec![journal_path("/vault", 1), journal_path("/vault", 2)];
    let mut recovery = replay_all(&paths);
    assert_eq!(recovery.next(), Some(paths[0].as_str()));
    recovery.done(None);
    assert_eq!(recovery.next(), Some(paths[1].as_str()));
    recovery.done(Some(unreadable_journal(&paths[1], "bad")));
    assert_eq!(recovery.next(), None);
    let err = recovery.finish().unwrap_err();
    assert!(matches!(err, VaultdbError::Internal(_)));
    assert!(err.to_string().contains("parse rename journal"));
}

#[test]
fn rewriting_links_twice_changes_nothing_more() {
    let text = "[[old]] [[old|x]] [[old#s]] [[older]]";
    let once = rewrite_wikilinks(text, "old", "new");
    assert_eq!(once, "[[new]] [[new|x]] [[new#s]] [[older]]");
    assert_eq!(rewrite_wikilinks(&once, "old", "new"), once);
}

#[test]
fn a_recovery_leaves_nothing_for_a_second() {
    let mut disk = make_vault();
    disk.write_md("/vault/notes/A.md", "Main, see [[A]].\n");
    disk.write_md("/vault/notes/Z.md", "See [[A]] and [[Q]].\n");
    disk.write(rename(
        "/vault/notes/A.md",
        "/vault/notes/B.md",
        "A",
        "B",
        &["/vault/notes/B.md", "/vault/notes/Z.md", "/vault/notes/gone.md"],
    ));
    disk.write(rename("/vault/notes/X.md", "/vault/notes/Y.md", "X", "Y", &[]));
    assert_eq!(disk.replay_all(), 2);
    assert!(disk.list_pending().is_empty());
    let after = disk.files.clone();
    assert_eq!(after["/vault/notes/B.md"], "Main, see [[B]].\n");
    assert_eq!(after["/vault/notes/Z.md"], "See [[B]] and [[Q]].\n");
    assert_eq!(after.len(), 2);
    assert_eq!(disk.replay_all(), 0);
    assert_eq!(disk.files, after);
}

#[test]
fn a_file_that_is_rewritten_twice_hinders_no_recovery() {
    let mut disk = make_vault();
    disk.write_md("/vault/a.md", "x\n");
    disk.write_md("/vault/c.md", "[[a]]\n");
    disk.write(rename("/vault/a.md", "/vault/b.md", "a", "b]] [[a", &["/vault/c.md", "/vault/c.md"]));
    disk.write(rename("/vault/p.md", "/vault/q.md", "p", "q", &[]));
    assert_eq!(disk.replay_all(), 2);
    assert!(disk.list_pending().is_empty());
    assert_eq!(disk.replay_all(), 0);
}
