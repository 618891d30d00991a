//! Renaming a note, with the links to it.

use crate::error::{Failure, VaultdbError};
use crate::journal::{rewrite_wikilinks, rewritten, Journal, RenameJournal};
use crate::links::laws::{law_edge_is_source, law_graph_edges, links_between};
use crate::links::{extract_links, graph_of, links_of, sources, LinkGraph};
use crate::mutation::relocate::{
    deed_view, failure_of, insert_parent, read_failure, with_parent, Action, Came, Deed, Outcome,
};
use crate::mutation::{
    changes_view, errors_view, push_change, push_error, report_view, MutationError, MutationReport,
    PlannedChange, Report,
};
use crate::path::{below, join_path};
use crate::record::{content_of, note_name, recs, Rec, Record};
use crate::text::{cat2, cat3, cat5, has_string, lemma_string_views_push, same_text, string_views};
use crate::tree::{
    has_file, has_folder, is_same_place, is_taken, notes_in, same_place, Picture, Tree,
};
use crate::vault::{loaded, LoadResult, Vault};
use crate::writer::WriteOptions;
use vstd::prelude::*;

verus! {

/// A rename of a note of a folder.
pub struct RenameBuilder {
    pub folder: String,
    pub from: String,
    pub to: String,
    pub write_options: WriteOptions,
}

/// The changes to the notes of one name that link to a note: the links lead to
/// another.
pub open spec fn changes_under(
    records: Seq<Rec>,
    name: Seq<char>,
    from: Seq<char>,
    to: Seq<char>,
) -> Seq<(Seq<char>, Seq<char>)>
    decreases records.len(),
{
    if records.len() == 0 {
        seq![]
    } else {
        let before = changes_under(records.drop_last(), name, from, to);
        let r = records.last();
        if note_name(r.path) == name && links_of(content_of(r)).contains(from) {
            before.push((r.path, "rewrite [["@ + from + "]] -> [["@ + to + "]]"@))
        } else {
            before
        }
    }
}

/// The changes to the notes with some names: links to one note lead to another.
pub open spec fn link_changes(
    records: Seq<Rec>,
    names: Seq<Seq<char>>,
    from: Seq<char>,
    to: Seq<char>,
) -> Seq<(Seq<char>, Seq<char>)>
    decreases names.len(),
{
    if names.len() == 0 {
        seq![]
    } else {
        link_changes(records, names.drop_last(), from, to) + changes_under(
            records,
            names.last(),
            from,
            to,
        )
    }
}

/// What a rename comes to on a vault: nothing where the note is not there or the new
/// name is taken, and else the move and the links to be rewritten.
pub open spec fn rename_plan(
    folder: Seq<char>,
    from: Seq<char>,
    to: Seq<char>,
    p: Picture,
    root: Seq<char>,
) -> Result<Report, Failure> {
    let dir = below(root, folder);
    let source = below(dir, from + ".md"@);
    let dest = below(dir, to + ".md"@);
    if !has_folder(p, dir) {
        Err(Failure::FolderNotFound(folder))
    } else if !has_file(p, source) {
        Ok(
            Report {
                changes: seq![],
                errors: seq![(source, "source `"@ + from + "` not found"@)],
            },
        )
    } else if is_taken(p, dest) {
        Ok(
            Report {
                changes: seq![],
                errors: seq![(dest, "target `"@ + to + ".md` already exists"@)],
            },
        )
    } else {
        match loaded(notes_in(p.files, root, true), true) {
            Err(e) => Err(e),
            Ok((rs, _)) => Ok(
                Report {
                    changes: seq![(source, "rename to "@ + dest)] + link_changes(
                        rs,
                        sources(graph_of(rs).edges, from),
                        from,
                        to,
                    ),
                    errors: seq![],
                },
            ),
        }
    }
}

/// The journal of a rename. A note that links to itself has moved by the time its
/// links are rewritten.
pub open spec fn rename_journal(
    folder: Seq<char>,
    from: Seq<char>,
    to: Seq<char>,
    report: Report,
    root: Seq<char>,
) -> Journal {
    let dir = below(root, folder);
    let source = below(dir, from + ".md"@);
    let dest = below(dir, to + ".md"@);
    Journal {
        source,
        dest,
        from_name: from,
        to_name: to,
        backlinks: later_paths(report.changes, source, dest),
    }
}

/// Where a file is once another has moved.
pub open spec fn place_after(path: Seq<char>, source: Seq<char>, dest: Seq<char>) -> Seq<char> {
    if same_place(path, source) {
        dest
    } else {
        path
    }
}

/// The paths of some changes but the first, once a file has moved.
pub open spec fn later_paths(
    changes: Seq<(Seq<char>, Seq<char>)>,
    source: Seq<char>,
    dest: Seq<char>,
) -> Seq<Seq<char>> {
    if changes.len() == 0 {
        seq![]
    } else {
        Seq::new(
            (changes.len() - 1) as nat,
            |i: int| place_after(changes[i + 1].0, source, dest),
        )
    }
}

/// How far a rename is.
#[derive(Debug, PartialEq, Eq)]
pub enum RenamePhase {
    /// The journal is to be written.
    Journal,
    /// The note is to be moved.
    Move,
    /// A file with links is to be read.
    Read(usize),
    /// A file with links is to be written.
    Write(usize, String),
    /// A folder is to be forced to stable storage.
    Sync(usize),
    /// The journal is to be removed.
    Drop,
    /// All is done.
    Finished,
    /// The journal could not be written.
    Stopped(String),
}

/// How far a rename is, as sequences.
pub enum Stage {
    Journal,
    Move,
    Read(int),
    Write(int, Seq<char>),
    Sync(int),
    Drop,
    Finished,
    Stopped(Seq<char>),
}

impl View for RenamePhase {
    type V = Stage;

    open spec fn view(&self) -> Stage {
        match *self {
            RenamePhase::Journal => Stage::Journal,
            RenamePhase::Move => Stage::Move,
            RenamePhase::Read(i) => Stage::Read(i as int),
            RenamePhase::Write(i, t) => Stage::Write(i as int, t@),
            RenamePhase::Sync(i) => Stage::Sync(i as int),
            RenamePhase::Drop => Stage::Drop,
            RenamePhase::Finished => Stage::Finished,
            RenamePhase::Stopped(e) => Stage::Stopped(e@),
        }
    }
}

/// A rename under way.
pub struct RenameRun {
    journal: RenameJournal,
    changes: Vec<PlannedChange>,
    errors: Vec<MutationError>,
    /// The folders to be forced to stable storage.
    folders: Vec<String>,
    fsync: bool,
    phase: RenamePhase,
}

/// A rename under way, as sequences.
pub struct Rename {
    pub journal: Journal,
    pub changes: Seq<(Seq<char>, Seq<char>)>,
    pub errors: Seq<(Seq<char>, Seq<char>)>,
    pub folders: Seq<Seq<char>>,
    pub fsync: bool,
    pub stage: Stage,
}

impl View for RenameRun {
    type V = Rename;

    closed spec fn view(&self) -> Rename {
        Rename {
            journal: self.journal@,
            changes: changes_view(self.changes@),
            errors: errors_view(self.errors@),
            folders: string_views(self.folders@),
            fsync: self.fsync,
            stage: self.phase@,
        }
    }
}

/// Where a rename goes on from folder `i`: with that folder, or to its end. The
/// journal is removed only where nothing failed.
pub open spec fn sync_from(r: Rename, i: int) -> Rename {
    if r.fsync && i < r.folders.len() {
        Rename { stage: Stage::Sync(i), ..r }
    } else if r.errors.len() == 0 {
        Rename { stage: Stage::Drop, ..r }
    } else {
        Rename { stage: Stage::Finished, ..r }
    }
}

/// Where a rename goes on from file `i`: with that file, or with the folders.
pub open spec fn links_from_file(r: Rename, i: int) -> Rename {
    if i < r.journal.backlinks.len() {
        Rename { stage: Stage::Read(i), ..r }
    } else {
        sync_from(r, 0)
    }
}

/// A rename with one more failure.
pub open spec fn with_error(r: Rename, path: Seq<char>, message: Seq<char>) -> Rename {
    Rename { errors: r.errors.push((path, message)), ..r }
}

/// A rename about to start. One that the plan found a fault with is over.
pub open spec fn rename_start(journal: Journal, report: Report, fsync: bool) -> Rename {
    Rename {
        journal,
        changes: report.changes,
        errors: report.errors,
        folders: with_parent(with_parent(seq![], journal.source), journal.dest),
        fsync,
        stage: if report.errors.len() > 0 {
            Stage::Finished
        } else {
            Stage::Journal
        },
    }
}

/// What is to be done next.
pub open spec fn rename_next(r: Rename) -> Option<Deed> {
    match r.stage {
        Stage::Journal => Some(Deed::WriteJournal),
        Stage::Move => Some(Deed::MoveFile { from: r.journal.source, to: r.journal.dest }),
        Stage::Read(i) => Some(Deed::ReadFile(r.journal.backlinks[i])),
        Stage::Write(i, t) => Some(Deed::WriteFile { path: r.journal.backlinks[i], content: t }),
        Stage::Sync(i) => Some(Deed::SyncFolder(r.folders[i])),
        Stage::Drop => Some(Deed::DropJournal),
        Stage::Finished => None,
        Stage::Stopped(_) => None,
    }
}

/// How things stand once it came to something.
pub open spec fn rename_after(r: Rename, c: Came) -> Rename {
    match r.stage {
        Stage::Journal => match failure_of(c) {
            Some(e) => Rename { stage: Stage::Stopped(e), ..r },
            None => Rename { stage: Stage::Move, ..r },
        },
        Stage::Move => match failure_of(c) {
            Some(e) => Rename {
                stage: Stage::Drop,
                ..with_error(r, r.journal.source, "rename failed: "@ + e)
            },
            None => links_from_file(r, 0),
        },
        Stage::Read(i) => match c {
            Came::Text(t) => {
                let new = rewritten(t, r.journal.from_name, r.journal.to_name);
                if new == t {
                    links_from_file(r, i + 1)
                } else {
                    Rename { stage: Stage::Write(i, new), ..r }
                }
            },
            _ => match failure_of(c) {
                Some(e) => links_from_file(
                    with_error(r, r.journal.backlinks[i], "read failed: "@ + e),
                    i + 1,
                ),
                None => links_from_file(r, i + 1),
            },
        },
        Stage::Write(i, _) => match failure_of(c) {
            Some(e) => links_from_file(
                with_error(r, r.journal.backlinks[i], "write failed: "@ + e),
                i + 1,
            ),
            None => links_from_file(r, i + 1),
        },
        Stage::Sync(i) => match failure_of(c) {
            Some(e) => sync_from(
                with_error(r, r.folders[i], "fsync_dir failed: "@ + e),
                i + 1,
            ),
            None => sync_from(r, i + 1),
        },
        Stage::Drop => Rename { stage: Stage::Finished, ..r },
        _ => r,
    }
}

impl RenameBuilder {
    /// A rename of a note of a folder.
    pub fn new(folder: &str, from: &str, to: &str) -> (r: Self)
        ensures
            r.folder@ == folder@,
            r.from@ == from@,
            r.to@ == to@,
            !r.write_options.fsync,
    {
        RenameBuilder {
            folder: folder.to_owned(),
            from: from.to_owned(),
            to: to.to_owned(),
            write_options: WriteOptions::default(),
        }
    }

    /// Says how the disk is touched.
    pub fn write_options(self, opts: WriteOptions) -> (r: Self)
        ensures
            r == (RenameBuilder { write_options: opts, ..self }),
    {
        let mut r: RenameBuilder = self;
        r.write_options = opts;
        r
    }

    /// Says whether the rename is forced to stable storage.
    pub fn fsync(self, yes: bool) -> (r: Self)
        ensures
            r == (RenameBuilder { write_options: (WriteOptions { fsync: yes }), ..self }),
    {
        let mut r: RenameBuilder = self;
        r.write_options.fsync = yes;
        r
    }

    /// Adds the changes to the notes of one name.
    fn push_changes(&self, records: &Vec<Record>, name: &str, changes: &mut Vec<PlannedChange>)
        ensures
            changes_view(final(changes)@) == changes_view(old(changes)@) + changes_under(
                recs(records@),
                name@,
                self.from@,
                self.to@,
            ),
    {
        let ghost rs = recs(records@);
        let ghost start = changes_view(changes@);
        let mut i: usize = 0;
        assert(rs.take(0) =~= seq![]);
        assert(start + changes_under(rs.take(0), name@, self.from@, self.to@) =~= start);
        while i < records.len()
            invariant
                rs == recs(records@),
                i <= records.len(),
                changes_view(changes@) == start + changes_under(
                    rs.take(i as int),
                    name@,
                    self.from@,
                    self.to@,
                ),
            decreases records.len() - i,
        {
            assert(rs.take(i + 1).drop_last() =~= rs.take(i as int));
            assert(rs.take(i + 1).last() == records@[i as int]@);
            let ghost before = changes_view(changes@);
            let r: &Record = &records[i];
            if same_text(r.virtual_name().as_str(), name) && has_string(
                &extract_links(r.load_content().as_str()),
                self.from.as_str(),
            ) {
                push_change(
                    changes,
                    r.path.as_str(),
                    cat5("rewrite [[", self.from.as_str(), "]] -> [[", self.to.as_str(), "]]"),
                );
            }
            i += 1;
            assert(changes_view(changes@) =~= start + changes_under(
                rs.take(i as int),
                name@,
                self.from@,
                self.to@,
            ));
        }
        assert(rs.take(i as int) =~= rs);
    }

    /// What the rename would come to.
    pub fn plan(&self, vault: &Vault, tree: &Tree) -> (r: Result<MutationReport, VaultdbError>)
        ensures
            report_view(r) == rename_plan(self.folder@, self.from@, self.to@, tree@, vault.root@),
    {
        let dir: String = match vault.resolve_folder(self.folder.as_str(), tree) {
            Ok(p) => p,
            Err(e) => {
                return Err(e);
            },
        };
        let source: String = join_path(dir.as_str(), cat2(self.from.as_str(), ".md").as_str());
        let dest: String = join_path(dir.as_str(), cat2(self.to.as_str(), ".md").as_str());
        let mut changes: Vec<PlannedChange> = Vec::new();
        let mut errors: Vec<MutationError> = Vec::new();
        assert(changes_view(changes@) =~= seq![]);
        assert(errors_view(errors@) =~= seq![]);
        if !tree.is_file(source.as_str()) {
            push_error(
                &mut errors,
                source.as_str(),
                cat3("source `", self.from.as_str(), "` not found"),
            );
            assert(errors_view(errors@) =~= seq![
                (source@, "source `"@ + self.from@ + "` not found"@),
            ]);
            return Ok(MutationReport { changes, errors });
        }
        if tree.has(dest.as_str()) {
            push_error(
                &mut errors,
                dest.as_str(),
                cat3("target `", self.to.as_str(), ".md` already exists"),
            );
            assert(errors_view(errors@) =~= seq![
                (dest@, "target `"@ + self.to@ + ".md` already exists"@),
            ]);
            return Ok(MutationReport { changes, errors });
        }
        push_change(&mut changes, source.as_str(), cat2("rename to ", dest.as_str()));
        let ghost first = (source@, "rename to "@ + dest@);
        let load: LoadResult = match vault.load_records_with_content(
            vault.root.as_str(),
            true,
            tree,
        ) {
            Ok(l) => l,
            Err(e) => {
                return Err(e);
            },
        };
        let ghost rs = recs(load.records@);
        let graph: LinkGraph = LinkGraph::build(&load.records);
        let names: Vec<String> = graph.incoming_links(self.from.as_str());
        let ghost nv = string_views(names@);
        let mut i: usize = 0;
        assert(nv.take(0) =~= seq![]);
        assert(changes_view(changes@) =~= seq![first] + link_changes(
            rs,
            seq![],
            self.from@,
            self.to@,
        ));
        while i < names.len()
            invariant
                rs == recs(load.records@),
                nv == string_views(names@),
                i <= names.len(),
                changes_view(changes@) == seq![first] + link_changes(
                    rs,
                    nv.take(i as int),
                    self.from@,
                    self.to@,
                ),
            decreases names.len() - i,
        {
            assert(nv.take(i + 1).drop_last() =~= nv.take(i as int));
            self.push_changes(&load.records, names[i].as_str(), &mut changes);
            i += 1;
            assert(changes_view(changes@) =~= seq![first] + link_changes(
                rs,
                nv.take(i as int),
                self.from@,
                self.to@,
            ));
        }
        assert(nv.take(i as int) =~= nv);
        Ok(MutationReport { changes, errors })
    }

    /// Starts the rename: what is planned becomes what is to be done.
    pub fn execute(self, vault: &Vault, tree: &Tree) -> (r: Result<RenameRun, VaultdbError>)
        ensures
            match rename_plan(self.folder@, self.from@, self.to@, tree@, vault.root@) {
                Err(e) => r is Err && r->Err_0@ == e,
                Ok(report) => r is Ok && r->Ok_0.is_valid() && r->Ok_0@ == rename_start(
                    rename_journal(self.folder@, self.from@, self.to@, report, vault.root@),
                    report,
                    self.write_options.fsync,
                ),
            },
    {
        let report: MutationReport = match self.plan(vault, tree) {
            Ok(r) => r,
            Err(e) => {
                return Err(e);
            },
        };
        let dir: String = join_path(vault.root.as_str(), self.folder.as_str());
        let source: String = join_path(dir.as_str(), cat2(self.from.as_str(), ".md").as_str());
        let dest: String = join_path(dir.as_str(), cat2(self.to.as_str(), ".md").as_str());
        let ghost all = later_paths(report@.changes, source@, dest@);
        let mut backlinks: Vec<String> = Vec::new();
        let mut i: usize = 1;
        assert(string_views(backlinks@) =~= all.take(0));
        while i < report.changes.len()
            invariant
                1 <= i,
                report.changes.len() > 0 ==> i <= report.changes.len(),
                report.changes.len() == 0 ==> i == 1,
                all == later_paths(report@.changes, source@, dest@),
                string_views(backlinks@) == all.take(i - 1),
            decreases report.changes.len() - i,
        {
            let t: String = if is_same_place(report.changes[i].path.as_str(), source.as_str()) {
                dest.clone()
            } else {
                report.changes[i].path.clone()
            };
            proof {
                lemma_string_views_push(backlinks@, t);
                assert(string_views(backlinks@).push(t@) =~= all.take(i as int));
            }
            backlinks.push(t);
            i += 1;
        }
        assert(string_views(backlinks@) =~= all);
        let mut folders: Vec<String> = Vec::new();
        assert(string_views(folders@) =~= seq![]);
        insert_parent(&mut folders, source.as_str());
        insert_parent(&mut folders, dest.as_str());
        assert(report@.changes.len() == report.changes.len());
        assert(report@.errors.len() == report.errors.len());
        let phase: RenamePhase = if report.errors.len() > 0 {
            RenamePhase::Finished
        } else {
            RenamePhase::Journal
        };
        let journal: RenameJournal = RenameJournal {
            source,
            dest,
            from_name: self.from,
            to_name: self.to,
            backlinks,
        };
        Ok(
            RenameRun {
                journal,
                changes: report.changes,
                errors: report.errors,
                folders,
                fsync: self.write_options.fsync,
                phase,
            },
        )
    }
}

impl RenameRun {
    /// Whether the file or folder at hand is one of those of the rename.
    pub closed spec fn is_valid(&self) -> bool {
        match self.phase {
            RenamePhase::Read(i) => i < self.journal.backlinks.len(),
            RenamePhase::Write(i, _) => i < self.journal.backlinks.len(),
            RenamePhase::Sync(i) => i < self.folders.len(),
            _ => true,
        }
    }

    /// The journal to be written before anything changes.
    pub fn journal(&self) -> (r: &RenameJournal)
        ensures
            r@ == self@.journal,
    {
        &self.journal
    }

    /// Whether what is written is forced to stable storage.
    pub fn fsync(&self) -> (r: bool)
        ensures
            r == self@.fsync,
    {
        self.fsync
    }

    /// Goes on with a folder, or to the end.
    fn go_on_syncing(&mut self, i: usize)
        ensures
            final(self)@ == sync_from(old(self)@, i as int),
            final(self).is_valid(),
    {
        assert(self@.folders.len() == self.folders.len());
        assert(self@.errors.len() == self.errors.len());
        self.phase = if self.fsync && i < self.folders.len() {
            RenamePhase::Sync(i)
        } else if self.errors.len() == 0 {
            RenamePhase::Drop
        } else {
            RenamePhase::Finished
        };
    }

    /// Goes on with a file, or with the folders.
    fn go_on(&mut self, i: usize)
        ensures
            final(self)@ == links_from_file(old(self)@, i as int),
            final(self).is_valid(),
    {
        assert(self@.journal.backlinks.len() == self.journal.backlinks.len());
        if i < self.journal.backlinks.len() {
            self.phase = RenamePhase::Read(i);
        } else {
            self.go_on_syncing(0);
        }
    }

    /// Tells what is to be done next; nothing once all is done.
    pub fn next(&self) -> (r: Option<Action>)
        requires
            self.is_valid(),
        ensures
            deed_view(r) == rename_next(self@),
    {
        match &self.phase {
            RenamePhase::Journal => Some(Action::WriteJournal),
            RenamePhase::Move => Some(
                Action::MoveFile {
                    from: self.journal.source.clone(),
                    to: self.journal.dest.clone(),
                },
            ),
            RenamePhase::Read(i) => Some(Action::ReadFile(self.journal.backlinks[*i].clone())),
            RenamePhase::Write(i, t) => Some(
                Action::WriteFile {
                    path: self.journal.backlinks[*i].clone(),
                    content: t.clone(),
                },
            ),
            RenamePhase::Sync(i) => Some(Action::SyncFolder(self.folders[*i].clone())),
            RenamePhase::Drop => Some(Action::DropJournal),
            _ => None,
        }
    }

    /// Takes what came of what was to be done.
    pub fn done(&mut self, outcome: &Outcome)
        requires
            old(self).is_valid(),
        ensures
            final(self)@ == rename_after(old(self)@, outcome@),
            final(self).is_valid(),
    {
        let failure: Option<String> = read_failure(outcome);
        match &self.phase {
            RenamePhase::Journal => match failure {
                Some(e) => {
                    self.phase = RenamePhase::Stopped(e);
                },
                None => {
                    self.phase = RenamePhase::Move;
                },
            },
            RenamePhase::Move => match failure {
                Some(e) => {
                    push_error(
                        &mut self.errors,
                        self.journal.source.as_str(),
                        cat2("rename failed: ", e.as_str()),
                    );
                    self.phase = RenamePhase::Drop;
                },
                None => {
                    self.go_on(0);
                },
            },
            RenamePhase::Read(i) => {
                let at: usize = *i;
                match outcome {
                    Outcome::Text(t) => {
                        let new: String = rewrite_wikilinks(
                            t.as_str(),
                            self.journal.from_name.as_str(),
                            self.journal.to_name.as_str(),
                        );
                        if same_text(new.as_str(), t.as_str()) {
                            self.go_on(at + 1);
                        } else {
                            self.phase = RenamePhase::Write(at, new);
                        }
                    },
                    _ => {
                        match failure {
                            Some(e) => {
                                push_error(
                                    &mut self.errors,
                                    self.journal.backlinks[at].as_str(),
                                    cat2("read failed: ", e.as_str()),
                                );
                            },
                            None => {},
                        }
                        self.go_on(at + 1);
                    },
                }
            },
            RenamePhase::Write(i, _) => {
                let at: usize = *i;
                match failure {
                    Some(e) => {
                        push_error(
                            &mut self.errors,
                            self.journal.backlinks[at].as_str(),
                            cat2("write failed: ", e.as_str()),
                        );
                    },
                    None => {},
                }
                self.go_on(at + 1);
            },
            RenamePhase::Sync(i) => {
                let at: usize = *i;
                match failure {
                    Some(e) => {
                        push_error(
                            &mut self.errors,
                            self.folders[at].as_str(),
                            cat2("fsync_dir failed: ", e.as_str()),
                        );
                    },
                    None => {},
                }
                self.go_on_syncing(at + 1);
            },
            RenamePhase::Drop => {
                self.phase = RenamePhase::Finished;
            },
            _ => {},
        }
    }

    /// What it all came to.
    pub fn finish(self) -> (r: Result<MutationReport, VaultdbError>)
        ensures
            report_view(r) == match self@.stage {
                Stage::Stopped(e) => Err::<Report, Failure>(Failure::Io(e)),
                _ => Ok(Report { changes: self@.changes, errors: self@.errors }),
            },
    {
        match self.phase {
            RenamePhase::Stopped(e) => Err(VaultdbError::Io(e)),
            _ => Ok(MutationReport { changes: self.changes, errors: self.errors }),
        }
    }
}

/// Nothing on the disk changes before the rename is written down.
pub proof fn law_journal_first(journal: Journal, report: Report, fsync: bool)
    ensures
        ({
            let r = rename_start(journal, report, fsync);
            rename_next(r) is None || rename_next(r) == Some(Deed::WriteJournal)
        }),
{
}

/// Once something failed in a rename, the journal stays, so that it can be replayed;
/// once nothing did, it is removed.
pub proof fn law_journal_last(r: Rename, i: int)
    requires
        i >= r.folders.len() || !r.fsync,
    ensures
        rename_next(sync_from(r, i)) == if r.errors.len() == 0 {
            Some(Deed::DropJournal)
        } else {
            None
        },
{
}

/// The changes of one name are those of the notes with it that link to the note.
proof fn lemma_changes_under(
    records: Seq<Rec>,
    name: Seq<char>,
    from: Seq<char>,
    to: Seq<char>,
    j: int,
)
    requires
        0 <= j < records.len(),
        note_name(records[j].path) == name,
        links_of(content_of(records[j])).contains(from),
    ensures
        exists|i: int|
            0 <= i < changes_under(records, name, from, to).len() && (#[trigger] changes_under(
                records,
                name,
                from,
                to,
            )[i]).0 == records[j].path,
    decreases records.len(),
{
    let rest = records.drop_last();
    let out = changes_under(records, name, from, to);
    let before = changes_under(rest, name, from, to);
    if j < rest.len() {
        lemma_changes_under(rest, name, from, to, j);
        let i = choose|i: int| 0 <= i < before.len() && (#[trigger] before[i]).0 == rest[j].path;
        assert(out[i] == before[i]);
    } else {
        assert(out[out.len() - 1].0 == records[j].path);
    }
}

/// The changes of a name are among those of the names.
proof fn lemma_link_changes(
    records: Seq<Rec>,
    names: Seq<Seq<char>>,
    from: Seq<char>,
    to: Seq<char>,
    k: int,
    i: int,
)
    requires
        0 <= k < names.len(),
        0 <= i < changes_under(records, names[k], from, to).len(),
    ensures
        link_changes(records, names, from, to).contains(
            changes_under(records, names[k], from, to)[i],
        ),
    decreases names.len(),
{
    let rest = names.drop_last();
    let out = link_changes(records, names, from, to);
    let before = link_changes(records, rest, from, to);
    let x = changes_under(records, names[k], from, to)[i];
    if k < rest.len() {
        lemma_link_changes(records, rest, from, to, k, i);
        let p = choose|p: int| 0 <= p < before.len() && before[p] == x;
        assert(out[p] == x);
    } else {
        assert(out[before.len() + i] == x);
    }
}

/// A rename rewrites the links of every note of the vault that links to the note.
pub proof fn law_rename_reaches_all(rs: Seq<Rec>, from: Seq<char>, to: Seq<char>, j: int)
    requires
        0 <= j < rs.len(),
        links_of(content_of(rs[j])).contains(from),
    ensures
        exists|i: int|
            0 <= i < link_changes(rs, sources(graph_of(rs).edges, from), from, to).len() && (
            #[trigger] link_changes(rs, sources(graph_of(rs).edges, from), from, to)[i]).0
                == rs[j].path,
{
    let name = note_name(rs[j].path);
    let names = sources(graph_of(rs).edges, from);
    law_graph_edges(rs, name, from);
    assert(links_between(rs, name, from));
    law_edge_is_source(graph_of(rs), name, from);
    let k = choose|k: int| 0 <= k < names.len() && names[k] == name;
    lemma_changes_under(rs, name, from, to, j);
    let under = changes_under(rs, name, from, to);
    let i = choose|i: int| 0 <= i < under.len() && (#[trigger] under[i]).0 == rs[j].path;
    lemma_link_changes(rs, names, from, to, k, i);
    let out = link_changes(rs, names, from, to);
    let p = choose|p: int| 0 <= p < out.len() && out[p] == under[i];
    assert(out[p].0 == rs[j].path);
}

} // verus!
