//! Deleting notes and moving them to another folder.

use crate::error::{Failure, VaultdbError};
use crate::filter::{evaluate_expr, expr_uses_links, holds};
use crate::links::{graph_view, Graph, LinkGraph};
use crate::mutation::{
    changes_view, errors_view, graph_if_used, push_change, push_error, report_view, MutationError,
    MutationReport, PlannedChange, Report,
};
use crate::path::{
    below, components, extension, extension_of, file_name, file_name_of, join_path, path_components,
    stem, stem_of,
};
use crate::query::{cond, Cond, Expr};
use crate::record::{recs, Rec, Record};
use crate::text::{
    cat2, cat4, cat5, decimal, lemma_string_views_push, number_text, string_views, views, Order,
};
use crate::tree::{
    has_folder, is_same_place, is_taken, notes_in, order_paths, path_order, same_place, Picture,
    Tree,
};
use crate::vault::{ancestor, find_ancestor, loaded, LoadResult, Vault};
use crate::writer::WriteOptions;
use vstd::prelude::*;

verus! {

/// A deletion: which notes of a folder, and whether for good.
pub struct DeleteBuilder {
    pub filter: Expr,
    pub folder: String,
    pub permanent: bool,
    /// Whether notes in folders below count, too.
    pub recursive: bool,
    pub write_options: WriteOptions,
}

/// The changes that a deletion makes to some notes.
pub open spec fn deletions(
    filter: Cond,
    permanent: bool,
    rs: Seq<Rec>,
    root: Seq<char>,
    g: Option<Graph>,
) -> Seq<(Seq<char>, Seq<char>)>
    decreases rs.len(),
{
    if rs.len() == 0 {
        seq![]
    } else {
        let before = deletions(filter, permanent, rs.drop_last(), root, g);
        if holds(filter, rs.last(), root, g) {
            before.push(
                (
                    rs.last().path,
                    if permanent {
                        "delete (permanent)"@
                    } else {
                        "move to .trash/"@
                    },
                ),
            )
        } else {
            before
        }
    }
}

/// What a deletion comes to on a vault.
pub open spec fn delete_plan(
    filter: Cond,
    folder: Seq<char>,
    permanent: bool,
    recursive: bool,
    p: Picture,
    root: Seq<char>,
) -> Result<Report, Failure> {
    if !has_folder(p, below(root, folder)) {
        Err(Failure::FolderNotFound(folder))
    } else {
        match loaded(notes_in(p.files, below(root, folder), recursive), true) {
            Err(e) => Err(e),
            Ok((rs, _)) => Ok(
                Report {
                    changes: deletions(filter, permanent, rs, root, graph_if_used(filter, rs)),
                    errors: seq![],
                },
            ),
        }
    }
}

impl DeleteBuilder {
    /// A deletion that moves notes to the trash.
    pub fn new(folder: &str, filter: Expr) -> (r: Self)
        ensures
            r.filter == filter,
            r.folder@ == folder@,
            !r.permanent,
            !r.recursive,
            !r.write_options.fsync,
    {
        DeleteBuilder {
            filter,
            folder: folder.to_owned(),
            permanent: false,
            recursive: false,
            write_options: WriteOptions::default(),
        }
    }

    /// Says whether notes are deleted for good.
    pub fn permanent(self, yes: bool) -> (r: Self)
        ensures
            r == (DeleteBuilder { permanent: yes, ..self }),
    {
        let mut r: DeleteBuilder = self;
        r.permanent = yes;
        r
    }

    /// Says whether notes in folders below count, too.
    pub fn recursive(self, yes: bool) -> (r: Self)
        ensures
            r == (DeleteBuilder { recursive: yes, ..self }),
    {
        let mut r: DeleteBuilder = self;
        r.recursive = yes;
        r
    }

    /// Says how the disk is touched.
    pub fn write_options(self, opts: WriteOptions) -> (r: Self)
        ensures
            r == (DeleteBuilder { write_options: opts, ..self }),
    {
        let mut r: DeleteBuilder = self;
        r.write_options = opts;
        r
    }

    /// Says whether the deletion is forced to stable storage.
    pub fn fsync(self, yes: bool) -> (r: Self)
        ensures
            r == (DeleteBuilder { write_options: (WriteOptions { fsync: yes }), ..self }),
    {
        let mut r: DeleteBuilder = self;
        r.write_options.fsync = yes;
        r
    }

    /// What the deletion would come to.
    pub fn plan(&self, vault: &Vault, tree: &Tree) -> (r: Result<MutationReport, VaultdbError>)
        ensures
            report_view(r) == delete_plan(
                cond(self.filter),
                self.folder@,
                self.permanent,
                self.recursive,
                tree@,
                vault.root@,
            ),
    {
        let ghost c = cond(self.filter);
        let ghost root = vault.root@;
        let folder: String = match vault.resolve_folder(self.folder.as_str(), tree) {
            Ok(p) => p,
            Err(e) => {
                return Err(e);
            },
        };
        let load: LoadResult = match vault.load_records_with_content(
            folder.as_str(),
            self.recursive,
            tree,
        ) {
            Ok(l) => l,
            Err(e) => {
                return Err(e);
            },
        };
        let ghost rs = recs(load.records@);
        let graph: Option<LinkGraph> = if expr_uses_links(&self.filter) {
            Some(LinkGraph::build(&load.records))
        } else {
            None
        };
        let g: Option<&LinkGraph> = graph.as_ref();
        let ghost gv = graph_view(g);
        let mut changes: Vec<PlannedChange> = Vec::new();
        let mut i: usize = 0;
        assert(rs.take(0) =~= seq![]);
        assert(changes_view(changes@) =~= seq![]);
        while i < load.records.len()
            invariant
                c == cond(self.filter),
                root == vault.root@,
                rs == recs(load.records@),
                gv == graph_view(g),
                i <= load.records.len(),
                changes_view(changes@) == deletions(
                    c,
                    self.permanent,
                    rs.take(i as int),
                    root,
                    gv,
                ),
            decreases load.records.len() - i,
        {
            assert(rs.take(i + 1).drop_last() =~= rs.take(i as int));
            assert(rs.take(i + 1).last() == load.records@[i as int]@);
            let record: &Record = &load.records[i];
            if evaluate_expr(&self.filter, record, vault.root.as_str(), g) {
                let text: String = if self.permanent {
                    "delete (permanent)".to_owned()
                } else {
                    "move to .trash/".to_owned()
                };
                push_change(&mut changes, record.path.as_str(), text);
            }
            i += 1;
        }
        assert(rs.take(i as int) =~= rs);
        let errors: Vec<MutationError> = Vec::new();
        assert(errors_view(errors@) =~= seq![]);
        Ok(MutationReport { changes, errors })
    }

    /// Starts the deletion: what is planned becomes what is to be done.
    pub fn execute(self, vault: &Vault, tree: &Tree) -> (r: Result<FileRun, VaultdbError>)
        ensures
            match delete_plan(
                cond(self.filter),
                self.folder@,
                self.permanent,
                self.recursive,
                tree@,
                vault.root@,
            ) {
                Err(e) => r is Err && r->Err_0@ == e,
                Ok(report) => r is Ok && r->Ok_0@ == started(
                    if self.permanent {
                        FileTask::Remove
                    } else {
                        FileTask::Trash
                    },
                    below(vault.root@, ".trash"@),
                    report,
                    self.write_options.fsync,
                    string_views(tree.folders@) + crate::vault::file_paths(tree@.files),
                ),
            },
    {
        match self.plan(vault, tree) {
            Err(e) => Err(e),
            Ok(report) => {
                let task: FileTask = if self.permanent {
                    FileTask::Remove
                } else {
                    FileTask::Trash
                };
                Ok(
                    FileRun::start(
                        task,
                        join_path(vault.root.as_str(), ".trash"),
                        report,
                        self.write_options.fsync,
                        tree,
                    ),
                )
            },
        }
    }
}

/// A move: which notes of a folder, and where to.
pub struct MoveBuilder {
    pub filter: Expr,
    pub folder: String,
    pub to_folder: String,
    /// Whether notes in folders below count, too.
    pub recursive: bool,
    pub write_options: WriteOptions,
}

/// Whether one of some changes is to a file with a name.
pub open spec fn is_claimed(changes: Seq<(Seq<char>, Seq<char>)>, name: Seq<char>) -> bool {
    exists|i: int| 0 <= i < changes.len() && file_name((#[trigger] changes[i]).0) == Some(name)
}

/// Tells whether one of some changes is to a file with a name.
fn claims(changes: &Vec<PlannedChange>, name: &str) -> (r: bool)
    ensures
        r == is_claimed(changes_view(changes@), name@),
{
    let ghost all = changes_view(changes@);
    let mut i: usize = 0;
    while i < changes.len()
        invariant
            all == changes_view(changes@),
            i <= changes.len(),
            forall|k: int| 0 <= k < i ==> file_name((#[trigger] all[k]).0) != Some(name@),
        decreases changes.len() - i,
    {
        assert(all[i as int].0 == changes@[i as int].path@);
        match file_name_of(changes[i].path.as_str()) {
            Some(n) => {
                if crate::text::same_text(n.as_str(), name) {
                    return true;
                }
            },
            None => {},
        }
        i += 1;
    }
    false
}

/// What a move comes to with one more note: a note whose name is taken in the other
/// folder, by a file there or by a note that goes there before it, is a failure.
pub open spec fn move_one(
    filter: Cond,
    to: Seq<char>,
    to_folder: Seq<char>,
    r: Rec,
    p: Picture,
    root: Seq<char>,
    g: Option<Graph>,
    so_far: Report,
) -> Report {
    if !holds(filter, r, root, g) {
        so_far
    } else {
        match file_name(r.path) {
            None => so_far,
            Some(name) => if is_taken(p, below(to, name)) || is_claimed(so_far.changes, name) {
                Report {
                    errors: so_far.errors.push(
                        (
                            r.path,
                            "move conflict: "@ + name + " already exists in "@ + to_folder,
                        ),
                    ),
                    ..so_far
                }
            } else {
                Report {
                    changes: so_far.changes.push((r.path, "move to "@ + below(to, name))),
                    ..so_far
                }
            },
        }
    }
}

/// What a move comes to with some notes.
pub open spec fn move_all(
    filter: Cond,
    to: Seq<char>,
    to_folder: Seq<char>,
    rs: Seq<Rec>,
    p: Picture,
    root: Seq<char>,
    g: Option<Graph>,
) -> Report
    decreases rs.len(),
{
    if rs.len() == 0 {
        Report { changes: seq![], errors: seq![] }
    } else {
        move_one(
            filter,
            to,
            to_folder,
            rs.last(),
            p,
            root,
            g,
            move_all(filter, to, to_folder, rs.drop_last(), p, root, g),
        )
    }
}

/// What a move comes to on a vault.
pub open spec fn move_plan(
    filter: Cond,
    folder: Seq<char>,
    to_folder: Seq<char>,
    recursive: bool,
    p: Picture,
    root: Seq<char>,
) -> Result<Report, Failure> {
    if !has_folder(p, below(root, folder)) {
        Err(Failure::FolderNotFound(folder))
    } else {
        match loaded(notes_in(p.files, below(root, folder), recursive), true) {
            Err(e) => Err(e),
            Ok((rs, _)) => Ok(
                move_all(
                    filter,
                    below(root, to_folder),
                    to_folder,
                    rs,
                    p,
                    root,
                    graph_if_used(filter, rs),
                ),
            ),
        }
    }
}

impl MoveBuilder {
    /// A move of the notes of a folder that meet a condition.
    pub fn new(folder: &str, to_folder: &str, filter: Expr) -> (r: Self)
        ensures
            r.filter == filter,
            r.folder@ == folder@,
            r.to_folder@ == to_folder@,
            !r.recursive,
            !r.write_options.fsync,
    {
        MoveBuilder {
            filter,
            folder: folder.to_owned(),
            to_folder: to_folder.to_owned(),
            recursive: false,
            write_options: WriteOptions::default(),
        }
    }

    /// Says whether notes in folders below count, too.
    pub fn recursive(self, yes: bool) -> (r: Self)
        ensures
            r == (MoveBuilder { recursive: yes, ..self }),
    {
        let mut r: MoveBuilder = self;
        r.recursive = yes;
        r
    }

    /// Says how the disk is touched.
    pub fn write_options(self, opts: WriteOptions) -> (r: Self)
        ensures
            r == (MoveBuilder { write_options: opts, ..self }),
    {
        let mut r: MoveBuilder = self;
        r.write_options = opts;
        r
    }

    /// Says whether the move is forced to stable storage.
    pub fn fsync(self, yes: bool) -> (r: Self)
        ensures
            r == (MoveBuilder { write_options: (WriteOptions { fsync: yes }), ..self }),
    {
        let mut r: MoveBuilder = self;
        r.write_options.fsync = yes;
        r
    }

    /// What the move would come to.
    pub fn plan(&self, vault: &Vault, tree: &Tree) -> (r: Result<MutationReport, VaultdbError>)
        ensures
            report_view(r) == move_plan(
                cond(self.filter),
                self.folder@,
                self.to_folder@,
                self.recursive,
                tree@,
                vault.root@,
            ),
    {
        let ghost c = cond(self.filter);
        let ghost root = vault.root@;
        let ghost p = tree@;
        let folder: String = match vault.resolve_folder(self.folder.as_str(), tree) {
            Ok(p) => p,
            Err(e) => {
                return Err(e);
            },
        };
        let to: String = join_path(vault.root.as_str(), self.to_folder.as_str());
        let load: LoadResult = match vault.load_records_with_content(
            folder.as_str(),
            self.recursive,
            tree,
        ) {
            Ok(l) => l,
            Err(e) => {
                return Err(e);
            },
        };
        let ghost rs = recs(load.records@);
        let graph: Option<LinkGraph> = if expr_uses_links(&self.filter) {
            Some(LinkGraph::build(&load.records))
        } else {
            None
        };
        let g: Option<&LinkGraph> = graph.as_ref();
        let ghost gv = graph_view(g);
        let mut changes: Vec<PlannedChange> = Vec::new();
        let mut errors: Vec<MutationError> = Vec::new();
        let mut i: usize = 0;
        assert(rs.take(0) =~= seq![]);
        assert(changes_view(changes@) =~= seq![]);
        assert(errors_view(errors@) =~= seq![]);
        while i < load.records.len()
            invariant
                c == cond(self.filter),
                root == vault.root@,
                p == tree@,
                to@ == below(root, self.to_folder@),
                rs == recs(load.records@),
                gv == graph_view(g),
                i <= load.records.len(),
                (Report { changes: changes_view(changes@), errors: errors_view(errors@) })
                    == move_all(c, to@, self.to_folder@, rs.take(i as int), p, root, gv),
            decreases load.records.len() - i,
        {
            assert(rs.take(i + 1).drop_last() =~= rs.take(i as int));
            assert(rs.take(i + 1).last() == load.records@[i as int]@);
            let record: &Record = &load.records[i];
            if evaluate_expr(&self.filter, record, vault.root.as_str(), g) {
                match file_name_of(record.path.as_str()) {
                    None => {},
                    Some(name) => {
                        let dest: String = join_path(to.as_str(), name.as_str());
                        if tree.has(dest.as_str()) || claims(&changes, name.as_str()) {
                            push_error(
                                &mut errors,
                                record.path.as_str(),
                                cat4(
                                    "move conflict: ",
                                    name.as_str(),
                                    " already exists in ",
                                    self.to_folder.as_str(),
                                ),
                            );
                        } else {
                            push_change(
                                &mut changes,
                                record.path.as_str(),
                                cat2("move to ", dest.as_str()),
                            );
                        }
                    },
                }
            }
            i += 1;
        }
        assert(rs.take(i as int) =~= rs);
        Ok(MutationReport { changes, errors })
    }

    /// Starts the move: what is planned becomes what is to be done.
    pub fn execute(self, vault: &Vault, tree: &Tree) -> (r: Result<FileRun, VaultdbError>)
        ensures
            match move_plan(
                cond(self.filter),
                self.folder@,
                self.to_folder@,
                self.recursive,
                tree@,
                vault.root@,
            ) {
                Err(e) => r is Err && r->Err_0@ == e,
                Ok(report) => r is Ok && r->Ok_0@ == started(
                    FileTask::Move,
                    below(vault.root@, self.to_folder@),
                    report,
                    self.write_options.fsync,
                    string_views(tree.folders@) + crate::vault::file_paths(tree@.files),
                ),
            },
    {
        match self.plan(vault, tree) {
            Err(e) => Err(e),
            Ok(report) => Ok(
                FileRun::start(
                    FileTask::Move,
                    join_path(vault.root.as_str(), self.to_folder.as_str()),
                    report,
                    self.write_options.fsync,
                    tree,
                ),
            ),
        }
    }
}

// ── Carrying it out ────────────────────────────────────────────────────────

/// What is to be done on the disk.
#[derive(Debug, PartialEq, Eq)]
pub enum Action {
    /// Make a folder and those above it, unless they are there.
    MakeFolder(String),
    /// Remove a file.
    RemoveFile(String),
    /// Move a file.
    MoveFile { from: String, to: String },
    /// Read a file.
    ReadFile(String),
    /// Write a file.
    WriteFile { path: String, content: String },
    /// Write down that a rename is under way.
    WriteJournal,
    /// Remove what was written down.
    DropJournal,
    /// Force the entries of a folder to stable storage.
    SyncFolder(String),
}

/// What is to be done, with its texts as sequences of characters.
#[allow(inconsistent_fields)]
pub enum Deed {
    MakeFolder(Seq<char>),
    RemoveFile(Seq<char>),
    MoveFile { from: Seq<char>, to: Seq<char> },
    ReadFile(Seq<char>),
    WriteFile { path: Seq<char>, content: Seq<char> },
    WriteJournal,
    DropJournal,
    SyncFolder(Seq<char>),
}

impl View for Action {
    type V = Deed;

    open spec fn view(&self) -> Deed {
        match *self {
            Action::MakeFolder(p) => Deed::MakeFolder(p@),
            Action::RemoveFile(p) => Deed::RemoveFile(p@),
            Action::MoveFile { from, to } => Deed::MoveFile { from: from@, to: to@ },
            Action::ReadFile(p) => Deed::ReadFile(p@),
            Action::WriteFile { path, content } => Deed::WriteFile {
                path: path@,
                content: content@,
            },
            Action::WriteJournal => Deed::WriteJournal,
            Action::DropJournal => Deed::DropJournal,
            Action::SyncFolder(p) => Deed::SyncFolder(p@),
        }
    }
}

/// What is to be done, if anything.
pub open spec fn deed_view(a: Option<Action>) -> Option<Deed> {
    match a {
        Some(a) => Some(a@),
        None => None,
    }
}

/// What came of it.
#[derive(Debug, PartialEq, Eq)]
pub enum Outcome {
    /// It was done.
    Done,
    /// The file was read.
    Text(String),
    /// The file is not there.
    Missing,
    /// It failed, with a message.
    Failed(String),
}

/// What came of it, with its texts as sequences of characters.
pub enum Came {
    Done,
    Text(Seq<char>),
    Missing,
    Failed(Seq<char>),
}

impl View for Outcome {
    type V = Came;

    open spec fn view(&self) -> Came {
        match *self {
            Outcome::Done => Came::Done,
            Outcome::Text(t) => Came::Text(t@),
            Outcome::Missing => Came::Missing,
            Outcome::Failed(e) => Came::Failed(e@),
        }
    }
}

/// The message of a failure, if there was one.
pub open spec fn failure_of(c: Came) -> Option<Seq<char>> {
    match c {
        Came::Failed(e) => Some(e),
        Came::Missing => Some("file not found"@),
        _ => None,
    }
}

/// Reads the message of a failure.
pub fn read_failure(c: &Outcome) -> (r: Option<String>)
    ensures
        match r {
            Some(e) => failure_of(c@) == Some(e@),
            None => failure_of(c@) is None,
        },
{
    match c {
        Outcome::Failed(e) => Some(e.clone()),
        Outcome::Missing => Some("file not found".to_owned()),
        _ => None,
    }
}

/// What is done with files.
#[derive(Debug, Clone, Copy, PartialEq, Eq, Structural)]
pub enum FileTask {
    /// They are removed.
    Remove,
    /// They are moved to the trash, each under a name that is free there.
    Trash,
    /// They are moved to a folder.
    Move,
}

/// Files being removed or moved, one after the other.
pub struct FileRun {
    task: FileTask,
    /// The folder that files are moved to.
    folder: String,
    changes: Vec<PlannedChange>,
    errors: Vec<MutationError>,
    fsync: bool,
    /// What is known to be there.
    taken: Vec<String>,
    /// Whether the folder was made.
    made: bool,
    /// How many files were dealt with.
    at: usize,
    /// The folders whose entries changed, in order.
    folders: Vec<String>,
    /// How many of them were forced to stable storage.
    synced: usize,
    /// Why the folder could not be made.
    failed: Option<String>,
}

/// Files being removed or moved, as sequences.
pub struct Run {
    pub task: FileTask,
    pub folder: Seq<char>,
    pub changes: Seq<(Seq<char>, Seq<char>)>,
    pub errors: Seq<(Seq<char>, Seq<char>)>,
    pub fsync: bool,
    pub taken: Seq<Seq<char>>,
    pub made: bool,
    pub at: int,
    pub folders: Seq<Seq<char>>,
    pub synced: int,
    pub failed: Option<Seq<char>>,
}

impl View for FileRun {
    type V = Run;

    closed spec fn view(&self) -> Run {
        Run {
            task: self.task,
            folder: self.folder@,
            changes: changes_view(self.changes@),
            errors: errors_view(self.errors@),
            fsync: self.fsync,
            taken: string_views(self.taken@),
            made: self.made,
            at: self.at as int,
            folders: string_views(self.folders@),
            synced: self.synced as int,
            failed: crate::schema::text_view(self.failed),
        }
    }
}

/// Files about to be removed or moved.
pub open spec fn started(
    task: FileTask,
    folder: Seq<char>,
    report: Report,
    fsync: bool,
    taken: Seq<Seq<char>>,
) -> Run {
    Run {
        task,
        folder,
        changes: report.changes,
        errors: report.errors,
        fsync,
        taken,
        made: false,
        at: 0,
        folders: seq![],
        synced: 0,
        failed: None,
    }
}

/// Whether a path is among some.
pub open spec fn has_path(taken: Seq<Seq<char>>, path: Seq<char>) -> bool {
    exists|i: int| 0 <= i < taken.len() && same_place(#[trigger] taken[i], path)
}

/// The name of a file, or a stand-in.
pub open spec fn name_or_file(path: Seq<char>) -> Seq<char> {
    match file_name(path) {
        Some(n) => n,
        None => "file"@,
    }
}

/// The name that a file gets where its own is taken, at the `n`th try.
pub open spec fn numbered(path: Seq<char>, n: nat) -> Seq<char> {
    let name = name_or_file(path);
    stem(name) + "-"@ + decimal(n) + "."@ + match extension(name) {
        Some(e) => e,
        None => "md"@,
    }
}

/// The first try from the `n`th on whose name is free in a folder, among the first
/// `limit` tries.
pub open spec fn free_number(
    taken: Seq<Seq<char>>,
    dir: Seq<char>,
    path: Seq<char>,
    n: nat,
    limit: nat,
) -> nat
    decreases limit - n,
{
    if n < limit && has_path(taken, below(dir, numbered(path, n))) {
        free_number(taken, dir, path, n + 1, limit)
    } else {
        n
    }
}

/// Where a file goes in a folder: under its own name where that is free, and else
/// under the first numbered name that is.
pub open spec fn free_place(taken: Seq<Seq<char>>, dir: Seq<char>, path: Seq<char>) -> Seq<char> {
    if has_path(taken, below(dir, name_or_file(path))) {
        below(
            dir,
            numbered(path, free_number(taken, dir, path, 1, taken.len())),
        )
    } else {
        below(dir, name_or_file(path))
    }
}

/// Tells whether a path is among some.
pub fn is_among(taken: &Vec<String>, path: &str) -> (r: bool)
    ensures
        r == has_path(string_views(taken@), path@),
{
    let ghost all = string_views(taken@);
    let mut i: usize = 0;
    while i < taken.len()
        invariant
            all == string_views(taken@),
            i <= taken.len(),
            forall|k: int| 0 <= k < i ==> !same_place(#[trigger] all[k], path@),
        decreases taken.len() - i,
    {
        if is_same_place(taken[i].as_str(), path) {
            assert(same_place(all[i as int], path@));
            return true;
        }
        i += 1;
    }
    false
}

/// Makes the name that a file gets where its own is taken.
fn number_name(path: &str, n: u64) -> (r: String)
    ensures
        r@ == numbered(path@, n as nat),
{
    let name: String = match file_name_of(path) {
        Some(n) => n,
        None => "file".to_owned(),
    };
    let ext: String = match extension_of(name.as_str()) {
        Some(e) => e,
        None => "md".to_owned(),
    };
    cat5(
        stem_of(name.as_str()).as_str(),
        "-",
        number_text(n).as_str(),
        ".",
        ext.as_str(),
    )
}

/// Finds where a file goes in a folder without taking a place that is taken.
pub fn unique_in_dir(dir: &str, src: &str, taken: &Vec<String>) -> (r: String)
    ensures
        r@ == free_place(string_views(taken@), dir@, src@),
{
    let ghost tv = string_views(taken@);
    let name: String = match file_name_of(src) {
        Some(n) => n,
        None => "file".to_owned(),
    };
    let own: String = join_path(dir, name.as_str());
    if !is_among(taken, own.as_str()) {
        return own;
    }
    assert(tv.len() > 0);
    let limit: u64 = taken.len() as u64;
    let mut n: u64 = 1;
    loop
        invariant
            tv == string_views(taken@),
            limit == taken.len(),
            1 <= n <= limit,
            has_path(tv, below(dir@, name_or_file(src@))),
            free_number(tv, dir@, src@, 1, limit as nat) == free_number(
                tv,
                dir@,
                src@,
                n as nat,
                limit as nat,
            ),
        decreases limit - n,
    {
        let path: String = join_path(dir, number_name(src, n).as_str());
        if n >= limit || !is_among(taken, path.as_str()) {
            return path;
        }
        n += 1;
    }
}

/// Folders in order with one more, unless it is there.
pub open spec fn with_folder(folders: Seq<Seq<char>>, d: Seq<char>) -> Seq<Seq<char>>
    decreases folders.len(),
{
    if folders.len() == 0 {
        seq![d]
    } else if same_place(folders.last(), d) {
        folders
    } else if path_order(folders.last(), d) == Order::Greater {
        with_folder(folders.drop_last(), d).push(folders.last())
    } else {
        folders.push(d)
    }
}

/// Folders in order with the one that a path lies in.
pub open spec fn with_parent(folders: Seq<Seq<char>>, path: Seq<char>) -> Seq<Seq<char>> {
    if components(path).len() > 0 {
        with_folder(folders, ancestor(path, components(path).len() - 1))
    } else {
        folders
    }
}

/// Puts a folder among others, unless it is there.
pub fn insert_folder(folders: &mut Vec<String>, d: &str)
    ensures
        string_views(final(folders)@) == with_folder(string_views(old(folders)@), d@),
{
    let ghost before = string_views(folders@);
    let ghost start = folders@;
    let mut j: usize = folders.len();
    assert(before.take(j as int) =~= before);
    assert(with_folder(before.take(j as int), d@) + before.skip(j as int) =~= with_folder(
        before,
        d@,
    ));
    while j > 0
        invariant
            folders@ == start,
            start == old(folders)@,
            before == string_views(start),
            j <= folders.len(),
            with_folder(before.take(j as int), d@) + before.skip(j as int) == with_folder(
                before,
                d@,
            ),
        decreases j,
    {
        let ghost head = before.take(j as int);
        assert(head.drop_last() =~= before.take(j - 1));
        assert(head.last() == folders@[j - 1]@);
        if is_same_place(folders[j - 1].as_str(), d) {
            assert(head + before.skip(j as int) =~= before);
            return ;
        }
        if order_paths(folders[j - 1].as_str(), d) != Order::Greater {
            let x: String = d.to_owned();
            folders.insert(j, x);
            assert(string_views(folders@) =~= head.push(d@) + before.skip(j as int));
            return ;
        }
        assert(with_folder(before.take(j - 1), d@).push(before[j - 1]) + before.skip(j as int)
            =~= with_folder(before.take(j - 1), d@) + before.skip(j - 1));
        j -= 1;
    }
    let x: String = d.to_owned();
    folders.insert(0, x);
    assert(before.take(0) =~= seq![]);
    assert(string_views(folders@) =~= seq![d@] + before.skip(0));
}

/// Puts the folder that a path lies in among others.
pub fn insert_parent(folders: &mut Vec<String>, path: &str)
    ensures
        string_views(final(folders)@) == with_parent(string_views(old(folders)@), path@),
{
    let cs: Vec<Vec<char>> = path_components(path);
    assert(views(cs@).len() == cs.len());
    if cs.len() > 0 {
        insert_folder(folders, find_ancestor(path, cs.len() - 1).as_str());
    }
}

/// Where the file at hand goes.
pub open spec fn destination(r: Run) -> Seq<char> {
    let path = r.changes[r.at].0;
    match r.task {
        FileTask::Trash => free_place(r.taken, r.folder, path),
        _ => below(r.folder, name_or_file(path)),
    }
}

/// Whether the folder that files go to is still to be made.
pub open spec fn wants_folder(r: Run) -> bool {
    r.task != FileTask::Remove && !r.made && r.changes.len() > 0
}

/// What is to be done next.
pub open spec fn run_next(r: Run) -> Option<Deed> {
    if r.failed is Some {
        None
    } else if wants_folder(r) {
        Some(Deed::MakeFolder(r.folder))
    } else if r.at < r.changes.len() {
        match r.task {
            FileTask::Remove => Some(Deed::RemoveFile(r.changes[r.at].0)),
            _ => Some(Deed::MoveFile { from: r.changes[r.at].0, to: destination(r) }),
        }
    } else if r.fsync && r.synced < r.folders.len() {
        Some(Deed::SyncFolder(r.folders[r.synced]))
    } else {
        None
    }
}

/// What messages about a file start with.
pub open spec fn task_failed(task: FileTask) -> Seq<char> {
    match task {
        FileTask::Remove => "remove failed: "@,
        FileTask::Trash => "trash failed: "@,
        FileTask::Move => "rename failed: "@,
    }
}

/// How things stand once it came to something.
pub open spec fn run_after(r: Run, c: Came) -> Run {
    let failure = failure_of(c);
    if r.failed is Some {
        r
    } else if wants_folder(r) {
        match failure {
            Some(e) => Run { failed: Some(e), ..r },
            None => Run { made: true, ..r },
        }
    } else if r.at < r.changes.len() {
        let path = r.changes[r.at].0;
        match failure {
            Some(e) => Run {
                at: r.at + 1,
                errors: r.errors.push((path, task_failed(r.task) + e)),
                ..r
            },
            None => match r.task {
                FileTask::Remove => Run {
                    at: r.at + 1,
                    folders: with_parent(r.folders, path),
                    ..r
                },
                _ => Run {
                    at: r.at + 1,
                    folders: with_folder(with_parent(r.folders, path), r.folder),
                    taken: r.taken.push(destination(r)),
                    ..r
                },
            },
        }
    } else if r.fsync && r.synced < r.folders.len() {
        match failure {
            Some(e) => Run {
                synced: r.synced + 1,
                errors: r.errors.push((r.folders[r.synced], "fsync_dir failed: "@ + e)),
                ..r
            },
            None => Run { synced: r.synced + 1, ..r },
        }
    } else {
        r
    }
}

impl FileRun {
    /// Whether what changes is forced to stable storage.
    pub fn fsync(&self) -> (r: bool)
        ensures
            r == self@.fsync,
    {
        self.fsync
    }

    /// Starts removing or moving files.
    pub fn start(task: FileTask, folder: String, report: MutationReport, fsync: bool, tree: &Tree)
        -> (r: Self)
        ensures
            r@ == started(
                task,
                folder@,
                report@,
                fsync,
                string_views(tree.folders@) + crate::vault::file_paths(tree@.files),
            ),
    {
        let mut taken: Vec<String> = crate::text::copy_strings(&tree.folders);
        let ghost before = string_views(taken@);
        let ghost paths = crate::vault::file_paths(tree@.files);
        let mut i: usize = 0;
        assert(string_views(taken@) =~= before + paths.take(0));
        while i < tree.files.len()
            invariant
                paths == crate::vault::file_paths(tree@.files),
                i <= tree.files.len(),
                string_views(taken@) == before + paths.take(i as int),
            decreases tree.files.len() - i,
        {
            let t: String = tree.files[i].path.clone();
            proof {
                lemma_string_views_push(taken@, t);
            }
            taken.push(t);
            i += 1;
            assert(string_views(taken@) =~= before + paths.take(i as int));
        }
        assert(paths.take(i as int) =~= paths);
        let r = FileRun {
            task,
            folder,
            changes: report.changes,
            errors: report.errors,
            fsync,
            taken,
            made: false,
            at: 0,
            folders: Vec::new(),
            synced: 0,
            failed: None,
        };
        assert(r@.folders =~= seq![]);
        r
    }

    /// Where the file at hand goes.
    fn find_destination(&self) -> (r: String)
        requires
            self.at < self.changes.len(),
        ensures
            r@ == destination(self@),
    {
        let path: &str = self.changes[self.at].path.as_str();
        match self.task {
            FileTask::Trash => unique_in_dir(self.folder.as_str(), path, &self.taken),
            _ => {
                let name: String = match file_name_of(path) {
                    Some(n) => n,
                    None => "file".to_owned(),
                };
                join_path(self.folder.as_str(), name.as_str())
            },
        }
    }

    /// Tells what is to be done next; nothing once all is done.
    pub fn next(&self) -> (r: Option<Action>)
        ensures
            deed_view(r) == run_next(self@),
    {
        if self.failed.is_some() {
            return None;
        }
        if self.task != FileTask::Remove && !self.made && self.changes.len() > 0 {
            return Some(Action::MakeFolder(self.folder.clone()));
        }
        if self.at < self.changes.len() {
            let path: String = self.changes[self.at].path.clone();
            return match self.task {
                FileTask::Remove => Some(Action::RemoveFile(path)),
                _ => Some(Action::MoveFile { from: path, to: self.find_destination() }),
            };
        }
        if self.fsync && self.synced < self.folders.len() {
            return Some(Action::SyncFolder(self.folders[self.synced].clone()));
        }
        None
    }

    /// Takes what came of what was to be done.
    pub fn done(&mut self, outcome: &Outcome)
        ensures
            final(self)@ == run_after(old(self)@, outcome@),
    {
        if self.failed.is_some() {
            return ;
        }
        let failure: Option<String> = read_failure(outcome);
        if self.task != FileTask::Remove && !self.made && self.changes.len() > 0 {
            match failure {
                Some(e) => {
                    self.failed = Some(e);
                },
                None => {
                    self.made = true;
                },
            }
            return ;
        }
        if self.at < self.changes.len() {
            let path: String = self.changes[self.at].path.clone();
            match failure {
                Some(e) => {
                    let head: &str = match self.task {
                        FileTask::Remove => "remove failed: ",
                        FileTask::Trash => "trash failed: ",
                        FileTask::Move => "rename failed: ",
                    };
                    push_error(&mut self.errors, path.as_str(), cat2(head, e.as_str()));
                },
                None => {
                    match self.task {
                        FileTask::Remove => {
                            insert_parent(&mut self.folders, path.as_str());
                        },
                        _ => {
                            let to: String = self.find_destination();
                            insert_parent(&mut self.folders, path.as_str());
                            insert_folder(&mut self.folders, self.folder.as_str());
                            proof {
                                lemma_string_views_push(self.taken@, to);
                            }
                            self.taken.push(to);
                        },
                    }
                },
            }
            self.at += 1;
            return ;
        }
        if self.fsync && self.synced < self.folders.len() {
            match failure {
                Some(e) => {
                    let d: String = self.folders[self.synced].clone();
                    push_error(
                        &mut self.errors,
                        d.as_str(),
                        cat2("fsync_dir failed: ", e.as_str()),
                    );
                },
                None => {},
            }
            self.synced += 1;
        }
    }

    /// What it all came to.
    pub fn finish(self) -> (r: Result<MutationReport, VaultdbError>)
        ensures
            report_view(r) == match self@.failed {
                Some(e) => Err::<Report, Failure>(Failure::Io(e)),
                None => Ok(Report { changes: self@.changes, errors: self@.errors }),
            },
    {
        match self.failed {
            Some(e) => Err(VaultdbError::Io(e)),
            None => Ok(MutationReport { changes: self.changes, errors: self.errors }),
        }
    }
}

} // verus!
