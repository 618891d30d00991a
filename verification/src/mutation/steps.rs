//! How renames and replays go on, step by step.

use crate::journal::{
    is_journal, journals_among, replay_after, replay_next, replay_start, rewritten, with_path,
    Journal, Phase, Replay,
};
use crate::links::laws::lemma_contains_push;
use crate::mutation::laws::is_plain_component;
use crate::mutation::relocate::{
    free_place, has_path, name_or_file, numbered, run_after, run_next, Came, Deed, FileTask, Run,
};
use crate::mutation::rename::{rename_after, rename_next, rename_start, Rename, Stage};
use crate::mutation::Report;
use crate::path::{below, file_name};
use crate::path::laws::{law_component_is_added, law_extensions};
use vstd::prelude::*;

verus! {

// ── Renames ────────────────────────────────────────────────────────────────

/// A rename that the plan found a fault with does nothing; any other starts by writing the
/// journal, and moves the note only once that is written.
pub proof fn law_renames_start(journal: Journal, report: Report, fsync: bool, e: Seq<char>)
    ensures
        report.errors.len() > 0 ==> rename_next(rename_start(journal, report, fsync)) is None,
        report.errors.len() == 0 ==> {
            let r = rename_start(journal, report, fsync);
            &&& rename_next(r) == Some(Deed::WriteJournal)
            &&& rename_next(rename_after(r, Came::Done)) == Some(
                Deed::MoveFile { from: journal.source, to: journal.dest },
            )
            &&& rename_next(rename_after(r, Came::Failed(e))) is None
        },
{
}

/// A note that cannot be moved is a failure that is told, and the journal is removed: no link is
/// rewritten. Once it is moved, the files with links are read one after the other.
pub proof fn law_moved_notes(r: Rename, e: Seq<char>)
    requires
        r.stage == Stage::Move,
    ensures
        rename_next(rename_after(r, Came::Failed(e))) == Some(Deed::DropJournal),
        rename_after(r, Came::Failed(e)).errors == r.errors.push(
            (r.journal.source, "rename failed: "@ + e),
        ),
        r.journal.backlinks.len() > 0 ==> rename_next(rename_after(r, Came::Done)) == Some(
            Deed::ReadFile(r.journal.backlinks[0]),
        ),
        rename_after(r, Came::Done).errors == r.errors,
{
}

/// A file with links is written with them leading to the new name, unless that leaves it as it
/// is; then the next file is read. One that cannot be read or written is a failure that is told,
/// and the others follow all the same.
pub proof fn law_links_are_rewritten(r: Rename, i: int, t: Seq<char>, e: Seq<char>)
    requires
        0 <= i,
        i + 1 < r.journal.backlinks.len(),
    ensures
        r.stage == Stage::Read(i) ==> {
            let new = rewritten(t, r.journal.from_name, r.journal.to_name);
            &&& new != t ==> rename_next(rename_after(r, Came::Text(t))) == Some(
                Deed::WriteFile { path: r.journal.backlinks[i], content: new },
            )
            &&& new == t ==> rename_next(rename_after(r, Came::Text(t))) == Some(
                Deed::ReadFile(r.journal.backlinks[i + 1]),
            )
            &&& rename_next(rename_after(r, Came::Failed(e))) == Some(
                Deed::ReadFile(r.journal.backlinks[i + 1]),
            )
            &&& rename_after(r, Came::Failed(e)).errors == r.errors.push(
                (r.journal.backlinks[i], "read failed: "@ + e),
            )
        },
        r.stage == Stage::Write(i, t) ==> {
            &&& rename_next(rename_after(r, Came::Done)) == Some(
                Deed::ReadFile(r.journal.backlinks[i + 1]),
            )
            &&& rename_after(r, Came::Done).errors == r.errors
            &&& rename_next(rename_after(r, Came::Failed(e))) == Some(
                Deed::ReadFile(r.journal.backlinks[i + 1]),
            )
            &&& rename_after(r, Came::Failed(e)).errors == r.errors.push(
                (r.journal.backlinks[i], "write failed: "@ + e),
            )
        },
{
}

/// Once the links are rewritten, the folders are forced to stable storage where that is asked
/// for, and a folder that cannot be is a failure that is told. Once the journal is removed, all
/// is done.
pub proof fn law_renames_end(r: Rename, i: int, t: Seq<char>, e: Seq<char>)
    requires
        0 <= i,
    ensures
        r.stage == Stage::Write(i, t) && i + 1 == r.journal.backlinks.len() && r.fsync
            && r.folders.len() > 0 ==> rename_next(rename_after(r, Came::Done)) == Some(
            Deed::SyncFolder(r.folders[0]),
        ),
        r.stage == Stage::Write(i, t) && i + 1 == r.journal.backlinks.len() && !r.fsync
            && r.errors.len() == 0 ==> rename_next(rename_after(r, Came::Done)) == Some(
            Deed::DropJournal,
        ),
        r.stage == Stage::Sync(i) && i + 1 < r.folders.len() && r.fsync ==> rename_next(
            rename_after(r, Came::Done),
        ) == Some(Deed::SyncFolder(r.folders[i + 1])),
        r.stage == Stage::Sync(i) ==> rename_after(r, Came::Failed(e)).errors == r.errors.push(
            (r.folders[i], "fsync_dir failed: "@ + e),
        ),
        r.stage == Stage::Drop ==> rename_next(rename_after(r, Came::Done)) is None,
{
}

// ── Replays ────────────────────────────────────────────────────────────────

/// A replay moves the note if only its old place is there, has nothing to do but to remove the
/// journal if neither place is, and else reads the files with links.
pub proof fn law_replays_start(j: Journal)
    ensures
        replay_next(replay_start(j, true, false)) == Some(
            Deed::MoveFile { from: j.source, to: j.dest },
        ),
        replay_next(replay_start(j, false, false)) == Some(Deed::DropJournal),
        j.backlinks.len() > 0 ==> replay_next(replay_start(j, false, true)) == Some(
            Deed::ReadFile(j.backlinks[0]),
        ) && replay_next(replay_start(j, true, true)) == Some(Deed::ReadFile(j.backlinks[0])),
        j.backlinks.len() == 0 ==> replay_next(replay_start(j, false, true)) == Some(
            Deed::DropJournal,
        ),
{
}

/// A replay stops where the note cannot be moved, and the journal stays; a file that is gone is
/// passed over, and one that cannot be read or written is kept in mind.
pub proof fn law_replays_go_on(r: Replay, i: int, t: Seq<char>, e: Seq<char>)
    requires
        0 <= i,
        i + 1 < r.journal.backlinks.len(),
    ensures
        r.phase == Phase::Move ==> replay_next(replay_after(r, Came::Failed(e))) is None
            && replay_next(replay_after(r, Came::Done)) == Some(
            Deed::ReadFile(r.journal.backlinks[0]),
        ),
        r.phase == Phase::Read(i) ==> {
            let new = rewritten(t, r.journal.from_name, r.journal.to_name);
            &&& new != t ==> replay_next(replay_after(r, Came::Text(t))) == Some(
                Deed::WriteFile { path: r.journal.backlinks[i], content: new },
            )
            &&& replay_next(replay_after(r, Came::Missing)) == Some(
                Deed::ReadFile(r.journal.backlinks[i + 1]),
            )
            &&& replay_after(r, Came::Missing).last_error == r.last_error
            &&& replay_after(r, Came::Failed(e)).last_error == Some(e)
        },
        r.phase == Phase::Write(i, t) ==> {
            &&& replay_next(replay_after(r, Came::Done)) == Some(
                Deed::ReadFile(r.journal.backlinks[i + 1]),
            )
            &&& replay_after(r, Came::Done).last_error == r.last_error
            &&& replay_after(r, Came::Failed(e)).last_error == Some(e)
        },
        r.phase == Phase::Drop ==> replay_next(replay_after(r, Came::Done)) is None,
{
}

/// The journals among the files of a folder are those with the extension `json`, and all of
/// those.
pub proof fn law_journals_are_found(paths: Seq<Seq<char>>, p: Seq<char>)
    ensures
        journals_among(paths).contains(p) <==> paths.contains(p) && is_journal(p),
    decreases paths.len(),
{
    if paths.len() > 0 {
        let init = paths.drop_last();
        law_journals_are_found(init, p);
        assert(paths =~= init.push(paths.last()));
        lemma_contains_push(init, paths.last(), p);
        if is_journal(paths.last()) {
            lemma_with_path(journals_among(init), paths.last(), p);
        }
    }
}

/// Paths in order with one more are those and the one.
proof fn lemma_with_path(paths: Seq<Seq<char>>, x: Seq<char>, p: Seq<char>)
    ensures
        with_path(paths, x).contains(p) <==> paths.contains(p) || x == p,
    decreases paths.len(),
{
    lemma_contains_push(paths, x, p);
    if paths.len() > 0 {
        let init = paths.drop_last();
        lemma_with_path(init, x, p);
        assert(paths =~= init.push(paths.last()));
        lemma_contains_push(init, paths.last(), p);
        lemma_contains_push(with_path(init, x), paths.last(), p);
    }
}

/// A file is a journal exactly if its extension is `json`.
pub proof fn law_journal_files(dir: Seq<char>, base: Seq<char>, e: Seq<char>)
    requires
        is_plain_component(base + "."@ + e),
        base + "."@ + e != ".."@,
        base.len() > 0,
        !e.contains('.'),
    ensures
        is_journal(below(dir, base + "."@ + e)) <==> e == "json"@,
{
    let file = base + "."@ + e;
    law_component_is_added(dir, file, file);
    law_extensions(base, e);
}

// ── Files that are removed or moved ────────────────────────────────────────

/// Files that are removed are removed one after the other. Files that are moved are moved once
/// their folder is made; where it cannot be, nothing is.
pub proof fn law_files_are_dealt_with(r: Run, e: Seq<char>)
    requires
        r.failed is None,
        0 <= r.at < r.changes.len(),
    ensures
        r.task == FileTask::Remove ==> run_next(r) == Some(Deed::RemoveFile(r.changes[r.at].0)),
        r.task != FileTask::Remove && !r.made ==> run_next(r) == Some(Deed::MakeFolder(r.folder))
            && run_next(run_after(r, Came::Failed(e))) is None && run_after(
            r,
            Came::Failed(e),
        ).failed == Some(e) && run_after(r, Came::Done).made,
        r.task == FileTask::Move && r.made ==> run_next(r) == Some(
            Deed::MoveFile {
                from: r.changes[r.at].0,
                to: below(r.folder, name_or_file(r.changes[r.at].0)),
            },
        ),
        r.task == FileTask::Trash && r.made ==> run_next(r) == Some(
            Deed::MoveFile {
                from: r.changes[r.at].0,
                to: free_place(r.taken, r.folder, r.changes[r.at].0),
            },
        ),
{
}

/// A file that cannot be removed or moved is a failure that is told with its path, and the next
/// one follows; a file that was moved takes the place that it went to.
pub proof fn law_files_that_fail(r: Run, e: Seq<char>)
    requires
        r.failed is None,
        0 <= r.at < r.changes.len(),
        r.task == FileTask::Remove || r.made,
    ensures
        run_after(r, Came::Failed(e)).at == r.at + 1,
        run_after(r, Came::Done).at == r.at + 1,
        run_after(r, Came::Done).errors == r.errors,
        run_after(r, Came::Failed(e)).taken == r.taken,
        r.task == FileTask::Remove ==> run_after(r, Came::Failed(e)).errors == r.errors.push(
            (r.changes[r.at].0, "remove failed: "@ + e),
        ),
        r.task == FileTask::Trash ==> run_after(r, Came::Failed(e)).errors == r.errors.push(
            (r.changes[r.at].0, "trash failed: "@ + e),
        ) && run_after(r, Came::Done).taken == r.taken.push(
            free_place(r.taken, r.folder, r.changes[r.at].0),
        ),
        r.task == FileTask::Move ==> run_after(r, Came::Failed(e)).errors == r.errors.push(
            (r.changes[r.at].0, "rename failed: "@ + e),
        ),
{
}

/// Once all files were dealt with, the folders whose entries changed are forced to stable
/// storage where that is asked for, and then nothing is left to do.
pub proof fn law_folders_are_forced(r: Run, e: Seq<char>)
    requires
        r.failed is None,
        r.at == r.changes.len(),
        r.task == FileTask::Remove || r.made,
        0 <= r.synced <= r.folders.len(),
    ensures
        r.fsync && r.synced < r.folders.len() ==> run_next(r) == Some(
            Deed::SyncFolder(r.folders[r.synced]),
        ) && run_after(r, Came::Done).synced == r.synced + 1 && run_after(
            r,
            Came::Failed(e),
        ).errors == r.errors.push((r.folders[r.synced], "fsync_dir failed: "@ + e)),
        !r.fsync || r.synced == r.folders.len() ==> run_next(r) is None,
{
}

/// A file goes to the trash under its own name where that is free, and else with the number one
/// behind it where that is.
pub proof fn law_places_in_the_trash(
    taken: Seq<Seq<char>>,
    dir: Seq<char>,
    path: Seq<char>,
    name: Seq<char>,
)
    requires
        file_name(path) == Some(name),
    ensures
        !has_path(taken, below(dir, name)) ==> free_place(taken, dir, path) == below(dir, name),
        has_path(taken, below(dir, name)) && !has_path(taken, below(dir, numbered(path, 1)))
            ==> free_place(taken, dir, path) == below(dir, numbered(path, 1)),
{
}

} // verus!
