//! Runs as a whole: what is on disk once every step of one was done.
//!
//! A run tells what is to be done next and takes what came of it. Here its steps are
//! done on a picture of the disk on which nothing fails.

use crate::journal::{
    is_plain_name, journals_among, law_rewritten_twice, recovery_after, recovery_next,
    recovery_start, replay_after, replay_fault, replay_next, replay_start, rewrite_from, rewritten,
    with_path, is_journal, Journal, Phase, Replay, Sweep,
};
use crate::error::Failure;
use crate::frontmatter::note_of;
use crate::links::{graph_of, sources, Graph};
use crate::mutation::create::{create_plan, Creation};
use crate::mutation::laws::{
    is_plain_component, law_create_is_new, law_move_is_free, law_place_is_free,
    law_update_touches_matches, lemma_last_component, lemma_named, lemma_parts_lack,
};
use crate::mutation::relocate::{
    delete_plan, deletions, destination, has_path, move_all, move_plan, name_or_file, run_after,
    run_next, started, wants_folder, Came, Deed, FileTask, Run,
};
use crate::mutation::rename::{
    changes_under, link_changes, links_from_file, rename_after, rename_journal, rename_next,
    rename_plan, rename_start, sync_from, Rename, Stage,
};
use crate::mutation::{graph_if_used, update_all, update_plan, Plan, Report, Update, Write};
use crate::path::{below, components, file_name};
use crate::query::Cond;
use crate::record::{content_of, Rec};
use crate::text::{split_by, Order};
use crate::tree::{
    file_at, has_folder, is_note, is_taken, lies_in, notes_in, path_order, same_place, with_file,
    FileView, Picture,
};
use crate::tree::laws::law_paths_are_ordered;
use crate::vault::{file_paths, loaded};
use vstd::prelude::*;

verus! {

/// What is on disk: the texts of files by path, and the journals of renames under way.
pub struct Disk {
    pub files: Map<Seq<char>, Seq<char>>,
    pub journals: Map<Seq<char>, Journal>,
}

/// What a step makes of what is on disk, and what comes of it, where nothing fails.
pub open spec fn performed(s: Disk, d: Deed) -> (Disk, Came) {
    match d {
        Deed::RemoveFile(p) => (Disk { files: s.files.remove(p), ..s }, Came::Done),
        Deed::MoveFile { from, to } => (
            Disk { files: s.files.remove(from).insert(to, s.files[from]), ..s },
            Came::Done,
        ),
        Deed::ReadFile(p) => (
            s,
            if s.files.contains_key(p) {
                Came::Text(s.files[p])
            } else {
                Came::Missing
            },
        ),
        Deed::WriteFile { path, content } => (
            Disk { files: s.files.insert(path, content), ..s },
            Came::Done,
        ),
        _ => (s, Came::Done),
    }
}

/// What a step of a run with a journal makes of what is on disk, and what comes of it;
/// the journal lies at `at`.
pub open spec fn journalled(s: Disk, at: Seq<char>, journal: Journal, d: Deed) -> (Disk, Came) {
    match d {
        Deed::WriteJournal => (Disk { journals: s.journals.insert(at, journal), ..s }, Came::Done),
        Deed::DropJournal => (Disk { journals: s.journals.remove(at), ..s }, Came::Done),
        _ => performed(s, d),
    }
}

// ── Replaying a journal ────────────────────────────────────────────────────

/// How many steps a replay has before it at most.
pub open spec fn replay_steps(r: Replay) -> nat {
    let n = r.journal.backlinks.len() as int;
    match r.phase {
        Phase::Move => (2 * n + 4) as nat,
        Phase::Read(i) => if i < n {
            (2 * (n - i) + 3) as nat
        } else {
            3
        },
        Phase::Write(i, _) => if i < n {
            (2 * (n - i) + 2) as nat
        } else {
            2
        },
        Phase::Drop => 1,
        _ => 0,
    }
}

/// A replay of the journal at a path, done to its end.
pub open spec fn replay_whole(s: Disk, at: Seq<char>, r: Replay) -> (Disk, Replay)
    decreases replay_steps(r),
{
    match replay_next(r) {
        None => (s, r),
        Some(d) => {
            let (then, came) = journalled(s, at, r.journal, d);
            replay_whole(then, at, replay_after(r, came))
        },
    }
}

/// Files with the links of some of them leading to another note.
pub open spec fn relinked(
    files: Map<Seq<char>, Seq<char>>,
    some: Seq<Seq<char>>,
    from: Seq<char>,
    to: Seq<char>,
) -> Map<Seq<char>, Seq<char>> {
    Map::new(
        |p: Seq<char>| files.contains_key(p),
        |p: Seq<char>|
            if some.contains(p) {
                rewritten(files[p], from, to)
            } else {
                files[p]
            },
    )
}

/// What a replay leaves: the note at its new place and the links to it rewritten, and
/// all else as it was; nothing changes where the note is at neither place.
pub open spec fn after_replay(files: Map<Seq<char>, Seq<char>>, j: Journal) -> Map<
    Seq<char>,
    Seq<char>,
> {
    let source_there = files.contains_key(j.source);
    let dest_there = files.contains_key(j.dest);
    if !source_there && !dest_there {
        files
    } else if source_there && !dest_there {
        relinked(
            files.remove(j.source).insert(j.dest, files[j.source]),
            j.backlinks,
            j.from_name,
            j.to_name,
        )
    } else {
        relinked(files, j.backlinks, j.from_name, j.to_name)
    }
}

/// Whether no file of a journal is rewritten twice, or it does not matter.
pub open spec fn is_steady(j: Journal) -> bool {
    j.backlinks.no_duplicates() || (is_plain_name(j.from_name) && is_plain_name(j.to_name))
}

/// The links of one more file.
proof fn lemma_relinked_one(
    files: Map<Seq<char>, Seq<char>>,
    now: Map<Seq<char>, Seq<char>>,
    j: Journal,
    i: int,
)
    requires
        0 <= i < j.backlinks.len(),
        is_steady(j),
        now == relinked(files, j.backlinks.take(i), j.from_name, j.to_name),
        now.contains_key(j.backlinks[i]),
    ensures
        now.insert(
            j.backlinks[i],
            rewritten(now[j.backlinks[i]], j.from_name, j.to_name),
        ) == relinked(files, j.backlinks.take(i + 1), j.from_name, j.to_name),
{
    let p = j.backlinks[i];
    let before = j.backlinks.take(i);
    let after = j.backlinks.take(i + 1);
    let out = now.insert(p, rewritten(now[p], j.from_name, j.to_name));
    let want = relinked(files, after, j.from_name, j.to_name);
    assert(after[i] == p);
    assert forall|q: Seq<char>| files.contains_key(q) implies out[q] == want[q] by {
        if q == p {
            assert(after.contains(p));
            if before.contains(p) {
                let k = choose|k: int| 0 <= k < before.len() && before[k] == p;
                assert(j.backlinks[k] == p);
                law_rewritten_twice(files[p], j.from_name, j.to_name);
            }
        } else {
            if before.contains(q) {
                let k = choose|k: int| 0 <= k < before.len() && before[k] == q;
                assert(after[k] == q);
            }
            if after.contains(q) {
                let k = choose|k: int| 0 <= k < after.len() && after[k] == q;
                assert(before[k] == q);
            }
        }
    }
    assert(out =~= want);
}

/// A file that is not there has no links to rewrite.
proof fn lemma_relinked_none(
    files: Map<Seq<char>, Seq<char>>,
    j: Journal,
    i: int,
)
    requires
        0 <= i < j.backlinks.len(),
        !files.contains_key(j.backlinks[i]),
    ensures
        relinked(files, j.backlinks.take(i), j.from_name, j.to_name) == relinked(
            files,
            j.backlinks.take(i + 1),
            j.from_name,
            j.to_name,
        ),
{
    let before = j.backlinks.take(i);
    let after = j.backlinks.take(i + 1);
    assert forall|q: Seq<char>| files.contains_key(q) implies before.contains(q) == after.contains(
        q,
    ) by {
        if before.contains(q) {
            let k = choose|k: int| 0 <= k < before.len() && before[k] == q;
            assert(after[k] == q);
        }
        if after.contains(q) {
            let k = choose|k: int| 0 <= k < after.len() && after[k] == q;
            assert(before[k] == q);
        }
    }
    assert(relinked(files, before, j.from_name, j.to_name) =~= relinked(
        files,
        after,
        j.from_name,
        j.to_name,
    ));
}

/// A replay from a file on rewrites the links of the rest and drops the journal.
proof fn lemma_replay_from(s: Disk, at: Seq<char>, r: Replay, files: Map<Seq<char>, Seq<char>>, i: int)
    requires
        0 <= i <= r.journal.backlinks.len(),
        r == rewrite_from(r, i),
        r.last_error is None,
        is_steady(r.journal),
        s.files == relinked(files, r.journal.backlinks.take(i), r.journal.from_name, r.journal.to_name),
    ensures
        ({
            let (then, end) = replay_whole(s, at, r);
            &&& then.files == relinked(
                files,
                r.journal.backlinks,
                r.journal.from_name,
                r.journal.to_name,
            )
            &&& then.journals == s.journals.remove(at)
            &&& end.phase == Phase::Finished
            &&& replay_fault(end) is None
        }),
    decreases r.journal.backlinks.len() - i,
{
    let j = r.journal;
    if i < j.backlinks.len() {
        let p = j.backlinks[i];
        let (same, came) = journalled(s, at, j, Deed::ReadFile(p));
        let next = replay_after(r, came);
        let rest = rewrite_from(r, i + 1);
        assert(replay_whole(s, at, r) == replay_whole(s, at, next));
        if s.files.contains_key(p) {
            let text = s.files[p];
            let new = rewritten(text, j.from_name, j.to_name);
            lemma_relinked_one(files, s.files, j, i);
            if new == text {
                assert(s.files.insert(p, new) =~= s.files);
                lemma_replay_from(s, at, rest, files, i + 1);
            } else {
                let (then, done) = journalled(
                    s,
                    at,
                    j,
                    Deed::WriteFile { path: p, content: new },
                );
                assert(next.phase == Phase::Write(i, new));
                assert(replay_next(next) == Some(Deed::WriteFile { path: p, content: new }));
                assert(replay_after(next, done) == rest);
                assert(replay_whole(s, at, next) == replay_whole(then, at, rest));
                lemma_replay_from(then, at, rest, files, i + 1);
            }
        } else {
            lemma_relinked_none(files, j, i);
            lemma_replay_from(s, at, rest, files, i + 1);
        }
    } else {
        assert(j.backlinks.take(i) =~= j.backlinks);
        let (then, done) = journalled(s, at, j, Deed::DropJournal);
        let end = replay_after(r, done);
        assert(replay_whole(s, at, r) == replay_whole(then, at, end));
        assert(replay_whole(then, at, end) == (then, end));
    }
}

/// A replay from a file on comes to its end and drops the journal.
proof fn lemma_replay_ends_from(s: Disk, at: Seq<char>, r: Replay, i: int)
    requires
        0 <= i <= r.journal.backlinks.len(),
        r == rewrite_from(r, i),
        r.last_error is None,
    ensures
        ({
            let (then, end) = replay_whole(s, at, r);
            &&& then.journals == s.journals.remove(at)
            &&& end.phase == Phase::Finished
            &&& replay_fault(end) is None
        }),
    decreases r.journal.backlinks.len() - i,
{
    let j = r.journal;
    if i < j.backlinks.len() {
        let p = j.backlinks[i];
        let (same, came) = journalled(s, at, j, Deed::ReadFile(p));
        let next = replay_after(r, came);
        let rest = rewrite_from(r, i + 1);
        assert(replay_whole(s, at, r) == replay_whole(s, at, next));
        if s.files.contains_key(p) && rewritten(s.files[p], j.from_name, j.to_name) != s.files[p] {
            let new = rewritten(s.files[p], j.from_name, j.to_name);
            let (then, done) = journalled(s, at, j, Deed::WriteFile { path: p, content: new });
            assert(next.phase == Phase::Write(i, new));
            assert(replay_next(next) == Some(Deed::WriteFile { path: p, content: new }));
            assert(replay_after(next, done) == rest);
            assert(replay_whole(s, at, next) == replay_whole(then, at, rest));
            lemma_replay_ends_from(then, at, rest, i + 1);
        } else {
            lemma_replay_ends_from(s, at, rest, i + 1);
        }
    } else {
        let (then, done) = journalled(s, at, j, Deed::DropJournal);
        let end = replay_after(r, done);
        assert(replay_whole(s, at, r) == replay_whole(then, at, end));
        assert(replay_whole(then, at, end) == (then, end));
    }
}

/// A whole replay comes to its end without a fault and drops its journal and no other.
pub proof fn law_replay_ends(s: Disk, at: Seq<char>, j: Journal)
    ensures
        ({
            let r = replay_start(j, s.files.contains_key(j.source), s.files.contains_key(j.dest));
            let (then, end) = replay_whole(s, at, r);
            &&& then.journals == s.journals.remove(at)
            &&& end.phase == Phase::Finished
            &&& replay_fault(end) is None
        }),
{
    let source_there = s.files.contains_key(j.source);
    let dest_there = s.files.contains_key(j.dest);
    let r = replay_start(j, source_there, dest_there);
    if !source_there && !dest_there {
        let (then, done) = journalled(s, at, j, Deed::DropJournal);
        let end = replay_after(r, done);
        assert(replay_whole(s, at, r) == replay_whole(then, at, end));
        assert(replay_whole(then, at, end) == (then, end));
    } else if source_there && !dest_there {
        let (then, done) = journalled(s, at, j, Deed::MoveFile { from: j.source, to: j.dest });
        let next = replay_after(r, done);
        assert(replay_whole(s, at, r) == replay_whole(then, at, next));
        lemma_replay_ends_from(then, at, next, 0);
    } else {
        lemma_replay_ends_from(s, at, r, 0);
    }
}

/// A whole replay moves the note, rewrites the links to it, changes nothing else, and
/// drops its journal.
pub proof fn law_whole_replay(s: Disk, at: Seq<char>, j: Journal)
    requires
        is_steady(j),
    ensures
        ({
            let r = replay_start(j, s.files.contains_key(j.source), s.files.contains_key(j.dest));
            let (then, end) = replay_whole(s, at, r);
            &&& then.files == after_replay(s.files, j)
            &&& then.journals == s.journals.remove(at)
            &&& end.phase == Phase::Finished
            &&& replay_fault(end) is None
        }),
{
    let source_there = s.files.contains_key(j.source);
    let dest_there = s.files.contains_key(j.dest);
    let r = replay_start(j, source_there, dest_there);
    let none = j.backlinks.take(0);
    if !source_there && !dest_there {
        let (then, done) = journalled(s, at, j, Deed::DropJournal);
        let end = replay_after(r, done);
        assert(replay_whole(s, at, r) == replay_whole(then, at, end));
        assert(replay_whole(then, at, end) == (then, end));
    } else if source_there && !dest_there {
        let (then, done) = journalled(s, at, j, Deed::MoveFile { from: j.source, to: j.dest });
        let next = replay_after(r, done);
        assert(replay_whole(s, at, r) == replay_whole(then, at, next));
        assert(relinked(then.files, none, j.from_name, j.to_name) =~= then.files);
        lemma_replay_from(then, at, next, then.files, 0);
    } else {
        assert(relinked(s.files, none, j.from_name, j.to_name) =~= s.files);
        lemma_replay_from(s, at, r, s.files, 0);
    }
}

// ── Recovering a vault ─────────────────────────────────────────────────────

/// A recovery done to its end: each journal is replayed, one after the other.
pub open spec fn recovery_whole(s: Disk, v: Sweep) -> (Disk, Sweep)
    decreases v.pending.len() - v.count + if v.failed is None {
        1int
    } else {
        0int
    },
{
    match recovery_next(v) {
        None => (s, v),
        Some(at) => {
            let j = s.journals[at];
            let r = replay_start(j, s.files.contains_key(j.source), s.files.contains_key(j.dest));
            let (then, end) = replay_whole(s, at, r);
            recovery_whole(then, recovery_after(v, replay_fault(end)))
        },
    }
}

/// Whether paths are the files in the folder of the journals, each once.
pub open spec fn is_listing(paths: Seq<Seq<char>>, s: Disk) -> bool {
    &&& paths.no_duplicates()
    &&& forall|p: Seq<char>|
        #[trigger] s.journals.contains_key(p) <==> paths.contains(p) && is_journal(p)
}

/// What is among paths with one more.
proof fn lemma_with_path(paths: Seq<Seq<char>>, p: Seq<char>)
    ensures
        with_path(paths, p).to_multiset() == paths.to_multiset().insert(p),
    decreases paths.len(),
{
    broadcast use vstd::seq_lib::group_to_multiset_ensures;

    if paths.len() > 0 {
        lemma_with_path(paths.drop_last(), p);
        assert(paths =~= paths.drop_last().push(paths.last()));
        assert(paths.push(p).to_multiset() =~= paths.to_multiset().insert(p));
        assert(with_path(paths.drop_last(), p).push(paths.last()).to_multiset()
            =~= paths.to_multiset().insert(p));
    }
}

/// The journals among paths are those of the paths that name a journal, each as often
/// as it is there.
proof fn lemma_journals_among(paths: Seq<Seq<char>>)
    ensures
        forall|p: Seq<char>| #[trigger]
            journals_among(paths).to_multiset().count(p) == if is_journal(p) {
                paths.to_multiset().count(p)
            } else {
                0
            },
    decreases paths.len(),
{
    broadcast use vstd::seq_lib::group_to_multiset_ensures;

    if paths.len() > 0 {
        let init = paths.drop_last();
        lemma_journals_among(init);
        assert(paths =~= init.push(paths.last()));
        lemma_with_path(journals_among(init), paths.last());
    }
}

/// The journals that are listed are those that are pending, each once.
proof fn lemma_pending(paths: Seq<Seq<char>>, s: Disk)
    requires
        is_listing(paths, s),
    ensures
        journals_among(paths).no_duplicates(),
        forall|p: Seq<char>| #[trigger]
            s.journals.contains_key(p) <==> journals_among(paths).contains(p),
{
    broadcast use vstd::seq_lib::group_to_multiset_ensures;

    lemma_journals_among(paths);
    let pending = journals_among(paths);
    paths.lemma_multiset_has_no_duplicates();
    assert forall|p: Seq<char>| pending.to_multiset().contains(p) implies pending.to_multiset().count(
        p,
    ) == 1 by {
        assert(paths.to_multiset().contains(p));
    }
    pending.lemma_multiset_has_no_duplicates_conv();
    assert forall|p: Seq<char>| #[trigger] s.journals.contains_key(p) <==> pending.contains(p) by {
        assert(pending.contains(p) <==> pending.to_multiset().count(p) > 0);
        assert(paths.contains(p) <==> paths.to_multiset().count(p) > 0);
    }
}

/// Whether paths stand in order.
pub open spec fn paths_ascend(paths: Seq<Seq<char>>) -> bool {
    forall|i: int, j: int|
        0 <= i < j < paths.len() ==> path_order(#[trigger] paths[i], #[trigger] paths[j])
            != Order::Greater
}

/// Paths in order with one more are in order, and are those and the one.
proof fn lemma_with_path_ascends(paths: Seq<Seq<char>>, p: Seq<char>)
    requires
        paths_ascend(paths),
    ensures
        paths_ascend(with_path(paths, p)),
        forall|i: int|
            0 <= i < with_path(paths, p).len() ==> #[trigger] with_path(paths, p)[i] == p
                || paths.contains(with_path(paths, p)[i]),
    decreases paths.len(),
{
    let out = with_path(paths, p);
    let last = paths.len() - 1;
    if paths.len() > 0 && path_order(paths.last(), p) == Order::Greater {
        let init = paths.drop_last();
        let part = with_path(init, p);
        assert(paths_ascend(init)) by {
            assert forall|i: int, j: int| 0 <= i < j < init.len() implies path_order(
                #[trigger] init[i],
                #[trigger] init[j],
            ) != Order::Greater by {
                assert(init[i] == paths[i] && init[j] == paths[j]);
            }
        }
        lemma_with_path_ascends(init, p);
        law_paths_are_ordered(p, paths[last], p);
        assert forall|i: int| 0 <= i < part.len() implies path_order(
            #[trigger] part[i],
            paths[last],
        ) != Order::Greater && (part[i] == p || paths.contains(part[i])) by {
            if part[i] != p {
                let k = choose|k: int| 0 <= k < init.len() && init[k] == part[i];
                assert(paths[k] == part[i]);
            }
        }
        assert forall|i: int| 0 <= i < out.len() implies #[trigger] out[i] == p || paths.contains(
            out[i],
        ) by {
            if i < part.len() {
                assert(out[i] == part[i]);
            } else {
                assert(paths[last] == out[i]);
            }
        }
        assert forall|i: int, j: int| 0 <= i < j < out.len() implies path_order(
            #[trigger] out[i],
            #[trigger] out[j],
        ) != Order::Greater by {
            assert(out[i] == part[i]);
            if j < part.len() {
                assert(out[j] == part[j]);
            }
        }
    } else {
        assert forall|i: int| 0 <= i < out.len() implies #[trigger] out[i] == p || paths.contains(
            out[i],
        ) by {
            if i < paths.len() {
                assert(out[i] == paths[i]);
            }
        }
        assert forall|i: int, j: int| 0 <= i < j < out.len() implies path_order(
            #[trigger] out[i],
            #[trigger] out[j],
        ) != Order::Greater by {
            assert(out[i] == paths[i]);
            if j < paths.len() {
                assert(out[j] == paths[j]);
            } else {
                law_paths_are_ordered(paths[i], paths[last], p);
            }
        }
    }
}

/// The journals among paths stand in order.
proof fn lemma_journals_ascend(paths: Seq<Seq<char>>)
    ensures
        paths_ascend(journals_among(paths)),
    decreases paths.len(),
{
    if paths.len() > 0 {
        lemma_journals_ascend(paths.drop_last());
        if is_journal(paths.last()) {
            lemma_with_path_ascends(journals_among(paths.drop_last()), paths.last());
        }
    }
}

/// The journals that a recovery replays, in the order in which it does.
pub open spec fn replayed(s: Disk, v: Sweep) -> Seq<Seq<char>>
    decreases v.pending.len() - v.count + if v.failed is None {
        1int
    } else {
        0int
    },
{
    match recovery_next(v) {
        None => seq![],
        Some(at) => {
            let j = s.journals[at];
            let r = replay_start(j, s.files.contains_key(j.source), s.files.contains_key(j.dest));
            let (then, end) = replay_whole(s, at, r);
            seq![at] + replayed(then, recovery_after(v, replay_fault(end)))
        },
    }
}

/// What replaying journals one after the other leaves.
pub open spec fn after_replays(files: Map<Seq<char>, Seq<char>>, journals: Seq<Journal>) -> Map<
    Seq<char>,
    Seq<char>,
>
    decreases journals.len(),
{
    if journals.len() == 0 {
        files
    } else {
        after_replays(after_replay(files, journals[0]), journals.skip(1))
    }
}

/// The journals at some paths.
pub open spec fn journals_at(s: Disk, paths: Seq<Seq<char>>) -> Seq<Journal> {
    Seq::new(paths.len(), |i: int| s.journals[paths[i]])
}

/// Whether every journal on disk is steady.
pub open spec fn all_steady(s: Disk) -> bool {
    forall|p: Seq<char>| s.journals.contains_key(p) ==> is_steady(#[trigger] s.journals[p])
}

/// A recovery from a journal on replays the rest.
proof fn lemma_recovery_from(s: Disk, v: Sweep)
    requires
        v.failed is None,
        v.count <= v.pending.len(),
        v.pending.no_duplicates(),
        forall|i: int|
            v.count <= i < v.pending.len() ==> s.journals.contains_key(#[trigger] v.pending[i]),
    ensures
        ({
            let (then, end) = recovery_whole(s, v);
            let rest = v.pending.skip(v.count as int);
            &&& end.failed is None
            &&& end.count == v.pending.len()
            &&& replayed(s, v) == rest
            &&& all_steady(s) ==> then.files == after_replays(s.files, journals_at(s, rest))
            &&& forall|p: Seq<char>| #[trigger]
                then.journals.contains_key(p) <==> s.journals.contains_key(p) && !rest.contains(p)
        }),
    decreases v.pending.len() - v.count,
{
    let rest = v.pending.skip(v.count as int);
    if v.count < v.pending.len() {
        let at = v.pending[v.count as int];
        let j = s.journals[at];
        law_replay_ends(s, at, j);
        let r = replay_start(j, s.files.contains_key(j.source), s.files.contains_key(j.dest));
        let (then, end) = replay_whole(s, at, r);
        let next = recovery_after(v, replay_fault(end));
        lemma_recovery_from(then, next);
        let (last, done) = recovery_whole(then, next);
        assert(recovery_whole(s, v) == (last, done));
        let more = v.pending.skip(next.count as int);
        assert(rest =~= seq![at] + more);
        assert(replayed(s, v) == seq![at] + replayed(then, next));
        assert forall|p: Seq<char>| #[trigger] last.journals.contains_key(p) <==> s.journals.contains_key(
            p,
        ) && !rest.contains(p) by {
            if rest.contains(p) && p != at {
                let k = choose|k: int| 0 <= k < rest.len() && rest[k] == p;
                assert(more[k - 1] == p);
            }
            if more.contains(p) {
                let k = choose|k: int| 0 <= k < more.len() && more[k] == p;
                assert(rest[k + 1] == p);
            }
            assert(rest[0] == at);
        }
        if all_steady(s) {
            law_whole_replay(s, at, j);
            assert(all_steady(then));
            assert(journals_at(s, rest).skip(1) =~= journals_at(then, more)) by {
                assert forall|i: int| 0 <= i < more.len() implies #[trigger] s.journals[more[i]]
                    == then.journals[more[i]] by {
                    assert(more[i] == v.pending[v.count + 1 + i]);
                    assert(more[i] != at);
                }
            }
            assert(journals_at(s, rest)[0] == j);
        }
    } else {
        assert(rest =~= seq![]);
        assert(journals_at(s, rest).len() == 0);
    }
}

/// What is pending when a recovery starts lies on disk.
proof fn lemma_pending_there(s: Disk, paths: Seq<Seq<char>>)
    requires
        is_listing(paths, s),
    ensures
        journals_among(paths).no_duplicates(),
        forall|i: int|
            0 <= i < journals_among(paths).len() ==> s.journals.contains_key(
                #[trigger] journals_among(paths)[i],
            ),
{
    lemma_pending(paths, s);
    let pending = journals_among(paths);
    assert forall|i: int| 0 <= i < pending.len() implies s.journals.contains_key(
        #[trigger] pending[i],
    ) by {
        assert(pending.contains(pending[i]));
    }
}

/// A whole recovery on which nothing fails replays every journal and leaves none, and a
/// second one finds nothing to do.
pub proof fn law_whole_recovery(s: Disk, paths: Seq<Seq<char>>)
    requires
        is_listing(paths, s),
    ensures
        ({
            let (then, end) = recovery_whole(s, recovery_start(paths));
            &&& end.failed is None
            &&& end.count == journals_among(paths).len()
            &&& then.journals == Map::<Seq<char>, Journal>::empty()
            &&& forall|again: Seq<Seq<char>>| #[trigger]
                is_listing(again, then) ==> recovery_next(recovery_start(again)) is None
                    && recovery_whole(then, recovery_start(again)) == (then, recovery_start(again))
        }),
{
    let v = recovery_start(paths);
    lemma_pending(paths, s);
    lemma_pending_there(s, paths);
    lemma_recovery_from(s, v);
    let (then, end) = recovery_whole(s, v);
    assert(v.pending.skip(0) =~= v.pending);
    assert(then.journals =~= Map::<Seq<char>, Journal>::empty());
    assert forall|again: Seq<Seq<char>>| #[trigger] is_listing(again, then) implies recovery_next(
        recovery_start(again),
    ) is None && recovery_whole(then, recovery_start(again)) == (then, recovery_start(again)) by {
        lemma_pending(again, then);
        let pending = journals_among(again);
        if pending.len() > 0 {
            assert(pending.contains(pending[0]));
            assert(then.journals.contains_key(pending[0]));
        }
    }
}

/// A whole recovery replays each journal on disk once, in ascending order of their paths.
/// Where no file of a journal is rewritten twice, or it does not matter, its files are what
/// replaying the journals in that order leaves.
pub proof fn law_recovery_order(s: Disk, paths: Seq<Seq<char>>)
    requires
        is_listing(paths, s),
    ensures
        replayed(s, recovery_start(paths)) == journals_among(paths),
        paths_ascend(journals_among(paths)),
        journals_among(paths).no_duplicates(),
        forall|p: Seq<char>| #[trigger]
            s.journals.contains_key(p) <==> journals_among(paths).contains(p),
        all_steady(s) ==> recovery_whole(s, recovery_start(paths)).0.files == after_replays(
            s.files,
            journals_at(s, journals_among(paths)),
        ),
{
    let v = recovery_start(paths);
    lemma_pending(paths, s);
    lemma_pending_there(s, paths);
    lemma_journals_ascend(paths);
    lemma_recovery_from(s, v);
    assert(v.pending.skip(0) =~= v.pending);
}

// ── Renaming a note ────────────────────────────────────────────────────────

/// How many steps a rename has before it at most.
pub open spec fn rename_steps(r: Rename) -> nat {
    let n = r.journal.backlinks.len() as int;
    let f = r.folders.len() as int;
    match r.stage {
        Stage::Journal => (2 * n + f + 6) as nat,
        Stage::Move => (2 * n + f + 5) as nat,
        Stage::Read(i) => if i < n {
            (2 * (n - i) + f + 4) as nat
        } else {
            (f + 4) as nat
        },
        Stage::Write(i, _) => if i < n {
            (2 * (n - i) + f + 3) as nat
        } else {
            (f + 3) as nat
        },
        Stage::Sync(i) => if i < f {
            (f - i + 2) as nat
        } else {
            2
        },
        Stage::Drop => 1,
        _ => 0,
    }
}

/// A rename done to its end, with its journal at a path.
pub open spec fn rename_whole(s: Disk, at: Seq<char>, r: Rename) -> (Disk, Rename)
    decreases rename_steps(r),
{
    match rename_next(r) {
        None => (s, r),
        Some(d) => {
            let (then, came) = journalled(s, at, r.journal, d);
            rename_whole(then, at, rename_after(r, came))
        },
    }
}

/// A rename from a folder on forces the rest to stable storage and drops the journal.
proof fn lemma_rename_sync(s: Disk, at: Seq<char>, r: Rename, i: int)
    requires
        0 <= i <= r.folders.len(),
        r == sync_from(r, i),
        r.errors.len() == 0,
    ensures
        ({
            let (then, end) = rename_whole(s, at, r);
            &&& then.files == s.files
            &&& then.journals == s.journals.remove(at)
            &&& end == (Rename { stage: Stage::Finished, ..r })
        }),
    decreases r.folders.len() - i,
{
    if r.fsync && i < r.folders.len() {
        let (same, came) = journalled(s, at, r.journal, Deed::SyncFolder(r.folders[i]));
        let next = rename_after(r, came);
        assert(rename_whole(s, at, r) == rename_whole(s, at, next));
        assert(next == sync_from(r, i + 1));
        lemma_rename_sync(s, at, next, i + 1);
    } else {
        let (then, came) = journalled(s, at, r.journal, Deed::DropJournal);
        let end = rename_after(r, came);
        assert(rename_whole(s, at, r) == rename_whole(then, at, end));
        assert(rename_whole(then, at, end) == (then, end));
    }
}

/// A rename from a file on rewrites the links of the rest.
proof fn lemma_rename_from(
    s: Disk,
    at: Seq<char>,
    r: Rename,
    files: Map<Seq<char>, Seq<char>>,
    i: int,
)
    requires
        0 <= i <= r.journal.backlinks.len(),
        r == links_from_file(r, i),
        r.errors.len() == 0,
        is_steady(r.journal),
        forall|k: int|
            0 <= k < r.journal.backlinks.len() ==> files.contains_key(
                #[trigger] r.journal.backlinks[k],
            ),
        s.files == relinked(files, r.journal.backlinks.take(i), r.journal.from_name, r.journal.to_name),
    ensures
        ({
            let (then, end) = rename_whole(s, at, r);
            &&& then.files == relinked(
                files,
                r.journal.backlinks,
                r.journal.from_name,
                r.journal.to_name,
            )
            &&& then.journals == s.journals.remove(at)
            &&& end == (Rename { stage: Stage::Finished, ..r })
        }),
    decreases r.journal.backlinks.len() - i,
{
    let j = r.journal;
    if i < j.backlinks.len() {
        let p = j.backlinks[i];
        assert(s.files.contains_key(p));
        let (same, came) = journalled(s, at, j, Deed::ReadFile(p));
        let next = rename_after(r, came);
        let rest = links_from_file(r, i + 1);
        assert(rename_whole(s, at, r) == rename_whole(s, at, next));
        let text = s.files[p];
        let new = rewritten(text, j.from_name, j.to_name);
        lemma_relinked_one(files, s.files, j, i);
        if new == text {
            assert(s.files.insert(p, new) =~= s.files);
            lemma_rename_from(s, at, rest, files, i + 1);
        } else {
            let (then, done) = journalled(s, at, j, Deed::WriteFile { path: p, content: new });
            assert(next.stage == Stage::Write(i, new));
            assert(rename_after(next, done) == rest);
            assert(rename_whole(s, at, next) == rename_whole(then, at, rest));
            lemma_rename_from(then, at, rest, files, i + 1);
        }
    } else {
        assert(j.backlinks.take(i) =~= j.backlinks);
        lemma_rename_sync(s, at, r, 0);
    }
}

/// A whole rename moves the note, makes the links of the files that it names lead to the
/// new name, leaves every other file and journal as it was, and reports what the plan
/// said.
pub proof fn law_whole_rename(s: Disk, at: Seq<char>, j: Journal, report: Report, fsync: bool)
    requires
        is_steady(j),
        report.errors.len() == 0,
        s.files.contains_key(j.source),
        !s.files.contains_key(j.dest),
        !s.journals.contains_key(at),
        forall|k: int|
            0 <= k < j.backlinks.len() ==> #[trigger] j.backlinks[k] == j.dest || (
            s.files.contains_key(j.backlinks[k]) && j.backlinks[k] != j.source),
    ensures
        ({
            let (then, end) = rename_whole(s, at, rename_start(j, report, fsync));
            &&& then.files == after_replay(s.files, j)
            &&& then.journals == s.journals
            &&& end.stage == Stage::Finished
            &&& end.changes == report.changes
            &&& end.errors == report.errors
        }),
{
    let r = rename_start(j, report, fsync);
    let (noted, came) = journalled(s, at, j, Deed::WriteJournal);
    let next = rename_after(r, came);
    assert(rename_whole(s, at, r) == rename_whole(noted, at, next));
    let (then, done) = journalled(noted, at, j, Deed::MoveFile { from: j.source, to: j.dest });
    let rest = rename_after(next, done);
    assert(rename_whole(noted, at, next) == rename_whole(then, at, rest));
    assert(relinked(then.files, j.backlinks.take(0), j.from_name, j.to_name) =~= then.files);
    lemma_rename_from(then, at, rest, then.files, 0);
    assert(then.journals.remove(at) =~= s.journals);
}

// ── Removing and moving notes ──────────────────────────────────────────────

/// Files being removed or moved, done to their end.
pub open spec fn files_whole(s: Disk, r: Run) -> (Disk, Run)
    decreases
            if wants_folder(r) {
                1int
            } else {
                0int
            },
            r.changes.len() - r.at,
            r.folders.len() - r.synced,
{
    match run_next(r) {
        None => (s, r),
        Some(d) => {
            let (then, came) = performed(s, d);
            files_whole(then, run_after(r, came))
        },
    }
}

/// Forcing folders to stable storage changes no file.
proof fn lemma_files_sync(s: Disk, r: Run)
    requires
        r.failed is None,
        !wants_folder(r),
        r.at >= r.changes.len(),
        0 <= r.synced <= r.folders.len(),
    ensures
        ({
            let (then, end) = files_whole(s, r);
            &&& then == s
            &&& end == (Run { synced: end.synced, ..r })
        }),
    decreases r.folders.len() - r.synced,
{
    if r.fsync && r.synced < r.folders.len() {
        let (same, came) = performed(s, Deed::SyncFolder(r.folders[r.synced]));
        let next = run_after(r, came);
        assert(files_whole(s, r) == files_whole(s, next));
        lemma_files_sync(s, next);
    }
}

/// The paths of some changes.
pub open spec fn change_paths(changes: Seq<(Seq<char>, Seq<char>)>) -> Seq<Seq<char>> {
    Seq::new(changes.len(), |i: int| changes[i].0)
}

/// Files without some of them.
pub open spec fn without_files(files: Map<Seq<char>, Seq<char>>, some: Seq<Seq<char>>) -> Map<
    Seq<char>,
    Seq<char>,
> {
    Map::new(
        |p: Seq<char>| files.contains_key(p) && !some.contains(p),
        |p: Seq<char>| files[p],
    )
}

/// Removing files from one on removes the rest.
proof fn lemma_remove_from(s: Disk, r: Run, files: Map<Seq<char>, Seq<char>>)
    requires
        r.task == FileTask::Remove,
        r.failed is None,
        0 <= r.at <= r.changes.len(),
        r.synced == 0,
        s.files == without_files(files, change_paths(r.changes).take(r.at)),
    ensures
        ({
            let (then, end) = files_whole(s, r);
            &&& then.files == without_files(files, change_paths(r.changes))
            &&& then.journals == s.journals
            &&& end.failed is None
            &&& end.errors == r.errors
            &&& end.changes == r.changes
        }),
    decreases r.changes.len() - r.at,
{
    let paths = change_paths(r.changes);
    if r.at < r.changes.len() {
        let (then, came) = performed(s, Deed::RemoveFile(paths[r.at]));
        let next = run_after(r, came);
        assert(files_whole(s, r) == files_whole(then, next));
        let before = paths.take(r.at);
        let after = paths.take(r.at + 1);
        assert(after[r.at] == paths[r.at]);
        assert forall|q: Seq<char>| after.contains(q) <==> before.contains(q) || q == paths[r.at] by {
            if before.contains(q) {
                let k = choose|k: int| 0 <= k < before.len() && before[k] == q;
                assert(after[k] == q);
            }
            if after.contains(q) && q != paths[r.at] {
                let k = choose|k: int| 0 <= k < after.len() && after[k] == q;
                assert(before[k] == q);
            }
        }
        assert(then.files =~= without_files(files, after));
        lemma_remove_from(then, next, files);
    } else {
        assert(paths.take(r.at) =~= paths);
        lemma_files_sync(s, r);
    }
}

/// Removing notes as a whole removes those of the report, leaves every other file as it
/// was, and reports what the plan said.
pub proof fn law_whole_removal(
    s: Disk,
    folder: Seq<char>,
    report: Report,
    fsync: bool,
    taken: Seq<Seq<char>>,
)
    ensures
        ({
            let (then, end) = files_whole(
                s,
                started(FileTask::Remove, folder, report, fsync, taken),
            );
            &&& then.files == without_files(s.files, change_paths(report.changes))
            &&& then.journals == s.journals
            &&& end.failed is None
            &&& end.changes == report.changes
            &&& end.errors == report.errors
        }),
{
    assert(without_files(s.files, change_paths(report.changes).take(0)) =~= s.files);
    lemma_remove_from(s, started(FileTask::Remove, folder, report, fsync, taken), s.files);
}

/// Whether files were moved, each from its place to another, and nothing else changed.
pub open spec fn are_moved(
    files: Map<Seq<char>, Seq<char>>,
    then: Map<Seq<char>, Seq<char>>,
    from: Seq<Seq<char>>,
    to: Seq<Seq<char>>,
) -> bool {
    &&& from.len() == to.len()
    &&& forall|i: int|
        0 <= i < to.len() ==> then.contains_key(#[trigger] to[i]) && then[to[i]] == files[from[i]]
    &&& forall|i: int| 0 <= i < from.len() ==> !then.contains_key(#[trigger] from[i])
    &&& forall|q: Seq<char>|
        !from.contains(q) && !to.contains(q) ==> (#[trigger] then.contains_key(q)
            == files.contains_key(q)) && (files.contains_key(q) ==> then[q] == files[q])
}

/// Where the files of a run that moves them go from one on.
proof fn lemma_move_from(
    s: Disk,
    r: Run,
    files: Map<Seq<char>, Seq<char>>,
    first: nat,
)
    requires
        r.task != FileTask::Remove,
        r.failed is None,
        r.made || r.changes.len() == 0,
        0 <= r.at <= r.changes.len(),
        r.synced == 0,
        r.taken.len() == first + r.at,
        change_paths(r.changes).no_duplicates(),
        forall|i: int|
            0 <= i < r.changes.len() ==> files.contains_key(#[trigger] change_paths(r.changes)[i]),
        r.task == FileTask::Trash ==> forall|q: Seq<char>|
            files.contains_key(q) ==> #[trigger] has_path(r.taken, q),
        r.task == FileTask::Move ==> (forall|i: int|
            0 <= i < r.changes.len() ==> !files.contains_key(
                #[trigger] move_place(r.folder, r.changes, i),
            )),
        r.task == FileTask::Move ==> (forall|i: int, j: int|
            0 <= i < j < r.changes.len() ==> #[trigger] move_place(r.folder, r.changes, i)
                != #[trigger] move_place(r.folder, r.changes, j)),
        r.task == FileTask::Move ==> (forall|i: int|
            0 <= i < r.at ==> #[trigger] r.taken[first + i] == move_place(r.folder, r.changes, i)),
        forall|i: int|
            0 <= i < r.at ==> !files.contains_key(#[trigger] r.taken.skip(first as int)[i]),
        are_moved(
            files,
            s.files,
            change_paths(r.changes).take(r.at),
            r.taken.skip(first as int),
        ),
    ensures
        ({
            let (then, end) = files_whole(s, r);
            &&& are_moved(
                files,
                then.files,
                change_paths(r.changes),
                end.taken.skip(first as int),
            )
            &&& then.journals == s.journals
            &&& end.failed is None
            &&& end.errors == r.errors
            &&& end.changes == r.changes
            &&& end.taken.len() == first + r.changes.len()
            &&& r.task == FileTask::Move ==> forall|i: int|
                0 <= i < r.changes.len() ==> #[trigger] end.taken[first + i] == move_place(
                    r.folder,
                    r.changes,
                    i,
                )
        }),
    decreases r.changes.len() - r.at,
{
    let paths = change_paths(r.changes);
    let from = paths.take(r.at);
    let to = r.taken.skip(first as int);
    if r.at < r.changes.len() {
        let p = paths[r.at];
        let d = destination(r);
        let (then, came) = performed(s, Deed::MoveFile { from: p, to: d });
        let next = run_after(r, came);
        assert(files_whole(s, r) == files_whole(then, next));
        let from2 = paths.take(r.at + 1);
        let to2 = next.taken.skip(first as int);
        assert(to2 =~= to.push(d));
        assert(from2 =~= from.push(p));
        assert(files.contains_key(p));
        if r.task == FileTask::Trash {
            law_place_is_free(r.taken, r.folder, p);
            if files.contains_key(d) {
                assert(has_path(r.taken, d));
            }
            if to.contains(d) {
                let k = choose|k: int| 0 <= k < to.len() && to[k] == d;
                assert(r.taken[first + k] == d);
                assert(same_place(r.taken[first + k], d));
                assert(has_path(r.taken, d));
            }
            assert forall|q: Seq<char>| files.contains_key(q) implies #[trigger] has_path(
                next.taken,
                q,
            ) by {
                assert(has_path(r.taken, q));
                let k = choose|k: int|
                    0 <= k < r.taken.len() && same_place(#[trigger] r.taken[k], q);
                assert(same_place(next.taken[k], q));
            }
        } else {
            assert(d == move_place(r.folder, r.changes, r.at));
            if to.contains(d) {
                let k = choose|k: int| 0 <= k < to.len() && to[k] == d;
                assert(r.taken[first + k] == move_place(r.folder, r.changes, k));
            }
            assert forall|i: int| 0 <= i < next.at implies #[trigger] next.taken[first + i]
                == move_place(r.folder, r.changes, i) by {
                if i < r.at {
                    assert(next.taken[first + i] == r.taken[first + i]);
                }
            }
        }
        assert(!files.contains_key(d));
        assert(!to.contains(d));
        assert(!from.contains(p)) by {
            if from.contains(p) {
                let k = choose|k: int| 0 <= k < from.len() && from[k] == p;
                assert(paths[k] == p);
            }
        }
        assert(!to.contains(p)) by {
            if to.contains(p) {
                let k = choose|k: int| 0 <= k < to.len() && to[k] == p;
                assert(!files.contains_key(to[k]));
            }
        }
        assert(!from.contains(p) && !to.contains(p));
        assert(s.files.contains_key(p) == files.contains_key(p));
        assert(s.files[p] == files[p]);
        assert(are_moved(files, then.files, from2, to2)) by {
            assert forall|i: int| 0 <= i < to2.len() implies then.files.contains_key(
                #[trigger] to2[i],
            ) && then.files[to2[i]] == files[from2[i]] by {
                if i < r.at {
                    assert(to2[i] == to[i]);
                    assert(from2[i] == from[i]);
                    assert(to.contains(to[i]));
                    assert(s.files.contains_key(to[i]));
                }
            }
            assert forall|i: int| 0 <= i < from2.len() implies !then.files.contains_key(
                #[trigger] from2[i],
            ) by {
                assert(from2[i] == paths[i]);
                assert(files.contains_key(from2[i]));
                if i < r.at {
                    assert(from2[i] == from[i]);
                    assert(!s.files.contains_key(from[i]));
                }
            }
            assert forall|q: Seq<char>| !from2.contains(q) && !to2.contains(q) implies (
            #[trigger] then.files.contains_key(q) == files.contains_key(q)) && (files.contains_key(q)
                ==> then.files[q] == files[q]) by {
                if from.contains(q) {
                    let k = choose|k: int| 0 <= k < from.len() && from[k] == q;
                    assert(from2[k] == q);
                }
                if to.contains(q) {
                    let k = choose|k: int| 0 <= k < to.len() && to[k] == q;
                    assert(to2[k] == q);
                }
                assert(from2[r.at] == p);
                assert(to2[r.at] == d);
                assert(s.files.contains_key(q) == files.contains_key(q));
            }
        }
        assert forall|i: int| 0 <= i < next.at implies !files.contains_key(#[trigger] to2[i]) by {
            if i < r.at {
                assert(to2[i] == to[i]);
            }
        }
        lemma_move_from(then, next, files, first);
    } else {
        assert(from =~= paths);
        lemma_files_sync(s, r);
    }
}

/// The place that a file is moved to: its name in a folder.
pub open spec fn move_place(
    folder: Seq<char>,
    changes: Seq<(Seq<char>, Seq<char>)>,
    i: int,
) -> Seq<char> {
    below(folder, name_or_file(changes[i].0))
}

/// Moving notes as a whole, to a folder or to the trash, moves each note of the report
/// once, onto no other file, leaves every other file as it was, and reports what the
/// plan said. In the trash each gets a place that is free.
pub proof fn law_whole_move(
    s: Disk,
    task: FileTask,
    folder: Seq<char>,
    report: Report,
    fsync: bool,
    taken: Seq<Seq<char>>,
)
    requires
        task != FileTask::Remove,
        change_paths(report.changes).no_duplicates(),
        forall|i: int|
            0 <= i < report.changes.len() ==> s.files.contains_key(
                #[trigger] change_paths(report.changes)[i],
            ),
        task == FileTask::Trash ==> forall|q: Seq<char>|
            s.files.contains_key(q) ==> #[trigger] has_path(taken, q),
        task == FileTask::Move ==> (forall|i: int|
            0 <= i < report.changes.len() ==> !s.files.contains_key(
                #[trigger] move_place(folder, report.changes, i),
            )),
        task == FileTask::Move ==> (forall|i: int, j: int|
            0 <= i < j < report.changes.len() ==> #[trigger] move_place(folder, report.changes, i)
                != #[trigger] move_place(folder, report.changes, j)),
    ensures
        ({
            let (then, end) = files_whole(s, started(task, folder, report, fsync, taken));
            let to = end.taken.skip(taken.len() as int);
            &&& are_moved(s.files, then.files, change_paths(report.changes), to)
            &&& task == FileTask::Move ==> forall|i: int|
                0 <= i < report.changes.len() ==> #[trigger] to[i] == move_place(
                    folder,
                    report.changes,
                    i,
                )
            &&& then.journals == s.journals
            &&& end.failed is None
            &&& end.changes == report.changes
            &&& end.errors == report.errors
        }),
{
    let r = started(task, folder, report, fsync, taken);
    let first = taken.len();
    let paths = change_paths(report.changes);
    let none: Seq<Seq<char>> = seq![];
    assert(paths.take(0) =~= none);
    assert(taken.skip(first as int) =~= none);
    assert(are_moved(s.files, s.files, none, none));
    let ready = if wants_folder(r) {
        run_after(r, Came::Done)
    } else {
        r
    };
    if wants_folder(r) {
        assert(run_next(r) == Some(Deed::MakeFolder(folder)));
        assert(files_whole(s, r) == files_whole(s, ready));
    }
    lemma_move_from(s, ready, s.files, first);
    let (then, end) = files_whole(s, ready);
    if task == FileTask::Move {
        let to = end.taken.skip(first as int);
        assert forall|i: int| 0 <= i < report.changes.len() implies #[trigger] to[i] == move_place(
            folder,
            report.changes,
            i,
        ) by {
            assert(end.taken[first + i] == to[i]);
        }
    }
}

// ── Updating notes ─────────────────────────────────────────────────────────

/// Files with some texts written to them, one after the other.
pub open spec fn all_written(files: Map<Seq<char>, Seq<char>>, writes: Seq<Write>) -> Map<
    Seq<char>,
    Seq<char>,
>
    decreases writes.len(),
{
    if writes.len() == 0 {
        files
    } else {
        all_written(files, writes.drop_last()).insert(writes.last().path, writes.last().modified)
    }
}

/// Whether no two files lie at one path.
pub open spec fn have_own_paths(files: Seq<FileView>) -> bool {
    forall|i: int, j: int|
        0 <= i < j < files.len() ==> (#[trigger] files[i]).path != (#[trigger] files[j]).path
}

/// Whether a picture shows the files that are on disk: each text that was read is there.
pub open spec fn is_shown(files: Map<Seq<char>, Seq<char>>, p: Picture) -> bool {
    forall|i: int|
        0 <= i < p.files.len() && (#[trigger] p.files[i]).content is Ok ==> files.contains_key(
            p.files[i].path,
        ) && files[p.files[i].path] == p.files[i].content->Ok_0
}

/// Files in order with one more hold those and the one.
proof fn lemma_with_file(files: Seq<FileView>, f: FileView)
    requires
        have_own_paths(files),
        forall|i: int| 0 <= i < files.len() ==> (#[trigger] files[i]).path != f.path,
    ensures
        have_own_paths(with_file(files, f)),
        forall|i: int|
            0 <= i < with_file(files, f).len() ==> #[trigger] with_file(files, f)[i] == f
                || files.contains(with_file(files, f)[i]),
    decreases files.len(),
{
    let out = with_file(files, f);
    if files.len() > 0 && path_order(files.last().path, f.path) == Order::Greater {
        let init = files.drop_last();
        assert forall|i: int, j: int| 0 <= i < j < init.len() implies (#[trigger] init[i]).path != (
        #[trigger] init[j]).path by {
            assert(init[i] == files[i] && init[j] == files[j]);
        }
        assert forall|i: int| 0 <= i < init.len() implies (#[trigger] init[i]).path != f.path by {
            assert(init[i] == files[i]);
        }
        lemma_with_file(init, f);
        let part = with_file(init, f);
        let last = files.len() - 1;
        assert forall|i: int| 0 <= i < out.len() implies #[trigger] out[i] == f || files.contains(
            out[i],
        ) by {
            if i < part.len() {
                assert(out[i] == part[i]);
                if part[i] != f {
                    let k = choose|k: int| 0 <= k < init.len() && init[k] == part[i];
                    assert(files[k] == part[i]);
                }
            } else {
                assert(files[last] == out[i]);
            }
        }
        assert forall|i: int, j: int| 0 <= i < j < out.len() implies (#[trigger] out[i]).path != (
        #[trigger] out[j]).path by {
            assert(out[i] == part[i]);
            if j < part.len() {
                assert(out[j] == part[j]);
            } else {
                assert(out[j] == files[last]);
                if part[i] != f {
                    let k = choose|k: int| 0 <= k < init.len() && init[k] == part[i];
                    assert(files[k] == part[i]);
                } else {
                    assert(files[last].path != f.path);
                }
            }
        }
    } else {
        assert forall|i: int| 0 <= i < out.len() implies #[trigger] out[i] == f || files.contains(
            out[i],
        ) by {
            if i < files.len() {
                assert(out[i] == files[i]);
            }
        }
        assert forall|i: int, j: int| 0 <= i < j < out.len() implies (#[trigger] out[i]).path != (
        #[trigger] out[j]).path by {
            assert(out[i] == files[i]);
            if j < files.len() {
                assert(out[j] == files[j]);
            }
        }
    }
}

/// The notes of a folder are among the files, each once.
proof fn lemma_notes_in(files: Seq<FileView>, folder: Seq<char>, recursive: bool)
    requires
        have_own_paths(files),
    ensures
        have_own_paths(notes_in(files, folder, recursive)),
        forall|i: int|
            0 <= i < notes_in(files, folder, recursive).len() ==> files.contains(
                #[trigger] notes_in(files, folder, recursive)[i],
            ),
    decreases files.len(),
{
    if files.len() > 0 {
        let init = files.drop_last();
        let f = files.last();
        let last = files.len() - 1;
        assert(files[last] == f);
        assert forall|i: int, j: int| 0 <= i < j < init.len() implies (#[trigger] init[i]).path != (
        #[trigger] init[j]).path by {
            assert(init[i] == files[i] && init[j] == files[j]);
        }
        lemma_notes_in(init, folder, recursive);
        let part = notes_in(init, folder, recursive);
        let out = notes_in(files, folder, recursive);
        assert forall|i: int| 0 <= i < part.len() implies files.contains(#[trigger] part[i])
            && part[i].path != f.path by {
            let k = choose|k: int| 0 <= k < init.len() && init[k] == part[i];
            assert(files[k] == part[i]);
        }
        if is_note(f.path) && lies_in(f.path, folder, recursive) {
            lemma_with_file(part, f);
            assert forall|i: int| 0 <= i < out.len() implies files.contains(#[trigger] out[i]) by {
                if out[i] != f {
                    let k = choose|k: int| 0 <= k < part.len() && part[k] == out[i];
                    assert(files.contains(part[k]));
                }
            }
        }
    }
}

/// Whether records are those of some of the files, each with its text and at a path of
/// its own.
pub open spec fn are_from(rs: Seq<Rec>, files: Seq<FileView>) -> bool {
    &&& forall|i: int, j: int|
        0 <= i < j < rs.len() ==> (#[trigger] rs[i]).path != (#[trigger] rs[j]).path
    &&& forall|k: int| 0 <= k < rs.len() ==> is_from(#[trigger] rs[k], files)
}

/// Whether a record is that of one of the files, with its text.
pub open spec fn is_from(r: Rec, files: Seq<FileView>) -> bool {
    exists|i: int|
        0 <= i < files.len() && r.path == (#[trigger] files[i]).path && files[i].content == Ok::<
            Seq<char>,
            Seq<char>,
        >(content_of(r)) && r.content is Some
}

/// Records that were loaded are those of the files.
proof fn lemma_loaded_from(files: Seq<FileView>)
    requires
        have_own_paths(files),
        loaded(files, true) is Ok,
    ensures
        are_from(loaded(files, true)->Ok_0.0, files),
    decreases files.len(),
{
    if files.len() > 0 {
        let init = files.drop_last();
        let last = files.len() - 1;
        assert forall|i: int, j: int| 0 <= i < j < init.len() implies (#[trigger] init[i]).path != (
        #[trigger] init[j]).path by {
            assert(init[i] == files[i] && init[j] == files[j]);
        }
        lemma_loaded_from(init);
        let part = loaded(init, true)->Ok_0.0;
        let rs = loaded(files, true)->Ok_0.0;
        assert forall|k: int| 0 <= k < part.len() implies is_from(#[trigger] part[k], files)
            && part[k].path != files[last].path by {
            let r = part[k];
            assert(is_from(r, init));
            let i = choose|i: int|
                0 <= i < init.len() && r.path == (#[trigger] init[i]).path && init[i].content
                    == Ok::<Seq<char>, Seq<char>>(content_of(r)) && r.content is Some;
            assert(files[i] == init[i]);
        }
        assert forall|k: int| 0 <= k < rs.len() implies is_from(#[trigger] rs[k], files) by {
            if k < part.len() {
                assert(rs[k] == part[k]);
            } else {
                let r = rs[k];
                assert(note_of(files[last], true) == Ok::<Rec, Failure>(r));
                assert(r.path == files[last].path);
                assert(files[last].content == Ok::<Seq<char>, Seq<char>>(content_of(r)));
            }
        }
        assert forall|i: int, j: int| 0 <= i < j < rs.len() implies (#[trigger] rs[i]).path != (
        #[trigger] rs[j]).path by {
            assert(rs[i] == part[i]);
            if j < part.len() {
                assert(rs[j] == part[j]);
            }
        }
    }
}

/// Whether writes are to notes, each to one of its own, and what is written over is its
/// text.
pub open spec fn are_to(writes: Seq<Write>, rs: Seq<Rec>) -> bool {
    &&& forall|i: int, j: int|
        0 <= i < j < writes.len() ==> (#[trigger] writes[i]).path != (#[trigger] writes[j]).path
    &&& forall|i: int| 0 <= i < writes.len() ==> is_to(#[trigger] writes[i], rs)
}

/// Whether a write is to one of some notes.
pub open spec fn is_to(w: Write, rs: Seq<Rec>) -> bool {
    exists|k: int|
        0 <= k < rs.len() && w.path == (#[trigger] rs[k]).path && rs[k].content == Some(w.original)
}

/// The writes of an update are to notes of their own.
proof fn lemma_update_writes(u: Update, rs: Seq<Rec>, root: Seq<char>, g: Option<Graph>)
    requires
        update_all(u, rs, root, g) is Ok,
        forall|i: int, j: int|
            0 <= i < j < rs.len() ==> (#[trigger] rs[i]).path != (#[trigger] rs[j]).path,
    ensures
        are_to(update_all(u, rs, root, g)->Ok_0.writes, rs),
    decreases rs.len(),
{
    if rs.len() > 0 {
        let init = rs.drop_last();
        let last = rs.len() - 1;
        assert forall|i: int, j: int| 0 <= i < j < init.len() implies (#[trigger] init[i]).path != (
        #[trigger] init[j]).path by {
            assert(init[i] == rs[i] && init[j] == rs[j]);
        }
        lemma_update_writes(u, init, root, g);
        let part = update_all(u, init, root, g)->Ok_0.writes;
        let writes = update_all(u, rs, root, g)->Ok_0.writes;
        assert forall|i: int| 0 <= i < part.len() implies is_to(#[trigger] part[i], rs)
            && part[i].path != rs[last].path by {
            let w = part[i];
            assert(is_to(w, init));
            let k = choose|k: int|
                0 <= k < init.len() && w.path == (#[trigger] init[k]).path && init[k].content
                    == Some(w.original);
            assert(rs[k] == init[k]);
        }
        assert forall|i: int| 0 <= i < writes.len() implies is_to(#[trigger] writes[i], rs) by {
            if i < part.len() {
                assert(writes[i] == part[i]);
            } else {
                assert(writes[i].path == rs[last].path);
            }
        }
        assert forall|i: int, j: int| 0 <= i < j < writes.len() implies (#[trigger] writes[i]).path
            != (#[trigger] writes[j]).path by {
            assert(writes[i] == part[i]);
            if j < part.len() {
                assert(writes[j] == part[j]);
            }
        }
    }
}

/// What is on disk once all was written.
proof fn lemma_all_written(files: Map<Seq<char>, Seq<char>>, writes: Seq<Write>)
    requires
        forall|i: int, j: int|
            0 <= i < j < writes.len() ==> (#[trigger] writes[i]).path != (#[trigger] writes[j]).path,
    ensures
        forall|i: int|
            0 <= i < writes.len() ==> all_written(files, writes).contains_key(
                (#[trigger] writes[i]).path,
            ) && all_written(files, writes)[writes[i].path] == writes[i].modified,
        forall|q: Seq<char>|
            (forall|i: int| 0 <= i < writes.len() ==> (#[trigger] writes[i]).path != q) ==> (
            #[trigger] all_written(files, writes).contains_key(q) == files.contains_key(q))
                && all_written(files, writes)[q] == files[q],
    decreases writes.len(),
{
    if writes.len() > 0 {
        let init = writes.drop_last();
        let last = writes.len() - 1;
        let then = all_written(files, writes);
        let part = all_written(files, init);
        assert forall|i: int, j: int| 0 <= i < j < init.len() implies (#[trigger] init[i]).path != (
        #[trigger] init[j]).path by {
            assert(init[i] == writes[i] && init[j] == writes[j]);
        }
        lemma_all_written(files, init);
        assert forall|i: int| 0 <= i < writes.len() implies then.contains_key(
            (#[trigger] writes[i]).path,
        ) && then[writes[i].path] == writes[i].modified by {
            if i < last {
                assert(init[i] == writes[i]);
                assert(writes[i].path != writes[last].path);
            }
        }
        assert forall|q: Seq<char>|
            (forall|i: int| 0 <= i < writes.len() ==> (#[trigger] writes[i]).path != q) implies (
        #[trigger] then.contains_key(q) == files.contains_key(q)) && then[q] == files[q] by {
            assert(writes[last].path != q);
            assert forall|i: int| 0 <= i < init.len() implies (#[trigger] init[i]).path != q by {
                assert(init[i] == writes[i]);
            }
            assert(part.contains_key(q) == files.contains_key(q));
        }
    }
}

/// Whether one of some changes is to a file.
pub open spec fn is_changed(changes: Seq<(Seq<char>, Seq<char>)>, path: Seq<char>) -> bool {
    exists|i: int| 0 <= i < changes.len() && (#[trigger] changes[i]).0 == path
}

/// What a write is over is on disk.
proof fn lemma_written_over(
    w: Write,
    rs: Seq<Rec>,
    notes: Seq<FileView>,
    p: Picture,
    files: Map<Seq<char>, Seq<char>>,
)
    requires
        is_to(w, rs),
        are_from(rs, notes),
        forall|i: int| 0 <= i < notes.len() ==> p.files.contains(#[trigger] notes[i]),
        is_shown(files, p),
    ensures
        files.contains_key(w.path),
        files[w.path] == w.original,
{
    let k = choose|k: int|
        0 <= k < rs.len() && w.path == (#[trigger] rs[k]).path && rs[k].content == Some(w.original);
    let r = rs[k];
    assert(is_from(r, notes));
    let m = choose|m: int|
        0 <= m < notes.len() && r.path == (#[trigger] notes[m]).path && notes[m].content == Ok::<
            Seq<char>,
            Seq<char>,
        >(content_of(r)) && r.content is Some;
    assert(p.files.contains(notes[m]));
    let n = choose|n: int| 0 <= n < p.files.len() && p.files[n] == notes[m];
    assert(p.files[n].content is Ok);
}

/// Whether files are as a plan said: those of its changes have the texts that were
/// planned in place of those that were there, and every other file is as it was.
pub open spec fn are_as_planned(
    files: Map<Seq<char>, Seq<char>>,
    then: Map<Seq<char>, Seq<char>>,
    plan: Plan,
) -> bool {
    &&& plan.writes.len() == plan.changes.len()
    &&& forall|i: int|
        0 <= i < plan.changes.len() ==> {
            let path = (#[trigger] plan.changes[i]).0;
            &&& plan.writes[i].path == path
            &&& files.contains_key(path) && files[path] == plan.writes[i].original
            &&& then.contains_key(path) && then[path] == plan.writes[i].modified
        }
    &&& forall|q: Seq<char>|
        !is_changed(plan.changes, q) ==> (#[trigger] then.contains_key(q) == files.contains_key(q))
            && then[q] == files[q]
}

/// Writing what an update of some notes came to leaves the files as planned.
proof fn lemma_as_planned(
    u: Update,
    rs: Seq<Rec>,
    root: Seq<char>,
    g: Option<Graph>,
    notes: Seq<FileView>,
    p: Picture,
    files: Map<Seq<char>, Seq<char>>,
)
    requires
        update_all(u, rs, root, g) is Ok,
        are_from(rs, notes),
        forall|i: int| 0 <= i < notes.len() ==> p.files.contains(#[trigger] notes[i]),
        is_shown(files, p),
    ensures
        are_as_planned(
            files,
            all_written(files, update_all(u, rs, root, g)->Ok_0.writes),
            update_all(u, rs, root, g)->Ok_0,
        ),
{
    let plan = update_all(u, rs, root, g)->Ok_0;
    let then = all_written(files, plan.writes);
    lemma_update_writes(u, rs, root, g);
    law_update_touches_matches(u, rs, root, g);
    lemma_all_written(files, plan.writes);
    assert forall|i: int| 0 <= i < plan.changes.len() implies {
        let path = (#[trigger] plan.changes[i]).0;
        &&& plan.writes[i].path == path
        &&& files.contains_key(path) && files[path] == plan.writes[i].original
        &&& then.contains_key(path) && then[path] == plan.writes[i].modified
    } by {
        let w = plan.writes[i];
        assert(is_to(w, rs));
        lemma_written_over(w, rs, notes, p, files);
    }
    assert forall|q: Seq<char>| !is_changed(plan.changes, q) implies (#[trigger] then.contains_key(q)
        == files.contains_key(q)) && then[q] == files[q] by {
        assert forall|i: int| 0 <= i < plan.writes.len() implies (#[trigger] plan.writes[i]).path
            != q by {
            assert(plan.changes[i].0 == plan.writes[i].path);
        }
    }
}

/// A whole update writes the text that was planned to each note of its report, over the
/// text that the plan saw there, and leaves every other file as it was.
pub proof fn law_whole_update(
    u: Update,
    p: Picture,
    root: Seq<char>,
    files: Map<Seq<char>, Seq<char>>,
)
    requires
        update_plan(u, p, root) is Ok,
        have_own_paths(p.files),
        is_shown(files, p),
    ensures
        are_as_planned(
            files,
            all_written(files, update_plan(u, p, root)->Ok_0.writes),
            update_plan(u, p, root)->Ok_0,
        ),
{
    let folder = below(root, u.folder);
    let notes = notes_in(p.files, folder, u.recursive);
    let rs = loaded(notes, true)->Ok_0.0;
    lemma_notes_in(p.files, folder, u.recursive);
    lemma_loaded_from(notes);
    lemma_as_planned(u, rs, root, graph_if_used(u.filter, rs), notes, p, files);
}

/// A whole creation adds the note that was planned, where none was, and leaves every
/// other file as it was; one with failures adds nothing.
pub proof fn law_whole_creation(
    c: Creation,
    p: Picture,
    root: Seq<char>,
    now: u64,
    files: Map<Seq<char>, Seq<char>>,
)
    requires
        create_plan(c, p, root, now) is Ok,
        forall|q: Seq<char>| files.contains_key(q) ==> #[trigger] is_taken(p, q),
    ensures
        match create_plan(c, p, root, now)->Ok_0 {
            (report, Some(w)) => {
                let then = all_written(files, seq![w]);
                &&& report.errors.len() == 0
                &&& !files.contains_key(w.path)
                &&& then == files.insert(w.path, w.modified)
            },
            (report, None) => report.errors.len() > 0 && report.changes.len() == 0,
        },
{
    law_create_is_new(c, p, root, now);
    match create_plan(c, p, root, now)->Ok_0 {
        (_, Some(w)) => {
            if files.contains_key(w.path) {
                assert(is_taken(p, w.path));
            }
            assert(seq![w].drop_last() =~= seq![]);
            assert(all_written(files, seq![w].drop_last()) == files);
        },
        _ => {},
    }
}

// ── From plans to files ────────────────────────────────────────────────────

/// Whether a picture shows all that is on disk: each text that was read, and no file is
/// missing.
pub open spec fn is_shown_whole(files: Map<Seq<char>, Seq<char>>, p: Picture) -> bool {
    &&& is_shown(files, p)
    &&& forall|q: Seq<char>| files.contains_key(q) ==> #[trigger] is_taken(p, q)
}

/// What is there when files are about to be moved.
pub open spec fn taken_in(p: Picture) -> Seq<Seq<char>> {
    p.folders + file_paths(p.files)
}

/// What a picture shows is among what is there.
proof fn lemma_taken_in(p: Picture, q: Seq<char>)
    requires
        is_taken(p, q),
    ensures
        has_path(taken_in(p), q),
{
    let all = taken_in(p);
    if has_folder(p, q) {
        let i = choose|i: int| 0 <= i < p.folders.len() && same_place(#[trigger] p.folders[i], q);
        assert(all[i] == p.folders[i]);
    } else {
        lemma_file_at(p.files, q, 0);
        let i = file_at(p.files, q, 0)->0;
        assert(all[p.folders.len() + i] == p.files[i].path);
    }
}

/// The file that is found at a path lies there.
proof fn lemma_file_at(files: Seq<FileView>, path: Seq<char>, from: int)
    requires
        0 <= from,
    ensures
        file_at(files, path, from) matches Some(i) ==> from <= i < files.len() && same_place(
            files[i].path,
            path,
        ),
    decreases files.len() - from,
{
    if from < files.len() && !same_place(files[from].path, path) {
        lemma_file_at(files, path, from + 1);
    }
}

/// Whether changes are to notes, each to one of its own.
pub open spec fn are_changes_to(changes: Seq<(Seq<char>, Seq<char>)>, rs: Seq<Rec>) -> bool {
    &&& change_paths(changes).no_duplicates()
    &&& forall|i: int| 0 <= i < changes.len() ==> is_path_of(rs, (#[trigger] changes[i]).0)
}

/// Whether a path is that of one of some notes.
pub open spec fn is_path_of(rs: Seq<Rec>, path: Seq<char>) -> bool {
    exists|k: int| 0 <= k < rs.len() && (#[trigger] rs[k]).path == path
}

/// Changes to some notes and one to another note.
proof fn lemma_one_more_change(
    before: Seq<(Seq<char>, Seq<char>)>,
    rs: Seq<Rec>,
    x: (Seq<char>, Seq<char>),
)
    requires
        rs.len() > 0,
        forall|i: int, j: int|
            0 <= i < j < rs.len() ==> (#[trigger] rs[i]).path != (#[trigger] rs[j]).path,
        are_changes_to(before, rs.drop_last()),
        x.0 == rs.last().path,
    ensures
        are_changes_to(before, rs),
        are_changes_to(before.push(x), rs),
{
    let init = rs.drop_last();
    let last = rs.len() - 1;
    let all = before.push(x);
    assert forall|i: int| 0 <= i < before.len() implies is_path_of(rs, (#[trigger] before[i]).0)
        && before[i].0 != x.0 by {
        assert(is_path_of(init, before[i].0));
        let k = choose|k: int| 0 <= k < init.len() && (#[trigger] init[k]).path == before[i].0;
        assert(rs[k] == init[k]);
        assert(rs[k].path != rs[last].path);
    }
    assert forall|i: int| 0 <= i < all.len() implies is_path_of(rs, (#[trigger] all[i]).0) by {
        if i < before.len() {
            assert(all[i] == before[i]);
        } else {
            assert(rs[last].path == all[i].0);
        }
    }
    let paths = change_paths(all);
    assert forall|i: int, j: int| 0 <= i < paths.len() && 0 <= j < paths.len() && i != j implies
        paths[i] != paths[j] by {
        assert(paths[i] == all[i].0 && paths[j] == all[j].0);
        if i < before.len() && j < before.len() {
            assert(change_paths(before)[i] == paths[i]);
            assert(change_paths(before)[j] == paths[j]);
        } else if i < before.len() {
            assert(all[i] == before[i]);
        } else {
            assert(all[j] == before[j]);
        }
    }
}

/// Notes but the last have paths of their own, too.
proof fn lemma_own_paths_before(rs: Seq<Rec>)
    requires
        rs.len() > 0,
        forall|i: int, j: int|
            0 <= i < j < rs.len() ==> (#[trigger] rs[i]).path != (#[trigger] rs[j]).path,
    ensures
        forall|i: int, j: int|
            0 <= i < j < rs.drop_last().len() ==> (#[trigger] rs.drop_last()[i]).path != (
            #[trigger] rs.drop_last()[j]).path,
{
    let init = rs.drop_last();
    assert forall|i: int, j: int| 0 <= i < j < init.len() implies (#[trigger] init[i]).path != (
    #[trigger] init[j]).path by {
        assert(init[i] == rs[i] && init[j] == rs[j]);
    }
}

/// The changes of a deletion are to notes of their own.
proof fn lemma_deletions(
    filter: Cond,
    permanent: bool,
    rs: Seq<Rec>,
    root: Seq<char>,
    g: Option<Graph>,
)
    requires
        forall|i: int, j: int|
            0 <= i < j < rs.len() ==> (#[trigger] rs[i]).path != (#[trigger] rs[j]).path,
    ensures
        are_changes_to(deletions(filter, permanent, rs, root, g), rs),
    decreases rs.len(),
{
    if rs.len() > 0 {
        let init = rs.drop_last();
        lemma_own_paths_before(rs);
        lemma_deletions(filter, permanent, init, root, g);
        let before = deletions(filter, permanent, init, root, g);
        let out = deletions(filter, permanent, rs, root, g);
        lemma_one_more_change(before, rs, (rs.last().path, seq![]));
        if out.len() > before.len() {
            lemma_one_more_change(before, rs, out.last());
            assert(out =~= before.push(out.last()));
        }
    }
}

/// The changes of a move are to notes of their own.
proof fn lemma_moves(
    filter: Cond,
    to: Seq<char>,
    to_folder: Seq<char>,
    rs: Seq<Rec>,
    p: Picture,
    root: Seq<char>,
    g: Option<Graph>,
)
    requires
        forall|i: int, j: int|
            0 <= i < j < rs.len() ==> (#[trigger] rs[i]).path != (#[trigger] rs[j]).path,
    ensures
        are_changes_to(move_all(filter, to, to_folder, rs, p, root, g).changes, rs),
    decreases rs.len(),
{
    if rs.len() > 0 {
        let init = rs.drop_last();
        lemma_own_paths_before(rs);
        lemma_moves(filter, to, to_folder, init, p, root, g);
        let before = move_all(filter, to, to_folder, init, p, root, g).changes;
        let out = move_all(filter, to, to_folder, rs, p, root, g).changes;
        lemma_one_more_change(before, rs, (rs.last().path, seq![]));
        if out.len() > before.len() {
            lemma_one_more_change(before, rs, out.last());
            assert(out =~= before.push(out.last()));
        }
    }
}

/// The files of changes to notes are on disk.
proof fn lemma_changed_are_there(
    changes: Seq<(Seq<char>, Seq<char>)>,
    rs: Seq<Rec>,
    notes: Seq<FileView>,
    p: Picture,
    files: Map<Seq<char>, Seq<char>>,
)
    requires
        are_changes_to(changes, rs),
        are_from(rs, notes),
        forall|i: int| 0 <= i < notes.len() ==> p.files.contains(#[trigger] notes[i]),
        is_shown(files, p),
    ensures
        forall|i: int|
            0 <= i < changes.len() ==> files.contains_key(#[trigger] change_paths(changes)[i]),
{
    assert forall|i: int| 0 <= i < changes.len() implies files.contains_key(
        #[trigger] change_paths(changes)[i],
    ) by {
        assert(is_path_of(rs, changes[i].0));
        let k = choose|k: int| 0 <= k < rs.len() && (#[trigger] rs[k]).path == changes[i].0;
        lemma_note_is_there(rs[k], notes, p, files);
    }
}

/// The file of a note that was loaded is on disk.
proof fn lemma_note_is_there(
    r: Rec,
    notes: Seq<FileView>,
    p: Picture,
    files: Map<Seq<char>, Seq<char>>,
)
    requires
        is_from(r, notes),
        forall|i: int| 0 <= i < notes.len() ==> p.files.contains(#[trigger] notes[i]),
        is_shown(files, p),
    ensures
        files.contains_key(r.path),
{
    let m = choose|m: int|
        0 <= m < notes.len() && r.path == (#[trigger] notes[m]).path && notes[m].content == Ok::<
            Seq<char>,
            Seq<char>,
        >(content_of(r)) && r.content is Some;
    assert(p.files.contains(notes[m]));
    let n = choose|n: int| 0 <= n < p.files.len() && p.files[n] == notes[m];
    assert(p.files[n].content is Ok);
}

/// A whole deletion, once planned, moves each note of its report to a free place in the
/// trash, or removes it for good, and leaves every other file as it was.
pub proof fn law_planned_deletion(
    filter: Cond,
    folder: Seq<char>,
    permanent: bool,
    recursive: bool,
    p: Picture,
    root: Seq<char>,
    fsync: bool,
    s: Disk,
)
    requires
        delete_plan(filter, folder, permanent, recursive, p, root) is Ok,
        have_own_paths(p.files),
        is_shown_whole(s.files, p),
    ensures
        ({
            let report = delete_plan(filter, folder, permanent, recursive, p, root)->Ok_0;
            let task = if permanent {
                FileTask::Remove
            } else {
                FileTask::Trash
            };
            let (then, end) = files_whole(
                s,
                started(task, below(root, ".trash"@), report, fsync, taken_in(p)),
            );
            let paths = change_paths(report.changes);
            &&& permanent ==> then.files == without_files(s.files, paths)
            &&& !permanent ==> are_moved(
                s.files,
                then.files,
                paths,
                end.taken.skip(taken_in(p).len() as int),
            )
            &&& end.failed is None
            &&& end.changes == report.changes
            &&& end.errors == report.errors
        }),
{
    let report = delete_plan(filter, folder, permanent, recursive, p, root)->Ok_0;
    let notes = notes_in(p.files, below(root, folder), recursive);
    let rs = loaded(notes, true)->Ok_0.0;
    let trash = below(root, ".trash"@);
    lemma_notes_in(p.files, below(root, folder), recursive);
    lemma_loaded_from(notes);
    lemma_deletions(filter, permanent, rs, root, graph_if_used(filter, rs));
    lemma_changed_are_there(report.changes, rs, notes, p, s.files);
    if permanent {
        law_whole_removal(s, trash, report, fsync, taken_in(p));
    } else {
        assert forall|q: Seq<char>| s.files.contains_key(q) implies #[trigger] has_path(
            taken_in(p),
            q,
        ) by {
            assert(is_taken(p, q));
            lemma_taken_in(p, q);
        }
        law_whole_move(s, FileTask::Trash, trash, report, fsync, taken_in(p));
    }
}

/// The name of a file can be a component of a path.
proof fn lemma_file_name_plain(path: Seq<char>)
    requires
        file_name(path) is Some,
    ensures
        is_plain_component(file_name(path)->0),
{
    let parts = split_by(path, '/');
    let cs = components(path);
    lemma_parts_lack(path, '/');
    lemma_named(parts);
    assert(parts.contains(cs[cs.len() - 1]));
}

/// A whole move, once planned, moves each note of its report to the other folder under
/// its own name, onto no other file, and leaves every other file as it was.
pub proof fn law_planned_move(
    filter: Cond,
    folder: Seq<char>,
    to_folder: Seq<char>,
    recursive: bool,
    p: Picture,
    root: Seq<char>,
    fsync: bool,
    s: Disk,
)
    requires
        move_plan(filter, folder, to_folder, recursive, p, root) is Ok,
        have_own_paths(p.files),
        is_shown_whole(s.files, p),
    ensures
        ({
            let report = move_plan(filter, folder, to_folder, recursive, p, root)->Ok_0;
            let to = below(root, to_folder);
            let (then, end) = files_whole(
                s,
                started(FileTask::Move, to, report, fsync, taken_in(p)),
            );
            &&& are_moved(
                s.files,
                then.files,
                change_paths(report.changes),
                Seq::new(report.changes.len(), |i: int| move_place(to, report.changes, i)),
            )
            &&& end.failed is None
            &&& end.changes == report.changes
            &&& end.errors == report.errors
        }),
{
    let report = move_plan(filter, folder, to_folder, recursive, p, root)->Ok_0;
    let notes = notes_in(p.files, below(root, folder), recursive);
    let rs = loaded(notes, true)->Ok_0.0;
    let g = graph_if_used(filter, rs);
    let to = below(root, to_folder);
    let changes = report.changes;
    lemma_notes_in(p.files, below(root, folder), recursive);
    lemma_loaded_from(notes);
    lemma_moves(filter, to, to_folder, rs, p, root, g);
    lemma_changed_are_there(changes, rs, notes, p, s.files);
    law_move_is_free(filter, to, to_folder, rs, p, root, g);
    assert forall|i: int| 0 <= i < changes.len() implies !s.files.contains_key(
        #[trigger] move_place(to, changes, i),
    ) by {
        assert(file_name(changes[i].0) is Some);
        if s.files.contains_key(move_place(to, changes, i)) {
            assert(is_taken(p, move_place(to, changes, i)));
        }
    }
    assert forall|i: int, j: int| 0 <= i < j < changes.len() implies #[trigger] move_place(
        to,
        changes,
        i,
    ) != #[trigger] move_place(to, changes, j) by {
        assert(file_name(changes[i].0) != file_name(changes[j].0));
        lemma_file_name_plain(changes[i].0);
        lemma_file_name_plain(changes[j].0);
        lemma_last_component(to, file_name(changes[i].0)->0);
        lemma_last_component(to, file_name(changes[j].0)->0);
    }
    law_whole_move(s, FileTask::Move, to, report, fsync, taken_in(p));
    let (then, end) = files_whole(s, started(FileTask::Move, to, report, fsync, taken_in(p)));
    let places = end.taken.skip(taken_in(p).len() as int);
    assert(places =~= Seq::new(changes.len(), |i: int| move_place(to, changes, i)));
}

/// The changes of one name are to notes.
proof fn lemma_changes_under_notes(
    rs: Seq<Rec>,
    name: Seq<char>,
    from: Seq<char>,
    to: Seq<char>,
)
    ensures
        forall|i: int|
            0 <= i < changes_under(rs, name, from, to).len() ==> is_path_of(
                rs,
                (#[trigger] changes_under(rs, name, from, to)[i]).0,
            ),
    decreases rs.len(),
{
    if rs.len() > 0 {
        let init = rs.drop_last();
        lemma_changes_under_notes(init, name, from, to);
        let before = changes_under(init, name, from, to);
        let out = changes_under(rs, name, from, to);
        assert forall|i: int| 0 <= i < out.len() implies is_path_of(rs, (#[trigger] out[i]).0) by {
            if i < before.len() {
                assert(out[i] == before[i]);
                let k = choose|k: int| 0 <= k < init.len() && (#[trigger] init[k]).path == before[i].0;
                assert(rs[k] == init[k]);
            } else {
                assert(rs[rs.len() - 1].path == out[i].0);
            }
        }
    }
}

/// The changes to links are to notes.
proof fn lemma_link_changes_notes(
    rs: Seq<Rec>,
    names: Seq<Seq<char>>,
    from: Seq<char>,
    to: Seq<char>,
)
    ensures
        forall|i: int|
            0 <= i < link_changes(rs, names, from, to).len() ==> is_path_of(
                rs,
                (#[trigger] link_changes(rs, names, from, to)[i]).0,
            ),
    decreases names.len(),
{
    if names.len() > 0 {
        let init = names.drop_last();
        lemma_link_changes_notes(rs, init, from, to);
        lemma_changes_under_notes(rs, names.last(), from, to);
        let before = link_changes(rs, init, from, to);
        let more = changes_under(rs, names.last(), from, to);
        let out = link_changes(rs, names, from, to);
        assert forall|i: int| 0 <= i < out.len() implies is_path_of(rs, (#[trigger] out[i]).0) by {
            if i < before.len() {
                assert(out[i] == before[i]);
            } else {
                assert(out[i] == more[i - before.len()]);
            }
        }
    }
}

/// A whole rename, once planned without fault, leaves the note at its new place, every
/// link to it rewritten, every other file as it was, and no journal behind.
pub proof fn law_planned_rename(
    folder: Seq<char>,
    from: Seq<char>,
    to: Seq<char>,
    p: Picture,
    root: Seq<char>,
    fsync: bool,
    s: Disk,
    at: Seq<char>,
)
    requires
        rename_plan(folder, from, to, p, root) is Ok,
        rename_plan(folder, from, to, p, root)->Ok_0.errors.len() == 0,
        is_steady(
            rename_journal(folder, from, to, rename_plan(folder, from, to, p, root)->Ok_0, root),
        ),
        have_own_paths(p.files),
        is_shown_whole(s.files, p),
        s.files.contains_key(below(below(root, folder), from + ".md"@)),
        !s.journals.contains_key(at),
    ensures
        ({
            let report = rename_plan(folder, from, to, p, root)->Ok_0;
            let j = rename_journal(folder, from, to, report, root);
            let (then, end) = rename_whole(s, at, rename_start(j, report, fsync));
            &&& then.files == after_replay(s.files, j)
            &&& then.journals == s.journals
            &&& end.stage == Stage::Finished
            &&& end.changes == report.changes
            &&& end.errors == report.errors
        }),
{
    let report = rename_plan(folder, from, to, p, root)->Ok_0;
    let j = rename_journal(folder, from, to, report, root);
    let notes = notes_in(p.files, root, true);
    let rs = loaded(notes, true)->Ok_0.0;
    let names = sources(graph_of(rs).edges, from);
    lemma_notes_in(p.files, root, true);
    lemma_loaded_from(notes);
    lemma_link_changes_notes(rs, names, from, to);
    let links = link_changes(rs, names, from, to);
    if s.files.contains_key(j.dest) {
        assert(is_taken(p, j.dest));
    }
    assert forall|k: int| 0 <= k < j.backlinks.len() implies #[trigger] j.backlinks[k] == j.dest || (
    s.files.contains_key(j.backlinks[k]) && j.backlinks[k] != j.source) by {
        assert(report.changes[k + 1] == links[k]);
        assert(is_path_of(rs, links[k].0));
        let i = choose|i: int| 0 <= i < rs.len() && (#[trigger] rs[i]).path == links[k].0;
        assert(is_from(rs[i], notes));
        lemma_note_is_there(rs[i], notes, p, s.files);
    }
    law_whole_rename(s, at, j, report, fsync);
}

} // verus!
