//! The commands `delete` and `move`: which files they touch, and where the files go.

use crate::cli::query::{
    clauses, folder_notes, load_folder, matches_all, parse_where_clauses, CommandError, Purpose,
    Trouble,
};
use crate::error::{Failure, VaultdbError};
use crate::links::{graph_of, sources, Graph, LinkGraph};
use crate::mutation::laws::law_place_is_free;
use crate::mutation::relocate::{free_place, has_path, is_among, unique_in_dir};
use crate::path::{
    below, extension, extension_of, file_name, file_name_of, join_path, relative, relative_to, stem,
    stem_of,
};
use crate::query::{conds, Cond, Expr};
use crate::record::{lemma_recs_push, note_name, recs, Rec, Record};
use crate::text::{cat2, cat3, cat4, decimal, number_text, same_text, string_views};
use crate::tree::{has_folder, is_taken, notes_in, Picture, Tree};
use crate::vault::{loaded, meeting, Vault};
use vstd::prelude::*;

verus! {

/// The refusal of a command without a condition.
pub open spec fn unconditional(command: Seq<char>) -> Trouble {
    Trouble::Failed(
        Failure::SafetyRefused { reason: command + " requires at least one --where condition"@ },
    )
}

/// The notes of a folder that a command which changes files is about: those that meet
/// all conditions, without the link graph.
pub open spec fn matching_notes(
    p: Picture,
    root: Seq<char>,
    command: Seq<char>,
    folder: Seq<char>,
    wheres: Seq<Seq<char>>,
    recursive: bool,
) -> Result<Seq<Rec>, Trouble> {
    if wheres.len() == 0 {
        Err(unconditional(command))
    } else if !has_folder(p, below(root, folder)) {
        Err(Trouble::Failed(Failure::FolderNotFound(folder)))
    } else {
        match clauses(wheres, Purpose::Where) {
            Err(t) => Err(t),
            Ok(cs) => match folder_notes(p, root, folder, recursive) {
                Err(e) => Err(Trouble::Failed(e)),
                Ok(rs) => Ok(meeting(rs, Some(Cond::And(cs)), root, None)),
            },
        }
    }
}

/// Finds the notes that a command which changes files is about.
fn find_matching(
    vault: &Vault,
    tree: &Tree,
    command: &str,
    folder: &str,
    where_strs: &Vec<String>,
    recursive: bool,
) -> (r: Result<Vec<Record>, CommandError>)
    ensures
        crate::cli::report::notes_view(r) == matching_notes(
            tree@,
            vault.root@,
            command@,
            folder@,
            string_views(where_strs@),
            recursive,
        ),
{
    if where_strs.len() == 0 {
        return Err(
            CommandError::Failed(
                VaultdbError::SafetyRefused {
                    reason: cat2(command, " requires at least one --where condition"),
                },
            ),
        );
    }
    match vault.resolve_folder(folder, tree) {
        Ok(_) => {},
        Err(e) => {
            return Err(CommandError::Failed(e));
        },
    }
    let es: Vec<Expr> = match parse_where_clauses(where_strs, Purpose::Where) {
        Ok(es) => es,
        Err(e) => {
            return Err(e);
        },
    };
    let records: Vec<Record> = match load_folder(vault, tree, folder, recursive) {
        Ok(v) => v,
        Err(e) => {
            return Err(e);
        },
    };
    let ghost rs = recs(records@);
    let ghost c = Cond::And(conds(es@));
    let mut out: Vec<Record> = Vec::new();
    let mut i: usize = 0;
    assert(rs.take(0) =~= seq![]);
    assert(recs(out@) =~= seq![]);
    while i < records.len()
        invariant
            rs == recs(records@),
            c == Cond::And(conds(es@)),
            i <= records.len(),
            recs(out@) == meeting(rs.take(i as int), Some(c), vault.root@, None),
        decreases records.len() - i,
    {
        assert(rs.take(i + 1).drop_last() =~= rs.take(i as int));
        assert(rs.take(i + 1).last() == records@[i as int]@);
        if matches_all(&es, &records[i], vault.root.as_str(), None) {
            let x: Record = crate::record::copy_record(&records[i]);
            proof {
                lemma_recs_push(out@, x);
            }
            out.push(x);
        }
        i += 1;
    }
    assert(rs.take(i as int) =~= rs);
    Ok(out)
}

// ── Deleting ───────────────────────────────────────────────────────────────

/// A note that is deleted: its path, how that is shown, and the notes whose links to
/// it will lead nowhere.
#[derive(Debug, PartialEq, Eq)]
pub struct Deletion {
    pub path: String,
    pub shown: String,
    pub backlinks: Vec<String>,
}

/// A note that is deleted, with its texts as sequences of characters.
pub struct Deleted {
    pub path: Seq<char>,
    pub shown: Seq<char>,
    pub backlinks: Seq<Seq<char>>,
}

impl View for Deletion {
    type V = Deleted;

    open spec fn view(&self) -> Deleted {
        Deleted {
            path: self.path@,
            shown: self.shown@,
            backlinks: string_views(self.backlinks@),
        }
    }
}

/// What notes that are deleted are.
pub open spec fn deletion_views(v: Seq<Deletion>) -> Seq<Deleted> {
    Seq::new(v.len(), |i: int| v[i]@)
}

/// What the command `delete` is about: the notes, and how many links will lead
/// nowhere.
#[derive(Debug, PartialEq, Eq)]
pub struct DeleteOutput {
    pub notes: Vec<Deletion>,
    pub dangling: u128,
}

/// The deletions of some notes.
pub open spec fn deletions_of(rs: Seq<Rec>, root: Seq<char>, g: Graph) -> Seq<Deleted> {
    Seq::new(
        rs.len(),
        |i: int|
            Deleted {
                path: rs[i].path,
                shown: relative(rs[i].path, root),
                backlinks: sources(g.edges, note_name(rs[i].path)),
            },
    )
}

/// How many links lead to some notes.
pub open spec fn dangling_links(ds: Seq<Deleted>) -> nat
    decreases ds.len(),
{
    if ds.len() == 0 {
        0
    } else {
        dangling_links(ds.drop_last()) + ds.last().backlinks.len()
    }
}

/// What the command `delete` is about. The links counted are those of all notes of the
/// vault.
pub open spec fn delete_run(
    p: Picture,
    root: Seq<char>,
    folder: Seq<char>,
    wheres: Seq<Seq<char>>,
    recursive: bool,
) -> Result<(Seq<Deleted>, nat), Trouble> {
    match matching_notes(p, root, "delete"@, folder, wheres, recursive) {
        Err(t) => Err(t),
        Ok(rs) => match loaded(notes_in(p.files, root, true), true) {
            Err(e) => Err(Trouble::Failed(e)),
            Ok((all, _)) => {
                let ds = deletions_of(rs, root, graph_of(all));
                Ok((ds, dangling_links(ds)))
            },
        },
    }
}

/// What the command `delete` is about, or the failure.
pub open spec fn delete_view(r: Result<DeleteOutput, CommandError>) -> Result<
    (Seq<Deleted>, nat),
    Trouble,
> {
    match r {
        Ok(o) => Ok((deletion_views(o.notes@), o.dangling as nat)),
        Err(e) => Err(e@),
    }
}

/// Finds what the command `delete` is about.
pub fn run_delete(
    vault: &Vault,
    tree: &Tree,
    folder: &str,
    where_strs: &Vec<String>,
    recursive: bool,
) -> (r: Result<DeleteOutput, CommandError>)
    ensures
        delete_view(r) == delete_run(
            tree@,
            vault.root@,
            folder@,
            string_views(where_strs@),
            recursive,
        ),
{
    let records: Vec<Record> = match find_matching(
        vault,
        tree,
        "delete",
        folder,
        where_strs,
        recursive,
    ) {
        Ok(v) => v,
        Err(e) => {
            return Err(e);
        },
    };
    let g: LinkGraph = match vault.load_records_with_content(vault.root.as_str(), true, tree) {
        Ok(l) => LinkGraph::build(&l.records),
        Err(e) => {
            return Err(CommandError::Failed(e));
        },
    };
    let ghost rs = recs(records@);
    let ghost want = deletions_of(rs, vault.root@, g@);
    let mut notes: Vec<Deletion> = Vec::new();
    let mut dangling: u128 = 0;
    let mut i: usize = 0;
    assert(deletion_views(notes@) =~= want.take(0));
    while i < records.len()
        invariant
            rs == recs(records@),
            want == deletions_of(rs, vault.root@, g@),
            i <= records.len(),
            deletion_views(notes@) == want.take(i as int),
            dangling == dangling_links(want.take(i as int)),
            dangling <= i * 0x1_0000_0000_0000_0000,
        decreases records.len() - i,
    {
        assert(want.take(i + 1).drop_last() =~= want.take(i as int));
        let name: String = records[i].virtual_name();
        let backlinks: Vec<String> = g.incoming_links(name.as_str());
        assert(string_views(backlinks@).len() == backlinks.len());
        assert(i * 0x1_0000_0000_0000_0000 + 0x1_0000_0000_0000_0000 == (i + 1)
            * 0x1_0000_0000_0000_0000);
        dangling += backlinks.len() as u128;
        let d: Deletion = Deletion {
            path: records[i].path.clone(),
            shown: relative_to(records[i].path.as_str(), vault.root.as_str()),
            backlinks,
        };
        let ghost before = deletion_views(notes@);
        notes.push(d);
        assert(deletion_views(notes@) =~= before.push(d@));
        i += 1;
        assert(deletion_views(notes@) =~= want.take(i as int));
    }
    assert(want.take(i as int) =~= want);
    Ok(DeleteOutput { notes, dangling })
}

/// The name of a note with a time in it.
pub open spec fn stamped_name(name: Seq<char>, now: u64) -> Seq<char> {
    stem(name) + "."@ + decimal(now as nat) + match extension(name) {
        Some(e) => "."@ + e,
        None => seq![],
    }
}

/// Where a note goes in the trash: under its own name, or with the time in it where that
/// is taken, and with a number behind it where that is taken too.
pub open spec fn trash_place(
    root: Seq<char>,
    name: Seq<char>,
    taken: Seq<Seq<char>>,
    now: u64,
) -> Seq<char> {
    let trash = below(root, ".trash"@);
    if has_path(taken, below(trash, name)) {
        free_place(taken, trash, stamped_name(name, now))
    } else {
        below(trash, name)
    }
}

/// Puts a time in the name of a note.
fn stamp_name(name: &str, now: u64) -> (r: String)
    ensures
        r@ == stamped_name(name@, now),
{
    let mut stamped: String = cat3(stem_of(name).as_str(), ".", number_text(now).as_str());
    match extension_of(name) {
        Some(e) => {
            stamped.append(".");
            stamped.append(e.as_str());
            assert(stamped@ =~= stem(name@) + "."@ + decimal(now as nat) + ("."@ + e@));
        },
        None => {
            assert(stamped@ =~= stem(name@) + "."@ + decimal(now as nat) + seq![]);
        },
    }
    stamped
}

/// Finds where a note goes in the trash, given what is there: under its own name, or,
/// where something is there, with the time in seconds in its name. It never takes the
/// place of another.
pub fn free_trash_place(vault_root: &str, path: &str, taken: &Vec<String>, now: u64) -> (r: Option<String>)
    ensures
        match r {
            Some(d) => file_name(path@) is Some && d@ == trash_place(
                vault_root@,
                file_name(path@)->0,
                string_views(taken@),
                now,
            ) && !has_path(string_views(taken@), d@),
            None => file_name(path@) is None,
        },
{
    let name: String = match file_name_of(path) {
        Some(n) => n,
        None => {
            return None;
        },
    };
    let trash: String = join_path(vault_root, ".trash");
    let own: String = join_path(trash.as_str(), name.as_str());
    if !is_among(taken, own.as_str()) {
        return Some(own);
    }
    let stamped: String = stamp_name(name.as_str(), now);
    proof {
        law_place_is_free(string_views(taken@), trash@, stamped@);
    }
    Some(unique_in_dir(trash.as_str(), stamped.as_str(), taken))
}

// ── Moving ─────────────────────────────────────────────────────────────────

/// A note that is moved: from where and to where, and how both are shown.
#[derive(Debug, PartialEq, Eq)]
pub struct Relocation {
    pub from: String,
    pub to: String,
    pub shown_from: String,
    pub shown_to: String,
}

/// A note that is moved, with its texts as sequences of characters.
pub struct Moved {
    pub from: Seq<char>,
    pub to: Seq<char>,
    pub shown_from: Seq<char>,
    pub shown_to: Seq<char>,
}

impl View for Relocation {
    type V = Moved;

    open spec fn view(&self) -> Moved {
        Moved {
            from: self.from@,
            to: self.to@,
            shown_from: self.shown_from@,
            shown_to: self.shown_to@,
        }
    }
}

/// What notes that are moved are.
pub open spec fn move_views(v: Seq<Relocation>) -> Seq<Moved> {
    Seq::new(v.len(), |i: int| v[i]@)
}

/// The name of a note's file.
pub open spec fn file_of(r: Rec) -> Seq<char> {
    match file_name(r.path) {
        Some(n) => n,
        None => seq![],
    }
}

/// The message that a note cannot be moved.
pub open spec fn conflict(name: Seq<char>, target: Seq<char>) -> Trouble {
    Trouble::Message("conflict: "@ + name + " already exists in "@ + target)
}

/// Whether one of some notes is moved to a place.
pub open spec fn goes_to(moves: Seq<Moved>, to: Seq<char>) -> bool {
    exists|i: int| 0 <= i < moves.len() && (#[trigger] moves[i]).to == to
}

/// Tells whether one of some notes is moved to a place.
fn moves_to(moves: &Vec<Relocation>, to: &str) -> (r: bool)
    ensures
        r == goes_to(move_views(moves@), to@),
{
    let ghost all = move_views(moves@);
    let mut i: usize = 0;
    while i < moves.len()
        invariant
            all == move_views(moves@),
            i <= moves.len(),
            forall|k: int| 0 <= k < i ==> (#[trigger] all[k]).to != to@,
        decreases moves.len() - i,
    {
        assert(all[i as int].to == moves@[i as int].to@);
        if same_text(moves[i].to.as_str(), to) {
            return true;
        }
        i += 1;
    }
    false
}

/// Moves of notes to a folder, or the first note that something stands in the way of: a
/// file that is there, or a note of the same name that goes there before it.
pub open spec fn moves_of(
    rs: Seq<Rec>,
    root: Seq<char>,
    target: Seq<char>,
    p: Picture,
) -> Result<Seq<Moved>, Trouble>
    decreases rs.len(),
{
    if rs.len() == 0 {
        Ok(seq![])
    } else {
        match moves_of(rs.drop_last(), root, target, p) {
            Err(t) => Err(t),
            Ok(before) => {
                let r = rs.last();
                let to = below(below(root, target), file_of(r));
                if is_taken(p, to) || goes_to(before, to) {
                    Err(conflict(file_of(r), target))
                } else {
                    Ok(
                        before.push(
                            Moved {
                                from: r.path,
                                to,
                                shown_from: relative(r.path, root),
                                shown_to: relative(to, root),
                            },
                        ),
                    )
                }
            },
        }
    }
}

/// The first note in the way stands.
proof fn lemma_moves(rs: Seq<Rec>, root: Seq<char>, target: Seq<char>, p: Picture, n: int)
    requires
        0 <= n <= rs.len(),
        moves_of(rs.take(n), root, target, p) is Err,
    ensures
        moves_of(rs, root, target, p) == moves_of(rs.take(n), root, target, p),
    decreases rs.len() - n,
{
    if n < rs.len() {
        assert(rs.take(n + 1).drop_last() =~= rs.take(n));
        lemma_moves(rs, root, target, p, n + 1);
    } else {
        assert(rs.take(n) =~= rs);
    }
}

/// What the command `move` is about.
pub open spec fn move_run(
    p: Picture,
    root: Seq<char>,
    folder: Seq<char>,
    wheres: Seq<Seq<char>>,
    target: Seq<char>,
    recursive: bool,
) -> Result<Seq<Moved>, Trouble> {
    match matching_notes(p, root, "move"@, folder, wheres, recursive) {
        Err(t) => Err(t),
        Ok(rs) => moves_of(rs, root, target, p),
    }
}

/// What the command `move` is about, or the failure.
pub open spec fn moves_view(r: Result<Vec<Relocation>, CommandError>) -> Result<
    Seq<Moved>,
    Trouble,
> {
    match r {
        Ok(v) => Ok(move_views(v@)),
        Err(e) => Err(e@),
    }
}

/// No note is moved where something is, and no two to one place.
pub proof fn law_moves_are_free(
    rs: Seq<Rec>,
    root: Seq<char>,
    target: Seq<char>,
    p: Picture,
)
    requires
        moves_of(rs, root, target, p) is Ok,
    ensures
        ({
            let ms = moves_of(rs, root, target, p)->Ok_0;
            &&& ms.len() == rs.len()
            &&& forall|i: int| 0 <= i < ms.len() ==> !is_taken(p, (#[trigger] ms[i]).to)
            &&& forall|i: int, j: int|
                0 <= i < j < ms.len() ==> (#[trigger] ms[i]).to != (#[trigger] ms[j]).to
        }),
    decreases rs.len(),
{
    if rs.len() > 0 {
        let rest = rs.drop_last();
        law_moves_are_free(rest, root, target, p);
        let before = moves_of(rest, root, target, p)->Ok_0;
        let ms = moves_of(rs, root, target, p)->Ok_0;
        assert forall|i: int| 0 <= i < ms.len() implies !is_taken(p, (#[trigger] ms[i]).to) by {
            if i < before.len() {
                assert(ms[i] == before[i]);
            }
        }
        assert forall|i: int, j: int| 0 <= i < j < ms.len() implies (#[trigger] ms[i]).to != (
        #[trigger] ms[j]).to by {
            assert(ms[i] == before[i]);
            if j < before.len() {
                assert(ms[j] == before[j]);
            } else {
                assert(!goes_to(before, ms[j].to));
            }
        }
    }
}

/// Finds what the command `move` is about. No note is moved where something is, and no two
/// to one place.
pub fn run_move(
    vault: &Vault,
    tree: &Tree,
    folder: &str,
    where_strs: &Vec<String>,
    target_folder: &str,
    recursive: bool,
) -> (r: Result<Vec<Relocation>, CommandError>)
    ensures
        moves_view(r) == move_run(
            tree@,
            vault.root@,
            folder@,
            string_views(where_strs@),
            target_folder@,
            recursive,
        ),
{
    let records: Vec<Record> = match find_matching(
        vault,
        tree,
        "move",
        folder,
        where_strs,
        recursive,
    ) {
        Ok(v) => v,
        Err(e) => {
            return Err(e);
        },
    };
    let target: String = join_path(vault.root.as_str(), target_folder);
    let ghost rs = recs(records@);
    let mut out: Vec<Relocation> = Vec::new();
    let mut i: usize = 0;
    assert(rs.take(0) =~= seq![]);
    assert(move_views(out@) =~= seq![]);
    while i < records.len()
        invariant
            rs == recs(records@),
            target@ == below(vault.root@, target_folder@),
            i <= records.len(),
            moves_of(rs.take(i as int), vault.root@, target_folder@, tree@) == Ok::<
                Seq<Moved>,
                Trouble,
            >(move_views(out@)),
            move_run(
                tree@,
                vault.root@,
                folder@,
                string_views(where_strs@),
                target_folder@,
                recursive,
            ) == moves_of(rs, vault.root@, target_folder@, tree@),
        decreases records.len() - i,
    {
        assert(rs.take(i + 1).drop_last() =~= rs.take(i as int));
        assert(rs.take(i + 1).last() == records@[i as int]@);
        let from: &str = records[i].path.as_str();
        let name: String = match file_name_of(from) {
            Some(n) => n,
            None => String::new(),
        };
        assert(name@ =~= file_of(records@[i as int]@));
        let to: String = join_path(target.as_str(), name.as_str());
        if tree.has(to.as_str()) || moves_to(&out, to.as_str()) {
            proof {
                lemma_moves(rs, vault.root@, target_folder@, tree@, i + 1);
            }
            return Err(
                CommandError::Message(
                    cat4("conflict: ", name.as_str(), " already exists in ", target_folder),
                ),
            );
        }
        let m: Relocation = Relocation {
            from: records[i].path.clone(),
            shown_from: relative_to(from, vault.root.as_str()),
            shown_to: relative_to(to.as_str(), vault.root.as_str()),
            to,
        };
        let ghost before = move_views(out@);
        out.push(m);
        assert(move_views(out@) =~= before.push(m@));
        i += 1;
    }
    assert(rs.take(i as int) =~= rs);
    Ok(out)
}

} // verus!
