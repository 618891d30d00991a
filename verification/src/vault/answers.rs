//! What the answers to queries hold.

use crate::error::Failure;
use crate::query::{Cond, Request, SortBy};
use crate::record::{Rec, Val};
use crate::text::{joined, text_order, Order};
use crate::tree::{file_at, has_folder, notes_in, FileView, Picture};
use crate::frontmatter::note_of;
use crate::links::{graph_of, Graph};
use crate::path::{below, components};
use crate::vault::laws::{all_of, law_query_order, law_records_are_kept};
use crate::vault::{
    answered, arranged, found_by_name, full_path, loaded, meeting, meets, offered, projected,
    queried, resolved_components, scoped_graph, sort_value, sorted_records, vault_above, vault_of,
    with_keys, GraphScope,
};
use crate::filter::holds;
use vstd::prelude::*;

verus! {

/// Of the fields of a note, those are kept whose names are asked for, with their values, and
/// no others.
proof fn lemma_with_keys(m: Seq<(Seq<char>, Val)>, wanted: Seq<Seq<char>>, e: (Seq<char>, Val))
    ensures
        with_keys(m, wanted).contains(e) <==> m.contains(e) && wanted.contains(e.0),
    decreases m.len(),
{
    if m.len() > 0 {
        let init = m.drop_last();
        let kept = with_keys(init, wanted);
        lemma_with_keys(init, wanted, e);
        assert(m =~= init.push(m.last()));
        crate::links::laws::lemma_contains_push(init, m.last(), e);
        crate::links::laws::lemma_contains_push(kept, m.last(), e);
    }
}

/// A query gives a note with the fields that are asked for, or with all of them; it keeps
/// their values, the path and the times of the note, and leaves out its text.
pub proof fn law_notes_are_projected(r: Rec, wanted: Seq<Seq<char>>, e: (Seq<char>, Val))
    ensures
        projected(r, None).fields == r.fields,
        projected(r, Some(wanted)).fields.contains(e) <==> r.fields.contains(e) && wanted.contains(
            e.0,
        ),
        projected(r, Some(wanted)).path == r.path && projected(r, None).path == r.path,
        projected(r, Some(wanted)).content is None && projected(r, None).content is None,
        projected(r, Some(wanted)).modified == r.modified,
        projected(r, None).modified == r.modified,
        projected(r, Some(wanted)).created == r.created,
        projected(r, None).created == r.created,
{
    lemma_with_keys(r.fields, wanted, e);
}

/// Every note that meets the condition of a query without a limit is among the answers,
/// whatever their order.
pub proof fn law_every_match_is_given(
    rs: Seq<Rec>,
    filter: Cond,
    select: Option<Seq<Seq<char>>>,
    sort: Option<SortBy>,
    root: Seq<char>,
    j: int,
)
    requires
        0 <= j < rs.len(),
        holds(filter, rs[j], root, crate::vault::graph_for(rs, Some(filter))),
    ensures
        answered(rs, Some(filter), select, sort, None, root).contains(projected(rs[j], select)),
{
    lemma_match_is_given(rs, Some(filter), select, sort, root, j);
}

/// A query without a condition gives every note.
pub proof fn law_every_note_is_given(
    rs: Seq<Rec>,
    select: Option<Seq<Seq<char>>>,
    sort: Option<SortBy>,
    root: Seq<char>,
    j: int,
)
    requires
        0 <= j < rs.len(),
    ensures
        answered(rs, None, select, sort, None, root).contains(projected(rs[j], select)),
{
    lemma_match_is_given(rs, None, select, sort, root, j);
}

/// What meets the condition of a query without a limit is among the answers.
proof fn lemma_match_is_given(
    rs: Seq<Rec>,
    filter: Option<Cond>,
    select: Option<Seq<Seq<char>>>,
    sort: Option<SortBy>,
    root: Seq<char>,
    j: int,
)
    requires
        0 <= j < rs.len(),
        meets(rs[j], filter, root, crate::vault::graph_for(rs, filter)),
    ensures
        answered(rs, filter, select, sort, None, root).contains(projected(rs[j], select)),
{
    let g = crate::vault::graph_for(rs, filter);
    let found = meeting(rs, filter, root, g);
    lemma_meeting_has(rs, filter, root, g, j);
    let out = arranged(found, sort, None, root);
    if let Some(key) = sort {
        law_records_are_kept(found, key.field, key.descending, root, 0);
        vstd::seq_lib::to_multiset_contains(found, rs[j]);
        vstd::seq_lib::to_multiset_contains(out, rs[j]);
    }
    assert(out.contains(rs[j]));
    let k = choose|k: int| 0 <= k < out.len() && out[k] == rs[j];
    let ans = answered(rs, filter, select, sort, None, root);
    assert(ans[k] == projected(rs[j], select));
}

/// What meets a condition is among what was found.
proof fn lemma_meeting_has(
    rs: Seq<Rec>,
    filter: Option<Cond>,
    root: Seq<char>,
    g: Option<crate::links::Graph>,
    j: int,
)
    requires
        0 <= j < rs.len(),
        meets(rs[j], filter, root, g),
    ensures
        meeting(rs, filter, root, g).contains(rs[j]),
    decreases rs.len(),
{
    let init = rs.drop_last();
    let found = meeting(init, filter, root, g);
    if j < init.len() {
        assert(init[j] == rs[j]);
        lemma_meeting_has(init, filter, root, g, j);
        let k = choose|k: int| 0 <= k < found.len() && found[k] == rs[j];
        assert(meeting(rs, filter, root, g)[k] == rs[j]);
    } else {
        assert(meeting(rs, filter, root, g)[found.len() as int] == rs[j]);
    }
}

/// A query without an order answers with the notes that meet its condition in the order that
/// they have: one more note is one more answer behind the others if it meets the condition, and
/// else none. With a limit the first of the answers are given.
pub proof fn law_answers_keep_their_order(
    rs: Seq<Rec>,
    r: Rec,
    select: Option<Seq<Seq<char>>>,
    n: usize,
    filter: Cond,
    root: Seq<char>,
)
    requires
        !crate::filter::uses_links(filter),
    ensures
        answered(Seq::empty(), Some(filter), select, None, None, root) == Seq::<Rec>::empty(),
        holds(filter, r, root, None) ==> answered(
            rs.push(r),
            Some(filter),
            select,
            None,
            None,
            root,
        ) == answered(rs, Some(filter), select, None, None, root).push(projected(r, select)),
        !holds(filter, r, root, None) ==> answered(
            rs.push(r),
            Some(filter),
            select,
            None,
            None,
            root,
        ) == answered(rs, Some(filter), select, None, None, root),
        answered(rs, Some(filter), select, None, Some(n), root) == if n < answered(
            rs,
            Some(filter),
            select,
            None,
            None,
            root,
        ).len() {
            answered(rs, Some(filter), select, None, None, root).take(n as int)
        } else {
            answered(rs, Some(filter), select, None, None, root)
        },
{
    let f = Some(filter);
    assert(rs.push(r).drop_last() =~= rs);
    assert(answered(Seq::empty(), f, select, None, None, root) =~= Seq::empty());
    let all = answered(rs, f, select, None, None, root);
    let more = answered(rs.push(r), f, select, None, None, root);
    if holds(filter, r, root, None) {
        assert(more =~= all.push(projected(r, select)));
    } else {
        assert(more =~= all);
    }
    let some = answered(rs, f, select, None, Some(n), root);
    if n < all.len() {
        assert(some =~= all.take(n as int));
    } else {
        assert(some =~= all);
    }
}

/// Notes whose values in a field are integers are put in order by them, ascending or
/// descending as is asked; so are texts, character by character.
pub proof fn law_notes_are_sorted(
    rs: Seq<Rec>,
    field: Seq<char>,
    descending: bool,
    root: Seq<char>,
    p: int,
    q: int,
)
    requires
        0 <= p < q < rs.len(),
    ensures
        (forall|i: int| 0 <= i < rs.len() ==> sort_value(#[trigger] rs[i], field, root) is Int) ==> {
            let a = sort_value(sorted_records(rs, field, descending, root)[p], field, root);
            let b = sort_value(sorted_records(rs, field, descending, root)[q], field, root);
            a is Int && b is Int && if descending {
                a->Int_0 >= b->Int_0
            } else {
                a->Int_0 <= b->Int_0
            }
        },
        (forall|i: int| 0 <= i < rs.len() ==> sort_value(#[trigger] rs[i], field, root) is Text)
            ==> {
            let a = sort_value(sorted_records(rs, field, descending, root)[p], field, root);
            let b = sort_value(sorted_records(rs, field, descending, root)[q], field, root);
            a is Text && b is Text && if descending {
                text_order(a->Text_0, b->Text_0) != Order::Less
            } else {
                text_order(a->Text_0, b->Text_0) != Order::Greater
            }
        },
        (forall|i: int|
            0 <= i < rs.len() ==> sort_value(#[trigger] rs[i], field, root) is Int || sort_value(
                rs[i],
                field,
                root,
            ) is Null) ==> {
            let a = sort_value(sorted_records(rs, field, descending, root)[p], field, root);
            let b = sort_value(sorted_records(rs, field, descending, root)[q], field, root);
            if descending {
                a is Null ==> b is Null
            } else {
                b is Null ==> a is Null
            }
        },
{
    let out = sorted_records(rs, field, descending, root);
    law_records_are_kept(rs, field, descending, root, 0);
    if forall|i: int|
        0 <= i < rs.len() ==> sort_value(#[trigger] rs[i], field, root) is Int || sort_value(
            rs[i],
            field,
            root,
        ) is Null {
        assert(all_of(rs, field, root, "integer"@));
        law_query_order(rs, field, descending, root, "integer"@, 0);
        lemma_kept(rs, out, p);
        lemma_kept(rs, out, q);
    }
    if forall|i: int| 0 <= i < rs.len() ==> sort_value(#[trigger] rs[i], field, root) is Text {
        assert(all_of(rs, field, root, "string"@));
        law_query_order(rs, field, descending, root, "string"@, 0);
        lemma_kept(rs, out, p);
        lemma_kept(rs, out, q);
    }
}

/// A note among notes put in order is one of them.
proof fn lemma_kept(rs: Seq<Rec>, out: Seq<Rec>, p: int)
    requires
        rs.to_multiset() == out.to_multiset(),
        0 <= p < out.len(),
    ensures
        rs.contains(out[p]),
{
    vstd::seq_lib::to_multiset_contains(out, out[p]);
    vstd::seq_lib::to_multiset_contains(rs, out[p]);
}

/// A query on a folder that is not there is a failure that names it.
pub proof fn law_missing_folder(p: Picture, root: Seq<char>, q: Request, name: Seq<char>)
    requires
        !has_folder(p, below(root, q.folder)),
    ensures
        queried(p, root, q) == Err::<Seq<Rec>, Failure>(Failure::FolderNotFound(q.folder)),
        found_by_name(p, root, q.folder, name) == Err::<Option<Rec>, Failure>(
            Failure::FolderNotFound(q.folder),
        ),
{
}

// ── Where a vault is ───────────────────────────────────────────────────────

/// A component of a path is kept, unless it leads upwards: then it takes away the one before it,
/// where there is one.
pub proof fn law_paths_are_resolved(cs: Seq<Seq<char>>, c: Seq<char>)
    ensures
        resolved_components(Seq::empty()) == Seq::<Seq<char>>::empty(),
        c != ".."@ ==> resolved_components(cs.push(c)) == resolved_components(cs).push(c),
        resolved_components(cs).len() > 0 ==> resolved_components(cs.push(".."@))
            == resolved_components(cs).drop_last(),
        resolved_components(cs).len() == 0 ==> resolved_components(cs.push(".."@)).len() == 0,
{
    assert(cs.push(c).drop_last() =~= cs);
    assert(cs.push(".."@).drop_last() =~= cs);
}

/// A vault is looked for at the path that is given, told from the folder that it is looked up
/// in, and in the folders above it.
pub proof fn law_vaults_are_found(p: Picture, cwd: Seq<char>, start: Seq<char>)
    ensures
        vault_of(p, cwd, start) == vault_above(
            p,
            full_path(cwd, start),
            components(full_path(cwd, start)).len() as int,
        ),
        full_path(cwd, start) == "/"@ + joined(
            resolved_components(components(below(cwd, start))),
            "/"@,
        ),
{
}

/// The graph of a vault is that of all its notes; of a folder, that of the notes in it and in
/// the folders below; and by a condition, that of the notes which meet it.
pub proof fn law_graphs_of_a_vault(p: Picture, root: Seq<char>, folder: String, rs: Seq<Rec>)
    ensures
        loaded(notes_in(p.files, root, true), true) is Ok && loaded(
            notes_in(p.files, root, true),
            true,
        )->Ok_0.0 == rs ==> scoped_graph(p, root, GraphScope::All) == Ok::<Graph, Failure>(
            graph_of(rs),
        ),
        !has_folder(p, below(root, folder@)) ==> scoped_graph(
            p,
            root,
            GraphScope::Folder(folder),
        ) is Err,
        has_folder(p, below(root, folder@)) && loaded(
            notes_in(p.files, below(root, folder@), true),
            true,
        ) is Ok && loaded(notes_in(p.files, below(root, folder@), true), true)->Ok_0.0 == rs
            ==> scoped_graph(p, root, GraphScope::Folder(folder)) == Ok::<Graph, Failure>(
            graph_of(rs),
        ),
{
}

/// A note is found by its name in its folder, without its text; nothing is found where no file
/// has that name.
pub proof fn law_notes_are_found(p: Picture, root: Seq<char>, folder: Seq<char>, name: Seq<char>)
    requires
        has_folder(p, below(root, folder)),
    ensures
        file_at(p.files, below(below(root, folder), name + ".md"@), 0) is None ==> found_by_name(
            p,
            root,
            folder,
            name,
        ) == Ok::<Option<Rec>, Failure>(None),
        ({
            let path = below(below(root, folder), name + ".md"@);
            let at = file_at(p.files, path, 0);
            at is Some && note_of(FileView { path, ..p.files[at->0] }, false) is Ok
                ==> found_by_name(p, root, folder, name) == Ok::<Option<Rec>, Failure>(
                Some(note_of(FileView { path, ..p.files[at->0] }, false)->Ok_0),
            )
        }),
{
}

/// A file that is looked at adds its note to the answers if that meets the condition, and
/// nothing if it does not or if its frontmatter cannot be read; a file that cannot be read at
/// all ends the query.
pub proof fn law_files_are_offered(
    f: FileView,
    filter: Cond,
    select: Option<Seq<Seq<char>>>,
    root: Seq<char>,
    r: Rec,
)
    ensures
        note_of(f, true) == Ok::<Rec, Failure>(r) && holds(filter, r, root, None) ==> offered(
            f,
            Some(filter),
            select,
            root,
        ) == Some(Ok::<Rec, Failure>(projected(r, select))),
        note_of(f, true) == Ok::<Rec, Failure>(r) && !holds(filter, r, root, None) ==> offered(
            f,
            Some(filter),
            select,
            root,
        ) is None,
        note_of(f, true) is Err && note_of(f, true)->Err_0 is InvalidFrontmatter ==> offered(
            f,
            Some(filter),
            select,
            root,
        ) is None,
        note_of(f, true) is Err && !(note_of(f, true)->Err_0 is InvalidFrontmatter) ==> offered(
            f,
            Some(filter),
            select,
            root,
        ) == Some(Err::<Rec, Failure>(note_of(f, true)->Err_0)),
{
}

} // verus!
