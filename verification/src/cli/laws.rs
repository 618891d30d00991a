//! What the commands show and do.

use crate::cli::files::{
    dangling_links, delete_run, deletions_of, matching_notes, move_run, moves_of, stamped_name,
    trash_place, Deleted,
};
use crate::cli::query::{
    all_clauses, clauses, count_run, described_links, field_order, field_rank, folder_notes,
    named_links, ordered, query_run, selection, Asked, Purpose, Relations, Shown, Trouble,
};
use crate::cli::report::{
    all_infos, all_tags, by_frequency, count_set, field_texts, fields_run, kinds, links_run,
    links_shown, notes_of, occurrences, resolved, shown_lines, tags_of, tags_run, texts_among,
    traverse_run, TraverseCommand,
};
use crate::cli::writer::{line_set, plainly_quoted};
use crate::dsl::laws::is_plain_char;
use crate::dsl::parsed;
use crate::error::Failure;
use crate::filter::laws::law_conditions_are_joined;
use crate::filter::holds;
use crate::float::law_integers_keep_their_order;
use crate::links::laws::{law_edge_is_source, lemma_contains_push};
use crate::links::{graph_of, reached, record_named, sources, targets, Direction, Graph};
use crate::mutation::relocate::{free_place, has_path};
use crate::mutation::updates::is_bare_word;
use crate::path::{below, extension, relative, stem};
use crate::query::{Cond, LinkCond};
use crate::record::laws::are_distinct;
use crate::record::{field, float_of, kind, looked_up, note_name, shown, Rec, Val};
use crate::schema::{field_names, values_in, values_of};
use crate::sort::{goes_before, is_consistent, law_sorted, positions, sorted};
use crate::text::{
    char_at, decimal, is_text_set, lemma_char_at, lemma_text_set, split_by, string_views,
    text_order, trimmed, Order,
};
use crate::tree::{has_folder, notes_in, Picture};
use crate::vault::{chosen, loaded, meeting, meets};
use crate::writer::notes::{
    are_entries, entry_key, is_name, is_unknown, law_field_is_appended, law_field_is_replaced,
    law_note_is_taken_apart, lemma_found, lemma_takes, note_text, Entry,
};
use crate::writer::{has_special, is_control, is_special, opens_block, Change};
use vstd::prelude::*;

verus! {

// ── Conditions ─────────────────────────────────────────────────────────────

/// Conditions are read one by one: the list of them has, for each text, the condition that it
/// stands for, and the first that stands for none makes the command fail with its reason.
pub proof fn law_conditions_are_read(texts: Seq<Seq<char>>, t: Seq<char>, purpose: Purpose)
    ensures
        clauses(Seq::empty(), purpose) == Ok::<Seq<Cond>, Trouble>(seq![]),
        clauses(texts, purpose) is Ok && parsed(t) is Ok ==> clauses(texts.push(t), purpose)
            == Ok::<Seq<Cond>, Trouble>(clauses(texts, purpose)->Ok_0.push(parsed(t)->Ok_0)),
        clauses(texts, purpose) is Err ==> clauses(texts.push(t), purpose) == clauses(
            texts,
            purpose,
        ),
        clauses(texts, purpose) is Ok && parsed(t) is Err ==> clauses(texts.push(t), purpose) is Err
            && clauses(texts.push(t), purpose)->Err_0 is InContext && clauses(
            texts.push(t),
            purpose,
        )->Err_0->cause == parsed(t)->Err_0,
{
    assert(texts.push(t).drop_last() =~= texts);
}

/// Whether a note meets everything that a query asks of it: its conditions, and those on the
/// notes that it links to and that link to it.
pub open spec fn is_asked_for(
    r: Rec,
    wheres: Seq<Cond>,
    relations: Relations,
    to: Seq<Cond>,
    from: Seq<Cond>,
    root: Seq<char>,
    g: Option<Graph>,
) -> bool {
    &&& forall|k: int| 0 <= k < wheres.len() ==> holds(#[trigger] wheres[k], r, root, g)
    &&& forall|k: int|
        0 <= k < relations.links_to.len() ==> holds(
            Cond::LinksTo(LinkCond::Target(#[trigger] relations.links_to[k])),
            r,
            root,
            g,
        )
    &&& forall|k: int|
        0 <= k < relations.linked_from.len() ==> holds(
            Cond::LinkedFrom(LinkCond::Target(#[trigger] relations.linked_from[k])),
            r,
            root,
            g,
        )
    &&& forall|k: int|
        0 <= k < to.len() ==> holds(
            Cond::LinksTo(LinkCond::Where(Box::new(#[trigger] to[k]))),
            r,
            root,
            g,
        )
    &&& forall|k: int|
        0 <= k < from.len() ==> holds(
            Cond::LinkedFrom(LinkCond::Where(Box::new(#[trigger] from[k]))),
            r,
            root,
            g,
        )
}

/// A note meets all conditions of a query exactly if it is one that is asked for.
proof fn lemma_all_clauses(
    r: Rec,
    wheres: Seq<Cond>,
    relations: Relations,
    to: Seq<Cond>,
    from: Seq<Cond>,
    root: Seq<char>,
    g: Option<Graph>,
)
    ensures
        holds(all_clauses(wheres, relations, to, from), r, root, g) <==> is_asked_for(
            r,
            wheres,
            relations,
            to,
            from,
            root,
            g,
        ),
{
    let a = named_links(relations.links_to, false);
    let b = named_links(relations.linked_from, true);
    let c = described_links(to, false);
    let d = described_links(from, true);
    let n1 = wheres.len() as int;
    let n2 = n1 + a.len();
    let n3 = n2 + b.len();
    let n4 = n3 + c.len();
    let all = wheres + a + b + c + d;
    assert(all_clauses(wheres, relations, to, from) == Cond::And(all));
    law_conditions_are_joined(all, Cond::And(all), r, root, g);
    if holds(Cond::And(all), r, root, g) {
        assert forall|k: int| 0 <= k < wheres.len() implies holds(#[trigger] wheres[k], r, root, g) by {
            assert(all[k] == wheres[k]);
        }
        assert forall|k: int| 0 <= k < relations.links_to.len() implies holds(
            Cond::LinksTo(LinkCond::Target(#[trigger] relations.links_to[k])),
            r,
            root,
            g,
        ) by {
            assert(all[n1 + k] == a[k]);
        }
        assert forall|k: int| 0 <= k < relations.linked_from.len() implies holds(
            Cond::LinkedFrom(LinkCond::Target(#[trigger] relations.linked_from[k])),
            r,
            root,
            g,
        ) by {
            assert(all[n2 + k] == b[k]);
        }
        assert forall|k: int| 0 <= k < to.len() implies holds(
            Cond::LinksTo(LinkCond::Where(Box::new(#[trigger] to[k]))),
            r,
            root,
            g,
        ) by {
            assert(all[n3 + k] == c[k]);
        }
        assert forall|k: int| 0 <= k < from.len() implies holds(
            Cond::LinkedFrom(LinkCond::Where(Box::new(#[trigger] from[k]))),
            r,
            root,
            g,
        ) by {
            assert(all[n4 + k] == d[k]);
        }
    }
    if is_asked_for(r, wheres, relations, to, from, root, g) {
        assert forall|k: int| 0 <= k < all.len() implies holds(#[trigger] all[k], r, root, g) by {
            if k < n1 {
                assert(all[k] == wheres[k]);
            } else if k < n2 {
                assert(all[k] == a[k - n1]);
                assert(relations.links_to[k - n1] == relations.links_to[k - n1]);
            } else if k < n3 {
                assert(all[k] == b[k - n2]);
                assert(relations.linked_from[k - n2] == relations.linked_from[k - n2]);
            } else if k < n4 {
                assert(all[k] == c[k - n3]);
                assert(to[k - n3] == to[k - n3]);
            } else {
                assert(all[k] == d[k - n4]);
                assert(from[k - n4] == from[k - n4]);
            }
        }
    }
}

/// What meets a condition is what was found.
proof fn lemma_found_meets(
    rs: Seq<Rec>,
    c: Cond,
    root: Seq<char>,
    g: Option<Graph>,
    r: Rec,
)
    ensures
        meeting(rs, Some(c), root, g).contains(r) <==> rs.contains(r) && holds(c, r, root, g),
    decreases rs.len(),
{
    if rs.len() > 0 {
        let init = rs.drop_last();
        lemma_found_meets(init, c, root, g, r);
        assert(rs =~= init.push(rs.last()));
        lemma_contains_push(init, rs.last(), r);
        lemma_contains_push(meeting(init, Some(c), root, g), rs.last(), r);
    }
}

/// A query shows those of the notes of the folder that it asks for, and no others.
pub proof fn law_query_shows_what_is_asked(
    p: Picture,
    root: Seq<char>,
    a: Asked,
    rs: Seq<Rec>,
    wheres: Seq<Cond>,
    to: Seq<Cond>,
    from: Seq<Cond>,
    r: Rec,
)
    requires
        has_folder(p, below(root, a.folder)),
        clauses(a.wheres, Purpose::Where) == Ok::<Seq<Cond>, Trouble>(wheres),
        folder_notes(p, root, a.folder, a.recursive) == Ok::<Seq<Rec>, Failure>(rs),
        clauses(a.relations.links_to_where, Purpose::LinksTo) == Ok::<Seq<Cond>, Trouble>(to),
        clauses(a.relations.linked_from_where, Purpose::LinkedFrom) == Ok::<Seq<Cond>, Trouble>(
            from,
        ),
    ensures
        query_run(p, root, a) is Ok,
        ({
            let s = query_run(p, root, a)->Ok_0;
            &&& s.graph is Some ==> s.graph == Some(graph_of(rs))
            &&& s.records.contains(r) ==> rs.contains(r) && is_asked_for(
                r,
                wheres,
                a.relations,
                to,
                from,
                root,
                s.graph,
            )
            &&& a.limit is None && rs.contains(r) && is_asked_for(
                r,
                wheres,
                a.relations,
                to,
                from,
                root,
                s.graph,
            ) ==> s.records.contains(r)
            &&& a.limit is Some ==> s.records.len() <= a.limit->0
        }),
{
    let c = all_clauses(wheres, a.relations, to, from);
    let s = query_run(p, root, a)->Ok_0;
    let found = meeting(rs, Some(c), root, s.graph);
    lemma_found_meets(rs, c, root, s.graph, r);
    lemma_all_clauses(r, wheres, a.relations, to, from, root, s.graph);
    if let Some(f) = a.sort {
        let out = ordered(found, f, a.desc, root, s.graph);
        lemma_ordered_holds(found, f, a.desc, root, s.graph, r);
        if s.records.contains(r) {
            let k = choose|k: int| 0 <= k < s.records.len() && s.records[k] == r;
            assert(out[k] == r);
        }
    } else {
        if s.records.contains(r) {
            let k = choose|k: int| 0 <= k < s.records.len() && s.records[k] == r;
            assert(found[k] == r);
        }
    }
}

/// Notes put in order are the notes that there were.
proof fn lemma_ordered_holds(
    rs: Seq<Rec>,
    f: Seq<char>,
    descending: bool,
    root: Seq<char>,
    g: Option<Graph>,
    r: Rec,
)
    ensures
        ordered(rs, f, descending, root, g).contains(r) <==> rs.contains(r),
{
    let ord = field_rank(rs, f, root, g);
    let up = chosen(rs, sorted(ord, positions(rs.len())));
    crate::vault::laws::lemma_sorted_multiset(rs, ord, positions(rs.len()));
    assert(chosen(rs, positions(rs.len())) =~= rs);
    vstd::seq_lib::to_multiset_contains(rs, r);
    vstd::seq_lib::to_multiset_contains(up, r);
    let down = up.reverse();
    if up.contains(r) {
        let k = choose|k: int| 0 <= k < up.len() && up[k] == r;
        assert(down[up.len() - 1 - k] == r);
    }
    if down.contains(r) {
        let k = choose|k: int| 0 <= k < down.len() && down[k] == r;
        assert(up[up.len() - 1 - k] == r);
    }
}

/// A query on a folder that is not there fails, and names it.
pub proof fn law_query_needs_its_folder(p: Picture, root: Seq<char>, a: Asked)
    requires
        !has_folder(p, below(root, a.folder)),
    ensures
        query_run(p, root, a) == Err::<Shown, Trouble>(
            Trouble::Failed(Failure::FolderNotFound(a.folder)),
        ),
{
}

/// A count is how many notes the query with the same conditions shows.
pub proof fn law_count(
    p: Picture,
    root: Seq<char>,
    folder: Seq<char>,
    wheres: Seq<Seq<char>>,
    recursive: bool,
    cs: Seq<Cond>,
    rs: Seq<Rec>,
)
    requires
        has_folder(p, below(root, folder)),
        clauses(wheres, Purpose::Where) == Ok::<Seq<Cond>, Trouble>(cs),
        folder_notes(p, root, folder, recursive) == Ok::<Seq<Rec>, Failure>(rs),
        forall|k: int| 0 <= k < wheres.len() ==> !crate::cli::query::mentions_graph(
            #[trigger] wheres[k],
        ),
    ensures
        count_run(p, root, folder, wheres, recursive) == Ok::<nat, Trouble>(
            meeting(rs, Some(Cond::And(cs)), root, None).len(),
        ),
{
    let none = Seq::<Cond>::empty();
    let relations = Relations {
        links_to: seq![],
        linked_from: seq![],
        links_to_where: seq![],
        linked_from_where: seq![],
    };
    assert(clauses(relations.links_to_where, Purpose::LinksTo) == Ok::<Seq<Cond>, Trouble>(none));
    assert(clauses(relations.linked_from_where, Purpose::LinkedFrom) == Ok::<Seq<Cond>, Trouble>(
        none,
    ));
    assert(cs + named_links(relations.links_to, false) + named_links(relations.linked_from, true)
        + described_links(none, false) + described_links(none, true) =~= cs);
}

// ── Order and selection ────────────────────────────────────────────────────

/// Notes are in order by integers as integers, and by what is no number as texts; a note
/// without the field comes first, and then those with null.
pub proof fn law_order_of_fields(n: i64, m: i64, a: Val, b: Val)
    requires
        -0x20_0000_0000_0000 < n < 0x20_0000_0000_0000,
        -0x20_0000_0000_0000 < m < 0x20_0000_0000_0000,
    ensures
        field_order(Some(Val::Int(n)), Some(Val::Int(m))) == Order::Less <==> n < m,
        field_order(Some(Val::Int(n)), Some(Val::Int(m))) == Order::Greater <==> n > m,
        float_of(a) is None && !(a is Null) && !(b is Null) ==> field_order(Some(a), Some(b))
            == text_order(shown(a), shown(b)),
        field_order(None, Some(a)) == Order::Less && field_order(Some(a), None) == Order::Greater,
        field_order(None, None) == Order::Equal,
        !(a is Null) ==> field_order(Some(Val::Null), Some(a)) == Order::Less && field_order(
            Some(a),
            Some(Val::Null),
        ) == Order::Greater,
{
    law_integers_keep_their_order(n as int, m as int);
}

/// A query with a field to sort by shows its notes in the order of it, ascending, or descending
/// where that is asked.
pub proof fn law_query_is_in_order(
    rs: Seq<Rec>,
    f: Seq<char>,
    descending: bool,
    root: Seq<char>,
    g: Option<Graph>,
    i: int,
    j: int,
)
    requires
        is_consistent(field_rank(rs, f, root, g), rs.len()),
        0 <= i < j < rs.len(),
    ensures
        ordered(rs, f, descending, root, g).len() == rs.len(),
        ({
            let a = looked_up(ordered(rs, f, descending, root, g)[i], f, root, g);
            let b = looked_up(ordered(rs, f, descending, root, g)[j], f, root, g);
            if descending {
                field_order(b, a) != Order::Greater
            } else {
                field_order(a, b) != Order::Greater
            }
        }),
{
    let ord = field_rank(rs, f, root, g);
    let at = sorted(ord, positions(rs.len()));
    law_sorted(ord, rs.len());
    let n = rs.len() as int;
    if descending {
        let p = n - 1 - j;
        let q = n - 1 - i;
        assert(goes_before(ord, at[p], at[q]));
        assert(ordered(rs, f, descending, root, g)[i] == rs[at[q]]);
        assert(ordered(rs, f, descending, root, g)[j] == rs[at[p]]);
    } else {
        assert(goes_before(ord, at[i], at[j]));
    }
}

/// The fields that are shown are those between commas, without the blanks around them.
pub proof fn law_selection(a: Seq<char>, rest: Seq<char>)
    requires
        !a.contains(','),
    ensures
        selection(None) == Seq::<Seq<char>>::empty(),
        selection(Some(a)) == seq![trimmed(a)],
        selection(Some(a + seq![','] + rest)) == seq![trimmed(a)] + selection(Some(rest)),
{
    lemma_char_at(a, ',', 0);
    if let Some(i) = char_at(a, ',', 0) {
        assert(a.contains(a[i]));
    }
    assert(selection(Some(a)) =~= seq![trimmed(a)]);
    let s = a + seq![','] + rest;
    lemma_char_at(s, ',', 0);
    assert(s[a.len() as int] == ',');
    let i = char_at(s, ',', 0)->0;
    if i < a.len() {
        assert(s[i] == a[i]);
        assert(a.contains(','));
    }
    assert(s.take(i) =~= a);
    assert(s.skip(i + 1) =~= rest);
    assert(split_by(s, ',') == seq![a] + split_by(rest, ','));
    assert(selection(Some(s)) =~= seq![trimmed(a)] + selection(Some(rest)));
}

// ── Fields, tags and links ─────────────────────────────────────────────────

/// The values of a field are those that the notes have, one per note that has it.
pub proof fn law_values_of_a_field(rs: Seq<Rec>, r: Rec, name: Seq<char>, v: Val)
    requires
        are_distinct(r.fields),
    ensures
        r.fields.contains((name, v)) ==> values_of(rs.push(r), name) == values_of(rs, name).push(v),
        (forall|k: int| 0 <= k < r.fields.len() ==> (#[trigger] r.fields[k]).0 != name)
            ==> values_of(rs.push(r), name) == values_of(rs, name),
        values_of(Seq::empty(), name) == Seq::<Val>::empty(),
{
    assert(rs.push(r).drop_last() =~= rs);
    let before = values_of(rs, name);
    if r.fields.contains((name, v)) {
        let k = choose|k: int| 0 <= k < r.fields.len() && r.fields[k] == (name, v);
        lemma_values_in(r.fields, name, k);
        assert(before + seq![v] =~= before.push(v));
    }
    if forall|k: int| 0 <= k < r.fields.len() ==> (#[trigger] r.fields[k]).0 != name {
        lemma_no_values_in(r.fields, name);
        assert(before + Seq::<Val>::empty() =~= before);
    }
}

/// A name that stands nowhere has no values.
proof fn lemma_no_values_in(m: Seq<(Seq<char>, Val)>, name: Seq<char>)
    requires
        forall|k: int| 0 <= k < m.len() ==> (#[trigger] m[k]).0 != name,
    ensures
        values_in(m, name) == Seq::<Val>::empty(),
    decreases m.len(),
{
    if m.len() > 0 {
        let init = m.drop_last();
        assert forall|k: int| 0 <= k < init.len() implies (#[trigger] init[k]).0 != name by {
            assert(init[k] == m[k]);
        }
        lemma_no_values_in(init, name);
        assert(m[m.len() - 1].0 != name);
    }
}

/// A name that stands once has the value there.
proof fn lemma_values_in(m: Seq<(Seq<char>, Val)>, name: Seq<char>, k: int)
    requires
        are_distinct(m),
        0 <= k < m.len(),
        m[k].0 == name,
    ensures
        values_in(m, name) == seq![m[k].1],
    decreases m.len(),
{
    let init = m.drop_last();
    let last = m.len() - 1;
    assert forall|p: int, q: int| 0 <= p < q < init.len() implies (#[trigger] init[p]).0 != (
    #[trigger] init[q]).0 by {
        assert(init[p] == m[p] && init[q] == m[q]);
    }
    if k < last {
        assert(init[k] == m[k]);
        lemma_values_in(init, name, k);
        assert(m[k].0 != m[last].0);
    } else {
        assert forall|q: int| 0 <= q < init.len() implies (#[trigger] init[q]).0 != name by {
            assert(init[q] == m[q]);
            assert(m[q].0 != m[last].0);
        }
        lemma_no_values_in(init, name);
        assert(Seq::<Val>::empty().push(m[last].1) =~= seq![m[k].1]);
    }
}

/// The command `fields` shows each field of the notes once, ascending, with how many notes have
/// it, for how many it is not null, and the kinds of its values, ascending.
pub proof fn law_fields_are_told(rs: Seq<Rec>, i: int, x: Seq<char>, vs: Seq<Val>, v: Val)
    requires
        0 <= i < field_names(rs).len(),
    ensures
        all_infos(rs).len() == field_names(rs).len(),
        all_infos(rs)[i].name == field_names(rs)[i],
        all_infos(rs)[i].total == values_of(rs, field_names(rs)[i]).len(),
        all_infos(rs)[i].non_null == count_set(values_of(rs, field_names(rs)[i])),
        is_text_set(all_infos(rs)[i].types),
        all_infos(rs)[i].types.contains(x) <==> exists|k: int|
            0 <= k < values_of(rs, field_names(rs)[i]).len() && kind(
                #[trigger] values_of(rs, field_names(rs)[i])[k],
            ) == x,
        count_set(Seq::empty()) == 0,
        count_set(vs.push(v)) == count_set(vs) + if v is Null {
            0nat
        } else {
            1nat
        },
{
    let all = values_of(rs, field_names(rs)[i]);
    let ks = kinds(all);
    lemma_text_set(ks);
    if ks.contains(x) {
        let k = choose|k: int| 0 <= k < ks.len() && ks[k] == x;
        assert(kind(all[k]) == x);
    }
    if exists|k: int| 0 <= k < all.len() && kind(#[trigger] all[k]) == x {
        let k = choose|k: int| 0 <= k < all.len() && kind(#[trigger] all[k]) == x;
        assert(ks[k] == x);
    }
    assert(vs.push(v).drop_last() =~= vs);
}

/// The tags of notes are the texts in their lists of tags, as often as they occur.
pub proof fn law_tags_are_counted(
    rs: Seq<Rec>,
    r: Rec,
    items: Seq<Val>,
    t: Seq<char>,
    n: i64,
    tags: Seq<Seq<char>>,
    other: Seq<char>,
)
    ensures
        all_tags(Seq::empty()) == Seq::<Seq<char>>::empty(),
        all_tags(rs.push(r)) == all_tags(rs) + tags_of(r),
        field(r.fields, "tags"@) == Some(Val::List(items.push(Val::Text(t)))) ==> tags_of(r)
            == texts_among(items).push(t),
        field(r.fields, "tags"@) == Some(Val::List(items.push(Val::Int(n)))) ==> tags_of(r)
            == texts_among(items),
        texts_among(Seq::empty()) == Seq::<Seq<char>>::empty(),
        field(r.fields, "tags"@) is None ==> tags_of(r) == Seq::<Seq<char>>::empty(),
        occurrences(Seq::empty(), t) == 0,
        occurrences(tags.push(t), t) == occurrences(tags, t) + 1,
        other != t ==> occurrences(tags.push(other), t) == occurrences(tags, t),
{
    assert(rs.push(r).drop_last() =~= rs);
    assert(items.push(Val::Text(t)).drop_last() =~= items);
    assert(items.push(Val::Int(n)).drop_last() =~= items);
    assert(tags.push(t).drop_last() =~= tags);
    assert(tags.push(other).drop_last() =~= tags);
}

/// The links of a note are shown in the direction that is asked for, each with whether there is
/// such a note.
pub proof fn law_links_are_told(g: Graph, name: Seq<char>, other: Seq<char>)
    ensures
        links_shown(g, name, Direction::Outgoing).1 is None,
        links_shown(g, name, Direction::Incoming).0 is None,
        links_shown(g, name, Direction::Both).0 is Some && links_shown(
            g,
            name,
            Direction::Both,
        ).1 is Some,
        links_shown(g, name, Direction::Outgoing).0 is Some,
        (links_shown(g, name, Direction::Outgoing).0->0).contains(
            (other, record_named(g.records, other) is Some),
        ) <==> g.edges.contains((name, other)),
        links_shown(g, name, Direction::Incoming).1 is Some,
        (links_shown(g, name, Direction::Incoming).1->0).contains(other) <==> g.edges.contains(
            (other, name),
        ),
{
    law_edge_is_source(g, name, other);
    law_edge_is_source(g, other, name);
    let names = targets(g.edges, name);
    let out = resolved(g, names);
    let x = (other, record_named(g.records, other) is Some);
    if names.contains(other) {
        let k = choose|k: int| 0 <= k < names.len() && names[k] == other;
        assert(out[k] == x);
    }
    if out.contains(x) {
        let k = choose|k: int| 0 <= k < out.len() && out[k] == x;
        assert(names[k] == other);
    }
}

/// A traversal shows the notes that it reaches and that meet its conditions, with their
/// distances and the fields that are asked for, and counts the others.
pub proof fn law_traversal_is_told(
    hits: Seq<(Seq<char>, nat)>,
    hit: (Seq<char>, nat),
    cs: Seq<Cond>,
    select: Seq<Seq<char>>,
    root: Seq<char>,
    g: Graph,
)
    ensures
        shown_lines(Seq::empty(), cs, select, root, g).0.len() == 0,
        shown_lines(Seq::empty(), cs, select, root, g).1 == 0,
        ({
            let before = shown_lines(hits, cs, select, root, g);
            let now = shown_lines(hits.push(hit), cs, select, root, g);
            let note = record_named(g.records, hit.0);
            let meets = cs.len() == 0 || note is Some && (forall|k: int|
                0 <= k < cs.len() ==> holds(#[trigger] cs[k], note->0, root, Some(g)));
            &&& meets ==> now.0.len() == before.0.len() + 1 && now.1 == before.1
                && now.0.last().name == hit.0 && now.0.last().depth == hit.1
                && now.0.last().found == (note is Some) && now.0.drop_last() == before.0
            &&& !meets ==> now.0 == before.0 && now.1 == before.1 + 1
        }),
{
    assert(hits.push(hit).drop_last() =~= hits);
    if let Some(r) = record_named(g.records, hit.0) {
        law_conditions_are_joined(cs, Cond::And(cs), r, root, Some(g));
    }
    let before = shown_lines(hits, cs, select, root, g);
    let now = shown_lines(hits.push(hit), cs, select, root, g);
    if now.0.len() > before.0.len() {
        assert(now.0.drop_last() =~= before.0);
    }
}

/// The fields of a note that is reached are shown as their name, an equals sign and their value,
/// where the note has them.
pub proof fn law_fields_of_reached(
    r: Rec,
    select: Seq<Seq<char>>,
    name: Seq<char>,
    root: Seq<char>,
    g: Graph,
)
    ensures
        field_texts(r, Seq::empty(), root, g) == Seq::<Seq<char>>::empty(),
        match looked_up(r, name, root, Some(g)) {
            Some(v) => field_texts(r, select.push(name), root, g) == field_texts(
                r,
                select,
                root,
                g,
            ).push(name + "="@ + shown(v)),
            None => field_texts(r, select.push(name), root, g) == field_texts(r, select, root, g),
        },
{
    assert(select.push(name).drop_last() =~= select);
}

// ── Files ──────────────────────────────────────────────────────────────────

/// A command that changes files is refused without a condition, and else is about the notes of
/// the folder that meet all its conditions.
pub proof fn law_files_that_are_changed(
    p: Picture,
    root: Seq<char>,
    command: Seq<char>,
    folder: Seq<char>,
    wheres: Seq<Seq<char>>,
    recursive: bool,
    cs: Seq<Cond>,
    rs: Seq<Rec>,
    r: Rec,
)
    requires
        has_folder(p, below(root, folder)),
        clauses(wheres, Purpose::Where) == Ok::<Seq<Cond>, Trouble>(cs),
        folder_notes(p, root, folder, recursive) == Ok::<Seq<Rec>, Failure>(rs),
    ensures
        wheres.len() == 0 ==> matching_notes(p, root, command, folder, wheres, recursive) is Err,
        wheres.len() > 0 ==> matching_notes(p, root, command, folder, wheres, recursive) is Ok && (
        matching_notes(p, root, command, folder, wheres, recursive)->Ok_0.contains(r)
            <==> rs.contains(r) && forall|k: int|
            0 <= k < cs.len() ==> holds(#[trigger] cs[k], r, root, None)),
{
    lemma_found_meets(rs, Cond::And(cs), root, None, r);
    law_conditions_are_joined(cs, Cond::And(cs), r, root, None);
}

/// A deletion tells the path of each note, and the notes that link to it; the links that will
/// lead nowhere are all of those.
pub proof fn law_deletions_are_told(
    rs: Seq<Rec>,
    root: Seq<char>,
    g: Graph,
    i: int,
    ds: Seq<Deleted>,
    d: Deleted,
)
    requires
        0 <= i < rs.len(),
    ensures
        deletions_of(rs, root, g).len() == rs.len(),
        deletions_of(rs, root, g)[i].path == rs[i].path,
        deletions_of(rs, root, g)[i].shown == relative(rs[i].path, root),
        deletions_of(rs, root, g)[i].backlinks == sources(g.edges, note_name(rs[i].path)),
        dangling_links(Seq::empty()) == 0,
        dangling_links(ds.push(d)) == dangling_links(ds) + d.backlinks.len(),
{
    assert(ds.push(d).drop_last() =~= ds);
}

/// A note goes to the trash under its own name where that is free, and else under its name with
/// the time before the extension.
pub proof fn law_trash(root: Seq<char>, name: Seq<char>, taken: Seq<Seq<char>>, now: u64)
    ensures
        !has_path(taken, below(below(root, ".trash"@), name)) ==> trash_place(
            root,
            name,
            taken,
            now,
        ) == below(below(root, ".trash"@), name),
        has_path(taken, below(below(root, ".trash"@), name)) ==> trash_place(root, name, taken, now)
            == free_place(taken, below(root, ".trash"@), stamped_name(name, now)),
        extension(name) is Some ==> stamped_name(name, now) == stem(name) + "."@ + decimal(
            now as nat,
        ) + "."@ + extension(name)->0,
        extension(name) is None ==> stamped_name(name, now) == stem(name) + "."@ + decimal(
            now as nat,
        ),
{
    let base = stem(name) + "."@ + decimal(now as nat);
    if let Some(e) = extension(name) {
        assert(base + ("."@ + e) =~= base + "."@ + e);
    } else {
        assert(base + Seq::<char>::empty() =~= base);
    }
}

/// Each note that is moved goes from where it is to the file of its name in the other folder,
/// and both are shown as seen from the vault.
pub proof fn law_moves_go_to_the_folder(
    rs: Seq<Rec>,
    root: Seq<char>,
    target: Seq<char>,
    p: Picture,
    i: int,
    name: Seq<char>,
)
    requires
        moves_of(rs, root, target, p) is Ok,
        0 <= i < rs.len(),
        crate::path::file_name(rs[i].path) == Some(name),
    ensures
        ({
            let ms = moves_of(rs, root, target, p)->Ok_0;
            &&& ms.len() == rs.len()
            &&& ms[i].from == rs[i].path
            &&& ms[i].to == below(below(root, target), name)
            &&& ms[i].shown_from == relative(rs[i].path, root)
            &&& ms[i].shown_to == relative(below(below(root, target), name), root)
        }),
    decreases rs.len(),
{
    let init = rs.drop_last();
    crate::cli::files::law_moves_are_free(rs, root, target, p);
    crate::cli::files::law_moves_are_free(init, root, target, p);
    if i < init.len() {
        assert(init[i] == rs[i]);
        law_moves_go_to_the_folder(init, root, target, p, i, name);
        assert(moves_of(rs, root, target, p)->Ok_0[i] == moves_of(init, root, target, p)->Ok_0[i]);
    }
}

// ── Writing a field ────────────────────────────────────────────────────────

/// A plain word is written as it is.
proof fn lemma_plainly_quoted(w: Seq<char>)
    requires
        is_bare_word(w),
    ensures
        plainly_quoted(w) == w,
{
    assert forall|i: int| 0 <= i < w.len() implies !is_special(#[trigger] w[i]) && !is_control(
        w[i],
    ) by {
        assert(is_plain_char(w[i]));
    }
    assert(is_plain_char(w[w.len() - 1]));
    assert(!has_special(w));
}

/// Setting a field of a note to a plain word puts the line with its name and the word in place
/// of the field, where that is a scalar, or behind the others where the note has no such field.
/// All else stays as it is, and a list is not written over.
pub proof fn law_line_is_set(
    es: Seq<Entry>,
    body: Seq<char>,
    key: Seq<char>,
    value: Seq<char>,
    i: int,
)
    requires
        are_entries(es),
        is_name(key),
        is_bare_word(value),
    ensures
        0 <= i < es.len() && es[i] is Scalar && entry_key(es[i]) == key ==> line_set(
            note_text(es, body),
            key,
            value,
        ) == Ok::<(Seq<char>, Change), Failure>(
            (
                note_text(es.update(i, Entry::Scalar { key, value }), body),
                Change::SetField { field: key, old_value: es[i]->value, new_value: value },
            ),
        ),
        is_unknown(es, key) ==> line_set(note_text(es, body), key, value) == Ok::<
            (Seq<char>, Change),
            Failure,
        >(
            (
                note_text(es.push(Entry::Scalar { key, value }), body),
                Change::SetField { field: key, old_value: seq![], new_value: value },
            ),
        ),
{
    let content = note_text(es, body);
    reveal_strlit("\n");
    lemma_plainly_quoted(value);
    law_note_is_taken_apart(es, body);
    assert(opens_block(content)) by {
        if !opens_block(content) {
            assert(content == body);
            assert(content.len() > body.len());
        }
    }
    if 0 <= i < es.len() && es[i] is Scalar && entry_key(es[i]) == key {
        law_field_is_replaced(es, body, i, value, value);
        lemma_found(es, key, i);
        lemma_takes(es, i);
    }
    if is_unknown(es, key) {
        law_field_is_appended(es, body, key, value, value);
        lemma_found(es, key, -1);
    }
}

// ── Whole commands ─────────────────────────────────────────────────────────

/// The commands that tell of the notes of a folder tell of those that are loaded from it, and
/// fail where it is not there.
pub proof fn law_reports_of_a_folder(
    p: Picture,
    root: Seq<char>,
    folder: Seq<char>,
    recursive: bool,
    rs: Seq<Rec>,
    name: Seq<char>,
    direction: Direction,
)
    ensures
        !has_folder(p, below(root, folder)) ==> fields_run(p, root, folder, recursive) is Err
            && tags_run(p, root, folder, recursive) is Err && links_run(
            p,
            root,
            name,
            folder,
            direction,
            recursive,
        ) is Err,
        has_folder(p, below(root, folder)) && folder_notes(p, root, folder, recursive) == Ok::<
            Seq<Rec>,
            Failure,
        >(rs) ==> {
            &&& fields_run(p, root, folder, recursive) is Ok
            &&& fields_run(p, root, folder, recursive)->Ok_0.0 == all_infos(rs)
            &&& fields_run(p, root, folder, recursive)->Ok_0.1 == rs.len()
            &&& tags_run(p, root, folder, recursive) is Ok
            &&& tags_run(p, root, folder, recursive)->Ok_0 == by_frequency(all_tags(rs))
            &&& links_run(p, root, name, folder, direction, recursive) is Ok
            &&& links_run(p, root, name, folder, direction, recursive)->Ok_0 == links_shown(
                graph_of(rs),
                name,
                direction,
            )
        },
{
}

/// A deletion or a move is of the notes that its conditions ask for; a deletion counts the links
/// of the whole vault.
pub proof fn law_changes_of_files(
    p: Picture,
    root: Seq<char>,
    folder: Seq<char>,
    wheres: Seq<Seq<char>>,
    target: Seq<char>,
    recursive: bool,
    rs: Seq<Rec>,
    all: Seq<Rec>,
)
    ensures
        matching_notes(p, root, "delete"@, folder, wheres, recursive) == Ok::<Seq<Rec>, Trouble>(rs)
            && loaded(notes_in(p.files, root, true), true) is Ok && loaded(
            notes_in(p.files, root, true),
            true,
        )->Ok_0.0 == all ==> delete_run(p, root, folder, wheres, recursive) is Ok && delete_run(
            p,
            root,
            folder,
            wheres,
            recursive,
        )->Ok_0.0 == deletions_of(rs, root, graph_of(all)) && delete_run(
            p,
            root,
            folder,
            wheres,
            recursive,
        )->Ok_0.1 == dangling_links(deletions_of(rs, root, graph_of(all))),
        matching_notes(p, root, "move"@, folder, wheres, recursive) == Ok::<Seq<Rec>, Trouble>(rs)
            ==> move_run(p, root, folder, wheres, target, recursive) == moves_of(
            rs,
            root,
            target,
            p,
        ),
        wheres.len() == 0 ==> delete_run(p, root, folder, wheres, recursive) is Err && move_run(
            p,
            root,
            folder,
            wheres,
            target,
            recursive,
        ) is Err,
{
}

/// A traversal starts from a note that is in the graph: where it is not, and nothing is linked
/// with its name, there is nothing to show.
pub proof fn law_traversals(
    p: Picture,
    root: Seq<char>,
    command: TraverseCommand,
    rs: Seq<Rec>,
    cs: Seq<Cond>,
)
    requires
        notes_of(p, root, command.folder@, command.recursive) == Ok::<Seq<Rec>, Trouble>(rs),
        clauses(string_views(command.where_strs@), Purpose::Traverse) == Ok::<Seq<Cond>, Trouble>(
            cs,
        ),
        command.select is None,
    ensures
        traverse_run(p, root, command) is Ok,
        ({
            let g = graph_of(rs);
            let hits = reached(g.edges, command.name@, command.direction, command.depth as nat);
            &&& record_named(g.records, command.name@) is Some || hits.len() > 1 ==> traverse_run(
                p,
                root,
                command,
            )->Ok_0 == Some(shown_lines(hits, cs, Seq::empty(), root, g))
            &&& record_named(g.records, command.name@) is None && hits.len() == 1
                ==> traverse_run(p, root, command)->Ok_0 is None
        }),
{
    let g = graph_of(rs);
    crate::links::laws::law_nearest_first(
        g.edges,
        command.name@,
        command.direction,
        command.depth as nat,
    );
}

} // verus!
