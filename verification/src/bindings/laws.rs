//! What the bindings for other languages promise.

use crate::bindings::{
    cond_of, evaluated, fenced, fields_from, fields_of, last_white, linked_names, listed,
    query_answer, raised, sort_key_of, ExceptionKind, Parsed, Raised,
};
use crate::dsl::parsed;
use crate::error::{message, Failure};
use crate::filter::holds;
use crate::frontmatter::laws::{is_fenceable, law_notes_are_split};
use crate::frontmatter::strict_split;
use crate::json::{value_of_json, Js};
use crate::links::{sources, targets, Graph};
use crate::path::below;
use crate::query::{Cond, Request, SortBy};
use crate::record::{field, key_at, law_entry_is_set, lemma_key_at, note_name, Rec, Val};
use crate::text::laws::law_trimmed;
use crate::text::{is_white, lowered};
use crate::tree::{has_folder, notes_in, Picture};
use crate::vault::{loaded, queried};
use vstd::prelude::*;

verus! {

/// Frontmatter that cannot be read or is missing is raised as a wrong value, and all else as a
/// failure of the file system; each with its message.
pub proof fn law_exceptions(e: Failure)
    ensures
        raised(e).0 == ExceptionKind::Value <==> e is InvalidFrontmatter || e is NoFrontmatter,
        raised(e).1 == message(e),
{
}

/// The notes of a folder are those that are loaded without their texts; a folder that is not
/// there is raised.
pub proof fn law_notes_are_listed(
    p: Picture,
    root: Seq<char>,
    folder: Seq<char>,
    recursive: bool,
)
    ensures
        !has_folder(p, below(root, folder)) ==> listed(p, root, folder, recursive) == Err::<
            Seq<Rec>,
            Raised,
        >(raised(Failure::FolderNotFound(folder))),
        has_folder(p, below(root, folder)) && loaded(
            notes_in(p.files, below(root, folder), recursive),
            false,
        ) is Ok ==> listed(p, root, folder, recursive) == Ok::<Seq<Rec>, Raised>(
            loaded(notes_in(p.files, below(root, folder), recursive), false)->Ok_0.0,
        ),
{
}

/// The last blank of a text is where no other follows.
proof fn lemma_last_white(s: Seq<char>, at: int, to: int)
    requires
        -1 <= at < to <= s.len() || to == 0 && at == -1,
        0 <= to,
        at >= 0 ==> is_white(s[at]),
        forall|k: int| at < k < to ==> !is_white(#[trigger] s[k]),
    ensures
        at >= 0 ==> last_white(s, to) == Some(at),
        at < 0 ==> last_white(s, to) is None,
    decreases to,
{
    if to > 0 && to - 1 > at {
        assert(!is_white(s[to - 1]));
        lemma_last_white(s, at, to - 1);
    }
}

/// Whether a text is a word: it holds no white space.
pub open spec fn is_word(s: Seq<char>) -> bool {
    s.len() > 0 && forall|i: int| 0 <= i < s.len() ==> !is_white(#[trigger] s[i])
}

/// An order is a field, which is ascending, or a field and a direction behind a blank; the
/// direction is in letters of any case, and an order of blanks alone is none.
pub proof fn law_sort_keys(f: Seq<char>, word: Seq<char>)
    requires
        is_word(f),
        is_word(word),
    ensures
        sort_key_of(f) == Some(SortBy { field: f, descending: false }),
        lowered(word) == "desc"@ ==> sort_key_of(f + seq![' '] + word) == Some(
            SortBy { field: f, descending: true },
        ),
        lowered(word) == "asc"@ ==> sort_key_of(f + seq![' '] + word) == Some(
            SortBy { field: f, descending: false },
        ),
        sort_key_of(Seq::empty()) is None,
        sort_key_of(seq![' ']) is None,
{
    let none = Seq::<char>::empty();
    reveal_strlit("asc");
    reveal_strlit("desc");
    assert("asc"@.len() == 3 && "desc"@.len() == 4);
    law_trimmed(none, f, none);
    assert(none + f + none =~= f);
    lemma_last_white(f, -1, f.len() as int);
    let s = f + seq![' '] + word;
    assert(s[0] == f[0]);
    assert(s.last() == word.last());
    law_trimmed(none, s, none);
    assert(none + s + none =~= s);
    let at = f.len() as int;
    assert(is_white(' '));
    assert forall|k: int| at < k < s.len() implies !is_white(#[trigger] s[k]) by {
        assert(s[k] == word[k - at - 1]);
    }
    lemma_last_white(s, at, s.len() as int);
    assert(s.skip(at + 1) =~= word);
    assert(s.take(at) =~= f);
    law_trimmed(none, none, none);
    assert(none + none + none =~= none);
    law_trimmed(seq![' '], none, none);
    assert(seq![' '] + none + none =~= seq![' ']);
}

/// A query answers what the vault answers to the condition, the order and the limit that are
/// given; a condition that cannot be read, and an order that is none, are raised.
pub proof fn law_queries_are_answered(
    p: Picture,
    root: Seq<char>,
    folder: Seq<char>,
    text: Seq<char>,
    c: Cond,
    limit: Option<usize>,
    f: Seq<char>,
)
    requires
        parsed(text) == Ok::<Cond, Failure>(c),
        is_word(f),
    ensures
        ({
            let q = Request {
                folder,
                filter: Some(c),
                select: None,
                sort: None,
                limit,
                recursive: false,
            };
            queried(p, root, q) is Ok ==> query_answer(p, root, folder, Some(text), None, limit)
                == Ok::<Seq<Rec>, Raised>(queried(p, root, q)->Ok_0)
        }),
        ({
            let q = Request {
                folder,
                filter: Some(c),
                select: None,
                sort: Some(SortBy { field: f, descending: false }),
                limit,
                recursive: false,
            };
            queried(p, root, q) is Ok ==> query_answer(p, root, folder, Some(text), Some(f), limit)
                == Ok::<Seq<Rec>, Raised>(queried(p, root, q)->Ok_0)
        }),
        query_answer(p, root, folder, Some(text), Some(Seq::empty()), limit) is Err,
{
    law_sort_keys(f, f);
}

/// The maps of links have, for each note with links, its name with the notes at the other ends,
/// and nothing for a note without links.
pub proof fn law_link_maps(g: Graph, rs: Seq<Rec>, name: Seq<char>, incoming: bool)
    ensures
        ({
            let names = if incoming {
                sources(g.edges, name)
            } else {
                targets(g.edges, name)
            };
            &&& (exists|i: int| 0 <= i < rs.len() && note_name((#[trigger] rs[i]).path) == name)
                && names.len() > 0 ==> linked_names(g, rs, incoming).contains((name, names))
            &&& names.len() == 0 ==> key_at(linked_names(g, rs, incoming), name, 0) is None
            &&& forall|k: int|
                0 <= k < linked_names(g, rs, incoming).len() && (#[trigger] linked_names(
                    g,
                    rs,
                    incoming,
                )[k]).0 == name ==> linked_names(g, rs, incoming)[k].1 == names
        }),
    decreases rs.len(),
{
    let out = linked_names(g, rs, incoming);
    lemma_key_at(out, name, 0);
    if rs.len() > 0 {
        let init = rs.drop_last();
        law_link_maps(g, init, name, incoming);
        let before = linked_names(g, init, incoming);
        let names = if incoming {
            sources(g.edges, name)
        } else {
            targets(g.edges, name)
        };
        lemma_key_at(before, name, 0);
        lemma_key_at(before, note_name(rs.last().path), 0);
        if (exists|i: int| 0 <= i < rs.len() && note_name((#[trigger] rs[i]).path) == name)
            && names.len() > 0 {
            let i = choose|i: int| 0 <= i < rs.len() && note_name((#[trigger] rs[i]).path) == name;
            if i < init.len() {
                assert(note_name(init[i].path) == name);
                let k = choose|k: int| 0 <= k < before.len() && before[k] == (name, names);
                assert(out[k] == (name, names));
            } else if let Some(k) = key_at(before, name, 0) {
                assert(before[k].1 == names);
                assert(out[k] == (name, names));
            } else {
                assert(out[before.len() as int] == (name, names));
            }
        }
    }
}

/// A text is split as notes are: into its frontmatter and its body.
pub proof fn law_texts_are_split(x: Seq<char>, body: Seq<char>)
    requires
        is_fenceable(x),
    ensures
        fenced("---\n"@ + x + "\n---\n"@ + body) == Some((x, body)),
        fenced(x) is None,
{
    law_notes_are_split(x, body);
    assert(strict_split("---\n"@ + x + "\n---\n"@ + body) == fenced(
        "---\n"@ + x + "\n---\n"@ + body,
    ));
}

/// A note meets a condition exactly if the condition holds of its fields and its body, and a
/// condition that cannot be read is told with its message.
pub proof fn law_notes_are_evaluated(p: Parsed, clause: Seq<char>)
    ensures
        parsed(clause) is Err ==> evaluated(p, clause) == Err::<bool, Seq<char>>(
            message(parsed(clause)->Err_0),
        ) && cond_of(clause) is Err,
        parsed(clause) is Ok ==> evaluated(p, clause) == Ok::<bool, Seq<char>>(
            holds(
                parsed(clause)->Ok_0,
                Rec {
                    path: p.path,
                    fields: fields_of(p.fields),
                    content: p.body,
                    modified: None,
                    created: None,
                },
                Seq::empty(),
                None,
            ),
        ) && cond_of(clause) == Ok::<Cond, Seq<char>>(parsed(clause)->Ok_0),
{
}

/// The fields of an object are the values of its members, of equal keys the last; a document of
/// another kind has none.
pub proof fn law_fields_of_objects(
    m: Seq<(Seq<char>, Js)>,
    key: Seq<char>,
    v: Js,
    other: Seq<char>,
    s: Seq<char>,
)
    ensures
        field(fields_of(Js::Object(m.push((key, v)))), key) == Some(value_of_json(v)),
        other != key ==> field(fields_of(Js::Object(m.push((key, v)))), other) == field(
            fields_of(Js::Object(m)),
            other,
        ),
        fields_of(Js::Text(s)) == Seq::<(Seq<char>, Val)>::empty(),
{
    assert(m.push((key, v)).drop_last() =~= m);
    law_entry_is_set(fields_from(m), key, value_of_json(v), other);
}

} // verus!
