//! What queries promise of what they give.

use crate::error::Failure;
use crate::filter::val_order;
use crate::float::place;
use crate::frontmatter::{extracted, note_of, parsed_fields};
use crate::query::{Cond, Request, SortBy};
use crate::record::{kind, Rec, Val};
use crate::sort::{
    best, goes_before, is_consistent, law_best_is_first, law_sorted, lemma_best_same,
    lemma_sorted_same, merged, positions, sorted, with_position,
};
use crate::text::{lemma_text_less_transitive, lemma_text_order, text_order, Order};
use crate::tree::{file_at, has_folder, notes_in, path_order, FileView, Picture};
use crate::tree::laws::{files_ascend, law_notes_ascend};
use crate::path::below;
use crate::vault::{
    all_projected, ancestor, answered, arranged, chosen, directed, first_records, graph_for,
    limited, loaded, meeting, meets, nat_view, needs_graph, one_less, projected, queried,
    record_rank, sort_value, sorted_records, streamed, vault_above, with_text,
};
use vstd::prelude::*;

verus! {

// ── File by file, and all at once ──────────────────────────────────────────

/// The notes of files from a position on; files without a readable frontmatter are
/// passed over.
pub open spec fn notes_from(files: Seq<FileView>, at: int) -> Seq<Rec>
    decreases files.len() - at,
{
    if at < 0 || at >= files.len() {
        seq![]
    } else {
        match note_of(files[at], true) {
            Ok(r) => seq![r] + notes_from(files, at + 1),
            Err(_) => notes_from(files, at + 1),
        }
    }
}

/// The notes of files with one more file behind them.
proof fn lemma_notes_push(files: Seq<FileView>, f: FileView, at: int)
    requires
        0 <= at <= files.len(),
    ensures
        notes_from(files.push(f), at) == notes_from(files, at) + match note_of(f, true) {
            Ok(r) => seq![r],
            Err(_) => seq![],
        },
    decreases files.len() - at,
{
    let more = files.push(f);
    reveal_with_fuel(notes_from, 2);
    if at < files.len() {
        assert(more[at] == files[at]);
        lemma_notes_push(files, f, at + 1);
        assert(notes_from(more, at) =~= notes_from(files, at) + match note_of(f, true) {
            Ok(r) => seq![r],
            Err(_) => seq![],
        });
    } else {
        assert(more[at] == f);
        assert(notes_from(more, at) =~= notes_from(files, at) + match note_of(f, true) {
            Ok(r) => seq![r],
            Err(_) => seq![],
        });
    }
}

/// What was loaded are the notes of the files, and no file failed but for its
/// frontmatter.
proof fn lemma_loaded_notes(files: Seq<FileView>)
    requires
        loaded(files, true) is Ok,
    ensures
        loaded_notes(files) == notes_from(files, 0),
        forall|i: int|
            0 <= i < files.len() ==> match note_of(#[trigger] files[i], true) {
                Ok(_) => true,
                Err(e) => e is InvalidFrontmatter,
            },
    decreases files.len(),
{
    if files.len() > 0 {
        let rest = files.drop_last();
        lemma_loaded_notes(rest);
        lemma_notes_push(rest, files.last(), 0);
        assert(rest.push(files.last()) =~= files);
        assert forall|i: int| 0 <= i < files.len() implies match note_of(#[trigger] files[i], true) {
            Ok(_) => true,
            Err(e) => e is InvalidFrontmatter,
        } by {
            if i < rest.len() {
                assert(files[i] == rest[i]);
            }
        }
        assert(loaded_notes(files) =~= notes_from(files, 0));
    }
}

/// The notes of files that were loaded.
pub open spec fn loaded_notes(files: Seq<FileView>) -> Seq<Rec> {
    match loaded(files, true) {
        Ok((rs, _)) => rs,
        Err(_) => seq![],
    }
}

/// Notes that meet a condition, told of two lists one after the other.
proof fn lemma_meeting_add(
    a: Seq<Rec>,
    b: Seq<Rec>,
    filter: Option<Cond>,
    root: Seq<char>,
)
    ensures
        meeting(a + b, filter, root, None) == meeting(a, filter, root, None) + meeting(
            b,
            filter,
            root,
            None,
        ),
    decreases b.len(),
{
    if b.len() == 0 {
        assert(a + b =~= a);
        assert(meeting(a, filter, root, None) + seq![] =~= meeting(a, filter, root, None));
    } else {
        lemma_meeting_add(a, b.drop_last(), filter, root);
        assert((a + b).drop_last() =~= a + b.drop_last());
        assert((a + b).last() == b.last());
        assert(meeting(a + b, filter, root, None) =~= meeting(a, filter, root, None) + meeting(
            b,
            filter,
            root,
            None,
        ));
    }
}

/// The first of some notes, or all of them.
pub open spec fn at_most(rs: Seq<Rec>, left: Option<nat>) -> Seq<Rec> {
    match left {
        Some(n) => if n < rs.len() {
            rs.take(n as int)
        } else {
            rs
        },
        None => rs,
    }
}

/// What is found file by file are the notes that meet the condition.
proof fn lemma_streamed(
    files: Seq<FileView>,
    at: int,
    filter: Option<Cond>,
    select: Option<Seq<Seq<char>>>,
    left: Option<nat>,
    root: Seq<char>,
)
    requires
        0 <= at <= files.len(),
        forall|i: int|
            0 <= i < files.len() ==> match note_of(#[trigger] files[i], true) {
                Ok(_) => true,
                Err(e) => e is InvalidFrontmatter,
            },
    ensures
        streamed(files, at, filter, select, left, root) == Ok::<Seq<Rec>, Failure>(
            all_projected(
                at_most(meeting(notes_from(files, at), filter, root, None), left),
                select,
            ),
        ),
    decreases files.len() - at,
{
    let got = streamed(files, at, filter, select, left, root);
    let found = meeting(notes_from(files, at), filter, root, None);
    if at == files.len() {
        assert(all_projected(at_most(found, left), select) =~= seq![]);
    } else if left == Some(0nat) {
        assert(all_projected(at_most(found, left), select) =~= seq![]);
    } else {
        let rest = notes_from(files, at + 1);
        let later = meeting(rest, filter, root, None);
        match note_of(files[at], true) {
            Ok(r) => {
                lemma_meeting_add(seq![r], rest, filter, root);
                reveal_with_fuel(meeting, 2);
                assert(seq![r].drop_last() =~= seq![]);
                assert(seq![r].last() == r);
                if meets(r, filter, root, None) {
                    lemma_streamed(files, at + 1, filter, select, one_less(left), root);
                    assert(meeting(seq![r], filter, root, None) =~= seq![r]);
                    assert(found =~= seq![r] + later);
                    assert(at_most(found, left) =~= seq![r] + at_most(later, one_less(left)));
                    assert(all_projected(at_most(found, left), select) =~= seq![
                        projected(r, select),
                    ] + all_projected(at_most(later, one_less(left)), select));
                } else {
                    lemma_streamed(files, at + 1, filter, select, left, root);
                    assert(meeting(seq![r], filter, root, None) =~= seq![]);
                    assert(found =~= later);
                }
            },
            Err(e) => {
                lemma_streamed(files, at + 1, filter, select, left, root);
            },
        }
    }
}

/// A query that is answered file by file gives what it would give with all notes at
/// hand, where all files can be loaded.
pub proof fn law_stream_is_answer(
    files: Seq<FileView>,
    filter: Option<Cond>,
    select: Option<Seq<Seq<char>>>,
    limit: Option<usize>,
    root: Seq<char>,
)
    requires
        loaded(files, true) is Ok,
        !needs_graph(filter),
    ensures
        streamed(files, 0, filter, select, nat_view(limit), root) == Ok::<Seq<Rec>, Failure>(
            answered(loaded_notes(files), filter, select, None, limit, root),
        ),
{
    lemma_loaded_notes(files);
    lemma_streamed(files, 0, filter, select, nat_view(limit), root);
    let found = meeting(loaded_notes(files), filter, root, None);
    assert(at_most(found, nat_view(limit)) == limited(found, limit));
}

/// So a query is answered in one way, whichever way is taken.
pub proof fn law_query_is_answer(p: Picture, root: Seq<char>, q: Request)
    requires
        has_folder(p, below(root, q.folder)),
        loaded(notes_in(p.files, below(root, q.folder), q.recursive), true) is Ok,
    ensures
        queried(p, root, q) == Ok::<Seq<Rec>, Failure>(
            answered(
                loaded_notes(notes_in(p.files, below(root, q.folder), q.recursive)),
                q.filter,
                q.select,
                q.sort,
                q.limit,
                root,
            ),
        ),
{
    let files = notes_in(p.files, below(root, q.folder), q.recursive);
    if !needs_graph(q.filter) && q.sort is None {
        law_stream_is_answer(files, q.filter, q.select, q.limit, root);
    }
}

// ── What a query gives ─────────────────────────────────────────────────────

/// Notes that meet a condition are notes, and meet it.
proof fn lemma_meeting(
    rs: Seq<Rec>,
    filter: Option<Cond>,
    root: Seq<char>,
    g: Option<crate::links::Graph>,
)
    ensures
        forall|i: int|
            0 <= i < meeting(rs, filter, root, g).len() ==> rs.contains(
                #[trigger] meeting(rs, filter, root, g)[i],
            ) && meets(meeting(rs, filter, root, g)[i], filter, root, g),
        forall|j: int|
            0 <= j < rs.len() && meets(#[trigger] rs[j], filter, root, g) ==> meeting(
                rs,
                filter,
                root,
                g,
            ).contains(rs[j]),
    decreases rs.len(),
{
    if rs.len() > 0 {
        let rest = rs.drop_last();
        lemma_meeting(rest, filter, root, g);
        let a = meeting(rest, filter, root, g);
        let b = meeting(rs, filter, root, g);
        assert forall|i: int| 0 <= i < b.len() implies rs.contains(#[trigger] b[i]) && meets(
            b[i],
            filter,
            root,
            g,
        ) by {
            if i < a.len() {
                assert(b[i] == a[i]);
                let k = choose|k: int| 0 <= k < rest.len() && rest[k] == a[i];
                assert(rs[k] == b[i]);
            } else {
                assert(rs[rs.len() - 1] == b[i]);
            }
        }
        assert forall|j: int| 0 <= j < rs.len() && meets(#[trigger] rs[j], filter, root, g)
            implies b.contains(rs[j]) by {
            if j < rest.len() {
                assert(rest[j] == rs[j]);
                let k = choose|k: int| 0 <= k < a.len() && a[k] == rest[j];
                assert(b[k] == rs[j]);
            } else {
                assert(b[b.len() - 1] == rs[j]);
            }
        }
    }
}

/// Every note that a query gives is one of the notes that meet its condition, and
/// there are never more than asked for.
pub proof fn law_answers_meet(
    rs: Seq<Rec>,
    filter: Option<Cond>,
    select: Option<Seq<Seq<char>>>,
    sort: Option<SortBy>,
    limit: Option<usize>,
    root: Seq<char>,
)
    ensures
        forall|i: int|
            0 <= i < answered(rs, filter, select, sort, limit, root).len() ==> exists|j: int|
                0 <= j < rs.len() && meets(#[trigger] rs[j], filter, root, graph_for(rs, filter))
                    && #[trigger] answered(rs, filter, select, sort, limit, root)[i] == projected(
                    rs[j],
                    select,
                ),
        limit is Some ==> answered(rs, filter, select, sort, limit, root).len() <= limit->0,
{
    let g = graph_for(rs, filter);
    let found = meeting(rs, filter, root, g);
    let arr = arranged(found, sort, limit, root);
    let out = answered(rs, filter, select, sort, limit, root);
    lemma_meeting(rs, filter, root, g);
    lemma_arranged(found, sort, limit, root);
    assert forall|i: int| 0 <= i < out.len() implies exists|j: int|
        0 <= j < rs.len() && meets(#[trigger] rs[j], filter, root, g) && #[trigger] out[i]
            == projected(rs[j], select) by {
        assert(found.contains(arr[i]));
        let k = choose|k: int| 0 <= k < found.len() && found[k] == arr[i];
        assert(rs.contains(found[k]));
        let j = choose|j: int| 0 <= j < rs.len() && rs[j] == found[k];
        assert(meets(rs[j], filter, root, g));
        assert(out[i] == projected(rs[j], select));
    }
}

/// What is put in order are notes that were there, and no more than asked for.
proof fn lemma_arranged(rs: Seq<Rec>, sort: Option<SortBy>, limit: Option<usize>, root: Seq<char>)
    ensures
        forall|i: int|
            0 <= i < arranged(rs, sort, limit, root).len() ==> rs.contains(
                #[trigger] arranged(rs, sort, limit, root)[i],
            ),
        limit is Some ==> arranged(rs, sort, limit, root).len() <= limit->0,
{
    let arr = arranged(rs, sort, limit, root);
    match sort {
        None => {
            assert forall|i: int| 0 <= i < arr.len() implies rs.contains(#[trigger] arr[i]) by {
                assert(rs[i] == arr[i]);
            }
        },
        Some(key) => {
            let ord = record_rank(rs, key.field, key.descending, root);
            let s = sorted(ord, positions(rs.len()));
            lemma_sorted_same(ord, ord, rs.len(), positions(rs.len()));
            lemma_sorted_len(ord, positions(rs.len()));
            match limit {
                Some(k) if k < rs.len() => {
                    let b = best(ord, rs.len(), k as nat);
                    lemma_best_same(ord, ord, rs.len(), k as nat);
                    lemma_best_len(ord, rs.len(), k as nat);
                    assert forall|i: int| 0 <= i < arr.len() implies rs.contains(
                        #[trigger] arr[i],
                    ) by {
                        assert(0 <= b[i] < rs.len());
                        assert(rs[b[i]] == arr[i]);
                    }
                },
                _ => {
                    assert forall|i: int| 0 <= i < arr.len() implies rs.contains(
                        #[trigger] arr[i],
                    ) by {
                        assert(0 <= s[i] < rs.len());
                        assert(rs[s[i]] == arr[i]);
                    }
                },
            }
        },
    }
}

/// Merging keeps all.
proof fn lemma_merged_len(ord: spec_fn(int, int) -> Order, a: Seq<int>, b: Seq<int>)
    ensures
        crate::sort::merged(ord, a, b).len() == a.len() + b.len(),
    decreases a.len() + b.len(),
{
    if a.len() > 0 && b.len() > 0 {
        if ord(a[0], b[0]) == Order::Greater {
            lemma_merged_len(ord, a, b.skip(1));
        } else {
            lemma_merged_len(ord, a.skip(1), b);
        }
    }
}

/// Putting in order keeps all.
proof fn lemma_sorted_len(ord: spec_fn(int, int) -> Order, s: Seq<int>)
    ensures
        sorted(ord, s).len() == s.len(),
    decreases s.len(),
{
    if s.len() >= 2 {
        let h = s.len() as int / 2;
        lemma_sorted_len(ord, s.take(h));
        lemma_sorted_len(ord, s.skip(h));
        lemma_merged_len(ord, sorted(ord, s.take(h)), sorted(ord, s.skip(h)));
    }
}

/// One more position makes a list one longer.
proof fn lemma_with_position_len(ord: spec_fn(int, int) -> Order, s: Seq<int>, i: int)
    ensures
        crate::sort::with_position(ord, s, i).len() == s.len() + 1,
    decreases s.len(),
{
    if s.len() > 0 && ord(s.last(), i) == Order::Greater {
        lemma_with_position_len(ord, s.drop_last(), i);
    }
}

/// No more than `k` are kept.
proof fn lemma_best_len(ord: spec_fn(int, int) -> Order, n: nat, k: nat)
    ensures
        best(ord, n, k).len() <= k,
    decreases n,
{
    if n > 0 && k > 0 {
        lemma_best_len(ord, (n - 1) as nat, k);
        let kept = best(ord, (n - 1) as nat, k);
        lemma_with_position_len(ord, kept, n - 1);
        if kept.len() > 0 {
            lemma_with_position_len(ord, kept.drop_last(), n - 1);
        }
    }
}

// ── Order ──────────────────────────────────────────────────────────────────

/// Whether a value is null or of a kind; numbers that are none do not count.
pub open spec fn is_of(v: Val, k: Seq<char>) -> bool {
    v == Val::Null || (kind(v) == k && match v {
        Val::Float(f) => place(f.0) is Some,
        _ => true,
    })
}

/// Values of one kind have a consistent order.
proof fn lemma_val_order(a: Val, b: Val, c: Val, k: Seq<char>)
    requires
        is_of(a, k),
        is_of(b, k),
        is_of(c, k),
    ensures
        val_order(a, a) == Order::Equal,
        (val_order(a, b) == Order::Less) == (val_order(b, a) == Order::Greater),
        val_order(a, b) != Order::Greater && val_order(b, c) != Order::Greater ==> val_order(a, c)
            != Order::Greater,
{
    reveal_strlit("null");
    reveal_strlit("string");
    reveal_strlit("integer");
    reveal_strlit("float");
    reveal_strlit("bool");
    reveal_strlit("list");
    reveal_strlit("map");
    lemma_kinds_differ();
    match (a, b, c) {
        (Val::Text(x), Val::Text(y), Val::Text(z)) => {
            lemma_text_order(x, x);
            lemma_text_order(x, y);
            lemma_text_order(y, z);
            lemma_text_order(x, z);
            if text_order(x, y) == Order::Less && text_order(y, z) == Order::Less {
                lemma_text_less_transitive(x, y, z);
            }
        },
        (Val::Text(x), Val::Text(y), _) => {
            lemma_text_order(x, x);
            lemma_text_order(x, y);
        },
        (Val::Text(x), _, _) => {
            lemma_text_order(x, x);
        },
        _ => {},
    }
}

/// The names of kinds differ.
proof fn lemma_kinds_differ()
    ensures
        forall|v: Val, w: Val| #![trigger kind(v), kind(w)]
            kind(v) == kind(w) ==> (v is Null == w is Null) && (v is Text == w is Text) && (v is Int
                == w is Int) && (v is Float == w is Float) && (v is Bool == w is Bool),
{
    reveal_strlit("null");
    reveal_strlit("string");
    reveal_strlit("integer");
    reveal_strlit("float");
    reveal_strlit("bool");
    reveal_strlit("list");
    reveal_strlit("map");
    assert("null"@[0] == 'n' && "string"@[0] == 's' && "integer"@[0] == 'i' && "float"@[0] == 'f'
        && "bool"@[0] == 'b' && "list"@[0] == 'l' && "map"@[0] == 'm');
}

/// Whether all notes have values of one kind, or none, in a field.
pub open spec fn all_of(rs: Seq<Rec>, field: Seq<char>, root: Seq<char>, k: Seq<char>) -> bool {
    forall|i: int| 0 <= i < rs.len() ==> is_of(sort_value(#[trigger] rs[i], field, root), k)
}

/// Notes with values of one kind have a consistent order.
proof fn lemma_rank(
    rs: Seq<Rec>,
    field: Seq<char>,
    descending: bool,
    root: Seq<char>,
    k: Seq<char>,
)
    requires
        all_of(rs, field, root, k),
    ensures
        is_consistent(record_rank(rs, field, descending, root), rs.len()),
{
    let ord = record_rank(rs, field, descending, root);
    let n = rs.len();
    assert forall|i: int| 0 <= i < n implies #[trigger] ord(i, i) == Order::Equal by {
        let a = sort_value(rs[i], field, root);
        lemma_val_order(a, a, a, k);
    }
    assert forall|i: int, j: int| 0 <= i < n && 0 <= j < n implies (#[trigger] ord(i, j)
        == Order::Less) == (ord(j, i) == Order::Greater) by {
        let a = sort_value(rs[i], field, root);
        let b = sort_value(rs[j], field, root);
        lemma_val_order(a, b, b, k);
        lemma_val_order(b, a, a, k);
    }
    assert forall|i: int, j: int, l: int|
        0 <= i < n && 0 <= j < n && 0 <= l < n && #[trigger] ord(i, j) != Order::Greater
            && #[trigger] ord(j, l) != Order::Greater implies ord(i, l) != Order::Greater by {
        let a = sort_value(rs[i], field, root);
        let b = sort_value(rs[j], field, root);
        let c = sort_value(rs[l], field, root);
        lemma_val_order(a, b, c, k);
        lemma_val_order(c, b, a, k);
        lemma_val_order(b, a, a, k);
        lemma_val_order(c, a, a, k);
        lemma_val_order(a, c, c, k);
        lemma_val_order(b, c, c, k);
    }
}

/// Records at positions that were put together of two lists.
proof fn lemma_chosen_of_two(rs: Seq<Rec>, a: Seq<int>, b: Seq<int>)
    ensures
        chosen(rs, a + b).to_multiset() == chosen(rs, a).to_multiset().add(
            chosen(rs, b).to_multiset(),
        ),
{
    vstd::seq_lib::lemma_multiset_commutative(chosen(rs, a), chosen(rs, b));
    assert(chosen(rs, a + b) =~= chosen(rs, a) + chosen(rs, b));
}

/// Merging keeps each record as often as it was there.
proof fn lemma_merged_multiset(
    rs: Seq<Rec>,
    ord: spec_fn(int, int) -> Order,
    a: Seq<int>,
    b: Seq<int>,
)
    ensures
        chosen(rs, merged(ord, a, b)).to_multiset() == chosen(rs, a).to_multiset().add(
            chosen(rs, b).to_multiset(),
        ),
    decreases a.len() + b.len(),
{
    let all = chosen(rs, a).to_multiset().add(chosen(rs, b).to_multiset());
    if a.len() == 0 {
        assert(a + b =~= b);
        lemma_chosen_of_two(rs, a, b);
    } else if b.len() == 0 {
        assert(a + b =~= a);
        lemma_chosen_of_two(rs, a, b);
    } else if ord(a[0], b[0]) == Order::Greater {
        let rest = b.skip(1);
        lemma_merged_multiset(rs, ord, a, rest);
        lemma_chosen_of_two(rs, seq![b[0]], merged(ord, a, rest));
        lemma_chosen_of_two(rs, seq![b[0]], rest);
        assert(b =~= seq![b[0]] + rest);
        assert(chosen(rs, merged(ord, a, b)).to_multiset() =~= all);
    } else {
        let rest = a.skip(1);
        lemma_merged_multiset(rs, ord, rest, b);
        lemma_chosen_of_two(rs, seq![a[0]], merged(ord, rest, b));
        lemma_chosen_of_two(rs, seq![a[0]], rest);
        assert(a =~= seq![a[0]] + rest);
        assert(chosen(rs, merged(ord, a, b)).to_multiset() =~= all);
    }
}

/// Putting positions in order keeps each record as often as it was there.
pub proof fn lemma_sorted_multiset(rs: Seq<Rec>, ord: spec_fn(int, int) -> Order, s: Seq<int>)
    ensures
        chosen(rs, sorted(ord, s)).to_multiset() == chosen(rs, s).to_multiset(),
    decreases s.len(),
{
    if s.len() >= 2 {
        let h = s.len() as int / 2;
        lemma_sorted_multiset(rs, ord, s.take(h));
        lemma_sorted_multiset(rs, ord, s.skip(h));
        lemma_merged_multiset(rs, ord, sorted(ord, s.take(h)), sorted(ord, s.skip(h)));
        lemma_chosen_of_two(rs, s.take(h), s.skip(h));
        assert(s =~= s.take(h) + s.skip(h));
    }
}

/// A position that is put among others adds its record.
proof fn lemma_with_position_multiset(
    rs: Seq<Rec>,
    ord: spec_fn(int, int) -> Order,
    s: Seq<int>,
    i: int,
)
    ensures
        chosen(rs, with_position(ord, s, i)).to_multiset() == chosen(rs, s).to_multiset().insert(
            rs[i],
        ),
    decreases s.len(),
{
    broadcast use vstd::seq_lib::group_to_multiset_ensures;

    assert(chosen(rs, s.push(i)) =~= chosen(rs, s).push(rs[i]));
    if s.len() > 0 && ord(s.last(), i) == Order::Greater {
        let init = s.drop_last();
        let part = with_position(ord, init, i);
        lemma_with_position_multiset(rs, ord, init, i);
        assert(chosen(rs, part.push(s.last())) =~= chosen(rs, part).push(rs[s.last()]));
        assert(chosen(rs, s) =~= chosen(rs, init).push(rs[s.last()]));
        assert(chosen(rs, with_position(ord, s, i)).to_multiset() =~= chosen(
            rs,
            s,
        ).to_multiset().insert(rs[i]));
    }
}

/// The first positions take no record more often than it was there.
proof fn lemma_best_multiset(rs: Seq<Rec>, ord: spec_fn(int, int) -> Order, n: nat, k: nat)
    requires
        n <= rs.len(),
    ensures
        chosen(rs, best(ord, n, k)).to_multiset().subset_of(rs.take(n as int).to_multiset()),
    decreases n,
{
    broadcast use vstd::seq_lib::group_to_multiset_ensures;

    if n == 0 || k == 0 {
        assert(chosen(rs, best(ord, n, k)) =~= seq![]);
        assert forall|x: Rec| chosen(rs, best(ord, n, k)).to_multiset().count(x) == 0 by {
            assert(!chosen(rs, best(ord, n, k)).contains(x));
        }
    } else {
        let i = n - 1;
        let kept = best(ord, i as nat, k);
        lemma_best_multiset(rs, ord, i as nat, k);
        assert(rs.take(n as int) =~= rs.take(i).push(rs[i]));
        if kept.len() < k {
            lemma_with_position_multiset(rs, ord, kept, i);
        } else if ord(i, kept.last()) == Order::Less {
            let fewer = kept.drop_last();
            lemma_with_position_multiset(rs, ord, fewer, i);
            assert(chosen(rs, kept) =~= chosen(rs, fewer).push(rs[kept.last()]));
        }
    }
}

/// Putting records in order keeps each as often as it was there, and the first `k` of them
/// hold none more often, whatever the values of the field are.
pub proof fn law_records_are_kept(
    rs: Seq<Rec>,
    field: Seq<char>,
    descending: bool,
    root: Seq<char>,
    k: nat,
)
    ensures
        sorted_records(rs, field, descending, root).to_multiset() == rs.to_multiset(),
        first_records(rs, field, descending, root, k).to_multiset().subset_of(rs.to_multiset()),
{
    let ord = record_rank(rs, field, descending, root);
    lemma_sorted_multiset(rs, ord, positions(rs.len()));
    assert(chosen(rs, positions(rs.len())) =~= rs);
    lemma_best_multiset(rs, ord, rs.len(), k);
    assert(rs.take(rs.len() as int) =~= rs);
}

/// The first `k` of some records, or all where there are fewer.
pub open spec fn start_of(rs: Seq<Rec>, k: nat) -> Seq<Rec> {
    if k < rs.len() {
        rs.take(k as int)
    } else {
        rs
    }
}

/// The first `k` records by a field are the first `k` of those put in order by it, and
/// all of them where there are no more, wherever the field puts the records in a
/// consistent order.
pub proof fn law_first_records(
    rs: Seq<Rec>,
    field: Seq<char>,
    descending: bool,
    root: Seq<char>,
    k: nat,
)
    requires
        is_consistent(record_rank(rs, field, descending, root), rs.len()),
    ensures
        first_records(rs, field, descending, root, k) == start_of(
            sorted_records(rs, field, descending, root),
            k,
        ),
{
    let ord = record_rank(rs, field, descending, root);
    law_sorted(ord, rs.len());
    law_best_is_first(ord, rs.len(), k);
    assert(first_records(rs, field, descending, root, k) =~= start_of(
        sorted_records(rs, field, descending, root),
        k,
    ));
}

/// A record that stands in a list more often than in its start stands behind the start.
proof fn lemma_left_out(out: Seq<Rec>, n: nat, x: Rec)
    requires
        n <= out.len(),
        out.to_multiset().count(x) > out.take(n as int).to_multiset().count(x),
    ensures
        exists|q: int| n <= q < out.len() && #[trigger] out[q] == x,
{
    broadcast use vstd::seq_lib::group_to_multiset_ensures;

    let rest = out.skip(n as int);
    vstd::seq_lib::lemma_multiset_commutative(out.take(n as int), rest);
    assert(out =~= out.take(n as int) + rest);
    assert(rest.to_multiset().count(x) > 0);
    assert(rest.contains(x));
    let k = choose|k: int| 0 <= k < rest.len() && rest[k] == x;
    assert(out[n + k] == x);
}

/// Of two records in order, the first does not come after the second.
proof fn lemma_two_in_order(
    rs: Seq<Rec>,
    field: Seq<char>,
    descending: bool,
    root: Seq<char>,
    k: Seq<char>,
    p: int,
    q: int,
)
    requires
        all_of(rs, field, root, k),
    ensures
        sorted_records(rs, field, descending, root).len() == rs.len(),
        0 <= p < q < rs.len() ==> directed(
            sort_value(sorted_records(rs, field, descending, root)[p], field, root),
            sort_value(sorted_records(rs, field, descending, root)[q], field, root),
            descending,
        ) != Order::Greater,
{
    let ord = record_rank(rs, field, descending, root);
    lemma_rank(rs, field, descending, root, k);
    law_sorted(ord, rs.len());
    let s = sorted(ord, positions(rs.len()));
    if 0 <= p < q < rs.len() {
        assert(goes_before(ord, s[p], s[q]));
        assert(ord(s[p], s[q]) != Order::Greater);
    }
}

/// Where the values of a field are of one kind, the notes of a query come in its
/// order, each as often as it was there, and the first of them are the same whether
/// all are put in order or only those that are asked for.
pub proof fn law_query_order(
    rs: Seq<Rec>,
    field: Seq<char>,
    descending: bool,
    root: Seq<char>,
    k: Seq<char>,
    limit: nat,
)
    requires
        all_of(rs, field, root, k),
    ensures
        sorted_records(rs, field, descending, root).len() == rs.len(),
        forall|p: int, q: int|
            0 <= p < q < rs.len() ==> directed(
                sort_value(#[trigger] sorted_records(rs, field, descending, root)[p], field, root),
                sort_value(#[trigger] sorted_records(rs, field, descending, root)[q], field, root),
                descending,
            ) != Order::Greater,
        sorted_records(rs, field, descending, root).to_multiset() == rs.to_multiset(),
        first_records(rs, field, descending, root, limit) == start_of(
            sorted_records(rs, field, descending, root),
            limit,
        ),
        first_records(rs, field, descending, root, limit).to_multiset().subset_of(
            rs.to_multiset(),
        ),
{
    let ord = record_rank(rs, field, descending, root);
    lemma_rank(rs, field, descending, root, k);
    law_sorted(ord, rs.len());
    law_first_records(rs, field, descending, root, limit);
    let out = sorted_records(rs, field, descending, root);
    assert forall|p: int, q: int| 0 <= p < q < rs.len() implies directed(
        sort_value(#[trigger] out[p], field, root),
        sort_value(#[trigger] out[q], field, root),
        descending,
    ) != Order::Greater by {
        lemma_two_in_order(rs, field, descending, root, k, p, q);
    }
    law_records_are_kept(rs, field, descending, root, limit);
}

/// Where the values of a field are of one kind, no record that is left out of the first
/// comes before one of them.
pub proof fn law_first_come_first(
    rs: Seq<Rec>,
    field: Seq<char>,
    descending: bool,
    root: Seq<char>,
    k: Seq<char>,
    limit: nat,
    x: Rec,
    p: int,
)
    requires
        all_of(rs, field, root, k),
        0 <= p < first_records(rs, field, descending, root, limit).len(),
        rs.to_multiset().count(x) > first_records(
            rs,
            field,
            descending,
            root,
            limit,
        ).to_multiset().count(x),
    ensures
        directed(
            sort_value(first_records(rs, field, descending, root, limit)[p], field, root),
            sort_value(x, field, root),
            descending,
        ) != Order::Greater,
{
    let out = sorted_records(rs, field, descending, root);
    let first = first_records(rs, field, descending, root, limit);
    assert(first == start_of(out, limit)) by {
        lemma_rank(rs, field, descending, root, k);
        law_first_records(rs, field, descending, root, limit);
    }
    assert(out.len() == rs.len() && out.to_multiset() == rs.to_multiset()) by {
        lemma_two_in_order(rs, field, descending, root, k, 0, 0);
        law_records_are_kept(rs, field, descending, root, limit);
    }
    assert(first == out.take(first.len() as int));
    assert(exists|q: int| first.len() <= q < out.len() && #[trigger] out[q] == x) by {
        lemma_left_out(out, first.len(), x);
    }
    let q = choose|q: int| first.len() <= q < out.len() && #[trigger] out[q] == x;
    lemma_two_in_order(rs, field, descending, root, k, p, q);
}

// ── Loading ────────────────────────────────────────────────────────────────

/// How many of the files before a position give a record.
pub open spec fn records_before(files: Seq<FileView>, with_content: bool, at: nat) -> nat
    decreases at,
{
    if at == 0 {
        0
    } else if note_of(files[at - 1], with_content) is Ok {
        records_before(files, with_content, (at - 1) as nat) + 1
    } else {
        records_before(files, with_content, (at - 1) as nat)
    }
}

/// What a file gave when files were loaded: the record in its place among the records,
/// or the error in its place among the errors.
pub open spec fn is_accounted(
    files: Seq<FileView>,
    with_content: bool,
    rs: Seq<Rec>,
    es: Seq<(Seq<char>, Seq<char>)>,
    i: int,
) -> bool {
    let k = records_before(files, with_content, i as nat) as int;
    match note_of(files[i], with_content) {
        Ok(r) => 0 <= k < rs.len() && rs[k] == r && r.path == files[i].path,
        Err(Failure::InvalidFrontmatter { file, reason }) => 0 <= i - k < es.len() && es[i - k] == (
            file,
            reason,
        ) && file == files[i].path,
        Err(_) => false,
    }
}

/// Each file that is loaded is one record or one error, in the order of the files, and
/// there are no others.
pub proof fn law_each_file_is_accounted(files: Seq<FileView>, with_content: bool)
    ensures
        match loaded(files, with_content) {
            Ok((rs, es)) => {
                &&& rs.len() + es.len() == files.len()
                &&& rs.len() == records_before(files, with_content, files.len())
                &&& forall|i: int|
                    0 <= i < files.len() ==> #[trigger] is_accounted(files, with_content, rs, es, i)
            },
            Err(_) => true,
        },
    decreases files.len(),
{
    if files.len() > 0 && loaded(files, with_content) is Ok {
        let init = files.drop_last();
        law_each_file_is_accounted(init, with_content);
        let (rs, es) = loaded(files, with_content)->Ok_0;
        let (before, errors) = loaded(init, with_content)->Ok_0;
        lemma_records_before(files, with_content, init.len());
        assert forall|i: int| 0 <= i < files.len() implies #[trigger] is_accounted(
            files,
            with_content,
            rs,
            es,
            i,
        ) by {
            if i < init.len() {
                assert(is_accounted(init, with_content, before, errors, i));
                assert(files[i] == init[i]);
                lemma_records_before(files, with_content, i as nat);
            }
        }
    }
}

/// Whether records stand in the order of their paths.
pub open spec fn records_ascend(rs: Seq<Rec>) -> bool {
    forall|i: int, j: int|
        0 <= i < j < rs.len() ==> path_order((#[trigger] rs[i]).path, (#[trigger] rs[j]).path)
            != Order::Greater
}

/// Whether a record is that of one of some files.
pub open spec fn is_of_file(files: Seq<FileView>, with_content: bool, r: Rec) -> bool {
    exists|i: int|
        0 <= i < files.len() && note_of(#[trigger] files[i], with_content) == Ok::<Rec, Failure>(r)
}

/// Records of files that stand in order stand in order.
proof fn lemma_records_ascend(files: Seq<FileView>, with_content: bool)
    requires
        files_ascend(files),
        loaded(files, with_content) is Ok,
    ensures
        records_ascend(loaded(files, with_content)->Ok_0.0),
        forall|k: int|
            0 <= k < loaded(files, with_content)->Ok_0.0.len() ==> is_of_file(
                files,
                with_content,
                #[trigger] loaded(files, with_content)->Ok_0.0[k],
            ),
    decreases files.len(),
{
    if files.len() > 0 {
        let init = files.drop_last();
        let last = files.len() - 1;
        assert(files_ascend(init)) by {
            assert forall|i: int, j: int| 0 <= i < j < init.len() implies path_order(
                (#[trigger] init[i]).path,
                (#[trigger] init[j]).path,
            ) != Order::Greater by {
                assert(init[i] == files[i] && init[j] == files[j]);
            }
        }
        lemma_records_ascend(init, with_content);
        let part = loaded(init, with_content)->Ok_0.0;
        let rs = loaded(files, with_content)->Ok_0.0;
        assert forall|k: int| 0 <= k < part.len() implies is_of_file(
            files,
            with_content,
            #[trigger] part[k],
        ) && path_order(part[k].path, files[last].path) != Order::Greater by {
            assert(is_of_file(init, with_content, part[k]));
            let i = choose|i: int|
                0 <= i < init.len() && note_of(#[trigger] init[i], with_content) == Ok::<Rec, Failure>(
                    part[k],
                );
            assert(files[i] == init[i]);
        }
        assert forall|k: int| 0 <= k < rs.len() implies is_of_file(
            files,
            with_content,
            #[trigger] rs[k],
        ) by {
            if k < part.len() {
                assert(rs[k] == part[k]);
            } else {
                assert(note_of(files[last], with_content) == Ok::<Rec, Failure>(rs[k]));
            }
        }
        assert forall|i: int, j: int| 0 <= i < j < rs.len() implies path_order(
            (#[trigger] rs[i]).path,
            (#[trigger] rs[j]).path,
        ) != Order::Greater by {
            assert(rs[i] == part[i]);
            if j < part.len() {
                assert(rs[j] == part[j]);
            } else {
                assert(rs[j].path == files[last].path);
            }
        }
    }
}

/// Loading the notes of a folder drops none: each is one record or one error. The records
/// stand in ascending order of their paths and have their texts only where these are asked
/// for. A note without frontmatter is a record without fields, and one whose frontmatter is
/// no YAML is an error.
pub proof fn law_folder_is_loaded(
    p: Picture,
    folder: Seq<char>,
    recursive: bool,
    with_content: bool,
)
    ensures
        ({
            let files = notes_in(p.files, folder, recursive);
            match loaded(files, with_content) {
                Ok((rs, es)) => {
                    &&& files_ascend(files)
                    &&& records_ascend(rs)
                    &&& rs.len() + es.len() == files.len()
                    &&& forall|i: int|
                        0 <= i < files.len() ==> #[trigger] is_accounted(
                            files,
                            with_content,
                            rs,
                            es,
                            i,
                        )
                    &&& forall|k: int|
                        0 <= k < rs.len() ==> ((#[trigger] rs[k]).content is Some) == with_content
                    &&& forall|i: int, text: Seq<char>|
                        0 <= i < files.len() && (#[trigger] files[i]).content == Ok::<
                            Seq<char>,
                            Seq<char>,
                        >(text) ==> match #[trigger] extracted(text) {
                            None => note_of(files[i], with_content) is Ok && note_of(
                                files[i],
                                with_content,
                            )->Ok_0.fields == Seq::<(Seq<char>, Val)>::empty(),
                            Some((fm, _)) => (note_of(files[i], with_content) is Ok) == (
                            parsed_fields(fm) is Ok),
                        }
                },
                Err(_) => true,
            }
        }),
{
    let files = notes_in(p.files, folder, recursive);
    law_notes_ascend(p.files, folder, recursive);
    law_each_file_is_accounted(files, with_content);
    if loaded(files, with_content) is Ok {
        let rs = loaded(files, with_content)->Ok_0.0;
        lemma_records_ascend(files, with_content);
        assert forall|k: int| 0 <= k < rs.len() implies ((#[trigger] rs[k]).content is Some)
            == with_content by {
            assert(is_of_file(files, with_content, rs[k]));
            let i = choose|i: int|
                0 <= i < files.len() && note_of(#[trigger] files[i], with_content) == Ok::<
                    Rec,
                    Failure,
                >(rs[k]);
            assert(files[i].content is Ok);
        }
    }
}

/// The records before a position are those of the files before the last.
proof fn lemma_records_before(files: Seq<FileView>, with_content: bool, at: nat)
    requires
        at < files.len(),
    ensures
        records_before(files, with_content, at) == records_before(
            files.drop_last(),
            with_content,
            at,
        ),
    decreases at,
{
    if at > 0 {
        lemma_records_before(files, with_content, (at - 1) as nat);
    }
}

/// A note that a query gave without its text is, with its text, the note that was
/// loaded.
pub proof fn law_text_is_given_back(p: Picture, i: int, note: Rec)
    requires
        0 <= i < p.files.len(),
        file_at(p.files, p.files[i].path, 0) == Some(i),
        note_of(p.files[i], true) == Ok::<Rec, Failure>(note),
    ensures
        with_text(projected(note, None), p) == note,
        forall|select: Option<Seq<Seq<char>>>|
            (#[trigger] with_text(projected(note, select), p)).content == note.content,
{
}

// ── Finding a vault ────────────────────────────────────────────────────────

/// Whether a folder has an `.obsidian` folder in it.
pub open spec fn is_marked(p: Picture, folder: Seq<char>) -> bool {
    has_folder(p, below(folder, ".obsidian"@))
}

/// The vault that is found is the nearest marked folder at or above a path, and one is
/// found wherever there is one.
pub proof fn law_nearest_vault(p: Picture, path: Seq<char>, n: int)
    requires
        0 <= n,
    ensures
        match vault_above(p, path, n) {
            Some(root) => exists|k: int|
                0 <= k <= n && root == #[trigger] ancestor(path, k) && is_marked(p, root) && forall|j: int|
                    k < j <= n ==> !is_marked(p, #[trigger] ancestor(path, j)),
            None => forall|j: int| 0 <= j <= n ==> !is_marked(p, #[trigger] ancestor(path, j)),
        },
    decreases n,
{
    if is_marked(p, ancestor(path, n)) {
        assert(vault_above(p, path, n) == Some(ancestor(path, n)));
    } else if n > 0 {
        law_nearest_vault(p, path, n - 1);
        match vault_above(p, path, n - 1) {
            Some(root) => {
                let k = choose|k: int|
                    0 <= k <= n - 1 && root == #[trigger] ancestor(path, k) && is_marked(p, root)
                        && forall|j: int|
                        k < j <= n - 1 ==> !is_marked(p, #[trigger] ancestor(path, j));
                assert(root == ancestor(path, k));
                assert forall|j: int| k < j <= n implies !is_marked(p, #[trigger] ancestor(path, j)) by {}
            },
            None => {},
        }
    } else {
        assert(vault_above(p, path, -1) is None);
    }
}

} // verus!
