//! Which schemas can stand, which collections apply to a note, and what defaults come to.

use crate::dsl::parsed;
use crate::error::Failure;
use crate::filter::holds;
use crate::float::law_integers_keep_their_order;
use crate::query::Cond;
use crate::record::{equal_vals, key_at, lemma_key_at, shown, Rec, Val};
use crate::schema::checking::{is_in_format, is_integer_bound, is_of_type, lemma_type_names};
use crate::schema::{
    all_defaults_against, allows, applies, applying, by_depth, clash, clash_over, contradict,
    default_against, default_clash, default_of, default_problem, defaults_against, defaults_problem,
    depth, excluded, forced, forced_by_filters, in_folder, inconsistency, inserted_by_depth,
    is_above, is_allowed, meets_filters, misfit, of_folder, pair_problem, pairs_problem, resolved,
    row_problem, rule_of, schema_checked, schema_defaults_problem, CollectionRule, FieldRule,
};
use crate::text::starts;
use vstd::prelude::*;

verus! {

// ── Collections that apply ─────────────────────────────────────────────────

/// Whether a folder is another or lies in it, at any depth; all lie in the one without a name.
pub open spec fn is_inside(inner: Seq<char>, outer: Seq<char>) -> bool {
    outer.len() == 0 || inner == outer || (inner.len() > outer.len() && inner.take(
        outer.len() as int,
    ) == outer && inner[outer.len() as int] == '/')
}

/// A folder lies above another exactly if the other is it or lies inside it.
proof fn lemma_is_above(outer: Seq<char>, inner: Seq<char>)
    ensures
        is_above(outer, inner) <==> is_inside(inner, outer),
{
    reveal_strlit("/");
    let head = outer + "/"@;
    assert("/"@.len() == 1 && "/"@[0] == '/');
    if starts(inner, head) {
        assert(inner.subrange(0, head.len() as int) == head);
        assert(inner.take(outer.len() as int) =~= outer);
        assert(head[outer.len() as int] == '/');
        assert(inner[outer.len() as int] == inner.subrange(0, head.len() as int)[outer.len() as int]);
    }
    if inner.len() > outer.len() && inner.take(outer.len() as int) == outer && inner[outer.len()
        as int] == '/' {
        assert(inner.subrange(0, head.len() as int) =~= head) by {
            assert forall|i: int| 0 <= i < head.len() implies inner.subrange(0, head.len() as int)[i]
                == #[trigger] head[i] by {
                if i < outer.len() {
                    assert(inner.take(outer.len() as int)[i] == outer[i]);
                }
            }
        }
    }
}

/// A collection without filters applies to the notes of its folder and of the folders inside
/// it, and to no others.
pub proof fn law_collections_apply(c: CollectionRule, folder: Seq<char>, r: Rec, root: Seq<char>)
    requires
        c.filter.len() == 0,
    ensures
        applies(c, folder, r, root) == Ok::<bool, Failure>(is_inside(folder, c.folder)),
{
    lemma_is_above(c.folder, folder);
}

/// A collection with a filter applies to those of the notes of its folder that meet it; one
/// more filter leaves those that meet it, too.
pub proof fn law_filters_apply(
    c: CollectionRule,
    filter: Seq<char>,
    e: Cond,
    folder: Seq<char>,
    r: Rec,
    root: Seq<char>,
)
    requires
        parsed(filter) == Ok::<Cond, Failure>(e),
        applies(c, folder, r, root) is Ok,
    ensures
        applies(CollectionRule { filter: c.filter.push(filter), ..c }, folder, r, root) == Ok::<
            bool,
            Failure,
        >(applies(c, folder, r, root)->Ok_0 && holds(e, r, root, None)),
{
    let d = CollectionRule { filter: c.filter.push(filter), ..c };
    let n = c.filter.len() as int;
    lemma_same_filters(c, d, n, r, root);
    assert(d.filter[n] == filter);
}

/// Filters that are the same are met by the same notes.
proof fn lemma_same_filters(
    c: CollectionRule,
    d: CollectionRule,
    n: int,
    r: Rec,
    root: Seq<char>,
)
    requires
        0 <= n <= c.filter.len(),
        n <= d.filter.len(),
        c.folder == d.folder,
        forall|i: int| 0 <= i < n ==> #[trigger] c.filter[i] == d.filter[i],
    ensures
        meets_filters(c, n, r, root) == meets_filters(d, n, r, root),
    decreases n,
{
    if n > 0 {
        lemma_same_filters(c, d, n - 1, r, root);
        assert(c.filter[n - 1] == d.filter[n - 1]);
    }
}

/// Each collection that applies to a note is among those that are applied to it.
pub proof fn law_applying_collections(
    cs: Seq<(Seq<char>, CollectionRule)>,
    folder: Seq<char>,
    r: Rec,
    root: Seq<char>,
    c: CollectionRule,
)
    requires
        applying(cs, folder, r, root) is Ok,
    ensures
        applying(cs, folder, r, root)->Ok_0.contains(c) <==> (exists|i: int|
            0 <= i < cs.len() && (#[trigger] cs[i]).1 == c) && applies(c, folder, r, root) == Ok::<
            bool,
            Failure,
        >(true),
    decreases cs.len(),
{
    if cs.len() > 0 {
        let init = cs.drop_last();
        law_applying_collections(init, folder, r, root, c);
        let before = applying(init, folder, r, root)->Ok_0;
        crate::links::laws::lemma_contains_push(before, cs.last().1, c);
        if exists|i: int| 0 <= i < cs.len() && (#[trigger] cs[i]).1 == c {
            let i = choose|i: int| 0 <= i < cs.len() && (#[trigger] cs[i]).1 == c;
            if i < init.len() {
                assert(init[i].1 == c);
            }
        }
        if exists|i: int| 0 <= i < init.len() && (#[trigger] init[i]).1 == c {
            let i = choose|i: int| 0 <= i < init.len() && (#[trigger] init[i]).1 == c;
            assert(cs[i].1 == c);
        }
        assert(cs[cs.len() - 1].1 == cs.last().1);
    }
}

/// Putting one more collection in its place keeps them in order.
proof fn lemma_inserted_by_depth(v: Seq<CollectionRule>, c: CollectionRule)
    requires
        forall|i: int, j: int|
            0 <= i < j < v.len() ==> depth((#[trigger] v[i]).folder) <= depth(
                (#[trigger] v[j]).folder,
            ),
    ensures
        ({
            let w = inserted_by_depth(v, c);
            &&& w.to_multiset() == v.to_multiset().insert(c)
            &&& forall|i: int, j: int|
                0 <= i < j < w.len() ==> depth((#[trigger] w[i]).folder) <= depth(
                    (#[trigger] w[j]).folder,
                )
            &&& forall|i: int|
                0 <= i < w.len() ==> depth((#[trigger] w[i]).folder) <= depth(c.folder) || (v.len()
                    > 0 && depth(w[i].folder) <= depth(v.last().folder))
        }),
    decreases v.len(),
{
    broadcast use vstd::seq_lib::group_to_multiset_ensures;

    if !(v.len() == 0 || depth(v.last().folder) <= depth(c.folder)) {
        let init = v.drop_last();
        assert forall|i: int, j: int| 0 <= i < j < init.len() implies depth(
            (#[trigger] init[i]).folder,
        ) <= depth((#[trigger] init[j]).folder) by {
            assert(init[i] == v[i] && init[j] == v[j]);
        }
        lemma_inserted_by_depth(init, c);
        let part = inserted_by_depth(init, c);
        let w = inserted_by_depth(v, c);
        assert(w == part.push(v.last()));
        assert(v =~= init.push(v.last()));
        assert(w.to_multiset() =~= v.to_multiset().insert(c));
        if init.len() > 0 {
            assert(init.last() == v[v.len() - 2]);
            assert(depth(v[v.len() - 2].folder) <= depth(v[v.len() - 1].folder));
        }
        assert forall|i: int, j: int| 0 <= i < j < w.len() implies depth((#[trigger] w[i]).folder)
            <= depth((#[trigger] w[j]).folder) by {
            assert(w[i] == part[i]);
            if j < part.len() {
                assert(w[j] == part[j]);
            }
        }
    } else {
        let w = v.push(c);
        assert(w.to_multiset() =~= v.to_multiset().insert(c));
        assert forall|i: int, j: int| 0 <= i < j < w.len() implies depth((#[trigger] w[i]).folder)
            <= depth((#[trigger] w[j]).folder) by {
            if j == v.len() {
                if i < v.len() - 1 {
                    assert(depth(v[i].folder) <= depth(v[v.len() - 1].folder));
                }
            }
        }
        assert forall|i: int| 0 <= i < w.len() implies depth((#[trigger] w[i]).folder) <= depth(
            c.folder,
        ) || (v.len() > 0 && depth(w[i].folder) <= depth(v.last().folder)) by {
            if i < v.len() - 1 {
                assert(depth(v[i].folder) <= depth(v[v.len() - 1].folder));
            }
        }
    }
}

/// Collections by depth are all there, those of folders less deep first.
pub proof fn law_shallow_folders_come_first(v: Seq<CollectionRule>)
    ensures
        by_depth(v).to_multiset() == v.to_multiset(),
        forall|i: int, j: int|
            0 <= i < j < by_depth(v).len() ==> depth((#[trigger] by_depth(v)[i]).folder) <= depth(
                (#[trigger] by_depth(v)[j]).folder,
            ),
    decreases v.len(),
{
    broadcast use vstd::seq_lib::group_to_multiset_ensures;

    if v.len() > 0 {
        let init = v.drop_last();
        law_shallow_folders_come_first(init);
        lemma_inserted_by_depth(by_depth(init), v.last());
        assert(v =~= init.push(v.last()));
    }
}

/// A folder in another lies one deeper.
pub proof fn law_depth(folder: Seq<char>, name: Seq<char>)
    requires
        !name.contains('/'),
    ensures
        depth(name) == 0,
        depth(folder + "/"@ + name) == depth(folder) + 1,
    decreases name.len(),
{
    reveal_strlit("/");
    let s = folder + "/"@ + name;
    if name.len() == 0 {
        assert(s =~= (folder + "/"@));
        assert(s.drop_last() =~= folder);
        assert(s.last() == '/');
    } else {
        let init = name.drop_last();
        assert(!init.contains('/')) by {
            if init.contains('/') {
                let k = choose|k: int| 0 <= k < init.len() && init[k] == '/';
                assert(name[k] == '/');
            }
        }
        assert(name[name.len() - 1] != '/') by {
            if name[name.len() - 1] == '/' {
                assert(name.contains('/'));
            }
        }
        law_depth(folder, init);
        assert(s.drop_last() =~= folder + "/"@ + init);
        assert(s.last() == name.last());
    }
}

/// Of the collections those are in a folder whose folder is it or lies inside it.
pub proof fn law_collections_in_folder(
    cs: Seq<(Seq<char>, CollectionRule)>,
    folder: Seq<char>,
    c: (Seq<char>, CollectionRule),
)
    requires
        folder.len() > 0,
    ensures
        in_folder(cs, folder).contains(c) <==> cs.contains(c) && is_inside(c.1.folder, folder),
    decreases cs.len(),
{
    if cs.len() > 0 {
        let init = cs.drop_last();
        law_collections_in_folder(init, folder, c);
        lemma_is_above(folder, cs.last().1.folder);
        assert(cs =~= init.push(cs.last()));
        crate::links::laws::lemma_contains_push(init, cs.last(), c);
        crate::links::laws::lemma_contains_push(in_folder(init, folder), cs.last(), c);
    }
}

/// The collection of a folder is the first whose folder is it, and there is one wherever there
/// is such a one.
pub proof fn law_collection_of_folder(
    cs: Seq<(Seq<char>, CollectionRule)>,
    folder: Seq<char>,
    from: int,
)
    requires
        0 <= from,
    ensures
        match of_folder(cs, folder, from) {
            Some(c) => exists|i: int|
                from <= i < cs.len() && (#[trigger] cs[i]).1 == c && c.folder == folder && forall|
                    j: int,
                | from <= j < i ==> (#[trigger] cs[j]).1.folder != folder,
            None => forall|j: int| from <= j < cs.len() ==> (#[trigger] cs[j]).1.folder != folder,
        },
    decreases cs.len() - from,
{
    if from < cs.len() && cs[from].1.folder != folder {
        law_collection_of_folder(cs, folder, from + 1);
        if let Some(c) = of_folder(cs, folder, from + 1) {
            let i = choose|i: int|
                from + 1 <= i < cs.len() && (#[trigger] cs[i]).1 == c && c.folder == folder && forall|
                    j: int,
                | from + 1 <= j < i ==> (#[trigger] cs[j]).1.folder != folder;
            assert(cs[i].1 == c);
            assert forall|j: int| from <= j < i implies (#[trigger] cs[j]).1.folder != folder by {}
        }
    } else if from < cs.len() {
        assert(cs[from].1.folder == folder);
    }
}

// ── Clashes ────────────────────────────────────────────────────────────────

/// Whether no value meets two rules: their types differ, they list values and none in common,
/// or the minimum of one is above the maximum of the other.
pub open spec fn are_opposed(fa: FieldRule, fb: FieldRule) -> bool {
    ||| fa.field_type != fb.field_type
    ||| fa.enum_values.len() > 0 && fb.enum_values.len() > 0 && forall|i: int, j: int|
        0 <= i < fa.enum_values.len() && 0 <= j < fb.enum_values.len() ==> !equal_vals(
            #[trigger] fa.enum_values[i],
            #[trigger] fb.enum_values[j],
        )
    ||| exists|low: int, high: int| #[trigger]
        is_range(fa, fb, low, high) && high < low
}

/// Whether one of two rules has a minimum and the other a maximum, both integers.
pub open spec fn is_range(fa: FieldRule, fb: FieldRule, low: int, high: int) -> bool {
    &&& -0x20_0000_0000_0000 < low < 0x20_0000_0000_0000
    &&& -0x20_0000_0000_0000 < high < 0x20_0000_0000_0000
    &&& (is_integer_bound(fa.min, low) && is_integer_bound(fb.max, high) && fb.min is None
        && fa.max is None) || (is_integer_bound(fb.min, low) && is_integer_bound(fa.max, high)
        && fa.min is None && fb.max is None)
}

/// Whether two rules agree: on the type, and on values, if both list some; at most one of
/// them has bounds, and there the minimum is not above the maximum.
pub open spec fn do_agree(fa: FieldRule, fb: FieldRule) -> bool {
    &&& fa.field_type == fb.field_type
    &&& fa.enum_values.len() == 0 || fb.enum_values.len() == 0 || exists|i: int, j: int|
        0 <= i < fa.enum_values.len() && 0 <= j < fb.enum_values.len() && equal_vals(
            #[trigger] fa.enum_values[i],
            #[trigger] fb.enum_values[j],
        )
    &&& fa.min is None && fb.min is None || fa.max is None && fb.max is None
}

/// Two rules that no value meets clash, and two that agree do not.
proof fn lemma_clash(
    na: Seq<char>,
    a: CollectionRule,
    fa: FieldRule,
    nb: Seq<char>,
    b: CollectionRule,
    fb: FieldRule,
    name: Seq<char>,
)
    ensures
        are_opposed(fa, fb) ==> clash(na, a, fa, nb, b, fb, name) is Some,
        do_agree(fa, fb) ==> clash(na, a, fa, nb, b, fb, name) is None,
{
    if exists|low: int, high: int| #[trigger] is_range(fa, fb, low, high) && high < low {
        let (low, high) = choose|low: int, high: int| #[trigger]
            is_range(fa, fb, low, high) && high < low;
        law_integers_keep_their_order(high, low);
    }
}

/// The first clash over some fields is there exactly if there is one.
proof fn lemma_clash_over(
    a: (Seq<char>, CollectionRule),
    b: (Seq<char>, CollectionRule),
    fs: Seq<(Seq<char>, FieldRule)>,
)
    ensures
        clash_over(a, b, fs) is Some <==> exists|k: int| 0 <= k < fs.len() && #[trigger] clashes(a, b, fs, k),
    decreases fs.len(),
{
    if fs.len() > 0 {
        let init = fs.drop_last();
        let last = fs.len() - 1;
        lemma_clash_over(a, b, init);
        assert(fs.last() == fs[last]);
        assert forall|k: int| 0 <= k < init.len() implies #[trigger] clashes(a, b, init, k)
            == clashes(a, b, fs, k) by {
            assert(init[k] == fs[k]);
        }
        if exists|k: int| 0 <= k < fs.len() && #[trigger] clashes(a, b, fs, k) {
            let k = choose|k: int| 0 <= k < fs.len() && #[trigger] clashes(a, b, fs, k);
            if k < last {
                assert(clashes(a, b, init, k));
            }
        }
        if clash_over(a, b, init) is Some {
            let k = choose|k: int| 0 <= k < init.len() && #[trigger] clashes(a, b, init, k);
            assert(clashes(a, b, fs, k));
        }
        if clash_over(a, b, fs) is Some && clash_over(a, b, init) is None {
            assert(clashes(a, b, fs, last));
        }
    }
}

/// Whether one of some fields clashes with what another collection says of it.
spec fn clashes(
    a: (Seq<char>, CollectionRule),
    b: (Seq<char>, CollectionRule),
    fs: Seq<(Seq<char>, FieldRule)>,
    k: int,
) -> bool {
    match rule_of(b.1.fields, fs[k].0) {
        Some(fb) => clash(a.0, a.1, fs[k].1, b.0, b.1, fb, fs[k].0) is Some,
        None => false,
    }
}

/// A problem of a pair is a problem of all.
proof fn lemma_pairs(cs: Seq<(Seq<char>, CollectionRule)>, n: int)
    requires
        0 <= n <= cs.len(),
    ensures
        pairs_problem(cs, n) is Some <==> exists|i: int, j: int|
            0 <= i < n && i < j < cs.len() && pair_problem(#[trigger] cs[i], #[trigger] cs[j]) is Some,
    decreases n,
{
    if n > 0 {
        lemma_pairs(cs, n - 1);
        lemma_row(cs, n - 1, cs.len() as int);
        if exists|i: int, j: int|
            0 <= i < n && i < j < cs.len() && pair_problem(#[trigger] cs[i], #[trigger] cs[j]) is Some {
            let (i, j) = choose|i: int, j: int|
                0 <= i < n && i < j < cs.len() && pair_problem(#[trigger] cs[i], #[trigger] cs[j]) is Some;
            if i < n - 1 {
                assert(pair_problem(cs[i], cs[j]) is Some);
            }
        }
        if pairs_problem(cs, n - 1) is Some {
            let (i, j) = choose|i: int, j: int|
                0 <= i < n - 1 && i < j < cs.len() && pair_problem(#[trigger] cs[i], #[trigger] cs[j]) is Some;
            assert(pair_problem(cs[i], cs[j]) is Some);
        }
    }
}

/// A problem of a collection with one behind it is a problem of it.
proof fn lemma_row(cs: Seq<(Seq<char>, CollectionRule)>, i: int, j: int)
    requires
        0 <= i,
        j <= cs.len(),
    ensures
        row_problem(cs, i, j) is Some <==> exists|k: int|
            i < k < j && pair_problem(cs[i], #[trigger] cs[k]) is Some,
    decreases j,
{
    if !(j <= i + 1 || j <= 0) {
        lemma_row(cs, i, j - 1);
        if row_problem(cs, i, j - 1) is None && pair_problem(cs[i], cs[j - 1]) is Some {
            assert(pair_problem(cs[i], cs[j - 1]) is Some);
        }
        if row_problem(cs, i, j - 1) is Some {
            let k = choose|k: int| i < k < j - 1 && pair_problem(cs[i], #[trigger] cs[k]) is Some;
            assert(pair_problem(cs[i], cs[k]) is Some);
        }
    }
}

/// Whether the folder of one collection is that of the other or lies inside it.
pub open spec fn do_meet(a: CollectionRule, b: CollectionRule) -> bool {
    is_inside(a.folder, b.folder) || is_inside(b.folder, a.folder)
}

/// Collections without filters exclude nothing.
proof fn lemma_nothing_excluded(a: CollectionRule, b: CollectionRule)
    requires
        a.filter.len() == 0,
        b.filter.len() == 0,
    ensures
        excluded(a.filter, b.filter) == Ok::<bool, Seq<char>>(false),
{
}

/// Two collections whose folders meet and that have rules for one field that no value meets
/// cannot stand together.
pub proof fn law_opposed_rules_are_refused(
    cs: Seq<(Seq<char>, CollectionRule)>,
    i: int,
    j: int,
    name: Seq<char>,
    fa: FieldRule,
    fb: FieldRule,
    now: u64,
)
    requires
        0 <= i < j < cs.len(),
        cs[i].1.filter.len() == 0,
        cs[j].1.filter.len() == 0,
        do_meet(cs[i].1, cs[j].1),
        are_distinct_rules(cs[j].1.fields),
        cs[i].1.fields.contains((name, fa)),
        cs[j].1.fields.contains((name, fb)),
        are_opposed(fa, fb),
    ensures
        inconsistency(cs, now) is Some,
        schema_checked(cs, now) is Err,
{
    lemma_is_above(cs[i].1.folder, cs[j].1.folder);
    lemma_is_above(cs[j].1.folder, cs[i].1.folder);
    lemma_nothing_excluded(cs[i].1, cs[j].1);
    let a = cs[i];
    let b = cs[j];
    lemma_clash(a.0, a.1, fa, b.0, b.1, fb, name);
    lemma_rule_of(b.1.fields, name, fb);
    let k = choose|k: int| 0 <= k < a.1.fields.len() && a.1.fields[k] == (name, fa);
    assert(clashes(a, b, a.1.fields, k));
    lemma_clash_over(a, b, a.1.fields);
    assert(pair_problem(cs[i], cs[j]) is Some);
    lemma_pairs(cs, cs.len() as int);
}

/// Whether some rules are for different fields.
pub open spec fn are_distinct_rules(rs: Seq<(Seq<char>, FieldRule)>) -> bool {
    forall|i: int, j: int| 0 <= i < j < rs.len() ==> (#[trigger] rs[i]).0 != (#[trigger] rs[j]).0
}

/// The rule of a field is the one that stands with its name.
proof fn lemma_rule_of(rs: Seq<(Seq<char>, FieldRule)>, name: Seq<char>, rule: FieldRule)
    requires
        are_distinct_rules(rs),
        rs.contains((name, rule)),
    ensures
        rule_of(rs, name) == Some(rule),
{
    lemma_key_at(rs, name, 0);
    let k = choose|k: int| 0 <= k < rs.len() && rs[k] == (name, rule);
    let i = key_at(rs, name, 0)->0;
    assert(rs[k].0 == name);
    assert(rs[i].0 == name);
}

/// Whether a collection has no default.
pub open spec fn has_no_default(c: CollectionRule) -> bool {
    forall|k: int|
        0 <= k < c.fields.len() ==> (#[trigger] c.fields[k]).1.default is None
            && c.fields[k].1.default_expr is None
}

/// Collections without filters and defaults can stand together where the rules of those whose
/// folders meet agree on each field; what lies in other folders does not matter.
pub proof fn law_agreeing_rules_stand(cs: Seq<(Seq<char>, CollectionRule)>, now: u64)
    requires
        forall|i: int|
            0 <= i < cs.len() ==> (#[trigger] cs[i]).1.filter.len() == 0 && has_no_default(cs[i].1),
        forall|i: int, j: int, p: int, q: int|
            0 <= i < j < cs.len() && do_meet(cs[i].1, cs[j].1) && 0 <= p < cs[i].1.fields.len()
                && 0 <= q < cs[j].1.fields.len() && (#[trigger] cs[i].1.fields[p]).0 == (
            #[trigger] cs[j].1.fields[q]).0 ==> do_agree(
                cs[i].1.fields[p].1,
                cs[j].1.fields[q].1,
            ),
    ensures
        inconsistency(cs, now) is None,
        schema_checked(cs, now) == Ok::<(), Failure>(()),
{
    lemma_pairs(cs, cs.len() as int);
    assert forall|i: int, j: int| 0 <= i < cs.len() && i < j < cs.len() implies pair_problem(
        #[trigger] cs[i],
        #[trigger] cs[j],
    ) is None by {
        let a = cs[i];
        let b = cs[j];
        lemma_is_above(a.1.folder, b.1.folder);
        lemma_is_above(b.1.folder, a.1.folder);
        lemma_nothing_excluded(a.1, b.1);
        lemma_clash_over(a, b, a.1.fields);
        if do_meet(a.1, b.1) {
            assert forall|k: int| 0 <= k < a.1.fields.len() implies !#[trigger] clashes(
                a,
                b,
                a.1.fields,
                k,
            ) by {
                let name = a.1.fields[k].0;
                lemma_key_at(b.1.fields, name, 0);
                if let Some(q) = key_at(b.1.fields, name, 0) {
                    assert(cs[i].1.fields[k].0 == cs[j].1.fields[q].0);
                    assert(do_agree(cs[i].1.fields[k].1, cs[j].1.fields[q].1));
                    lemma_clash(
                        a.0,
                        a.1,
                        a.1.fields[k].1,
                        b.0,
                        b.1,
                        b.1.fields[q].1,
                        name,
                    );
                }
            }
        }
    }
    lemma_no_defaults_against(cs, cs, now);
    lemma_no_defaults_wrong(cs);
}

/// Collections without defaults have none that break a rule.
proof fn lemma_no_defaults_against(
    some: Seq<(Seq<char>, CollectionRule)>,
    cs: Seq<(Seq<char>, CollectionRule)>,
    now: u64,
)
    requires
        forall|i: int| 0 <= i < some.len() ==> has_no_default((#[trigger] some[i]).1),
    ensures
        all_defaults_against(some, cs, now) is None,
    decreases some.len(),
{
    if some.len() > 0 {
        let init = some.drop_last();
        assert forall|i: int| 0 <= i < init.len() implies has_no_default((#[trigger] init[i]).1) by {
            assert(init[i] == some[i]);
        }
        lemma_no_defaults_against(init, cs, now);
        let last = some.last();
        assert(some[some.len() - 1] == last);
        assert(has_no_default(last.1));
        lemma_no_defaults_of(last, last.1.fields, cs, now);
    }
}

/// Fields without defaults have none that break a rule.
proof fn lemma_no_defaults_of(
    a: (Seq<char>, CollectionRule),
    fs: Seq<(Seq<char>, FieldRule)>,
    cs: Seq<(Seq<char>, CollectionRule)>,
    now: u64,
)
    requires
        forall|k: int|
            0 <= k < fs.len() ==> (#[trigger] fs[k]).1.default is None && fs[k].1.default_expr
                is None,
    ensures
        defaults_against(a, fs, cs, now) is None,
        defaults_problem(a.0, fs) is None,
    decreases fs.len(),
{
    if fs.len() > 0 {
        let init = fs.drop_last();
        assert forall|k: int| 0 <= k < init.len() implies (#[trigger] init[k]).1.default is None
            && init[k].1.default_expr is None by {
            assert(init[k] == fs[k]);
        }
        lemma_no_defaults_of(a, init, cs, now);
        assert(fs[fs.len() - 1] == fs.last());
    }
}

/// Collections without defaults have none that is wrong.
proof fn lemma_no_defaults_wrong(cs: Seq<(Seq<char>, CollectionRule)>)
    requires
        forall|i: int| 0 <= i < cs.len() ==> has_no_default((#[trigger] cs[i]).1),
    ensures
        schema_defaults_problem(cs) is None,
    decreases cs.len(),
{
    if cs.len() > 0 {
        let init = cs.drop_last();
        assert forall|i: int| 0 <= i < init.len() implies has_no_default((#[trigger] init[i]).1) by {
            assert(init[i] == cs[i]);
        }
        lemma_no_defaults_wrong(init);
        let last = cs.last();
        assert(cs[cs.len() - 1] == last);
        assert(has_no_default(last.1));
        lemma_no_defaults_of(last, last.1.fields, seq![], 0);
    }
}

/// Two collections whose filters ask for different values of one field apply to no note
/// together, and so never clash.
pub proof fn law_filters_exclude(
    a: (Seq<char>, CollectionRule),
    b: (Seq<char>, CollectionRule),
    fa: Seq<char>,
    fb: Seq<char>,
    ca: Cond,
    cb: Cond,
    name: Seq<char>,
    x: Val,
    y: Val,
)
    requires
        a.1.filter == seq![fa],
        b.1.filter == seq![fb],
        parsed(fa) == Ok::<Cond, Failure>(ca),
        parsed(fb) == Ok::<Cond, Failure>(cb),
        forced(ca) == seq![(name, x)],
        forced(cb) == seq![(name, y)],
    ensures
        !equal_vals(x, y) ==> pair_problem(a, b) is None,
        equal_vals(x, y) && do_meet(a.1, b.1) ==> pair_problem(a, b) == clash_over(
            a,
            b,
            a.1.fields,
        ),
{
    lemma_is_above(a.1.folder, b.1.folder);
    lemma_is_above(b.1.folder, a.1.folder);
    assert(seq![fa].drop_last() =~= Seq::empty());
    assert(seq![fb].drop_last() =~= Seq::empty());
    let none = Seq::<(Seq<char>, Val)>::empty();
    reveal_with_fuel(forced_by_filters, 2);
    assert(none + seq![(name, x)] =~= seq![(name, x)]);
    assert(none + seq![(name, y)] =~= seq![(name, y)]);
    assert(forced_by_filters(a.1.filter) == Ok::<Seq<(Seq<char>, Val)>, Seq<char>>(
        seq![(name, x)],
    ));
    assert(forced_by_filters(b.1.filter) == Ok::<Seq<(Seq<char>, Val)>, Seq<char>>(
        seq![(name, y)],
    ));
    let xs = seq![(name, x)];
    let ys = seq![(name, y)];
    assert(xs[0].0 == ys[0].0);
    assert(contradict(xs, ys) == !equal_vals(x, y));
}

// ── Defaults ───────────────────────────────────────────────────────────────

/// A default that is wrong makes the whole schema wrong.
proof fn lemma_default_is_wrong(
    cs: Seq<(Seq<char>, CollectionRule)>,
    i: int,
    k: int,
)
    requires
        0 <= i < cs.len(),
        0 <= k < cs[i].1.fields.len(),
        default_problem(cs[i].0, cs[i].1.fields[k].0, cs[i].1.fields[k].1) is Some,
    ensures
        schema_defaults_problem(cs) is Some,
    decreases cs.len(),
{
    let init = cs.drop_last();
    if i < init.len() {
        assert(init[i] == cs[i]);
        lemma_default_is_wrong(init, i, k);
    } else {
        lemma_default_of_field_is_wrong(cs[i].0, cs[i].1.fields, k);
    }
}

/// A default that is wrong makes those of its collection wrong.
proof fn lemma_default_of_field_is_wrong(
    col: Seq<char>,
    rs: Seq<(Seq<char>, FieldRule)>,
    k: int,
)
    requires
        0 <= k < rs.len(),
        default_problem(col, rs[k].0, rs[k].1) is Some,
    ensures
        defaults_problem(col, rs) is Some,
    decreases rs.len(),
{
    let init = rs.drop_last();
    if k < init.len() {
        assert(init[k] == rs[k]);
        lemma_default_of_field_is_wrong(col, init, k);
    }
}

/// A schema is refused if a field has both a default and an expression for one, an expression
/// that is none of those that are known, a default that is not of the type of the field or not
/// in its format, or one that is none of the values that are listed.
pub proof fn law_wrong_defaults_are_refused(
    cs: Seq<(Seq<char>, CollectionRule)>,
    i: int,
    k: int,
    rule: FieldRule,
    now: u64,
)
    requires
        0 <= i < cs.len(),
        0 <= k < cs[i].1.fields.len(),
        cs[i].1.fields[k].1 == rule,
    ensures
        rule.default is Some && rule.default_expr is Some ==> schema_checked(cs, now) is Err,
        rule.default_expr is Some && rule.default_expr != Some("today"@) && rule.default_expr
            != Some("now"@) && rule.default_expr != Some("epoch"@) ==> schema_checked(cs, now) is Err,
        rule.default is Some && !is_of_type(rule.default->0, rule.field_type) ==> schema_checked(
            cs,
            now,
        ) is Err,
        rule.default is Some && rule.default->0 is Text && !is_in_format(
            rule.default->0->Text_0,
            rule.field_type,
        ) ==> schema_checked(cs, now) is Err,
        rule.default is Some && rule.enum_values.len() > 0 && (forall|q: int|
            0 <= q < rule.enum_values.len() ==> shown(#[trigger] rule.enum_values[q]) != shown(
                rule.default->0,
            )) ==> schema_checked(cs, now) is Err,
{
    lemma_type_names();
    let problem = default_problem(cs[i].0, cs[i].1.fields[k].0, cs[i].1.fields[k].1);
    if rule.default is Some && rule.enum_values.len() > 0 && (forall|q: int|
        0 <= q < rule.enum_values.len() ==> shown(#[trigger] rule.enum_values[q]) != shown(
            rule.default->0,
        )) {
        if is_allowed(rule.enum_values, shown(rule.default->0)) {
            let q = choose|q: int|
                0 <= q < rule.enum_values.len() && allows(
                    #[trigger] rule.enum_values[q],
                    shown(rule.default->0),
                );
            assert(shown(rule.enum_values[q]) != shown(rule.default->0));
        }
    }
    if problem is Some {
        lemma_default_is_wrong(cs, i, k);
    }
}

/// A default of the type of its field, in its format, and one of the values that are listed or
/// with none listed, is not wrong, and neither is an expression that is known.
pub proof fn law_good_defaults_stand(col: Seq<char>, name: Seq<char>, rule: FieldRule)
    ensures
        rule.default is None && (rule.default_expr is None || rule.default_expr == Some("today"@)
            || rule.default_expr == Some("now"@) || rule.default_expr == Some("epoch"@))
            ==> default_problem(col, name, rule) is None,
        rule.default is Some && rule.default_expr is None && is_of_type(
            rule.default->0,
            rule.field_type,
        ) && (rule.default->0 is Text ==> is_in_format(rule.default->0->Text_0, rule.field_type))
            && rule.enum_values.len() == 0 ==> default_problem(col, name, rule) is None,
{
    lemma_type_names();
}

/// A default that an overlapping collection does not take is refused: here an integer outside
/// the bounds that the other has, or a value that is not of the type that the other asks for.
pub proof fn law_defaults_meet_other_rules(
    cs: Seq<(Seq<char>, CollectionRule)>,
    i: int,
    j: int,
    name: Seq<char>,
    fa: FieldRule,
    fb: FieldRule,
    v: Val,
    bound: int,
    now: u64,
)
    requires
        0 <= i < cs.len(),
        0 <= j < cs.len(),
        cs[i].0 != cs[j].0,
        cs[i].1.filter.len() == 0,
        cs[j].1.filter.len() == 0,
        do_meet(cs[i].1, cs[j].1),
        are_distinct_rules(cs[j].1.fields),
        cs[i].1.fields.contains((name, fa)),
        cs[j].1.fields.contains((name, fb)),
        fa.default == Some(v),
        ({
            ||| !is_of_type(v, fb.field_type)
            ||| v is Int && -0x20_0000_0000_0000 < v->Int_0 < 0x20_0000_0000_0000
                && -0x20_0000_0000_0000 < bound < 0x20_0000_0000_0000 && ((is_integer_bound(
                fb.min,
                bound,
            ) && v->Int_0 < bound) || (is_integer_bound(fb.max, bound) && v->Int_0 > bound))
        }),
    ensures
        inconsistency(cs, now) is Some,
{
    lemma_type_names();
    lemma_is_above(cs[i].1.folder, cs[j].1.folder);
    lemma_is_above(cs[j].1.folder, cs[i].1.folder);
    lemma_nothing_excluded(cs[i].1, cs[j].1);
    lemma_rule_of(cs[j].1.fields, name, fb);
    if v is Int && -0x20_0000_0000_0000 < v->Int_0 < 0x20_0000_0000_0000 && -0x20_0000_0000_0000
        < bound < 0x20_0000_0000_0000 {
        law_integers_keep_their_order(v->Int_0 as int, bound);
        law_integers_keep_their_order(bound, v->Int_0 as int);
    }
    assert(misfit(v, fb) is Some);
    assert(default_clash(cs[i], name, v, cs[j]) is Some);
    lemma_default_against(cs[i], name, v, cs, j);
    let k = choose|k: int| 0 <= k < cs[i].1.fields.len() && cs[i].1.fields[k] == (name, fa);
    lemma_defaults_against(cs[i], cs[i].1.fields, cs, now, k);
    lemma_all_defaults_against(cs, cs, now, i);
}

/// A default that breaks a rule of one collection breaks one of all.
proof fn lemma_default_against(
    a: (Seq<char>, CollectionRule),
    name: Seq<char>,
    v: Val,
    cs: Seq<(Seq<char>, CollectionRule)>,
    j: int,
)
    requires
        0 <= j < cs.len(),
        default_clash(a, name, v, cs[j]) is Some,
    ensures
        default_against(a, name, v, cs) is Some,
    decreases cs.len(),
{
    let init = cs.drop_last();
    if j < init.len() {
        assert(init[j] == cs[j]);
        lemma_default_against(a, name, v, init, j);
    }
}

/// A default of one field that breaks a rule is one of all fields.
proof fn lemma_defaults_against(
    a: (Seq<char>, CollectionRule),
    fs: Seq<(Seq<char>, FieldRule)>,
    cs: Seq<(Seq<char>, CollectionRule)>,
    now: u64,
    k: int,
)
    requires
        0 <= k < fs.len(),
        default_of(fs[k].1, now) is Some,
        default_against(a, fs[k].0, default_of(fs[k].1, now)->0, cs) is Some,
    ensures
        defaults_against(a, fs, cs, now) is Some,
    decreases fs.len(),
{
    let init = fs.drop_last();
    if k < init.len() {
        assert(init[k] == fs[k]);
        lemma_defaults_against(a, init, cs, now, k);
    }
}

/// A default of one collection that breaks a rule is one of all collections.
proof fn lemma_all_defaults_against(
    some: Seq<(Seq<char>, CollectionRule)>,
    cs: Seq<(Seq<char>, CollectionRule)>,
    now: u64,
    i: int,
)
    requires
        0 <= i < some.len(),
        defaults_against(some[i], some[i].1.fields, cs, now) is Some,
    ensures
        all_defaults_against(some, cs, now) is Some,
    decreases some.len(),
{
    let init = some.drop_last();
    if i < init.len() {
        assert(init[i] == some[i]);
        lemma_all_defaults_against(init, cs, now, i);
    }
}

/// The expression `epoch` stands for the time in seconds, `today` for its date, and `now` for
/// its date and the time of day; no other stands for anything.
pub proof fn law_expressions(expr: Seq<char>, now: u64)
    ensures
        resolved("epoch"@, now) == Ok::<Val, Failure>(Val::Int(now as i64)),
        resolved("today"@, now) == Ok::<Val, Failure>(Val::Text(crate::record::date_text(now))),
        resolved("now"@, now) == Ok::<Val, Failure>(
            Val::Text(
                crate::record::time_text(now) + ":"@ + crate::record::padded((now % 60) as nat, 2),
            ),
        ),
        expr != "today"@ && expr != "now"@ && expr != "epoch"@ ==> resolved(expr, now) is Err,
{
    reveal_strlit("epoch");
    reveal_strlit("today");
    reveal_strlit("now");
    assert("epoch"@[0] == 'e' && "today"@[0] == 't' && "now"@[0] == 'n');
}

} // verus!
