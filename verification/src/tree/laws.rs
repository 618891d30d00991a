//! What the order of paths promises.

use crate::mutation::laws::is_plain_component;
use crate::path::laws::{law_component_is_added, law_extensions};
use crate::path::{below, components};
use crate::text::{lemma_text_less_transitive, lemma_text_order, text_order, Order};
use crate::tree::{
    components_order, file_at, is_hidden, is_note, is_taken, lies_in, notes_in, path_order,
    same_place, with_file, FileView, Picture,
};
use vstd::prelude::*;

verus! {

/// Two lists of components are equal in order only if they are the same, and their order
/// turns around with them.
proof fn lemma_components_order(a: Seq<Seq<char>>, b: Seq<Seq<char>>)
    ensures
        (components_order(a, b) == Order::Equal) == (a == b),
        (components_order(a, b) == Order::Less) == (components_order(b, a) == Order::Greater),
        (components_order(a, b) == Order::Greater) == (components_order(b, a) == Order::Less),
    decreases a.len(),
{
    if a.len() == 0 || b.len() == 0 {
        if a.len() == b.len() {
            assert(a =~= b);
        }
    } else {
        lemma_text_order(a[0], b[0]);
        lemma_text_order(b[0], a[0]);
        if a[0] == b[0] {
            lemma_components_order(a.skip(1), b.skip(1));
            if a.skip(1) == b.skip(1) {
                assert(a =~= seq![a[0]] + a.skip(1));
                assert(b =~= seq![b[0]] + b.skip(1));
            }
        }
    }
}

/// The order of components is transitive.
proof fn lemma_components_transitive(a: Seq<Seq<char>>, b: Seq<Seq<char>>, c: Seq<Seq<char>>)
    requires
        components_order(a, b) != Order::Greater,
        components_order(b, c) != Order::Greater,
    ensures
        components_order(a, c) != Order::Greater,
    decreases a.len(),
{
    if a.len() > 0 && b.len() > 0 && c.len() > 0 {
        lemma_text_order(a[0], b[0]);
        lemma_text_order(b[0], c[0]);
        lemma_text_order(a[0], c[0]);
        if a[0] == b[0] && b[0] == c[0] {
            lemma_components_transitive(a.skip(1), b.skip(1), c.skip(1));
        } else if a[0] != b[0] && b[0] != c[0] {
            lemma_text_less_transitive(a[0], b[0], c[0]);
        }
    }
}

/// Paths can be put in order: of two, one does not come after the other, and what does not
/// come after something that does not come after a third does not come after the third.
/// Two are equal in order exactly if they have the same components.
pub proof fn law_paths_are_ordered(a: Seq<char>, b: Seq<char>, c: Seq<char>)
    ensures
        (path_order(a, b) == Order::Equal) == (components(a) == components(b)),
        (path_order(a, b) == Order::Less) == (path_order(b, a) == Order::Greater),
        path_order(a, b) != Order::Greater && path_order(b, c) != Order::Greater ==> path_order(
            a,
            c,
        ) != Order::Greater,
{
    lemma_components_order(components(a), components(b));
    if path_order(a, b) != Order::Greater && path_order(b, c) != Order::Greater {
        lemma_components_transitive(components(a), components(b), components(c));
    }
}

/// Whether files stand in the order of their paths.
pub open spec fn files_ascend(files: Seq<FileView>) -> bool {
    forall|i: int, j: int|
        0 <= i < j < files.len() ==> path_order(
            (#[trigger] files[i]).path,
            (#[trigger] files[j]).path,
        ) != Order::Greater
}

/// Files in order with one more are in order, and are those and the one.
proof fn lemma_with_file_ascends(files: Seq<FileView>, f: FileView)
    requires
        files_ascend(files),
    ensures
        files_ascend(with_file(files, f)),
        forall|i: int|
            0 <= i < with_file(files, f).len() ==> #[trigger] with_file(files, f)[i] == f
                || files.contains(with_file(files, f)[i]),
    decreases files.len(),
{
    let out = with_file(files, f);
    if files.len() > 0 && path_order(files.last().path, f.path) == Order::Greater {
        let init = files.drop_last();
        let last = files.len() - 1;
        assert(files_ascend(init)) by {
            assert forall|i: int, j: int| 0 <= i < j < init.len() implies path_order(
                (#[trigger] init[i]).path,
                (#[trigger] init[j]).path,
            ) != Order::Greater by {
                assert(init[i] == files[i] && init[j] == files[j]);
            }
        }
        lemma_with_file_ascends(init, f);
        let part = with_file(init, f);
        law_paths_are_ordered(f.path, files[last].path, f.path);
        assert forall|i: int| 0 <= i < part.len() implies path_order(
            (#[trigger] part[i]).path,
            files[last].path,
        ) != Order::Greater && (part[i] == f || files.contains(part[i])) by {
            if part[i] != f {
                let k = choose|k: int| 0 <= k < init.len() && init[k] == part[i];
                assert(files[k] == part[i]);
            }
        }
        assert forall|i: int| 0 <= i < out.len() implies #[trigger] out[i] == f || files.contains(
            out[i],
        ) by {
            if i < part.len() {
                assert(out[i] == part[i]);
            } else {
                assert(files[last] == out[i]);
            }
        }
        assert forall|i: int, j: int| 0 <= i < j < out.len() implies path_order(
            (#[trigger] out[i]).path,
            (#[trigger] out[j]).path,
        ) != Order::Greater by {
            assert(out[i] == part[i]);
            if j < part.len() {
                assert(out[j] == part[j]);
            }
        }
    } else {
        let last = files.len() - 1;
        assert forall|i: int| 0 <= i < out.len() implies #[trigger] out[i] == f || files.contains(
            out[i],
        ) by {
            if i < files.len() {
                assert(out[i] == files[i]);
            }
        }
        assert forall|i: int, j: int| 0 <= i < j < out.len() implies path_order(
            (#[trigger] out[i]).path,
            (#[trigger] out[j]).path,
        ) != Order::Greater by {
            assert(out[i] == files[i]);
            if j < files.len() {
                assert(out[j] == files[j]);
            } else if i < last {
                assert(path_order(files[i].path, files[last].path) != Order::Greater);
                law_paths_are_ordered(files[i].path, files[last].path, f.path);
            }
        }
    }
}

/// The notes of a folder are listed in ascending order of their paths.
pub proof fn law_notes_ascend(files: Seq<FileView>, folder: Seq<char>, recursive: bool)
    ensures
        files_ascend(notes_in(files, folder, recursive)),
    decreases files.len(),
{
    if files.len() > 0 {
        let init = files.drop_last();
        law_notes_ascend(init, folder, recursive);
        if is_note(files.last().path) && lies_in(files.last().path, folder, recursive) {
            lemma_with_file_ascends(notes_in(init, folder, recursive), files.last());
        }
    }
}

/// Each note of a folder is listed exactly as often as it is there, and nothing else is.
pub proof fn law_notes_are_listed(files: Seq<FileView>, folder: Seq<char>, recursive: bool)
    ensures
        forall|f: FileView| #[trigger]
            notes_in(files, folder, recursive).to_multiset().count(f) == if is_note(f.path)
                && lies_in(f.path, folder, recursive) {
                files.to_multiset().count(f)
            } else {
                0
            },
    decreases files.len(),
{
    broadcast use vstd::seq_lib::group_to_multiset_ensures;

    if files.len() > 0 {
        let init = files.drop_last();
        law_notes_are_listed(init, folder, recursive);
        assert(files =~= init.push(files.last()));
        lemma_with_file_multiset(notes_in(init, folder, recursive), files.last());
    }
}

/// Files in order with one more are those and the one.
proof fn lemma_with_file_multiset(files: Seq<FileView>, f: FileView)
    ensures
        with_file(files, f).to_multiset() == files.to_multiset().insert(f),
    decreases files.len(),
{
    broadcast use vstd::seq_lib::group_to_multiset_ensures;

    if files.len() > 0 {
        let init = files.drop_last();
        lemma_with_file_multiset(init, f);
        assert(files =~= init.push(files.last()));
        assert(with_file(init, f).push(files.last()).to_multiset() =~= files.to_multiset().insert(f));
    }
}

// ── Which files are notes of a folder ──────────────────────────────────────

/// A file with the extension `md` is a note, and one with another extension is none.
pub proof fn law_notes_are_files_in_markdown(dir: Seq<char>, base: Seq<char>, e: Seq<char>)
    requires
        is_plain_component(base + "."@ + e),
        base + "."@ + e != ".."@,
        base.len() > 0,
        !e.contains('.'),
    ensures
        is_note(below(dir, base + "."@ + e)) <==> e == "md"@,
{
    let file = base + "."@ + e;
    law_component_is_added(dir, file, file);
    law_extensions(base, e);
}

/// A file lies in its folder, whether folders below count or not; it lies in the folder above
/// that only where they count, and never where its own folder is hidden; and it lies in no
/// folder beside its own.
pub proof fn law_files_lie_in_folders(
    dir: Seq<char>,
    y: Seq<char>,
    z: Seq<char>,
    x: Seq<char>,
    recursive: bool,
)
    requires
        is_plain_component(x),
        is_plain_component(y),
        is_plain_component(z),
        x != ".."@,
        y != ".."@,
        z != ".."@,
        x[0] != '.',
    ensures
        lies_in(below(dir, x), dir, recursive),
        lies_in(below(below(dir, y), x), dir, recursive) <==> recursive && y[0] != '.',
        lies_in(below(below(dir, y), x), below(dir, z), recursive) <==> y == z,
{
    law_component_is_added(dir, y, x);
    law_component_is_added(dir, x, y);
    law_component_is_added(dir, z, y);
    law_component_is_added(dir, y, z);
    law_component_is_added(below(dir, y), z, x);
    let ds = components(dir);
    let n = ds.len() as int;
    assert(ds.push(x).take(n) =~= ds);
    let long = ds.push(y).push(x);
    assert(long.take(n) =~= ds);
    assert(long[n] == y && long[n + 1] == x);
    assert(long.take(n + 1) =~= ds.push(y));
    assert(ds.push(y)[n] == y && ds.push(z)[n] == z);
    assert(!is_hidden(x));
    assert(is_hidden(y) <==> y[0] == '.');
    assert(ds.push(x)[n] == x);
}

/// A place is taken exactly if a folder or a file is there.
pub proof fn law_places_are_taken(p: Picture, path: Seq<char>)
    ensures
        is_taken(p, path) <==> (exists|i: int|
            0 <= i < p.folders.len() && same_place(#[trigger] p.folders[i], path)) || (exists|i: int|
            0 <= i < p.files.len() && same_place((#[trigger] p.files[i]).path, path)),
        same_place(path, path),
{
    lemma_file_at(p.files, path, 0);
}

/// The file that is found at a path is the first one there, and one is found wherever there is
/// one.
proof fn lemma_file_at(files: Seq<FileView>, path: Seq<char>, from: int)
    requires
        0 <= from,
    ensures
        match file_at(files, path, from) {
            Some(i) => from <= i < files.len() && same_place(files[i].path, path),
            None => forall|i: int|
                from <= i < files.len() ==> !same_place((#[trigger] files[i]).path, path),
        },
    decreases files.len() - from,
{
    if from < files.len() && !same_place(files[from].path, path) {
        lemma_file_at(files, path, from + 1);
    }
}

/// Files of a folder are in the order of their names, and what lies in a folder comes behind it.
pub proof fn law_files_are_in_order(dir: Seq<char>, x: Seq<char>, y: Seq<char>)
    requires
        is_plain_component(x),
        is_plain_component(y),
        x != ".."@,
        y != ".."@,
    ensures
        path_order(below(dir, x), below(dir, y)) == text_order(x, y),
        path_order(dir, below(dir, x)) == Order::Less,
        path_order(below(dir, x), dir) == Order::Greater,
{
    law_component_is_added(dir, x, y);
    law_component_is_added(dir, y, x);
    lemma_same_start(components(dir), seq![x], seq![y]);
    lemma_same_start(components(dir), Seq::empty(), seq![x]);
    lemma_same_start(components(dir), seq![x], Seq::empty());
    let ds = components(dir);
    assert(ds + seq![x] =~= ds.push(x));
    assert(ds + seq![y] =~= ds.push(y));
    assert(ds + Seq::<Seq<char>>::empty() =~= ds);
    reveal_with_fuel(components_order, 2);
    lemma_text_order(x, y);
    lemma_text_order(x, x);
}

/// Paths that start alike are in the order of what follows.
proof fn lemma_same_start(p: Seq<Seq<char>>, a: Seq<Seq<char>>, b: Seq<Seq<char>>)
    ensures
        components_order(p + a, p + b) == components_order(a, b),
    decreases p.len(),
{
    if p.len() == 0 {
        assert(p + a =~= a);
        assert(p + b =~= b);
    } else {
        lemma_same_start(p.skip(1), a, b);
        assert((p + a).skip(1) =~= p.skip(1) + a);
        assert((p + b).skip(1) =~= p.skip(1) + b);
        if (p + a).len() > 0 {
            assert((p + a)[0] == p[0] && (p + b)[0] == p[0]);
        }
    }
}

} // verus!
