//! What the parts of paths are.

use crate::mutation::laws::is_plain_component;
use crate::path::{
    below, components, extension, file_name, folder_name, is_absolute, lemma_components_below,
    named, relative, stem,
};
use crate::text::laws::law_joined;
use crate::text::{char_at, joined, last_char_at, lemma_char_at, split_by};
use vstd::prelude::*;

verus! {

/// A name is the one component of itself.
pub proof fn law_name_is_component(x: Seq<char>)
    requires
        is_plain_component(x),
    ensures
        components(x) == seq![x],
        !is_absolute(x),
{
    lemma_char_at(x, '/', 0);
    if let Some(i) = char_at(x, '/', 0) {
        assert(x[i] == '/');
        assert(x.contains('/'));
    }
    if x[0] == '/' {
        assert(x.contains('/'));
    }
    assert(split_by(x, '/') == seq![x]);
    assert(seq![x].drop_last() =~= Seq::empty());
    assert(named(Seq::<Seq<char>>::empty()) =~= Seq::empty());
    assert(components(x) =~= seq![x]);
}

/// A name below a folder is the last component of the path, behind those of the folder, and
/// the name of its file; a folder below another is the folder of what lies in it.
pub proof fn law_component_is_added(dir: Seq<char>, y: Seq<char>, x: Seq<char>)
    requires
        is_plain_component(x),
        is_plain_component(y),
        x != ".."@,
        y != ".."@,
    ensures
        components(below(dir, x)) == components(dir).push(x),
        is_absolute(below(dir, x)) == is_absolute(dir),
        file_name(below(dir, x)) == Some(x),
        components(below(below(dir, y), x)) == components(dir).push(y).push(x),
        folder_name(below(below(dir, y), x)) == y,
{
    law_name_is_component(x);
    law_name_is_component(y);
    lemma_components_below(dir, x);
    lemma_components_below(dir, y);
    lemma_components_below(below(dir, y), x);
    assert(components(dir) + seq![x] =~= components(dir).push(x));
    assert(components(dir) + seq![y] + seq![x] =~= components(dir).push(y).push(x));
}

/// What lies below a folder is, seen from it, the path that leads there.
pub proof fn law_paths_are_relative(root: Seq<char>, y: Seq<char>, x: Seq<char>)
    requires
        is_plain_component(x),
        is_plain_component(y),
        x != ".."@,
        y != ".."@,
    ensures
        relative(below(root, x), root) == x,
        relative(below(below(root, y), x), root) == y + "/"@ + x,
{
    law_component_is_added(root, y, x);
    law_component_is_added(root, x, y);
    let rs = components(root);
    let n = rs.len() as int;
    assert(rs.push(x).take(n) =~= rs);
    assert(rs.push(x).skip(n) =~= seq![x]);
    assert(rs.push(y).push(x).take(n) =~= rs);
    assert(rs.push(y).push(x).skip(n) =~= seq![y].push(x));
    lemma_components_below(root, y);
    law_name_is_component(y);
    law_name_is_component(x);
    lemma_components_below(below(root, y), x);
    law_joined(seq![y], x, "/"@);
    law_joined(Seq::empty(), x, "/"@);
    law_joined(Seq::empty(), y, "/"@);
    assert(joined(seq![x], "/"@) == x);
    assert(joined(seq![y], "/"@) == y);
}

/// The extension of a file is what follows the last dot of its name, and its stem what comes
/// before it; a name without a dot has no extension, and is its stem.
pub proof fn law_extensions(base: Seq<char>, e: Seq<char>)
    requires
        base.len() > 0,
        !e.contains('.'),
    ensures
        extension(base + "."@ + e) == Some(e),
        stem(base + "."@ + e) == base,
        e.len() > 0 ==> extension(e) is None && stem(e) == e,
{
    reveal_strlit(".");
    let s = base + "."@ + e;
    let n = base.len() as int;
    assert(s[n] == '.');
    lemma_last_char(s, '.', n, s.len() as int);
    assert(s.skip(n + 1) =~= e);
    assert(s.take(n) =~= base);
    lemma_no_last_char(e, '.', e.len() as int);
}

/// The last place of a character with none behind it.
proof fn lemma_last_char(s: Seq<char>, c: char, at: int, to: int)
    requires
        0 <= at < to <= s.len(),
        s[at] == c,
        forall|k: int| at < k < to ==> s[k] != c,
    ensures
        last_char_at(s, c, to) == Some(at),
    decreases to,
{
    if at < to - 1 {
        lemma_last_char(s, c, at, to - 1);
    }
}

/// A text without a character has no last place of it.
proof fn lemma_no_last_char(s: Seq<char>, c: char, to: int)
    requires
        !s.contains(c),
        0 <= to <= s.len(),
    ensures
        last_char_at(s, c, to) is None,
    decreases to,
{
    if to > 0 {
        if s[to - 1] == c {
            assert(s.contains(c));
        }
        lemma_no_last_char(s, c, to - 1);
    }
}

} // verus!
