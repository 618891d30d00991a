//! Paths as texts whose components are separated by slashes.

use crate::text::{
    cat3, char_at, find_last_char, from_chars, is_text, join, joined, last_char_at, lemma_char_at,
    lemma_views_push, slice, split, split_by, to_chars, views,
};
use vstd::prelude::*;

pub mod laws;

verus! {

/// Those of some texts that name something: the empty one and `.` do not.
pub open spec fn named(v: Seq<Seq<char>>) -> Seq<Seq<char>>
    decreases v.len(),
{
    if v.len() == 0 {
        seq![]
    } else if v.last().len() == 0 || v.last() == "."@ {
        named(v.drop_last())
    } else {
        named(v.drop_last()).push(v.last())
    }
}

/// The components of a path.
pub open spec fn components(path: Seq<char>) -> Seq<Seq<char>> {
    named(split_by(path, '/'))
}

/// Whether a path starts at the root of the file system.
pub open spec fn is_absolute(path: Seq<char>) -> bool {
    path.len() > 0 && path[0] == '/'
}

/// The last component of a path, unless it leads upwards.
pub open spec fn file_name(path: Seq<char>) -> Option<Seq<char>> {
    let cs = components(path);
    if cs.len() == 0 || cs.last() == ".."@ {
        None
    } else {
        Some(cs.last())
    }
}

/// A file name up to its last dot; a dot at the start does not count.
pub open spec fn stem(name: Seq<char>) -> Seq<char> {
    match last_char_at(name, '.', name.len() as int) {
        Some(i) => if i > 0 {
            name.take(i)
        } else {
            name
        },
        None => name,
    }
}

/// What follows the last dot of a file name; a dot at the start does not count.
pub open spec fn extension(name: Seq<char>) -> Option<Seq<char>> {
    match last_char_at(name, '.', name.len() as int) {
        Some(i) => if i > 0 {
            Some(name.skip(i + 1))
        } else {
            None
        },
        None => None,
    }
}

/// The name of the folder that a path lies in, or nothing.
pub open spec fn folder_name(path: Seq<char>) -> Seq<char> {
    let cs = components(path);
    if cs.len() < 2 || cs[cs.len() - 2] == ".."@ {
        seq![]
    } else {
        cs[cs.len() - 2]
    }
}

/// A path seen from a folder above it; a path that does not lie below the folder
/// stays as it is.
pub open spec fn relative(path: Seq<char>, root: Seq<char>) -> Seq<char> {
    let cs = components(path);
    let rs = components(root);
    if is_absolute(path) == is_absolute(root) && rs.len() <= cs.len() && cs.take(rs.len() as int)
        == rs {
        joined(cs.skip(rs.len() as int), "/"@)
    } else {
        path
    }
}

/// A path below a folder; an absolute path stays as it is.
pub open spec fn below(root: Seq<char>, path: Seq<char>) -> Seq<char> {
    if is_absolute(path) || root.len() == 0 {
        path
    } else if root.last() == '/' {
        root + path
    } else {
        root + "/"@ + path
    }
}

/// The parts of two texts with the separator between them are those of the one and of
/// the other.
proof fn lemma_split_between(a: Seq<char>, b: Seq<char>, c: char)
    ensures
        split_by(a + seq![c] + b, c) == split_by(a, c) + split_by(b, c),
    decreases a.len(),
{
    let s = a + seq![c] + b;
    lemma_char_at(s, c, 0);
    lemma_char_at(a, c, 0);
    assert(s[a.len() as int] == c);
    let i = char_at(s, c, 0)->0;
    match char_at(a, c, 0) {
        None => {
            if i < a.len() {
                assert(a[i] == c);
            }
            assert(s.take(i) =~= a);
            assert(s.skip(i + 1) =~= b);
            assert(split_by(s, c) =~= split_by(a, c) + split_by(b, c));
        },
        Some(k) => {
            assert(s[k] == c);
            if i < k {
                assert(a[i] == c);
            }
            let rest = a.skip(k + 1);
            lemma_split_between(rest, b, c);
            assert(s.take(i) =~= a.take(k));
            assert(s.skip(i + 1) =~= rest + seq![c] + b);
            assert(split_by(s, c) =~= split_by(a, c) + split_by(b, c));
        },
    }
}

/// What names something in two lists is what does so in the one and in the other.
proof fn lemma_named_append(u: Seq<Seq<char>>, v: Seq<Seq<char>>)
    ensures
        named(u + v) == named(u) + named(v),
    decreases v.len(),
{
    if v.len() == 0 {
        assert(u + v =~= u);
        assert(named(u + v) =~= named(u) + named(v));
    } else {
        lemma_named_append(u, v.drop_last());
        assert((u + v).drop_last() =~= u + v.drop_last());
        assert((u + v).last() == v.last());
        assert(named(u + v) =~= named(u) + named(v));
    }
}

/// The components of a path below a folder are those of the folder and those of the path.
pub proof fn lemma_components_below(root: Seq<char>, path: Seq<char>)
    requires
        !is_absolute(path),
    ensures
        components(below(root, path)) == components(root) + components(path),
        is_absolute(below(root, path)) == is_absolute(root),
{
    reveal_strlit("/");
    let empty: Seq<char> = seq![];
    assert(char_at(empty, '/', 0) is None);
    assert(split_by(empty, '/') =~= seq![empty]);
    assert(seq![empty].drop_last() =~= seq![]);
    assert(named(seq![]) =~= seq![]);
    assert(seq![empty].last() == empty);
    assert(components(empty) =~= seq![]);
    if root.len() == 0 {
        assert(root =~= empty);
        assert(components(root) + components(path) =~= components(path));
    } else if root.last() == '/' {
        let head = root.drop_last();
        lemma_split_between(head, empty, '/');
        lemma_split_between(head, path, '/');
        assert(root =~= head + seq!['/'] + empty);
        assert(root + path =~= head + seq!['/'] + path);
        lemma_named_append(split_by(head, '/'), split_by(empty, '/'));
        lemma_named_append(split_by(head, '/'), split_by(path, '/'));
        assert(components(root) =~= components(head));
    } else {
        lemma_split_between(root, path, '/');
        assert("/"@ =~= seq!['/']);
        lemma_named_append(split_by(root, '/'), split_by(path, '/'));
    }
}

/// Takes a path apart.
pub fn path_components(path: &str) -> (r: Vec<Vec<char>>)
    ensures
        views(r@) == components(path@),
{
    let all: Vec<Vec<char>> = split(&to_chars(path), '/');
    let ghost vs = views(all@);
    let mut out: Vec<Vec<char>> = Vec::new();
    let mut i: usize = 0;
    assert(vs.take(0) =~= seq![]);
    assert(views(out@) =~= seq![]);
    while i < all.len()
        invariant
            vs == views(all@),
            i <= all.len(),
            views(out@) == named(vs.take(i as int)),
        decreases all.len() - i,
    {
        assert(vs.take(i + 1).drop_last() =~= vs.take(i as int));
        assert(vs.take(i + 1).last() == all@[i as int]@);
        if all[i].len() > 0 && !is_text(&all[i], ".") {
            let c: Vec<char> = slice(&all[i], 0, all[i].len());
            assert(c@ =~= all@[i as int]@);
            proof {
                lemma_views_push(out@, c);
            }
            out.push(c);
        }
        i += 1;
    }
    assert(vs.take(i as int) =~= vs);
    out
}

/// Finds the last component of a path.
pub fn file_name_of(path: &str) -> (r: Option<String>)
    ensures
        match r {
            Some(n) => file_name(path@) == Some(n@),
            None => file_name(path@) is None,
        },
{
    let cs: Vec<Vec<char>> = path_components(path);
    if cs.len() == 0 {
        return None;
    }
    let last: usize = cs.len() - 1;
    assert(components(path@).last() == cs@[last as int]@);
    if is_text(&cs[last], "..") {
        None
    } else {
        Some(from_chars(&cs[last]))
    }
}

/// Drops the extension of a file name.
pub fn stem_of(name: &str) -> (r: String)
    ensures
        r@ == stem(name@),
{
    let s: Vec<char> = to_chars(name);
    match find_last_char(&s, '.') {
        Some(i) => {
            let n: usize = if i > 0 {
                i
            } else {
                s.len()
            };
            let r: Vec<char> = slice(&s, 0, n);
            assert(r@ =~= stem(name@));
            from_chars(&r)
        },
        None => from_chars(&s),
    }
}

/// Finds the extension of a file name.
pub fn extension_of(name: &str) -> (r: Option<String>)
    ensures
        match r {
            Some(e) => extension(name@) == Some(e@),
            None => extension(name@) is None,
        },
{
    let s: Vec<char> = to_chars(name);
    match find_last_char(&s, '.') {
        Some(i) => {
            if i > 0 {
                let r: Vec<char> = slice(&s, i + 1, s.len());
                assert(r@ =~= s@.skip(i + 1));
                Some(from_chars(&r))
            } else {
                None
            }
        },
        None => None,
    }
}

/// Finds the name of the folder that a path lies in.
pub fn folder_name_of(path: &str) -> (r: String)
    ensures
        r@ == folder_name(path@),
{
    let cs: Vec<Vec<char>> = path_components(path);
    if cs.len() < 2 {
        return String::new();
    }
    let at: usize = cs.len() - 2;
    assert(components(path@)[at as int] == cs@[at as int]@);
    if is_text(&cs[at], "..") {
        String::new()
    } else {
        from_chars(&cs[at])
    }
}

/// Sees a path from a folder above it.
pub fn relative_to(path: &str, root: &str) -> (r: String)
    ensures
        r@ == relative(path@, root@),
{
    let cs: Vec<Vec<char>> = path_components(path);
    let rs: Vec<Vec<char>> = path_components(root);
    let ghost cv = views(cs@);
    let ghost rv = views(rs@);
    let p: Vec<char> = to_chars(path);
    let q: Vec<char> = to_chars(root);
    let abs: bool = p.len() > 0 && p[0] == '/';
    let root_abs: bool = q.len() > 0 && q[0] == '/';
    if abs != root_abs || rs.len() > cs.len() {
        return path.to_owned();
    }
    let mut i: usize = 0;
    while i < rs.len()
        invariant
            i <= rs.len() <= cs.len(),
            cv == views(cs@),
            rv == views(rs@),
            cv == components(path@),
            rv == components(root@),
            forall|k: int| 0 <= k < i ==> cs@[k]@ == rs@[k]@,
        decreases rs.len() - i,
    {
        if !crate::text::same(&cs[i], &rs[i]) {
            assert(cv.take(rv.len() as int)[i as int] != rv[i as int]);
            return path.to_owned();
        }
        i += 1;
    }
    assert(cv.take(rv.len() as int) =~= rv);
    let rest: Vec<Vec<char>> = crate::writer::copy_lines(&cs, rs.len(), cs.len());
    assert(views(rest@) =~= cv.skip(rv.len() as int));
    from_chars(&join(&rest, "/"))
}

/// Puts a path below a folder.
pub fn join_path(root: &str, path: &str) -> (r: String)
    ensures
        r@ == below(root@, path@),
{
    let q: Vec<char> = to_chars(root);
    let p: Vec<char> = to_chars(path);
    if (p.len() > 0 && p[0] == '/') || q.len() == 0 {
        path.to_owned()
    } else if q[q.len() - 1] == '/' {
        crate::text::cat2(root, path)
    } else {
        cat3(root, "/", path)
    }
}

} // verus!
