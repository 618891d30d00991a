//! What changes to a vault promise.

use crate::error::Failure;
use crate::filter::holds;
use crate::links::Graph;
use crate::frontmatter::{extracted, note_of, opening_len, parsed_fields, without_mark};
use crate::frontmatter::laws::{is_fenceable, law_fences_hold};
use crate::mutation::create::{create_plan, new_text, with_defaults, with_rules, Creation, Filled};
use crate::mutation::relocate::{
    deletions, free_number, free_place, has_path, is_claimed, move_all, name_or_file, numbered,
};
use crate::mutation::{update_all, Report, Update, Write};
use crate::path::{below, components, extension, file_name, is_absolute, named, stem};
use crate::text::{
    char_at, decimal, digit_of, last_char_at, lemma_char_at, occurs_at, split_by, starts,
};
use crate::query::Cond;
use crate::record::{field, law_entry_is_set, Rec, Val};
use crate::schema::{resolved, CollectionRule, FieldRule};
use crate::tree::{is_taken, same_place, FileView, Picture};
use crate::yaml::value_yaml;
use vstd::prelude::*;

verus! {

// ── Names and places ───────────────────────────────────────────────────────

/// Whether a text can be the last component of a path.
pub open spec fn is_plain_component(x: Seq<char>) -> bool {
    x.len() > 0 && x != "."@ && !x.contains('/')
}

/// The last part of a text that ends in a separator and something without one.
proof fn lemma_last_part(s: Seq<char>, x: Seq<char>)
    requires
        !x.contains('/'),
        s == x || (s.len() > x.len() && s.skip(s.len() - x.len()) == x && s[s.len() - x.len() - 1]
            == '/'),
    ensures
        split_by(s, '/').len() > 0,
        split_by(s, '/').last() == x,
    decreases s.len(),
{
    lemma_char_at(s, '/', 0);
    match char_at(s, '/', 0) {
        None => {
            if s != x {
                assert(s[s.len() - x.len() - 1] == '/');
            }
        },
        Some(i) => {
            let k = s.len() - x.len() - 1;
            if s == x {
                assert(x[i] == '/');
                assert(false);
            }
            if i > k {
                assert(s[k] == '/');
                assert(false);
            }
            let rest = s.skip(i + 1);
            if i == k {
                assert(rest =~= x);
            } else {
                assert(rest.skip(rest.len() - x.len()) =~= s.skip(s.len() - x.len()));
                assert(rest[rest.len() - x.len() - 1] == s[k]);
            }
            lemma_last_part(rest, x);
        },
    }
}

/// The last component of a path below a folder is its name.
pub proof fn lemma_last_component(dir: Seq<char>, x: Seq<char>)
    requires
        is_plain_component(x),
    ensures
        components(below(dir, x)).len() > 0,
        components(below(dir, x)).last() == x,
        is_absolute(below(dir, x)) == is_absolute(dir),
{
    assert(x[0] != '/') by {
        if x[0] == '/' {
            assert(x.contains('/'));
        }
    }
    let s = below(dir, x);
    reveal_strlit("/");
    assert(s == x || (s.len() > x.len() && s.skip(s.len() - x.len()) =~= x && s[s.len() - x.len()
        - 1] == '/'));
    lemma_last_part(s, x);
}

/// The parts of a text do not hold the separator.
pub proof fn lemma_parts_lack(s: Seq<char>, c: char)
    ensures
        forall|i: int| 0 <= i < split_by(s, c).len() ==> !(#[trigger] split_by(s, c)[i]).contains(c),
    decreases s.len(),
{
    lemma_char_at(s, c, 0);
    let parts = split_by(s, c);
    match char_at(s, c, 0) {
        None => {
            assert(!s.contains(c));
        },
        Some(i) => {
            let rest = s.skip(i + 1);
            lemma_parts_lack(rest, c);
            assert(!s.take(i).contains(c)) by {
                if s.take(i).contains(c) {
                    let k = choose|k: int| 0 <= k < i && s.take(i)[k] == c;
                    assert(s[k] == c);
                }
            }
            assert forall|j: int| 0 <= j < parts.len() implies !(#[trigger] parts[j]).contains(
                c,
            ) by {
                if j > 0 {
                    assert(parts[j] == split_by(rest, c)[j - 1]);
                } else {
                    assert(parts[0] == s.take(i));
                }
            }
        },
    }
}

/// What names something is one of the texts, and not empty.
pub proof fn lemma_named(v: Seq<Seq<char>>)
    ensures
        forall|i: int|
            0 <= i < named(v).len() ==> v.contains(#[trigger] named(v)[i]) && named(v)[i].len() > 0
                && named(v)[i] != "."@,
    decreases v.len(),
{
    if v.len() > 0 {
        let rest = v.drop_last();
        lemma_named(rest);
        let out = named(v);
        assert forall|i: int| 0 <= i < out.len() implies v.contains(#[trigger] out[i])
            && out[i].len() > 0 && out[i] != "."@ by {
            if i < named(rest).len() {
                assert(out[i] == named(rest)[i]);
                let k = choose|k: int| 0 <= k < rest.len() && rest[k] == out[i];
                assert(v[k] == out[i]);
            } else {
                assert(v[v.len() - 1] == out[i]);
            }
        }
    }
}

/// The name of a file can be the last component of a path.
proof fn lemma_name_or_file(path: Seq<char>)
    ensures
        is_plain_component(name_or_file(path)),
{
    reveal_strlit("file");
    reveal_strlit(".");
    let parts = split_by(path, '/');
    lemma_parts_lack(path, '/');
    lemma_named(parts);
    match file_name(path) {
        Some(n) => {
            let cs = components(path);
            assert(cs[cs.len() - 1] == n);
            let k = choose|k: int| 0 <= k < parts.len() && parts[k] == n;
            assert(!parts[k].contains('/'));
        },
        None => {
            assert("file"@.len() == 4);
            assert("."@.len() == 1);
            assert("file"@ =~= seq!['f', 'i', 'l', 'e']);
        },
    }
}

/// Digits are digits, and differ.
proof fn lemma_digit(a: nat, b: nat)
    requires
        a < 10,
        b < 10,
    ensures
        digit_of(a) == digit_of(b) ==> a == b,
        digit_of(a) != '/',
{
    assert(digit_of(a) as u32 == '0' as u32 + a);
    assert(digit_of(b) as u32 == '0' as u32 + b);
}

/// Numbers that are written the same are the same, and hold no separator.
proof fn lemma_decimal(a: nat, b: nat)
    ensures
        decimal(a).len() > 0,
        decimal(a) == decimal(b) ==> a == b,
        !decimal(a).contains('/'),
    decreases a,
{
    if a < 10 {
        lemma_digit(a, 0);
        if b < 10 {
            lemma_digit(a, b);
            assert(decimal(a)[0] == digit_of(a));
            assert(decimal(b)[0] == digit_of(b));
        } else {
            lemma_decimal_len(b / 10);
            assert(decimal(b).len() > 1);
        }
        assert forall|i: int| 0 <= i < decimal(a).len() implies decimal(a)[i] != '/' by {}
    } else {
        lemma_digit(a % 10, b % 10);
        lemma_decimal(a / 10, b / 10);
        let p = decimal(a / 10);
        if b >= 10 && decimal(a) == decimal(b) {
            assert(decimal(a).drop_last() =~= p);
            assert(decimal(b).drop_last() =~= decimal(b / 10));
            assert(decimal(a).last() == digit_of(a % 10));
            assert(decimal(b).last() == digit_of(b % 10));
        }
        if decimal(a).contains('/') {
            let i = choose|i: int| 0 <= i < decimal(a).len() && decimal(a)[i] == '/';
            if i < p.len() {
                assert(p[i] == '/');
            }
        }
    }
}

/// A number in decimal is not empty.
proof fn lemma_decimal_len(a: nat)
    ensures
        decimal(a).len() > 0,
{
}

/// What the last position of a character is.
proof fn lemma_last_char(s: Seq<char>, c: char, to: int)
    ensures
        match last_char_at(s, c, to) {
            Some(i) => 0 <= i < s.len() && s[i] == c,
            None => true,
        },
    decreases to,
{
    if to > 0 && to <= s.len() && s[to - 1] != c {
        lemma_last_char(s, c, to - 1);
    }
}

/// A part of a text without a separator has none.
proof fn lemma_part_lacks(s: Seq<char>, a: int, b: int)
    requires
        !s.contains('/'),
        0 <= a <= b <= s.len(),
    ensures
        !s.subrange(a, b).contains('/'),
{
    if s.subrange(a, b).contains('/') {
        let i = choose|i: int| 0 <= i < b - a && s.subrange(a, b)[i] == '/';
        assert(s[a + i] == '/');
    }
}

/// Numbered names can be last components, differ from each other, and from the name
/// that is numbered.
proof fn lemma_numbered(path: Seq<char>, n: nat, m: nat)
    ensures
        is_plain_component(numbered(path, n)),
        numbered(path, n) == numbered(path, m) ==> n == m,
        numbered(path, n) != name_or_file(path),
{
    let name = name_or_file(path);
    lemma_name_or_file(path);
    lemma_last_char(name, '.', name.len() as int);
    lemma_decimal(n, m);
    lemma_decimal(m, n);
    reveal_strlit("-");
    reveal_strlit(".");
    reveal_strlit("md");
    let st = stem(name);
    let ext = match extension(name) {
        Some(e) => e,
        None => "md"@,
    };
    lemma_part_lacks(name, 0, st.len() as int);
    assert(name.subrange(0, st.len() as int) =~= st);
    match last_char_at(name, '.', name.len() as int) {
        Some(i) => {
            if i > 0 {
                lemma_part_lacks(name, i + 1, name.len() as int);
                assert(name.subrange(i + 1, name.len() as int) =~= ext);
            } else {
                assert("md"@ =~= seq!['m', 'd']);
            }
        },
        None => {
            assert("md"@ =~= seq!['m', 'd']);
        },
    }
    assert(!ext.contains('/'));
    let x = numbered(path, n);
    let y = numbered(path, m);
    assert(x =~= st + seq!['-'] + decimal(n) + seq!['.'] + ext);
    assert(y =~= st + seq!['-'] + decimal(m) + seq!['.'] + ext);
    assert(!x.contains('/')) by {
        if x.contains('/') {
            let i = choose|i: int| 0 <= i < x.len() && x[i] == '/';
            let a = st.len() as int;
            let b = a + 1 + decimal(n).len();
            if i < a {
                assert(st[i] == '/');
            } else if i > a && i < b {
                assert(decimal(n)[i - a - 1] == '/');
            } else if i > b {
                assert(ext[i - b - 1] == '/');
            }
        }
    }
    assert(x.len() >= 2);
    if x == y {
        assert(decimal(n).len() == decimal(m).len());
        let a = st.len() as int + 1;
        assert(x.subrange(a, a + decimal(n).len()) =~= decimal(n));
        assert(y.subrange(a, a + decimal(m).len()) =~= decimal(m));
    }
}

// ── Free places ────────────────────────────────────────────────────────────

/// What the first free number is.
proof fn lemma_free_number(
    taken: Seq<Seq<char>>,
    dir: Seq<char>,
    path: Seq<char>,
    n: nat,
    limit: nat,
)
    requires
        n <= limit,
    ensures
        n <= free_number(taken, dir, path, n, limit) <= limit,
        forall|k: nat|
            n <= k < free_number(taken, dir, path, n, limit) ==> has_path(
                taken,
                below(dir, #[trigger] numbered(path, k)),
            ),
        free_number(taken, dir, path, n, limit) < limit ==> !has_path(
            taken,
            below(dir, numbered(path, free_number(taken, dir, path, n, limit))),
        ),
    decreases limit - n,
{
    if n < limit && has_path(taken, below(dir, numbered(path, n))) {
        lemma_free_number(taken, dir, path, n + 1, limit);
        let r = free_number(taken, dir, path, n, limit);
        assert forall|k: nat| n <= k < r implies has_path(
            taken,
            below(dir, #[trigger] numbered(path, k)),
        ) by {}
    }
}

/// The names that are tried, the own one first.
pub open spec fn tried(path: Seq<char>, k: nat) -> Seq<char> {
    if k == 0 {
        name_or_file(path)
    } else {
        numbered(path, k)
    }
}

/// No more names than there are paths can be taken.
proof fn lemma_not_all_taken(taken: Seq<Seq<char>>, dir: Seq<char>, path: Seq<char>)
    ensures
        exists|k: nat|
            k <= taken.len() && !has_path(taken, below(dir, #[trigger] tried(path, k))),
{
    if forall|k: nat| k <= taken.len() ==> has_path(taken, below(dir, #[trigger] tried(path, k))) {
        lemma_all_taken(taken, dir, path);
    }
}

/// If the first of the names are all taken, there are more paths than names.
proof fn lemma_all_taken(taken: Seq<Seq<char>>, dir: Seq<char>, path: Seq<char>)
    requires
        forall|k: nat| k <= taken.len() ==> has_path(taken, below(dir, #[trigger] tried(path, k))),
    ensures
        taken.len() + 1 <= taken.len(),
{
    let names = Seq::new((taken.len() + 1) as nat, |k: int| tried(path, k as nat));
    let lasts = Seq::new(taken.len(), |i: int| components(taken[i]).last());
    assert forall|a: int, b: int| 0 <= a < names.len() && 0 <= b < names.len() && a != b implies names[a]
        != names[b] by {
        lemma_numbered(path, a as nat, b as nat);
        lemma_numbered(path, b as nat, a as nat);
    }
    assert forall|x: Seq<char>| names.to_set().contains(x) implies lasts.to_set().contains(x) by {
        let k = choose|k: int| 0 <= k < names.len() && names[k] == x;
        lemma_numbered(path, k as nat, 0);
        lemma_name_or_file(path);
        lemma_last_component(dir, x);
        assert(has_path(taken, below(dir, tried(path, k as nat))));
        let i = choose|i: int|
            0 <= i < taken.len() && same_place(#[trigger] taken[i], below(dir, x));
        assert(lasts[i] == x);
    }
    names.unique_seq_to_set();
    lasts.lemma_cardinality_of_set();
    vstd::seq_lib::seq_to_set_is_finite(lasts);
    vstd::set_lib::lemma_len_subset(names.to_set(), lasts.to_set());
}

/// A file that is moved out of the way never lands on another.
pub proof fn law_place_is_free(taken: Seq<Seq<char>>, dir: Seq<char>, path: Seq<char>)
    ensures
        !has_path(taken, free_place(taken, dir, path)),
{
    if has_path(taken, below(dir, name_or_file(path))) {
        let limit = taken.len();
        lemma_free_number(taken, dir, path, 1, limit);
        let r = free_number(taken, dir, path, 1, limit);
        if r == limit && has_path(taken, below(dir, numbered(path, r))) {
            lemma_not_all_taken(taken, dir, path);
            let k = choose|k: nat|
                k <= taken.len() && !has_path(taken, below(dir, #[trigger] tried(path, k)));
            assert(k > 0);
            assert(has_path(taken, below(dir, numbered(path, k))));
        }
    }
}

// ── What a plan touches ────────────────────────────────────────────────────

/// Whether a path is that of one of some notes that meet a condition.
pub open spec fn is_met_at(
    rs: Seq<Rec>,
    c: Cond,
    root: Seq<char>,
    g: Option<Graph>,
    path: Seq<char>,
) -> bool {
    exists|j: int|
        0 <= j < rs.len() && (#[trigger] rs[j]).path == path && holds(c, rs[j], root, g)
}

/// Notes behind others do not change that one of the others is there.
proof fn lemma_met_further(
    rs: Seq<Rec>,
    c: Cond,
    root: Seq<char>,
    g: Option<Graph>,
    path: Seq<char>,
)
    requires
        rs.len() > 0,
        is_met_at(rs.drop_last(), c, root, g, path),
    ensures
        is_met_at(rs, c, root, g, path),
{
    let rest = rs.drop_last();
    let j = choose|j: int|
        0 <= j < rest.len() && (#[trigger] rest[j]).path == path && holds(c, rest[j], root, g);
    assert(rs[j] == rest[j]);
}

/// An update writes only notes that meet its condition, describes each file that it
/// writes, and writes each only where something changes.
pub proof fn law_update_touches_matches(u: Update, rs: Seq<Rec>, root: Seq<char>, g: Option<Graph>)
    requires
        update_all(u, rs, root, g) is Ok,
    ensures
        update_all(u, rs, root, g)->Ok_0.writes.len() == update_all(
            u,
            rs,
            root,
            g,
        )->Ok_0.changes.len(),
        forall|i: int|
            0 <= i < update_all(u, rs, root, g)->Ok_0.writes.len() ==> is_met_at(
                rs,
                u.filter,
                root,
                g,
                (#[trigger] update_all(u, rs, root, g)->Ok_0.writes[i]).path,
            ) && update_all(u, rs, root, g)->Ok_0.writes[i].path == update_all(
                u,
                rs,
                root,
                g,
            )->Ok_0.changes[i].0 && update_all(u, rs, root, g)->Ok_0.writes[i].changes.len() > 0,
    decreases rs.len(),
{
    if rs.len() > 0 {
        let rest = rs.drop_last();
        law_update_touches_matches(u, rest, root, g);
        let before = update_all(u, rest, root, g)->Ok_0;
        let p = update_all(u, rs, root, g)->Ok_0;
        assert forall|i: int| 0 <= i < p.writes.len() implies is_met_at(
            rs,
            u.filter,
            root,
            g,
            (#[trigger] p.writes[i]).path,
        ) && p.writes[i].path == p.changes[i].0 && p.writes[i].changes.len() > 0 by {
            if i < before.writes.len() {
                assert(p.writes[i] == before.writes[i]);
                lemma_met_further(rs, u.filter, root, g, before.writes[i].path);
            } else {
                assert(rs[rs.len() - 1].path == p.writes[i].path);
            }
        }
    }
}

/// A deletion names only notes that meet its condition.
pub proof fn law_delete_touches_matches(
    filter: Cond,
    permanent: bool,
    rs: Seq<Rec>,
    root: Seq<char>,
    g: Option<Graph>,
)
    ensures
        forall|i: int|
            0 <= i < deletions(filter, permanent, rs, root, g).len() ==> is_met_at(
                rs,
                filter,
                root,
                g,
                (#[trigger] deletions(filter, permanent, rs, root, g)[i]).0,
            ),
    decreases rs.len(),
{
    if rs.len() > 0 {
        let rest = rs.drop_last();
        law_delete_touches_matches(filter, permanent, rest, root, g);
        let before = deletions(filter, permanent, rest, root, g);
        let out = deletions(filter, permanent, rs, root, g);
        assert forall|i: int| 0 <= i < out.len() implies is_met_at(
            rs,
            filter,
            root,
            g,
            (#[trigger] out[i]).0,
        ) by {
            if i < before.len() {
                assert(out[i] == before[i]);
                lemma_met_further(rs, filter, root, g, before[i].0);
            } else {
                assert(rs[rs.len() - 1].path == out[i].0);
            }
        }
    }
}

/// A move names only notes that meet its condition and whose names are free in the other
/// folder, and no two of one name.
pub proof fn law_move_is_free(
    filter: Cond,
    to: Seq<char>,
    to_folder: Seq<char>,
    rs: Seq<Rec>,
    p: Picture,
    root: Seq<char>,
    g: Option<Graph>,
)
    ensures
        forall|i: int|
            0 <= i < move_all(filter, to, to_folder, rs, p, root, g).changes.len() ==> is_met_at(
                rs,
                filter,
                root,
                g,
                (#[trigger] move_all(filter, to, to_folder, rs, p, root, g).changes[i]).0,
            ) && file_name(move_all(filter, to, to_folder, rs, p, root, g).changes[i].0) is Some
                && !is_taken(
                p,
                below(
                    to,
                    file_name(move_all(filter, to, to_folder, rs, p, root, g).changes[i].0)->0,
                ),
            ),
        forall|i: int, j: int|
            0 <= i < j < move_all(filter, to, to_folder, rs, p, root, g).changes.len()
                ==> file_name(
                (#[trigger] move_all(filter, to, to_folder, rs, p, root, g).changes[i]).0,
            ) != file_name(
                (#[trigger] move_all(filter, to, to_folder, rs, p, root, g).changes[j]).0,
            ),
    decreases rs.len(),
{
    if rs.len() > 0 {
        let rest = rs.drop_last();
        law_move_is_free(filter, to, to_folder, rest, p, root, g);
        let before = move_all(filter, to, to_folder, rest, p, root, g).changes;
        let out = move_all(filter, to, to_folder, rs, p, root, g).changes;
        assert forall|i: int| 0 <= i < out.len() implies is_met_at(
            rs,
            filter,
            root,
            g,
            (#[trigger] out[i]).0,
        ) && file_name(out[i].0) is Some && !is_taken(p, below(to, file_name(out[i].0)->0)) by {
            if i < before.len() {
                assert(out[i] == before[i]);
                lemma_met_further(rs, filter, root, g, before[i].0);
            } else {
                assert(rs[rs.len() - 1].path == out[i].0);
            }
        }
        assert forall|i: int, j: int| 0 <= i < j < out.len() implies file_name(
            (#[trigger] out[i]).0,
        ) != file_name((#[trigger] out[j]).0) by {
            assert(out[i] == before[i]);
            if j < before.len() {
                assert(out[j] == before[j]);
            } else {
                let name = file_name(out[j].0)->0;
                assert(!is_claimed(before, name));
            }
        }
    }
}

/// A new note never takes the place of another, and a report of failures goes with
/// nothing to write.
pub proof fn law_create_is_new(c: Creation, p: Picture, root: Seq<char>, now: u64)
    requires
        create_plan(c, p, root, now) is Ok,
    ensures
        written(create_plan(c, p, root, now)) is Some ==> !is_taken(
            p,
            written(create_plan(c, p, root, now))->0.path,
        ) && reported(create_plan(c, p, root, now)).errors.len() == 0,
        written(create_plan(c, p, root, now)) is None ==> reported(
            create_plan(c, p, root, now),
        ).errors.len() > 0 && reported(create_plan(c, p, root, now)).changes.len() == 0,
{
}

/// What a creation writes.
pub open spec fn written(r: Result<(Report, Option<Write>), Failure>) -> Option<Write> {
    match r {
        Ok((_, w)) => w,
        Err(_) => None,
    }
}

/// What a creation reports.
pub open spec fn reported(r: Result<(Report, Option<Write>), Failure>) -> Report {
    match r {
        Ok((report, _)) => report,
        Err(_) => Report { changes: seq![], errors: seq![] },
    }
}

/// A note that was created is loaded with the body that it was given and with the fields
/// that are read from the YAML that was written for its own.
pub proof fn law_created_is_loaded(
    fields: Seq<(Seq<char>, Val)>,
    body: Seq<char>,
    yaml: Seq<char>,
    f: FileView,
)
    requires
        f.content is Ok,
        new_text(fields, body) == Ok::<Seq<char>, Failure>(f.content->Ok_0),
        if fields.len() == 0 {
            yaml.len() == 0
        } else {
            value_yaml(Val::Mapping(fields)) == Ok::<Seq<char>, Seq<char>>(yaml + "\n"@)
        },
        is_fenceable(yaml),
    ensures
        match extracted(f.content->Ok_0) {
            Some((front, at)) => front == yaml && f.content->Ok_0.skip(at) == body,
            None => false,
        },
        match parsed_fields(yaml) {
            Ok(read) => note_of(f, true) == Ok::<Rec, Failure>(
                Rec {
                    path: f.path,
                    fields: read,
                    content: Some(f.content->Ok_0),
                    modified: f.modified,
                    created: f.created,
                },
            ),
            Err(_) => note_of(f, true) is Err,
        },
{
    reveal_strlit("---\n");
    reveal_strlit("\n");
    reveal_strlit("\n---\n");
    reveal_strlit("---\n---\n");
    reveal_strlit("\u{feff}");
    let c = f.content->Ok_0;
    if fields.len() == 0 {
        assert(c == "---\n---\n"@ + body);
        assert(without_mark(c) == c) by {
            if starts(c, "\u{feff}"@) {
                assert(c.subrange(0, 1)[0] == '\u{feff}');
            }
        }
        assert(occurs_at(c, "---\n"@, 0)) by {
            assert(c.subrange(0, 4) =~= "---\n"@);
        }
        assert(opening_len(c) == 4);
        let rest = c.skip(4);
        assert(starts(rest, "---\n"@)) by {
            assert(rest.subrange(0, 4) =~= "---\n"@);
        }
        assert(yaml =~= seq![]);
        assert(c.skip(8) =~= body);
    } else {
        law_fences_hold(yaml, body);
        assert("---\n"@ + (yaml + "\n"@) + "---\n"@ + body =~= "---\n"@ + yaml + "\n---\n"@ + body);
    }
}

// ── Defaults ───────────────────────────────────────────────────────────────

/// The default of one more field leaves the fields that are given alone.
proof fn lemma_rules_keep_given(
    given: Seq<(Seq<char>, Val)>,
    so_far: Filled,
    rs: Seq<(Seq<char>, FieldRule)>,
    path: Seq<char>,
    now: u64,
    key: Seq<char>,
)
    requires
        field(given, key) is Some,
        field(so_far.0, key) == field(given, key),
    ensures
        field(with_rules(given, so_far, rs, path, now).0, key) == field(given, key),
    decreases rs.len(),
{
    if rs.len() > 0 {
        lemma_rules_keep_given(given, so_far, rs.drop_last(), path, now, key);
        let before = with_rules(given, so_far, rs.drop_last(), path, now).0;
        let name = rs.last().0;
        let rule = rs.last().1;
        match rule.default {
            Some(v) => {
                law_entry_is_set(before, name, v, key);
            },
            None => match rule.default_expr {
                Some(e) => match resolved(e, now) {
                    Ok(v) => {
                        law_entry_is_set(before, name, v, key);
                    },
                    Err(_) => {},
                },
                None => {},
            },
        }
    }
}

/// Defaults never change a field that is given.
pub proof fn law_given_is_kept(
    given: Seq<(Seq<char>, Val)>,
    cs: Seq<CollectionRule>,
    path: Seq<char>,
    now: u64,
    key: Seq<char>,
)
    requires
        field(given, key) is Some,
    ensures
        field(with_defaults(given, cs, path, now).0, key) == field(given, key),
    decreases cs.len(),
{
    if cs.len() > 0 {
        law_given_is_kept(given, cs.drop_last(), path, now, key);
        lemma_rules_keep_given(
            given,
            with_defaults(given, cs.drop_last(), path, now),
            cs.last().fields,
            path,
            now,
            key,
        );
    }
}

} // verus!
