//! What rewriting links promises of the rest of a text.

use crate::journal::{
    is_link_end, is_plain_name, lemma_bracket_in_link, lemma_links_differ, link_text, rewritten,
};
use crate::text::{find_at, lacks, lemma_find_at, lemma_find_at_skip, occurs_at, replaced};
use vstd::prelude::*;

verus! {

/// Which shapes of links are looked at: `[[name]]`, `[[name|alias]]`, `[[name#section]]`.
pub struct Shapes {
    pub closed: bool,
    pub aliased: bool,
    pub sectioned: bool,
}

/// Whether a text begins with another.
pub open spec fn begins(s: Seq<char>, w: Seq<char>) -> bool {
    w.len() <= s.len() && forall|t: int| 0 <= t < w.len() ==> #[trigger] w[t] == s[t]
}

/// What ends the name in a link to a note that a text begins with, if it begins with one.
pub open spec fn link_end(s: Seq<char>, name: Seq<char>, on: Shapes) -> Option<Seq<char>> {
    if on.closed && begins(s, link_text(name, "]]"@)) {
        Some("]]"@)
    } else if on.aliased && begins(s, link_text(name, "|"@)) {
        Some("|"@)
    } else if on.sectioned && begins(s, link_text(name, "#"@)) {
        Some("#"@)
    } else {
        None
    }
}

/// A text read from its start to its end, in which each link to one note leads to another
/// and every other character is kept.
pub open spec fn redirected(s: Seq<char>, from: Seq<char>, to: Seq<char>, on: Shapes) -> Seq<char>
    decreases s.len(),
{
    if s.len() == 0 {
        s
    } else {
        match link_end(s, from, on) {
            Some(end) => {
                let n = link_text(from, end).len();
                if 0 < n <= s.len() {
                    link_text(to, end) + redirected(s.skip(n as int), from, to, on)
                } else {
                    s
                }
            },
            None => seq![s[0]] + redirected(s.skip(1), from, to, on),
        }
    }
}

/// Whether a text is one of the ends of the shapes that are looked at.
pub open spec fn is_end_of(end: Seq<char>, on: Shapes) -> bool {
    (on.closed && end == "]]"@) || (on.aliased && end == "|"@) || (on.sectioned && end == "#"@)
}

/// The ends of links are ends, and differ.
proof fn lemma_ends()
    ensures
        is_link_end("]]"@),
        is_link_end("|"@),
        is_link_end("#"@),
        "]]"@[0] == ']',
        "|"@[0] == '|',
        "#"@[0] == '#',
{
    reveal_strlit("]]");
    reveal_strlit("|");
    reveal_strlit("#");
}

/// The start of a link: two opening brackets, and none behind them.
proof fn lemma_link_text(name: Seq<char>, end: Seq<char>)
    requires
        is_plain_name(name),
        is_link_end(end),
    ensures
        link_text(name, end).len() == 2 + name.len() + end.len(),
        link_text(name, end)[0] == '[',
        link_text(name, end)[1] == '[',
        forall|t: int|
            2 <= t < link_text(name, end).len() ==> #[trigger] link_text(name, end)[t] != '[',
        link_text(name, end)[2 + name.len() as int] == end[0],
{
    reveal_strlit("[[");
    assert forall|t: int| 2 <= t < link_text(name, end).len() implies #[trigger] link_text(
        name,
        end,
    )[t] != '[' by {
        if link_text(name, end)[t] == '[' {
            lemma_bracket_in_link(name, end, t);
        }
    }
}

/// A link that a text begins with is of one of the shapes.
proof fn lemma_link_end(s: Seq<char>, name: Seq<char>, on: Shapes)
    requires
        is_plain_name(name),
    ensures
        match link_end(s, name, on) {
            Some(end) => is_end_of(end, on) && is_link_end(end) && begins(s, link_text(name, end))
                && 3 <= link_text(name, end).len() <= s.len(),
            None => true,
        },
{
    lemma_ends();
    lemma_link_text(name, "]]"@);
    lemma_link_text(name, "|"@);
    lemma_link_text(name, "#"@);
}

/// Where a text begins with a link, it begins with no other.
proof fn lemma_one_link(s: Seq<char>, name: Seq<char>, a: Seq<char>, b: Seq<char>)
    requires
        is_plain_name(name),
        is_link_end(a),
        is_link_end(b),
        begins(s, link_text(name, a)),
        begins(s, link_text(name, b)),
    ensures
        a[0] == b[0],
{
    lemma_link_text(name, a);
    lemma_link_text(name, b);
    let t = 2 + name.len() as int;
    assert(link_text(name, a)[t] == s[t]);
    assert(link_text(name, b)[t] == s[t]);
}

/// A text that begins with no opening bracket, or with only one, begins with no link.
proof fn lemma_no_link(s: Seq<char>, name: Seq<char>, on: Shapes)
    requires
        is_plain_name(name),
        s.len() < 2 || s[0] != '[' || s[1] != '[',
    ensures
        link_end(s, name, on) is None,
{
    lemma_link_end(s, name, on);
    if let Some(end) = link_end(s, name, on) {
        let w = link_text(name, end);
        lemma_link_text(name, end);
        assert(w[0] == s[0]);
        assert(w[1] == s[1]);
    }
}

/// A text without opening brackets begins a text where it began it before.
proof fn lemma_begins_kept(
    s: Seq<char>,
    from: Seq<char>,
    to: Seq<char>,
    on: Shapes,
    w: Seq<char>,
)
    requires
        is_plain_name(from),
        is_plain_name(to),
        forall|t: int| 0 <= t < w.len() ==> #[trigger] w[t] != '[',
    ensures
        begins(redirected(s, from, to, on), w) == begins(s, w),
    decreases s.len(),
{
    let r = redirected(s, from, to, on);
    if w.len() > 0 && s.len() > 0 {
        lemma_link_end(s, from, on);
        match link_end(s, from, on) {
            Some(end) => {
                lemma_link_text(from, end);
                lemma_link_text(to, end);
                assert(link_text(from, end)[0] == s[0]);
                assert(r[0] == link_text(to, end)[0]);
                assert(w[0] != '[');
            },
            None => {
                let v = w.skip(1);
                assert forall|t: int| 0 <= t < v.len() implies #[trigger] v[t] != '[' by {
                    assert(v[t] == w[t + 1]);
                }
                let rest = s.skip(1);
                lemma_begins_kept(rest, from, to, on, v);
                assert(r[0] == s[0]);
                assert(r.skip(1) =~= redirected(rest, from, to, on));
                lemma_begins_step(r, w);
                lemma_begins_step(s, w);
            },
        }
    }
}

/// A text begins with another where its first character does and the rest begins with the
/// rest.
proof fn lemma_begins_step(s: Seq<char>, w: Seq<char>)
    requires
        s.len() > 0,
        w.len() > 0,
    ensures
        begins(s, w) == (s[0] == w[0] && begins(s.skip(1), w.skip(1))),
{
    let s1 = s.skip(1);
    let w1 = w.skip(1);
    if begins(s, w) {
        assert(w[0] == s[0]);
        assert forall|t: int| 0 <= t < w1.len() implies #[trigger] w1[t] == s1[t] by {
            assert(w[t + 1] == s[t + 1]);
        }
    }
    if s[0] == w[0] && begins(s1, w1) {
        assert forall|t: int| 0 <= t < w.len() implies #[trigger] w[t] == s[t] by {
            if t > 0 {
                assert(w1[t - 1] == s1[t - 1]);
            }
        }
    }
}

/// Where a text does not begin with a link that is made to lead elsewhere, it begins with
/// another link where it began with it before.
proof fn lemma_link_kept(
    s: Seq<char>,
    from: Seq<char>,
    to: Seq<char>,
    on: Shapes,
    name: Seq<char>,
    end: Seq<char>,
)
    requires
        is_plain_name(from),
        is_plain_name(to),
        is_plain_name(name),
        is_link_end(end),
        s.len() > 0,
        link_end(s, from, on) is None,
    ensures
        begins(redirected(s, from, to, on), link_text(name, end)) == begins(
            s,
            link_text(name, end),
        ),
{
    let w = link_text(name, end);
    let r = redirected(s, from, to, on);
    let s1 = s.skip(1);
    let r1 = redirected(s1, from, to, on);
    let w1 = w.skip(1);
    let w2 = w1.skip(1);
    lemma_link_text(name, end);
    assert(r.skip(1) =~= r1);
    assert(r[0] == s[0]);
    lemma_begins_step(s, w);
    lemma_begins_step(r, w);
    if s1.len() > 0 {
        assert(w1[0] == w[1]);
        lemma_begins_step(s1, w1);
        lemma_link_end(s1, from, on);
        match link_end(s1, from, on) {
            Some(e) => {
                lemma_link_text(from, e);
                lemma_link_text(to, e);
                assert(link_text(from, e)[1] == s1[1]);
                assert(r1[1] == link_text(to, e)[1]);
                assert(w1[1] == w[2]);
                assert(!begins(s1, w1));
                assert(!begins(r1, w1));
            },
            None => {
                let s2 = s1.skip(1);
                assert forall|t: int| 0 <= t < w2.len() implies #[trigger] w2[t] != '[' by {
                    assert(w2[t] == w[t + 2]);
                }
                lemma_begins_kept(s2, from, to, on, w2);
                assert(r1[0] == s1[0]);
                assert(r1.skip(1) =~= redirected(s2, from, to, on));
                lemma_begins_step(r1, w1);
            },
        }
    } else {
        assert(!begins(s1, w1));
        assert(!begins(r1, w1));
    }
}

/// A text in which no link begins is kept, and what follows is dealt with by itself.
proof fn lemma_redirected_past(
    u: Seq<char>,
    r: Seq<char>,
    from: Seq<char>,
    to: Seq<char>,
    on: Shapes,
)
    requires
        forall|k: int| 0 <= k < u.len() ==> link_end(#[trigger] (u + r).skip(k), from, on) is None,
    ensures
        redirected(u + r, from, to, on) == u + redirected(r, from, to, on),
    decreases u.len(),
{
    let s = u + r;
    if u.len() == 0 {
        assert(s =~= r);
        assert(u + redirected(r, from, to, on) =~= redirected(r, from, to, on));
    } else {
        let v = u.skip(1);
        assert(s.skip(0) =~= s);
        assert(link_end(s.skip(0), from, on) is None);
        assert(s.skip(1) =~= v + r);
        assert forall|k: int| 0 <= k < v.len() implies link_end(#[trigger] (v + r).skip(k), from, on)
            is None by {
            assert((v + r).skip(k) =~= s.skip(k + 1));
        }
        lemma_redirected_past(v, r, from, to, on);
        assert(redirected(s, from, to, on) =~= u + redirected(r, from, to, on));
    }
}

/// A link to another note, or of a shape that is not looked at, is kept.
proof fn lemma_redirected_past_link(
    name: Seq<char>,
    end: Seq<char>,
    r: Seq<char>,
    from: Seq<char>,
    to: Seq<char>,
    on: Shapes,
)
    requires
        is_plain_name(name),
        is_plain_name(from),
        is_link_end(end),
        name != from || forall|e: Seq<char>| #[trigger] is_end_of(e, on) ==> e[0] != end[0],
    ensures
        redirected(link_text(name, end) + r, from, to, on) == link_text(name, end) + redirected(
            r,
            from,
            to,
            on,
        ),
{
    let u = link_text(name, end);
    let s = u + r;
    lemma_link_text(name, end);
    assert forall|k: int| 0 <= k < u.len() implies link_end(#[trigger] s.skip(k), from, on) is None by {
        let t = s.skip(k);
        if k == 0 {
            assert(t =~= s);
            lemma_link_end(t, from, on);
            if let Some(e) = link_end(t, from, on) {
                let w = link_text(from, e);
                if name != from {
                    let d = lemma_links_differ(from, name, e, end);
                    assert(w[d] == t[d]);
                    assert(t[d] == u[d]);
                } else {
                    assert(begins(s, u)) by {
                        assert forall|d: int| 0 <= d < u.len() implies #[trigger] u[d] == s[d] by {}
                    }
                    lemma_one_link(s, name, end, e);
                    assert(is_end_of(e, on));
                }
            }
        } else if k == 1 {
            assert(t[1] == u[2]);
            lemma_no_link(t, from, on);
        } else {
            assert(t[0] == u[k]);
            lemma_no_link(t, from, on);
        }
    }
    lemma_redirected_past(u, r, from, to, on);
}

/// Replacing the links of one shape reads the text from its start to its end.
proof fn lemma_replaced_is_redirected(
    s: Seq<char>,
    from: Seq<char>,
    to: Seq<char>,
    on: Shapes,
    end: Seq<char>,
)
    requires
        is_plain_name(from),
        is_end_of(end, on),
        forall|e: Seq<char>| #[trigger] is_end_of(e, on) ==> e == end,
    ensures
        replaced(s, link_text(from, end), link_text(to, end)) == redirected(s, from, to, on),
    decreases s.len(),
{
    let p = link_text(from, end);
    let q = link_text(to, end);
    lemma_ends();
    lemma_link_text(from, end);
    lemma_find_at(s, p, 0);
    lemma_link_end(s, from, on);
    let begun = begins(s, p);
    assert(begun == occurs_at(s, p, 0)) by {
        if begun {
            assert(s.subrange(0, p.len() as int) =~= p);
        } else if occurs_at(s, p, 0) {
            assert(s.subrange(0, p.len() as int) == p);
            assert forall|t: int| 0 <= t < p.len() implies #[trigger] p[t] == s[t] by {
                assert(s.subrange(0, p.len() as int)[t] == s[t]);
            }
        }
    }
    assert((link_end(s, from, on) is Some) == begun);
    if s.len() > 0 {
        if begun {
            assert(find_at(s, p, 0) == Some(0int));
            let rest = s.skip(p.len() as int);
            lemma_replaced_is_redirected(rest, from, to, on, end);
            assert(s.take(0) + q + replaced(rest, p, q) =~= q + replaced(rest, p, q));
        } else {
            let rest = s.skip(1);
            lemma_replaced_is_redirected(rest, from, to, on, end);
            lemma_find_at(rest, p, 0);
            lemma_find_at_skip(s, p, 1, 1);
            match find_at(s, p, 0) {
                Some(i) => {
                    assert(i > 0);
                    assert(find_at(rest, p, 0) == Some(i - 1));
                    assert(rest.skip(i - 1 + p.len()) =~= s.skip(i + p.len()));
                    assert(replaced(s, p, q) =~= seq![s[0]] + replaced(rest, p, q));
                },
                None => {
                    assert(find_at(rest, p, 0) is None);
                    assert(seq![s[0]] + rest =~= s);
                },
            }
        }
    }
}

/// Two sets of shapes together.
pub open spec fn both(a: Shapes, b: Shapes) -> Shapes {
    Shapes {
        closed: a.closed || b.closed,
        aliased: a.aliased || b.aliased,
        sectioned: a.sectioned || b.sectioned,
    }
}

/// Links of some shapes and then those of others are all of them.
proof fn lemma_redirected_both(
    s: Seq<char>,
    from: Seq<char>,
    to: Seq<char>,
    a: Shapes,
    b: Shapes,
)
    requires
        is_plain_name(from),
        is_plain_name(to),
        from != to,
        forall|e: Seq<char>, f: Seq<char>|
            #[trigger] is_end_of(e, a) && #[trigger] is_end_of(f, b) ==> e[0] != f[0],
    ensures
        redirected(redirected(s, from, to, a), from, to, b) == redirected(s, from, to, both(a, b)),
    decreases s.len(),
{
    let t = redirected(s, from, to, a);
    let all = both(a, b);
    lemma_ends();
    lemma_link_end(s, from, a);
    lemma_link_end(s, from, b);
    lemma_link_end(s, from, all);
    if s.len() > 0 {
        match link_end(s, from, a) {
            Some(e) => {
                let p = link_text(from, e);
                let rest = s.skip(p.len() as int);
                match link_end(s, from, all) {
                    Some(f) => {
                        lemma_one_link(s, from, e, f);
                        assert(e == f);
                    },
                    None => {},
                }
                lemma_redirected_both(rest, from, to, a, b);
                lemma_redirected_past_link(to, e, redirected(rest, from, to, a), from, to, b);
            },
            None => match link_end(s, from, b) {
                Some(f) => {
                    let p = link_text(from, f);
                    let rest = s.skip(p.len() as int);
                    match link_end(s, from, all) {
                        Some(e) => {
                            lemma_one_link(s, from, e, f);
                            assert(e == f);
                        },
                        None => {},
                    }
                    assert(s =~= p + rest) by {
                        assert forall|k: int| 0 <= k < p.len() implies #[trigger] p[k] == s[k] by {}
                    }
                    lemma_redirected_past_link(from, f, rest, from, to, a);
                    let more = redirected(rest, from, to, a);
                    assert(t == p + more);
                    lemma_link_kept(s, from, to, a, from, "]]"@);
                    lemma_link_kept(s, from, to, a, from, "|"@);
                    lemma_link_kept(s, from, to, a, from, "#"@);
                    assert(link_end(t, from, b) == Some(f));
                    assert(t.skip(p.len() as int) =~= more);
                    lemma_redirected_both(rest, from, to, a, b);
                },
                None => {
                    assert(link_end(s, from, all) is None);
                    let rest = s.skip(1);
                    lemma_link_kept(s, from, to, a, from, "]]"@);
                    lemma_link_kept(s, from, to, a, from, "|"@);
                    lemma_link_kept(s, from, to, a, from, "#"@);
                    assert(link_end(t, from, b) is None);
                    assert(t.skip(1) =~= redirected(rest, from, to, a));
                    lemma_redirected_both(rest, from, to, a, b);
                },
            },
        }
    }
}

/// All shapes of links.
pub open spec fn all_shapes() -> Shapes {
    Shapes { closed: true, aliased: true, sectioned: true }
}

/// Making links lead to another note changes those links and keeps every other character
/// where it stands among them: a mention of the name that is no link is kept, and so is a
/// link to a note with a longer name.
pub proof fn law_rewritten_keeps_rest(content: Seq<char>, from: Seq<char>, to: Seq<char>)
    requires
        is_plain_name(from),
        is_plain_name(to),
        from != to,
    ensures
        rewritten(content, from, to) == redirected(content, from, to, all_shapes()),
{
    let x = Shapes { closed: true, aliased: false, sectioned: false };
    let y = Shapes { closed: false, aliased: true, sectioned: false };
    let z = Shapes { closed: false, aliased: false, sectioned: true };
    lemma_ends();
    let a = replaced(content, link_text(from, "]]"@), link_text(to, "]]"@));
    let b = replaced(a, link_text(from, "|"@), link_text(to, "|"@));
    lemma_replaced_is_redirected(content, from, to, x, "]]"@);
    lemma_replaced_is_redirected(a, from, to, y, "|"@);
    lemma_replaced_is_redirected(b, from, to, z, "#"@);
    lemma_redirected_both(content, from, to, x, y);
    lemma_redirected_both(content, from, to, both(x, y), z);
    assert(both(both(x, y), z) == all_shapes());
}

/// Where a text has no links to the other note, they lead back to the one.
proof fn lemma_redirected_back(s: Seq<char>, from: Seq<char>, to: Seq<char>, on: Shapes)
    requires
        is_plain_name(from),
        is_plain_name(to),
        forall|k: int| 0 <= k < s.len() ==> link_end(#[trigger] s.skip(k), to, on) is None,
    ensures
        redirected(redirected(s, from, to, on), to, from, on) == s,
    decreases s.len(),
{
    let t = redirected(s, from, to, on);
    lemma_ends();
    lemma_link_end(s, from, on);
    if s.len() > 0 {
        match link_end(s, from, on) {
            Some(e) => {
                let p = link_text(from, e);
                let q = link_text(to, e);
                let rest = s.skip(p.len() as int);
                assert forall|k: int| 0 <= k < rest.len() implies link_end(
                    #[trigger] rest.skip(k),
                    to,
                    on,
                ) is None by {
                    assert(rest.skip(k) =~= s.skip(k + p.len()));
                }
                lemma_redirected_back(rest, from, to, on);
                let more = redirected(rest, from, to, on);
                lemma_link_text(to, e);
                assert(t == q + more);
                assert(begins(t, q)) by {
                    assert forall|k: int| 0 <= k < q.len() implies #[trigger] q[k] == t[k] by {}
                }
                lemma_link_end(t, to, on);
                match link_end(t, to, on) {
                    Some(f) => {
                        lemma_one_link(t, to, e, f);
                        assert(e == f);
                    },
                    None => {},
                }
                assert(t.skip(q.len() as int) =~= more);
                assert(s =~= p + rest) by {
                    assert forall|k: int| 0 <= k < p.len() implies #[trigger] p[k] == s[k] by {}
                }
            },
            None => {
                let rest = s.skip(1);
                assert forall|k: int| 0 <= k < rest.len() implies link_end(
                    #[trigger] rest.skip(k),
                    to,
                    on,
                ) is None by {
                    assert(rest.skip(k) =~= s.skip(k + 1));
                }
                lemma_redirected_back(rest, from, to, on);
                assert(s.skip(0) =~= s);
                assert(link_end(s.skip(0), to, on) is None);
                lemma_link_kept(s, from, to, on, to, "]]"@);
                lemma_link_kept(s, from, to, on, to, "|"@);
                lemma_link_kept(s, from, to, on, to, "#"@);
                assert(link_end(t, to, on) is None);
                assert(t.skip(1) =~= redirected(rest, from, to, on));
                assert(seq![s[0]] + rest =~= s);
            },
        }
    }
}

/// Making the links of a text lead to another note, to which none led before, and then
/// back again gives the text back.
pub proof fn law_rewritten_back(content: Seq<char>, from: Seq<char>, to: Seq<char>)
    requires
        is_plain_name(from),
        is_plain_name(to),
        from != to,
        lacks(content, link_text(to, "]]"@)),
        lacks(content, link_text(to, "|"@)),
        lacks(content, link_text(to, "#"@)),
    ensures
        rewritten(rewritten(content, from, to), to, from) == content,
{
    let on = all_shapes();
    law_rewritten_keeps_rest(content, from, to);
    law_rewritten_keeps_rest(rewritten(content, from, to), to, from);
    assert forall|k: int| 0 <= k < content.len() implies link_end(#[trigger] content.skip(k), to, on)
        is None by {
        lemma_lacking_link(content, to, "]]"@, k);
        lemma_lacking_link(content, to, "|"@, k);
        lemma_lacking_link(content, to, "#"@, k);
    }
    lemma_redirected_back(content, from, to, on);
}

/// Where a text lacks a link, no part of it begins with the link.
proof fn lemma_lacking_link(s: Seq<char>, name: Seq<char>, end: Seq<char>, k: int)
    requires
        0 <= k < s.len(),
        lacks(s, link_text(name, end)),
    ensures
        !begins(s.skip(k), link_text(name, end)),
{
    let w = link_text(name, end);
    lemma_find_at(s, w, 0);
    if begins(s.skip(k), w) {
        assert(s.subrange(k, k + w.len()) =~= w) by {
            assert forall|t: int| 0 <= t < w.len() implies #[trigger] s.subrange(k, k + w.len())[t]
                == w[t] by {
                assert(w[t] == s.skip(k)[t]);
            }
        }
        assert(occurs_at(s, w, k));
    }
}

} // verus!
