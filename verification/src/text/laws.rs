//! What operations on texts promise.

use crate::text::{
    char_at, decimal, ends, find_at, has, is_white, joined, lemma_char_at, lemma_find_at, lines_of,
    lowered, occurs_at, signed_decimal, starts, text_order, trimmed, trimmed_end, trimmed_start,
    without_cr, Order,
};
use vstd::prelude::*;

verus! {

/// A text has another exactly if the other is one of its parts, starts with it exactly if
/// the other is its first part, and ends with it exactly if the other is its last part.
pub proof fn law_parts_of_texts(s: Seq<char>, p: Seq<char>)
    ensures
        has(s, p) <==> exists|i: int|
            0 <= i <= s.len() - p.len() && #[trigger] s.subrange(i, i + p.len()) == p,
        starts(s, p) <==> p.len() <= s.len() && s.take(p.len() as int) == p,
        ends(s, p) <==> p.len() <= s.len() && s.skip(s.len() - p.len()) == p,
{
    lemma_find_at(s, p, 0);
    if has(s, p) {
        let i = find_at(s, p, 0)->0;
        assert(s.subrange(i, i + p.len()) == p);
    }
    if exists|i: int| 0 <= i <= s.len() - p.len() && #[trigger] s.subrange(i, i + p.len()) == p {
        let i = choose|i: int|
            0 <= i <= s.len() - p.len() && #[trigger] s.subrange(i, i + p.len()) == p;
        assert(occurs_at(s, p, i));
    }
    if p.len() <= s.len() {
        assert(s.take(p.len() as int) =~= s.subrange(0, p.len() as int));
        assert(s.skip(s.len() - p.len()) =~= s.subrange(
            s.len() - p.len(),
            s.len() - p.len() + p.len(),
        ));
    }
}

/// The order of texts is that of their first differing characters, and a text comes behind
/// those that it starts with.
pub proof fn law_text_order(p: Seq<char>, a: Seq<char>, b: Seq<char>)
    ensures
        text_order(p + a, p + b) == text_order(a, b),
        a.len() > 0 && b.len() > 0 && a[0] < b[0] ==> text_order(a, b) == Order::Less && text_order(
            b,
            a,
        ) == Order::Greater,
        b.len() > 0 ==> text_order(p, p + b) == Order::Less && text_order(p + b, p)
            == Order::Greater,
        text_order(a, a) == Order::Equal,
    decreases p.len(),
{
    crate::text::lemma_text_order(a, a);
    if p.len() == 0 {
        assert(p + a =~= a);
        assert(p + b =~= b);
    } else {
        let q = p.drop_first();
        assert((p + a).drop_first() =~= q + a);
        assert((p + b).drop_first() =~= q + b);
        law_text_order(q, a, b);
    }
}

/// Texts that are joined stand one behind the other with the separator between each two.
pub proof fn law_joined(v: Seq<Seq<char>>, x: Seq<char>, sep: Seq<char>)
    ensures
        joined(Seq::empty(), sep) == Seq::<char>::empty(),
        joined(seq![x], sep) == x,
        v.len() > 0 ==> joined(v.push(x), sep) == joined(v, sep) + sep + x,
        v.len() > 0 ==> joined(seq![x] + v, sep) == x + sep + joined(v, sep),
    decreases v.len(),
{
    let w = seq![x] + v;
    assert(v.push(x).drop_last() =~= v);
    assert(joined(seq![x], sep) == x);
    if v.len() > 0 {
        assert(w.last() == v.last());
        assert(joined(w, sep) == joined(w.drop_last(), sep) + sep + v.last());
    }
    if v.len() == 1 {
        assert(w.drop_last() =~= seq![x]);
        assert(joined(v, sep) == v.last());
        assert(joined(w, sep) == x + sep + joined(v, sep));
    } else if v.len() > 1 {
        law_joined(v.drop_last(), x, sep);
        assert(w.drop_last() =~= seq![x] + v.drop_last());
        assert(joined(w, sep) =~= x + sep + joined(v, sep));
    }
}

/// A number is written digit by digit, the most significant one first, and a negative one
/// behind a minus sign.
pub proof fn law_decimal(n: nat, d: nat)
    requires
        d < 10,
    ensures
        decimal(d).len() == 1,
        decimal(d)[0] as int == '0' as int + d,
        n > 0 ==> decimal(10 * n + d) == decimal(n) + decimal(d),
        signed_decimal(n as int) == decimal(n),
        n > 0 ==> signed_decimal(-(n as int)) == seq!['-'] + decimal(n),
{
    let m = 10 * n + d;
    assert(m / 10 == n && m % 10 == d);
    if n > 0 {
        assert(decimal(m) =~= decimal(n) + decimal(d));
    }
}

/// Whether a text is white space.
pub open spec fn all_white(s: Seq<char>) -> bool {
    forall|i: int| 0 <= i < s.len() ==> is_white(#[trigger] s[i])
}

/// White space around a text that starts and ends with something else is all that is
/// trimmed.
pub proof fn law_trimmed(a: Seq<char>, s: Seq<char>, b: Seq<char>)
    requires
        all_white(a),
        all_white(b),
        s.len() > 0 ==> !is_white(s[0]) && !is_white(s.last()),
    ensures
        trimmed(a + s + b) == s,
        s.len() > 0 ==> trimmed_start(a + s + b) == s + b,
        s.len() > 0 ==> trimmed_end(a + s + b) == a + s,
{
    if s.len() == 0 {
        let w = a + b;
        assert(a + s + b =~= w);
        assert(all_white(w)) by {
            assert forall|i: int| 0 <= i < w.len() implies is_white(#[trigger] w[i]) by {
                if i < a.len() {
                    assert(w[i] == a[i]);
                } else {
                    assert(w[i] == b[i - a.len()]);
                }
            }
        }
        lemma_trimmed_start_white(w, s);
        assert(w + s =~= w);
        assert(trimmed_start(w) =~= s);
    } else {
        lemma_trimmed_start_white(a, s + b);
        assert(a + s + b =~= a + (s + b));
        assert((s + b)[0] == s[0]);
        lemma_trimmed_end_white(a + s, b);
        assert((a + s).last() == s.last());
        lemma_trimmed_end_white(s, b);
    }
}

/// White space before a text that starts with something else, or is empty, is trimmed.
pub proof fn lemma_trimmed_start_white(a: Seq<char>, s: Seq<char>)
    requires
        all_white(a),
        s.len() > 0 ==> !is_white(s[0]),
    ensures
        trimmed_start(a + s) == s,
    decreases a.len(),
{
    if a.len() == 0 {
        assert(a + s =~= s);
    } else {
        let q = a.drop_first();
        assert(is_white(a[0]));
        assert((a + s).drop_first() =~= q + s);
        assert forall|i: int| 0 <= i < q.len() implies is_white(#[trigger] q[i]) by {
            assert(q[i] == a[i + 1]);
        }
        lemma_trimmed_start_white(q, s);
    }
}

/// White space behind a text that ends with something else, or is empty, is trimmed.
proof fn lemma_trimmed_end_white(s: Seq<char>, b: Seq<char>)
    requires
        all_white(b),
        s.len() > 0 ==> !is_white(s.last()),
    ensures
        trimmed_end(s + b) == s,
    decreases b.len(),
{
    if b.len() == 0 {
        assert(s + b =~= s);
    } else {
        let q = b.drop_last();
        assert(is_white(b[b.len() - 1]));
        assert((s + b).drop_last() =~= s + q);
        assert((s + b).last() == b.last());
        assert forall|i: int| 0 <= i < q.len() implies is_white(#[trigger] q[i]) by {
            assert(q[i] == b[i]);
        }
        lemma_trimmed_end_white(s, q);
    }
}

/// The letters of ASCII are put in lower case, and every other character stays as it is.
pub proof fn law_lower_case(s: Seq<char>, i: int)
    requires
        0 <= i < s.len(),
    ensures
        lowered(s).len() == s.len(),
        'A' <= s[i] <= 'Z' ==> lowered(s)[i] as int == s[i] as int + ('a' as int - 'A' as int),
        !('A' <= s[i] <= 'Z') ==> lowered(s)[i] == s[i],
{
}

/// A text has the lines that line feeds separate, each without a carriage return at its end.
pub proof fn law_lines(a: Seq<char>, rest: Seq<char>)
    requires
        !a.contains('\n'),
    ensures
        lines_of(Seq::empty()) == Seq::<Seq<char>>::empty(),
        a.len() > 0 ==> lines_of(a) == seq![a],
        (a.len() > 0 ==> a.last() != '\r') ==> lines_of(a + seq!['\n'] + rest) == seq![a] + lines_of(
            rest,
        ),
        lines_of(a + seq!['\r', '\n'] + rest) == seq![a] + lines_of(rest),
{
    lemma_char_at(a, '\n', 0);
    if let Some(i) = char_at(a, '\n', 0) {
        assert(a.contains(a[i]));
    }
    let s = a + seq!['\n'] + rest;
    lemma_first_line(s, a.len() as int);
    assert(s.take(a.len() as int) =~= a);
    assert(s.skip(a.len() as int + 1) =~= rest);
    let t = a + seq!['\r', '\n'] + rest;
    assert(t[a.len() as int] == '\r' && t[a.len() as int + 1] == '\n');
    lemma_first_line(t, a.len() as int + 1);
    assert(t.take(a.len() as int + 1) =~= a.push('\r'));
    assert(a.push('\r').drop_last() =~= a);
    assert(t.skip(a.len() as int + 2) =~= rest);
}

/// The first line of a text ends at the first line feed.
proof fn lemma_first_line(s: Seq<char>, n: int)
    requires
        0 <= n < s.len(),
        s[n] == '\n',
        forall|k: int| 0 <= k < n ==> s[k] != '\n',
    ensures
        char_at(s, '\n', 0) == Some(n),
        lines_of(s) == seq![without_cr(s.take(n))] + lines_of(s.skip(n + 1)),
{
    lemma_char_at(s, '\n', 0);
}

} // verus!
