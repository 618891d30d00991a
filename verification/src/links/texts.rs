//! Which links the text of a note holds.

use crate::links::laws::{lemma_contains_add, law_edge_is_source};
use crate::links::{
    bracket_at, graph_value, in_code, is_code_fence, link_close, links_from, links_in_lines,
    links_of, neighbours, record_named, sources, target_of, targets, text_vals, without_code,
    Direction, Graph,
};
use crate::record::{note_name, Rec, Val};
use crate::schema::{is_wikilink, link_target, target_end};
use crate::text::laws::{all_white, law_trimmed};
use crate::text::{
    char_at, is_text_set, is_white, lemma_char_at, lemma_text_set, lines_of, starts, text_set,
    trimmed_start,
};
use vstd::prelude::*;

verus! {

// ── Links in a line ────────────────────────────────────────────────────────

/// Whether a text holds no square bracket.
pub open spec fn is_bracketless(s: Seq<char>) -> bool {
    !s.contains('[') && !s.contains(']')
}

/// Whether a text can name the note that a link leads to: it starts and ends with no blank,
/// and holds neither a bracket nor what starts an alias or a section.
pub open spec fn is_target(t: Seq<char>) -> bool {
    &&& t.len() > 0
    &&& is_bracketless(t)
    &&& !t.contains('|') && !t.contains('#')
    &&& !is_white(t[0]) && !is_white(t.last())
}

/// A text without brackets, from a position on, has no bracket there.
proof fn lemma_no_bracket(s: Seq<char>, from: int, to: int)
    requires
        0 <= from <= to <= s.len(),
        forall|k: int| from <= k < to ==> s[k] != '[' && s[k] != ']',
    ensures
        to < s.len() && (s[to] == '[' || s[to] == ']') ==> bracket_at(s, from) == Some(to),
        to == s.len() ==> bracket_at(s, from) is None,
    decreases to - from,
{
    if from < to {
        lemma_no_bracket(s, from + 1, to);
    }
}

/// The links of a text are those behind a start of it without brackets.
proof fn lemma_links_behind(s: Seq<char>, from: int, to: int)
    requires
        0 <= from <= to <= s.len(),
        forall|k: int| from <= k < to ==> s[k] != '[',
    ensures
        links_from(s, from) == links_from(s, to),
    decreases to - from,
{
    if from < to {
        lemma_links_behind(s, from + 1, to);
        if from + 1 >= s.len() {
            assert(links_from(s, to) =~= Seq::empty());
        }
    }
}

/// The links of a text from a position on are those of what stands there.
proof fn lemma_links_skip(s: Seq<char>, from: int, i: int)
    requires
        0 <= from <= s.len(),
        0 <= i,
    ensures
        links_from(s, from + i) == links_from(s.skip(from), i),
    decreases s.len() - from - i,
{
    let t = s.skip(from);
    if i + 1 < t.len() {
        assert(t[i] == s[from + i] && t[i + 1] == s[from + i + 1]);
        lemma_links_skip(s, from, i + 1);
        if t[i] == '[' && t[i + 1] == '[' {
            lemma_bracket_skip(s, from, i + 2);
            if let Some(e) = bracket_at(t, i + 2) {
                lemma_bracket_within(t, i + 2);
                assert(t[e] == s[from + e]);
                if e + 1 < t.len() {
                    assert(t[e + 1] == s[from + e + 1]);
                }
                if link_close(t, i + 2) is Some {
                    lemma_links_skip(s, from, e + 2);
                    assert(t.subrange(i + 2, e) =~= s.subrange(from + i + 2, from + e));
                }
            }
        }
    }
}

/// A bracket that is found stands in the text.
proof fn lemma_bracket_within(s: Seq<char>, from: int)
    requires
        0 <= from,
    ensures
        bracket_at(s, from) is Some ==> from <= bracket_at(s, from)->0 < s.len(),
    decreases s.len() - from,
{
    if from < s.len() && s[from] != '[' && s[from] != ']' {
        lemma_bracket_within(s, from + 1);
    }
}

/// The first bracket from a position on is that of what stands there.
proof fn lemma_bracket_skip(s: Seq<char>, from: int, i: int)
    requires
        0 <= from <= s.len(),
        0 <= i,
    ensures
        bracket_at(s, from + i) == match bracket_at(s.skip(from), i) {
            Some(e) => Some(e + from),
            None => None,
        },
    decreases s.len() - from - i,
{
    let t = s.skip(from);
    if i < t.len() {
        assert(t[i] == s[from + i]);
        lemma_bracket_skip(s, from, i + 1);
    }
}

/// What stands between brackets leads to what comes before an alias or a section, without
/// the blanks around it.
pub proof fn law_link_targets(a: Seq<char>, t: Seq<char>, b: Seq<char>, rest: Seq<char>)
    requires
        is_target(t),
        forall|k: int| 0 <= k < a.len() ==> (#[trigger] a[k]) == ' ',
        forall|k: int| 0 <= k < b.len() ==> (#[trigger] b[k]) == ' ',
    ensures
        target_of(a + t + b) == seq![t],
        target_of(a + t + b + seq!['|'] + rest) == seq![t],
        target_of(a + t + b + seq!['#'] + rest) == seq![t],
        target_of(a) == Seq::<Seq<char>>::empty(),
{
    let s = a + t + b;
    assert(all_white(a));
    assert(all_white(b));
    law_trimmed(a, t, b);
    law_trimmed(a, Seq::empty(), Seq::empty());
    assert(a + Seq::<char>::empty() + Seq::<char>::empty() =~= a);
    assert forall|k: int| 0 <= k < s.len() implies (#[trigger] s[k]) != '|' && s[k] != '#' by {
        if k < a.len() {
            assert(s[k] == a[k]);
        } else if k < a.len() + t.len() {
            assert(s[k] == t[k - a.len()]);
            assert(t.contains(s[k]));
        } else {
            assert(s[k] == b[k - a.len() - t.len()]);
        }
    }
    lemma_target_end(s, 0, s.len() as int);
    assert(link_target(s) =~= s);
    let x = s + seq!['|'] + rest;
    lemma_target_end(x, 0, s.len() as int);
    assert(link_target(x) =~= s);
    let y = s + seq!['#'] + rest;
    lemma_target_end(y, 0, s.len() as int);
    assert(link_target(y) =~= s);
    lemma_target_end(a, 0, a.len() as int);
    assert(link_target(a) =~= a);
    assert(target_of(a) =~= Seq::empty());
}

/// The target of a link ends where an alias or a section starts.
proof fn lemma_target_end(s: Seq<char>, from: int, to: int)
    requires
        0 <= from <= to <= s.len(),
        forall|k: int| from <= k < to ==> s[k] != '|' && s[k] != '#',
        to < s.len() ==> s[to] == '|' || s[to] == '#',
    ensures
        target_end(s, from) == to,
    decreases to - from,
{
    if from < to {
        lemma_target_end(s, from + 1, to);
    }
}

/// A line has the links that stand in it, from left to right: behind a start without brackets,
/// the one between two opening and two closing brackets, and then those of the rest. A text
/// without brackets has none.
pub proof fn law_links_of_a_line(a: Seq<char>, inner: Seq<char>, rest: Seq<char>)
    requires
        is_bracketless(a),
        is_bracketless(inner),
    ensures
        links_from(a, 0) == Seq::<Seq<char>>::empty(),
        links_from(a + seq!['[', '['] + inner + seq![']', ']'] + rest, 0) == target_of(inner)
            + links_from(rest, 0),
{
    let s = a + seq!['[', '['] + inner + seq![']', ']'] + rest;
    let n = a.len() as int;
    let e = n + 2 + inner.len();
    assert forall|k: int| 0 <= k < n implies (#[trigger] s[k]) != '[' by {
        assert(s[k] == a[k]);
        assert(a.contains(a[k]));
    }
    lemma_links_behind(s, 0, n);
    assert(s[n] == '[' && s[n + 1] == '[');
    assert forall|k: int| n + 2 <= k < e implies (#[trigger] s[k]) != '[' && s[k] != ']' by {
        assert(s[k] == inner[k - n - 2]);
        assert(inner.contains(inner[k - n - 2]));
    }
    assert(s[e] == ']' && s[e + 1] == ']');
    lemma_no_bracket(s, n + 2, e);
    assert(s.subrange(n + 2, e) =~= inner);
    assert(s.skip(e + 2) =~= rest);
    lemma_links_skip(s, e + 2, 0);
    assert forall|k: int| 0 <= k < a.len() implies (#[trigger] a[k]) != '[' by {
        assert(a.contains(a[k]));
    }
    lemma_links_behind(a, 0, a.len() as int);
    assert(links_from(a, a.len() as int) =~= Seq::empty());
}

/// What stands between two backticks is code, and taken out of the line; a line without
/// backticks stays as it is.
pub proof fn law_code_is_left_out(a: Seq<char>, code: Seq<char>, rest: Seq<char>)
    requires
        !a.contains('`'),
        !code.contains('`'),
    ensures
        without_code(a) == a,
        without_code(a + seq!['`'] + code + seq!['`'] + rest) == a + without_code(rest),
{
    lemma_char_at(a, '`', 0);
    if let Some(i) = char_at(a, '`', 0) {
        assert(a.contains(a[i]));
    }
    let s = a + seq!['`'] + code + seq!['`'] + rest;
    let p = a.len() as int;
    let q = p + 1 + code.len();
    lemma_char_at(s, '`', 0);
    lemma_char_at(s, '`', p + 1);
    assert(s[p] == '`' && s[q] == '`');
    assert forall|k: int| 0 <= k < p implies (#[trigger] s[k]) != '`' by {
        assert(s[k] == a[k]);
        assert(a.contains(a[k]));
    }
    assert forall|k: int| p + 1 <= k < q implies (#[trigger] s[k]) != '`' by {
        assert(s[k] == code[k - p - 1]);
        assert(code.contains(code[k - p - 1]));
    }
    assert(char_at(s, '`', 0) == Some(p));
    assert(char_at(s, '`', p + 1) == Some(q));
    assert(s.take(p) =~= a);
    assert(s.skip(q + 1) =~= rest);
}

// ── Links in a text ────────────────────────────────────────────────────────

/// A line that starts with three backticks or three tildes, behind blanks or not, opens and
/// closes a block of code, and one that starts with another character does not.
pub proof fn law_fences_of_code(a: Seq<char>, rest: Seq<char>, c: char)
    requires
        forall|k: int| 0 <= k < a.len() ==> (#[trigger] a[k]) == ' ',
        c != '`' && c != '~' && !is_white(c),
    ensures
        is_code_fence(a + seq!['`', '`', '`'] + rest),
        is_code_fence(a + seq!['~', '~', '~'] + rest),
        !is_code_fence(a + seq![c] + rest),
{
    reveal_strlit("```");
    reveal_strlit("~~~");
    assert(all_white(a));
    let none = Seq::<char>::empty();
    let x = a + seq!['`', '`', '`'] + rest;
    let y = a + seq!['~', '~', '~'] + rest;
    let z = a + seq![c] + rest;
    crate::text::laws::lemma_trimmed_start_white(a, seq!['`', '`', '`'] + rest);
    crate::text::laws::lemma_trimmed_start_white(a, seq!['~', '~', '~'] + rest);
    crate::text::laws::lemma_trimmed_start_white(a, seq![c] + rest);
    assert(x =~= a + (seq!['`', '`', '`'] + rest));
    assert(y =~= a + (seq!['~', '~', '~'] + rest));
    assert(z =~= a + (seq![c] + rest));
    let tx = seq!['`', '`', '`'] + rest;
    let ty = seq!['~', '~', '~'] + rest;
    let tz = seq![c] + rest;
    assert(trimmed_start(tx) == tx && trimmed_start(ty) == ty && trimmed_start(tz) == tz);
    assert(tx.subrange(0, 3) =~= "```"@);
    assert(ty.subrange(0, 3) =~= "~~~"@);
    if starts(tz, "```"@) {
        assert(tz.subrange(0, 3)[0] == '`');
    }
    if starts(tz, "~~~"@) {
        assert(tz.subrange(0, 3)[0] == '~');
    }
}

/// The lines of a text have the links of each of them, but for those in blocks of code: a line
/// more adds its links, none if it opens or closes a block or stands in one.
pub proof fn law_links_of_lines(ls: Seq<Seq<char>>, line: Seq<char>)
    ensures
        links_in_lines(Seq::empty(), 0) == Seq::<Seq<char>>::empty(),
        ({
            let before = links_in_lines(ls, ls.len() as int);
            let now = links_in_lines(ls.push(line), ls.len() as int + 1);
            &&& is_code_fence(line) || in_code(ls, ls.len() as int) ==> now == before
            &&& !is_code_fence(line) && !in_code(ls, ls.len() as int) ==> now == before
                + links_from(without_code(line), 0)
        }),
        !in_code(Seq::empty(), 0),
        in_code(ls.push(line), ls.len() as int + 1) <==> (is_code_fence(line) != in_code(
            ls,
            ls.len() as int,
        )),
{
    lemma_lines_agree(ls, ls.push(line), ls.len() as int);
    assert(ls.push(line)[ls.len() as int] == line);
}

/// Lines that start alike have the same links there.
proof fn lemma_lines_agree(a: Seq<Seq<char>>, b: Seq<Seq<char>>, n: int)
    requires
        0 <= n <= a.len(),
        n <= b.len(),
        forall|k: int| 0 <= k < n ==> #[trigger] a[k] == b[k],
    ensures
        links_in_lines(a, n) == links_in_lines(b, n),
        in_code(a, n) == in_code(b, n),
    decreases n,
{
    if n > 0 {
        lemma_lines_agree(a, b, n - 1);
        assert(a[n - 1] == b[n - 1]);
    }
}

/// The links of a text are those of its lines, ascending, each once.
pub proof fn law_links_of_a_text(content: Seq<char>, t: Seq<char>)
    ensures
        is_text_set(links_of(content)),
        links_of(content).contains(t) <==> links_in_lines(
            lines_of(content),
            lines_of(content).len() as int,
        ).contains(t),
{
    lemma_text_set(links_in_lines(lines_of(content), lines_of(content).len() as int));
}

/// A text of one line with one link has that link and no other.
pub proof fn law_one_link(a: Seq<char>, t: Seq<char>, alias: Seq<char>, b: Seq<char>)
    requires
        is_target(t),
        is_bracketless(a) && is_bracketless(alias) && is_bracketless(b),
        !a.contains('`') && !t.contains('`') && !alias.contains('`') && !b.contains('`'),
        !a.contains('\n') && !t.contains('\n') && !alias.contains('\n') && !b.contains('\n'),
        !is_code_fence(a + seq!['[', '['] + (t + seq!['|'] + alias) + seq![']', ']'] + b),
    ensures
        links_of(a + seq!['[', '['] + (t + seq!['|'] + alias) + seq![']', ']'] + b) == seq![t],
{
    let inner = t + seq!['|'] + alias;
    let s = a + seq!['[', '['] + inner + seq![']', ']'] + b;
    let none = Seq::<char>::empty();
    law_link_targets(none, t, none, alias);
    assert(none + t + none + seq!['|'] + alias =~= inner);
    assert(is_bracketless(inner)) by {
        lemma_contains_add(t + seq!['|'], alias, '[');
        lemma_contains_add(t + seq!['|'], alias, ']');
        lemma_contains_add(t, seq!['|'], '[');
        lemma_contains_add(t, seq!['|'], ']');
    }
    law_links_of_a_line(a, inner, b);
    law_links_of_a_line(b, none, none);
    lemma_lacks(a, inner, b, t, alias, '`');
    lemma_lacks(a, inner, b, t, alias, '\n');
    law_code_is_left_out(s, none, none);
    lemma_char_at(s, '\n', 0);
    if let Some(i) = char_at(s, '\n', 0) {
        assert(s.contains(s[i]));
    }
    let ls = lines_of(s);
    assert(ls =~= seq![s]);
    law_links_of_lines(Seq::empty(), s);
    assert(Seq::<Seq<char>>::empty().push(s) =~= ls);
    assert(links_in_lines(ls, 1) =~= seq![t]);
    reveal_with_fuel(text_set, 2);
    assert(seq![t].drop_last() =~= Seq::empty());
    assert(text_set(seq![t]) =~= seq![t]);
}

/// A text made of parts that lack a character lacks it.
proof fn lemma_lacks(
    a: Seq<char>,
    inner: Seq<char>,
    b: Seq<char>,
    t: Seq<char>,
    alias: Seq<char>,
    c: char,
)
    requires
        inner == t + seq!['|'] + alias,
        !a.contains(c) && !t.contains(c) && !alias.contains(c) && !b.contains(c),
        c != '|' && c != '[' && c != ']',
    ensures
        !(a + seq!['[', '['] + inner + seq![']', ']'] + b).contains(c),
{
    lemma_contains_add(a + seq!['[', '['] + inner + seq![']', ']'], b, c);
    lemma_contains_add(a + seq!['[', '['] + inner, seq![']', ']'], c);
    lemma_contains_add(a + seq!['[', '['], inner, c);
    lemma_contains_add(a, seq!['[', '['], c);
    lemma_contains_add(t + seq!['|'], alias, c);
    lemma_contains_add(t, seq!['|'], c);
}

/// A text between two opening and two closing brackets that names a note is a link, with an
/// alias or without; one that is empty, or without the brackets, is none.
pub proof fn law_wikilinks(t: Seq<char>, alias: Seq<char>)
    requires
        is_target(t),
        is_bracketless(alias),
    ensures
        is_wikilink(seq!['[', '['] + t + seq![']', ']']),
        is_wikilink(seq!['[', '['] + (t + seq!['|'] + alias) + seq![']', ']']),
        !is_wikilink(seq!['[', '['] + seq![']', ']']),
        !is_wikilink(t),
{
    let none = Seq::<char>::empty();
    law_link_targets(none, t, none, alias);
    let inner = t + seq!['|'] + alias;
    assert(none + t + none =~= t);
    assert(none + t + none + seq!['|'] + alias =~= inner);
    lemma_contains_add(t + seq!['|'], alias, '[');
    lemma_contains_add(t + seq!['|'], alias, ']');
    lemma_contains_add(t, seq!['|'], '[');
    lemma_contains_add(t, seq!['|'], ']');
    let x = seq!['[', '['] + t + seq![']', ']'];
    let y = seq!['[', '['] + inner + seq![']', ']'];
    assert(x.subrange(2, x.len() - 2) =~= t);
    assert(y.subrange(2, y.len() - 2) =~= inner);
    assert(target_of(t) == seq![t]);
    assert(seq![t].len() == 1);
    if is_wikilink(t) {
        assert(t.contains(t[0]));
    }
}

// ── What notes show of the graph ───────────────────────────────────────────

/// A note shows the notes that it links to and those that link to it as lists of texts, and
/// how many they are.
pub proof fn law_links_are_shown(g: Graph, name: Seq<char>, other: Seq<char>)
    ensures
        graph_value(g, name, "_links"@) is List,
        graph_value(g, name, "_links"@)->List_0.contains(Val::Text(other)) <==> g.edges.contains(
            (name, other),
        ),
        graph_value(g, name, "_backlinks"@) is List,
        graph_value(g, name, "_backlinks"@)->List_0.contains(Val::Text(other))
            <==> g.edges.contains((other, name)),
        graph_value(g, name, "_link_count"@) == Val::Int(
            graph_value(g, name, "_links"@)->List_0.len() as i64,
        ),
        graph_value(g, name, "_backlink_count"@) == Val::Int(
            graph_value(g, name, "_backlinks"@)->List_0.len() as i64,
        ),
{
    reveal_strlit("_links");
    reveal_strlit("_backlinks");
    reveal_strlit("_link_count");
    reveal_strlit("_backlink_count");
    assert("_links"@.len() == 6 && "_backlinks"@.len() == 10);
    assert("_link_count"@.len() == 11 && "_backlink_count"@.len() == 15);
    law_edge_is_source(g, name, other);
    law_edge_is_source(g, other, name);
    lemma_text_vals(targets(g.edges, name), other);
    lemma_text_vals(sources(g.edges, name), other);
}

/// Texts as values hold what the texts hold.
proof fn lemma_text_vals(names: Seq<Seq<char>>, x: Seq<char>)
    ensures
        text_vals(names).contains(Val::Text(x)) <==> names.contains(x),
{
    if names.contains(x) {
        let i = choose|i: int| 0 <= i < names.len() && names[i] == x;
        assert(text_vals(names)[i] == Val::Text(x));
    }
    if text_vals(names).contains(Val::Text(x)) {
        let i = choose|i: int| 0 <= i < names.len() && text_vals(names)[i] == Val::Text(x);
        assert(names[i] == x);
    }
}

/// One step away from a note are those that it links to, those that link to it, or both, as the
/// direction says.
pub proof fn law_directions(g: Graph, a: Seq<char>, b: Seq<char>)
    ensures
        neighbours(g.edges, a, Direction::Outgoing).contains(b) <==> g.edges.contains((a, b)),
        neighbours(g.edges, a, Direction::Incoming).contains(b) <==> g.edges.contains((b, a)),
        neighbours(g.edges, a, Direction::Both).contains(b) <==> g.edges.contains((a, b))
            || g.edges.contains((b, a)),
{
    law_edge_is_source(g, a, b);
    law_edge_is_source(g, b, a);
    lemma_contains_add(targets(g.edges, a), sources(g.edges, a), b);
}

/// The note of a name is one of the notes and has that name, and there is one wherever a note
/// has it.
pub proof fn law_notes_are_found_by_name(records: Seq<Rec>, name: Seq<char>)
    ensures
        match record_named(records, name) {
            Some(r) => records.contains(r) && note_name(r.path) == name,
            None => forall|i: int|
                0 <= i < records.len() ==> note_name((#[trigger] records[i]).path) != name,
        },
    decreases records.len(),
{
    if records.len() > 0 {
        let init = records.drop_last();
        law_notes_are_found_by_name(init, name);
        assert(records =~= init.push(records.last()));
        if let Some(r) = record_named(records, name) {
            crate::links::laws::lemma_contains_push(init, records.last(), r);
        } else {
            assert forall|i: int| 0 <= i < records.len() implies note_name(
                (#[trigger] records[i]).path,
            ) != name by {
                if i < init.len() {
                    assert(init[i] == records[i]);
                }
            }
        }
    }
}

} // verus!
