//! What the graph of links promises.

use crate::links::{
    all_targets, at_distance, edge_less, edges_of, graph_of, level, links_of, missing_of,
    neighbours, next_notes, reached, record_named, sources, targets, unresolved_links, unseen,
    with_edge, with_targets, Direction, Graph,
};
use crate::record::{content_of, note_name, Rec};
use crate::text::{
    lemma_text_less_transitive, lemma_text_order, lemma_text_set, text_less, text_set,
};
use vstd::prelude::*;

verus! {

// ── Both ends of a link ────────────────────────────────────────────────────

/// A note links to another exactly if there is an edge between them.
proof fn lemma_targets(edges: Seq<(Seq<char>, Seq<char>)>, a: Seq<char>, b: Seq<char>)
    ensures
        targets(edges, a).contains(b) <==> edges.contains((a, b)),
    decreases edges.len(),
{
    if edges.len() > 0 {
        let rest = edges.drop_last();
        lemma_targets(rest, a, b);
        lemma_contains_push(rest, edges.last(), (a, b));
        assert(rest.push(edges.last()) =~= edges);
        lemma_contains_push(targets(rest, a), edges.last().1, b);
    }
}

/// A note is linked from another exactly if there is an edge between them.
proof fn lemma_sources(edges: Seq<(Seq<char>, Seq<char>)>, a: Seq<char>, b: Seq<char>)
    ensures
        sources(edges, b).contains(a) <==> edges.contains((a, b)),
    decreases edges.len(),
{
    if edges.len() > 0 {
        let rest = edges.drop_last();
        lemma_sources(rest, a, b);
        lemma_contains_push(rest, edges.last(), (a, b));
        assert(rest.push(edges.last()) =~= edges);
        lemma_contains_push(sources(rest, b), edges.last().0, a);
    }
}

/// What a list with one more item holds.
pub proof fn lemma_contains_push<T>(s: Seq<T>, x: T, y: T)
    ensures
        s.push(x).contains(y) <==> s.contains(y) || x == y,
{
    if s.contains(y) {
        let i = choose|i: int| 0 <= i < s.len() && s[i] == y;
        assert(s.push(x)[i] == y);
    }
    if x == y {
        assert(s.push(x)[s.len() as int] == y);
    }
    if s.push(x).contains(y) && x != y {
        let i = choose|i: int| 0 <= i < s.push(x).len() && s.push(x)[i] == y;
        assert(s[i] == y);
    }
}

/// What two lists hold together.
pub proof fn lemma_contains_add<T>(s: Seq<T>, t: Seq<T>, y: T)
    ensures
        (s + t).contains(y) <==> s.contains(y) || t.contains(y),
{
    if s.contains(y) {
        let i = choose|i: int| 0 <= i < s.len() && s[i] == y;
        assert((s + t)[i] == y);
    }
    if t.contains(y) {
        let i = choose|i: int| 0 <= i < t.len() && t[i] == y;
        assert((s + t)[s.len() + i] == y);
    }
    if (s + t).contains(y) {
        let i = choose|i: int| 0 <= i < (s + t).len() && (s + t)[i] == y;
        if i < s.len() {
            assert(s[i] == y);
        } else {
            assert(t[i - s.len()] == y);
        }
    }
}

/// A note is among those that another links to exactly if the other is among those
/// that link to it.
pub proof fn law_backlinks(g: Graph, a: Seq<char>, b: Seq<char>)
    ensures
        targets(g.edges, a).contains(b) <==> sources(g.edges, b).contains(a),
{
    lemma_targets(g.edges, a, b);
    lemma_sources(g.edges, a, b);
}

/// There is an edge between two notes exactly if each is at the end of it that the
/// other sees.
pub proof fn law_edge_is_source(g: Graph, a: Seq<char>, b: Seq<char>)
    ensures
        g.edges.contains((a, b)) <==> sources(g.edges, b).contains(a),
        g.edges.contains((a, b)) <==> targets(g.edges, a).contains(b),
{
    lemma_targets(g.edges, a, b);
    lemma_sources(g.edges, a, b);
}

// ── The edges ──────────────────────────────────────────────────────────────

/// What edges with one more are.
proof fn lemma_with_edge(
    edges: Seq<(Seq<char>, Seq<char>)>,
    e: (Seq<char>, Seq<char>),
    x: (Seq<char>, Seq<char>),
)
    ensures
        with_edge(edges, e).contains(x) <==> edges.contains(x) || x == e,
    decreases edges.len(),
{
    if edges.len() == 0 {
        assert(seq![e][0] == e);
    } else if edges[0] == e {
        assert(edges[0] == e);
    } else if edge_less(e, edges[0]) {
        lemma_contains_add(seq![e], edges, x);
        assert(seq![e][0] == e);
    } else {
        let rest = edges.skip(1);
        lemma_with_edge(rest, e, x);
        lemma_contains_add(seq![edges[0]], with_edge(rest, e), x);
        lemma_contains_add(seq![edges[0]], rest, x);
        assert(seq![edges[0]] + rest =~= edges);
    }
}

/// What edges with those to some targets are.
proof fn lemma_with_targets(
    edges: Seq<(Seq<char>, Seq<char>)>,
    name: Seq<char>,
    ts: Seq<Seq<char>>,
    x: (Seq<char>, Seq<char>),
)
    ensures
        with_targets(edges, name, ts).contains(x) <==> edges.contains(x) || (x.0 == name
            && ts.contains(x.1)),
    decreases ts.len(),
{
    if ts.len() > 0 {
        let rest = ts.drop_last();
        lemma_with_targets(edges, name, rest, x);
        lemma_with_edge(with_targets(edges, name, rest), (name, ts.last()), x);
        lemma_contains_push(rest, ts.last(), x.1);
        assert(rest.push(ts.last()) =~= ts);
    }
}

/// Whether one of some notes has a name and links to another.
pub open spec fn links_between(rs: Seq<Rec>, a: Seq<char>, b: Seq<char>) -> bool {
    exists|i: int|
        0 <= i < rs.len() && note_name((#[trigger] rs[i]).path) == a && links_of(
            content_of(rs[i]),
        ).contains(b)
}

/// There is an edge from a note to another exactly if its text links to it.
pub proof fn law_graph_edges(rs: Seq<Rec>, a: Seq<char>, b: Seq<char>)
    ensures
        graph_of(rs).edges.contains((a, b)) <==> links_between(rs, a, b),
    decreases rs.len(),
{
    if rs.len() > 0 {
        let rest = rs.drop_last();
        law_graph_edges(rest, a, b);
        lemma_with_targets(
            edges_of(rest),
            note_name(rs.last().path),
            links_of(content_of(rs.last())),
            (a, b),
        );
        if links_between(rest, a, b) {
            let i = choose|i: int|
                0 <= i < rest.len() && note_name((#[trigger] rest[i]).path) == a && links_of(
                    content_of(rest[i]),
                ).contains(b);
            assert(rs[i] == rest[i]);
        }
        if links_between(rs, a, b) {
            let i = choose|i: int|
                0 <= i < rs.len() && note_name((#[trigger] rs[i]).path) == a && links_of(
                    content_of(rs[i]),
                ).contains(b);
            if i < rest.len() {
                assert(rs[i] == rest[i]);
            }
        }
    }
}

/// Whether edges ascend, so that each is there once.
pub open spec fn edges_ascend(edges: Seq<(Seq<char>, Seq<char>)>) -> bool {
    forall|i: int, j: int| 0 <= i < j < edges.len() ==> edge_less(#[trigger] edges[i], #[trigger] edges[j])
}

/// The order of edges.
proof fn lemma_edge_less(
    a: (Seq<char>, Seq<char>),
    b: (Seq<char>, Seq<char>),
    c: (Seq<char>, Seq<char>),
)
    ensures
        edge_less(a, b) || a == b || edge_less(b, a),
        edge_less(a, b) && edge_less(b, c) ==> edge_less(a, c),
{
    lemma_text_order(a.0, b.0);
    lemma_text_order(a.1, b.1);
    lemma_text_order(b.0, a.0);
    lemma_text_order(b.1, a.1);
    if text_less(a.0, b.0) && text_less(b.0, c.0) {
        lemma_text_less_transitive(a.0, b.0, c.0);
    }
    if text_less(a.1, b.1) && text_less(b.1, c.1) {
        lemma_text_less_transitive(a.1, b.1, c.1);
    }
}

/// One more edge leaves them ascending.
proof fn lemma_ascend_edge(edges: Seq<(Seq<char>, Seq<char>)>, e: (Seq<char>, Seq<char>))
    requires
        edges_ascend(edges),
    ensures
        edges_ascend(with_edge(edges, e)),
    decreases edges.len(),
{
    let out = with_edge(edges, e);
    if edges.len() == 0 || edges[0] == e {
    } else if edge_less(e, edges[0]) {
        assert forall|i: int, j: int| 0 <= i < j < out.len() implies edge_less(
            #[trigger] out[i],
            #[trigger] out[j],
        ) by {
            assert(out[j] == edges[j - 1]);
            if i > 0 {
                assert(out[i] == edges[i - 1]);
            } else if j > 1 {
                lemma_edge_less(e, edges[0], edges[j - 1]);
            }
        }
    } else {
        let rest = edges.skip(1);
        assert(edges_ascend(rest)) by {
            assert forall|i: int, j: int| 0 <= i < j < rest.len() implies edge_less(
                #[trigger] rest[i],
                #[trigger] rest[j],
            ) by {
                assert(edge_less(edges[i + 1], edges[j + 1]));
            }
        }
        lemma_ascend_edge(rest, e);
        lemma_edge_less(e, edges[0], e);
        let tail = with_edge(rest, e);
        assert forall|i: int, j: int| 0 <= i < j < out.len() implies edge_less(
            #[trigger] out[i],
            #[trigger] out[j],
        ) by {
            assert(out[j] == tail[j - 1]);
            if i > 0 {
                assert(out[i] == tail[i - 1]);
            } else {
                lemma_with_edge(rest, e, tail[j - 1]);
                assert(tail.contains(tail[j - 1]));
                if tail[j - 1] != e {
                    let k = choose|k: int| 0 <= k < rest.len() && rest[k] == tail[j - 1];
                    assert(edge_less(edges[0], edges[k + 1]));
                }
            }
        }
    }
}

/// Edges to some targets leave them ascending.
proof fn lemma_ascend_targets(
    edges: Seq<(Seq<char>, Seq<char>)>,
    name: Seq<char>,
    ts: Seq<Seq<char>>,
)
    requires
        edges_ascend(edges),
    ensures
        edges_ascend(with_targets(edges, name, ts)),
    decreases ts.len(),
{
    if ts.len() > 0 {
        lemma_ascend_targets(edges, name, ts.drop_last());
        lemma_ascend_edge(with_targets(edges, name, ts.drop_last()), (name, ts.last()));
    }
}

/// The edges of a graph ascend: a link counts once, however often it is written.
pub proof fn law_edges_ascend(rs: Seq<Rec>)
    ensures
        edges_ascend(graph_of(rs).edges),
    decreases rs.len(),
{
    if rs.len() > 0 {
        law_edges_ascend(rs.drop_last());
        lemma_ascend_targets(
            edges_of(rs.drop_last()),
            note_name(rs.last().path),
            links_of(content_of(rs.last())),
        );
    }
}

// ── Links that lead nowhere ────────────────────────────────────────────────

/// What the missing ones of some targets are.
proof fn lemma_missing(g: Graph, ts: Seq<Seq<char>>, t: Seq<char>)
    ensures
        missing_of(g, ts).contains((t, sources(g.edges, t))) <==> ts.contains(t) && record_named(
            g.records,
            t,
        ) is None,
    decreases ts.len(),
{
    if ts.len() > 0 {
        let rest = ts.drop_last();
        lemma_missing(g, rest, t);
        lemma_contains_push(rest, ts.last(), t);
        assert(rest.push(ts.last()) =~= ts);
        lemma_contains_push(
            missing_of(g, rest),
            (ts.last(), sources(g.edges, ts.last())),
            (t, sources(g.edges, t)),
        );
    }
}

/// A link leads nowhere exactly if a note has it and no note has its name.
pub proof fn law_unresolved(g: Graph, t: Seq<char>)
    ensures
        unresolved_links(g).contains((t, sources(g.edges, t))) <==> (sources(g.edges, t).len() > 0
            && record_named(g.records, t) is None),
{
    let all = all_targets(g.edges);
    lemma_missing(g, text_set(all), t);
    lemma_text_set(all);
    assert(text_set(all).contains(t) <==> all.contains(t));
    if all.contains(t) {
        let i = choose|i: int| 0 <= i < all.len() && all[i] == t;
        assert(g.edges[i] == (g.edges[i].0, t));
        lemma_sources(g.edges, g.edges[i].0, t);
        assert(g.edges.contains((g.edges[i].0, t)));
    }
    if sources(g.edges, t).len() > 0 {
        let a = sources(g.edges, t)[0];
        lemma_sources(g.edges, a, t);
        let i = choose|i: int| 0 <= i < g.edges.len() && g.edges[i] == (a, t);
        assert(all[i] == t);
    }
}

// ── Traversal ──────────────────────────────────────────────────────────────

/// Whether a note can be reached from another in a number of steps.
pub open spec fn in_steps(
    edges: Seq<(Seq<char>, Seq<char>)>,
    name: Seq<char>,
    direction: Direction,
    target: Seq<char>,
    d: nat,
) -> bool
    decreases d,
{
    if d == 0 {
        target == name
    } else {
        exists|m: Seq<char>|
            in_steps(edges, name, direction, m, (d - 1) as nat) && (#[trigger] neighbours(
                edges,
                m,
                direction,
            )).contains(target)
    }
}

/// Whether a note is a number of steps away from another, and no fewer.
pub open spec fn is_away(
    edges: Seq<(Seq<char>, Seq<char>)>,
    name: Seq<char>,
    direction: Direction,
    target: Seq<char>,
    d: nat,
) -> bool {
    &&& in_steps(edges, name, direction, target, d)
    &&& forall|e: nat| e < d ==> !#[trigger] in_steps(edges, name, direction, target, e)
}

/// The notes one step away from some notes.
proof fn lemma_next_notes(
    edges: Seq<(Seq<char>, Seq<char>)>,
    names: Seq<Seq<char>>,
    direction: Direction,
    t: Seq<char>,
)
    ensures
        next_notes(edges, names, direction).contains(t) <==> exists|i: int|
            0 <= i < names.len() && neighbours(edges, #[trigger] names[i], direction).contains(t),
    decreases names.len(),
{
    if names.len() > 0 {
        let rest = names.drop_last();
        lemma_next_notes(edges, rest, direction, t);
        let last = neighbours(edges, names.last(), direction);
        lemma_contains_add(next_notes(edges, rest, direction), last, t);
        if next_notes(edges, rest, direction).contains(t) {
            let i = choose|i: int|
                0 <= i < rest.len() && neighbours(edges, #[trigger] rest[i], direction).contains(t);
            assert(names[i] == rest[i]);
        }
        if last.contains(t) {
            assert(names[names.len() - 1] == names.last());
        }
        if exists|i: int|
            0 <= i < names.len() && neighbours(edges, #[trigger] names[i], direction).contains(
                t,
            ) {
            let i = choose|i: int|
                0 <= i < names.len() && neighbours(edges, #[trigger] names[i], direction).contains(
                    t,
                );
            if i < rest.len() {
                assert(rest[i] == names[i]);
            }
        }
    }
}

/// What is new among some notes, each once.
proof fn lemma_unseen(seen: Seq<Seq<char>>, names: Seq<Seq<char>>, t: Seq<char>)
    ensures
        unseen(seen, names).contains(t) <==> names.contains(t) && !seen.contains(t),
        unseen(seen, names).no_duplicates(),
    decreases names.len(),
{
    if names.len() > 0 {
        let rest = names.drop_last();
        lemma_unseen(seen, rest, t);
        lemma_unseen(seen, rest, names.last());
        lemma_contains_push(rest, names.last(), t);
        assert(rest.push(names.last()) =~= names);
        let before = unseen(seen, rest);
        lemma_contains_push(before, names.last(), t);
        let out = unseen(seen, names);
        assert forall|i: int, j: int| 0 <= i < out.len() && 0 <= j < out.len() && i != j implies out[i]
            != out[j] by {
            if i < before.len() && j < before.len() {
                assert(before[i] != before[j]);
            } else if i < before.len() {
                assert(before.contains(before[i]));
            } else {
                assert(before.contains(before[j]));
            }
        }
    }
}

/// The levels of a traversal are the notes at their distance, and what was seen are
/// the notes at most that far.
proof fn lemma_level(
    edges: Seq<(Seq<char>, Seq<char>)>,
    name: Seq<char>,
    direction: Direction,
    d: nat,
    t: Seq<char>,
)
    ensures
        level(edges, name, direction, d).0.contains(t) <==> is_away(edges, name, direction, t, d),
        level(edges, name, direction, d).1.contains(t) <==> exists|e: nat|
            e <= d && #[trigger] in_steps(edges, name, direction, t, e),
        level(edges, name, direction, d).0.no_duplicates(),
    decreases d,
{
    let here = level(edges, name, direction, d);
    if d == 0 {
        assert(seq![name][0] == name);
        assert(in_steps(edges, name, direction, name, 0));
        if here.1.contains(t) {
            assert(in_steps(edges, name, direction, t, 0));
        }
    } else {
        let p = (d - 1) as nat;
        let (last, seen) = level(edges, name, direction, p);
        lemma_level(edges, name, direction, p, t);
        let around = next_notes(edges, last, direction);
        lemma_next_notes(edges, last, direction, t);
        lemma_unseen(seen, around, t);
        lemma_contains_add(seen, here.0, t);
        if here.0.contains(t) {
            let i = choose|i: int|
                0 <= i < last.len() && neighbours(edges, #[trigger] last[i], direction).contains(t);
            lemma_level(edges, name, direction, p, last[i]);
            assert(last.contains(last[i]));
            assert(in_steps(edges, name, direction, last[i], p));
            assert(in_steps(edges, name, direction, t, d));
            assert(is_away(edges, name, direction, t, d));
        }
        if is_away(edges, name, direction, t, d) {
            let m = choose|m: Seq<char>|
                in_steps(edges, name, direction, m, p) && (#[trigger] neighbours(
                    edges,
                    m,
                    direction,
                )).contains(t);
            lemma_level(edges, name, direction, p, m);
            assert forall|e: nat| e < p implies !#[trigger] in_steps(
                edges,
                name,
                direction,
                m,
                e,
            ) by {
                if in_steps(edges, name, direction, m, e) {
                    assert(((e + 1) - 1) as nat == e);
                    assert(neighbours(edges, m, direction).contains(t));
                    assert(in_steps(edges, name, direction, t, (e + 1) as nat));
                }
            }
            assert(last.contains(m));
            let i = choose|i: int| 0 <= i < last.len() && last[i] == m;
            assert(neighbours(edges, last[i], direction).contains(t));
            assert(around.contains(t));
            assert(here.0.contains(t));
        }
        if exists|e: nat| e <= d && #[trigger] in_steps(edges, name, direction, t, e) {
            let e = choose|e: nat| e <= d && #[trigger] in_steps(edges, name, direction, t, e);
            if !seen.contains(t) {
                assert(e == d);
                assert(is_away(edges, name, direction, t, d));
            }
        }
    }
}

/// What is at a distance.
proof fn lemma_at_distance(names: Seq<Seq<char>>, d: nat, t: Seq<char>, e: nat)
    ensures
        at_distance(names, d).contains((t, e)) <==> names.contains(t) && e == d,
{
    let out = at_distance(names, d);
    if names.contains(t) && e == d {
        let i = choose|i: int| 0 <= i < names.len() && names[i] == t;
        assert(out[i] == (t, e));
    }
    if out.contains((t, e)) {
        let i = choose|i: int| 0 <= i < out.len() && out[i] == (t, e);
        assert(names[i] == t);
    }
}

/// A traversal finds a note at a distance exactly if it is that many steps away and
/// no fewer, and not beyond the depth.
pub proof fn law_shortest(
    edges: Seq<(Seq<char>, Seq<char>)>,
    name: Seq<char>,
    direction: Direction,
    depth: nat,
    t: Seq<char>,
    d: nat,
)
    ensures
        reached(edges, name, direction, depth).contains((t, d)) <==> d <= depth && is_away(
            edges,
            name,
            direction,
            t,
            d,
        ),
    decreases depth,
{
    lemma_level(edges, name, direction, depth, t);
    let here = level(edges, name, direction, depth).0;
    lemma_at_distance(here, depth, t, d);
    if depth > 0 {
        law_shortest(edges, name, direction, (depth - 1) as nat, t, d);
        lemma_contains_add(
            reached(edges, name, direction, (depth - 1) as nat),
            at_distance(here, depth),
            (t, d),
        );
    }
}

/// A traversal gives its notes nearest first, each once, and begins with the note it
/// starts from.
pub proof fn law_nearest_first(
    edges: Seq<(Seq<char>, Seq<char>)>,
    name: Seq<char>,
    direction: Direction,
    depth: nat,
)
    ensures
        reached(edges, name, direction, depth).len() > 0,
        reached(edges, name, direction, depth)[0] == (name, 0nat),
        forall|i: int, j: int|
            0 <= i < j < reached(edges, name, direction, depth).len() ==> (#[trigger] reached(
                edges,
                name,
                direction,
                depth,
            )[i]).1 <= (#[trigger] reached(edges, name, direction, depth)[j]).1 && reached(
                edges,
                name,
                direction,
                depth,
            )[i].0 != reached(edges, name, direction, depth)[j].0,
    decreases depth,
{
    let out = reached(edges, name, direction, depth);
    if depth > 0 {
        let p = (depth - 1) as nat;
        law_nearest_first(edges, name, direction, p);
        let before = reached(edges, name, direction, p);
        let here = level(edges, name, direction, depth).0;
        lemma_level(edges, name, direction, depth, name);
        assert(out[0] == before[0]);
        assert forall|i: int, j: int| 0 <= i < j < out.len() implies (#[trigger] out[i]).1 <= (
        #[trigger] out[j]).1 && out[i].0 != out[j].0 by {
            if j < before.len() {
                assert(out[i] == before[i]);
                assert(out[j] == before[j]);
            } else if i < before.len() {
                assert(out[i] == before[i]);
                assert(before.contains((before[i].0, before[i].1)));
                law_shortest(edges, name, direction, p, before[i].0, before[i].1);
                let k = j - before.len();
                assert(out[j] == (here[k], depth));
                assert(here.contains(here[k]));
                lemma_level(edges, name, direction, depth, here[k]);
            } else {
                assert(out[i] == (here[i - before.len()], depth));
                assert(out[j] == (here[j - before.len()], depth));
            }
        }
    }
}

} // verus!
