//! The graph of the links between notes.

use crate::record::{
    content_of, copy_record, lemma_recs_push, lemma_val_list, lemma_vals_push, note_name, recs, val,
    vals, Rec, Record, Val, Value,
};
use crate::schema::{link_target, target_end};
use crate::text::{
    char_at, find_char, from_chars, has_string, insert_text, lemma_char_at, lemma_char_at_skip,
    lemma_string_views_push, lemma_text_order, lines, lines_of, order_texts, push_all, same_text,
    slice, sort_texts, starts, starts_with, string_views, text_less, text_set, to_chars, trim,
    trim_start, trimmed, trimmed_start, views, Order,
};
use vstd::prelude::*;

pub mod laws;
pub mod texts;

verus! {

/// The links between notes, by name, and the notes that are there.
#[derive(Debug, PartialEq, Eq)]
pub struct LinkGraph {
    pub records: Vec<Record>,
    /// Pairs of the linking note and the note linked to, ascending.
    pub edges: Vec<(String, String)>,
}

/// A graph with its texts as sequences of characters.
pub struct Graph {
    pub records: Seq<Rec>,
    pub edges: Seq<(Seq<char>, Seq<char>)>,
}

/// What edges are.
pub open spec fn edge_views(v: Seq<(String, String)>) -> Seq<(Seq<char>, Seq<char>)> {
    Seq::new(v.len(), |i: int| (v[i].0@, v[i].1@))
}

impl View for LinkGraph {
    type V = Graph;

    open spec fn view(&self) -> Graph {
        Graph { records: recs(self.records@), edges: edge_views(self.edges@) }
    }
}

/// What a graph that may be missing is.
pub open spec fn graph_view(g: Option<&LinkGraph>) -> Option<Graph> {
    match g {
        Some(g) => Some(g@),
        None => None,
    }
}

/// The notes that a note links to, in the order of the edges.
pub open spec fn targets(edges: Seq<(Seq<char>, Seq<char>)>, name: Seq<char>) -> Seq<Seq<char>>
    decreases edges.len(),
{
    if edges.len() == 0 {
        seq![]
    } else if edges.last().0 == name {
        targets(edges.drop_last(), name).push(edges.last().1)
    } else {
        targets(edges.drop_last(), name)
    }
}

/// The notes that link to a note, in the order of the edges.
pub open spec fn sources(edges: Seq<(Seq<char>, Seq<char>)>, name: Seq<char>) -> Seq<Seq<char>>
    decreases edges.len(),
{
    if edges.len() == 0 {
        seq![]
    } else if edges.last().1 == name {
        sources(edges.drop_last(), name).push(edges.last().0)
    } else {
        sources(edges.drop_last(), name)
    }
}

/// The last of some records with a name.
pub open spec fn record_named(records: Seq<Rec>, name: Seq<char>) -> Option<Rec>
    decreases records.len(),
{
    if records.len() == 0 {
        None
    } else if note_name(records.last().path) == name {
        Some(records.last())
    } else {
        record_named(records.drop_last(), name)
    }
}

/// Texts as values.
pub open spec fn text_vals(names: Seq<Seq<char>>) -> Seq<Val> {
    Seq::new(names.len(), |i: int| Val::Text(names[i]))
}

/// The value of a field computed from the graph.
pub open spec fn graph_value(g: Graph, name: Seq<char>, key: Seq<char>) -> Val {
    if key == "_links"@ {
        Val::List(text_vals(targets(g.edges, name)))
    } else if key == "_link_count"@ {
        Val::Int(targets(g.edges, name).len() as i64)
    } else if key == "_backlinks"@ {
        Val::List(text_vals(sources(g.edges, name)))
    } else {
        Val::Int(sources(g.edges, name).len() as i64)
    }
}

/// Makes a list value of texts.
pub fn text_list(names: &Vec<String>) -> (v: Value)
    ensures
        val(v) == Val::List(text_vals(string_views(names@))),
{
    let ghost all = text_vals(string_views(names@));
    let mut out: Vec<Value> = Vec::new();
    let mut i: usize = 0;
    assert(vals(out@) =~= all.take(0));
    while i < names.len()
        invariant
            all == text_vals(string_views(names@)),
            i <= names.len(),
            vals(out@) == all.take(i as int),
        decreases names.len() - i,
    {
        let v: Value = Value::String(names[i].clone());
        proof {
            lemma_vals_push(out@, v);
        }
        out.push(v);
        i += 1;
        assert(vals(out@) =~= all.take(i as int));
    }
    assert(vals(out@) =~= all);
    proof {
        lemma_val_list(out);
    }
    Value::List(out)
}

/// A count as an integer value.
fn count_value(n: usize) -> (v: Value)
    ensures
        val(v) == Val::Int(n as i64),
{
    Value::Integer(n as i64)
}

impl LinkGraph {
    /// The notes that a note links to.
    pub fn outgoing_links(&self, name: &str) -> (r: Vec<String>)
        ensures
            string_views(r@) == targets(self@.edges, name@),
    {
        let ghost all = self@.edges;
        let mut out: Vec<String> = Vec::new();
        let mut i: usize = 0;
        assert(all.take(0) =~= seq![]);
        assert(string_views(out@) =~= seq![]);
        while i < self.edges.len()
            invariant
                all == edge_views(self.edges@),
                i <= self.edges.len(),
                string_views(out@) == targets(all.take(i as int), name@),
            decreases self.edges.len() - i,
        {
            assert(all.take(i + 1).drop_last() =~= all.take(i as int));
            if same_text(self.edges[i].0.as_str(), name) {
                let t: String = self.edges[i].1.clone();
                proof {
                    lemma_string_views_push(out@, t);
                }
                out.push(t);
            }
            i += 1;
        }
        assert(all.take(i as int) =~= all);
        out
    }

    /// The notes that link to a note.
    pub fn incoming_links(&self, name: &str) -> (r: Vec<String>)
        ensures
            string_views(r@) == sources(self@.edges, name@),
    {
        let ghost all = self@.edges;
        let mut out: Vec<String> = Vec::new();
        let mut i: usize = 0;
        assert(all.take(0) =~= seq![]);
        assert(string_views(out@) =~= seq![]);
        while i < self.edges.len()
            invariant
                all == edge_views(self.edges@),
                i <= self.edges.len(),
                string_views(out@) == sources(all.take(i as int), name@),
            decreases self.edges.len() - i,
        {
            assert(all.take(i + 1).drop_last() =~= all.take(i as int));
            if same_text(self.edges[i].1.as_str(), name) {
                let t: String = self.edges[i].0.clone();
                proof {
                    lemma_string_views_push(out@, t);
                }
                out.push(t);
            }
            i += 1;
        }
        assert(all.take(i as int) =~= all);
        out
    }

    /// The record with a name; the last one where several have it.
    pub fn record_by_name(&self, name: &str) -> (r: Option<&Record>)
        ensures
            match r {
                Some(x) => record_named(self@.records, name@) == Some(x@),
                None => record_named(self@.records, name@) is None,
            },
    {
        let ghost all = self@.records;
        let mut j: usize = self.records.len();
        assert(all.take(j as int) =~= all);
        while j > 0
            invariant
                all == recs(self.records@),
                all == self@.records,
                j <= self.records.len(),
                record_named(all, name@) == record_named(all.take(j as int), name@),
            decreases j,
        {
            assert(all.take(j as int).drop_last() =~= all.take(j - 1));
            assert(all.take(j as int).last() == self.records@[j - 1]@);
            if same_text(self.records[j - 1].virtual_name().as_str(), name) {
                return Some(&self.records[j - 1]);
            }
            j -= 1;
        }
        None
    }

    /// The value of a field computed from the graph.
    pub fn virtual_field(&self, name: &str, key: &str) -> (v: Value)
        ensures
            val(v) == graph_value(self@, name@, key@),
    {
        if same_text(key, "_links") {
            text_list(&self.outgoing_links(name))
        } else if same_text(key, "_link_count") {
            count_value(self.outgoing_links(name).len())
        } else if same_text(key, "_backlinks") {
            text_list(&self.incoming_links(name))
        } else {
            count_value(self.incoming_links(name).len())
        }
    }
}

// ── Links in a text ────────────────────────────────────────────────────────

/// The first square bracket at or after a position.
pub open spec fn bracket_at(s: Seq<char>, from: int) -> Option<int>
    decreases s.len() - from,
{
    if from < 0 || from >= s.len() {
        None
    } else if s[from] == '[' || s[from] == ']' {
        Some(from)
    } else {
        bracket_at(s, from + 1)
    }
}

/// Where the link that opens before `from` closes: at the first bracket, if two
/// closing ones stand there.
pub open spec fn link_close(s: Seq<char>, from: int) -> Option<int> {
    match bracket_at(s, from) {
        Some(e) => if s[e] == ']' && e + 1 < s.len() && s[e + 1] == ']' {
            Some(e)
        } else {
            None
        },
        None => None,
    }
}

/// What `bracket_at` finds lies in the text.
pub proof fn lemma_bracket_at(s: Seq<char>, from: int)
    ensures
        match bracket_at(s, from) {
            Some(e) => from <= e < s.len(),
            None => true,
        },
    decreases s.len() - from,
{
    if 0 <= from < s.len() && s[from] != '[' && s[from] != ']' {
        lemma_bracket_at(s, from + 1);
    }
}

/// The target of a link with some text between its brackets; nothing where it
/// names no note.
pub open spec fn target_of(inner: Seq<char>) -> Seq<Seq<char>> {
    let t = trimmed(link_target(inner));
    if t.len() > 0 {
        seq![t]
    } else {
        seq![]
    }
}

/// The targets of the links in a text from a position on.
pub open spec fn links_from(s: Seq<char>, i: int) -> Seq<Seq<char>>
    decreases s.len() - i,
{
    if i < 0 || i + 1 >= s.len() {
        seq![]
    } else if s[i] == '[' && s[i + 1] == '[' {
        match link_close(s, i + 2) {
            Some(e) => if i + 2 <= e < s.len() {
                target_of(s.subrange(i + 2, e)) + links_from(s, e + 2)
            } else {
                seq![]
            },
            None => links_from(s, i + 1),
        }
    } else {
        links_from(s, i + 1)
    }
}

/// A line without the code between backticks.
pub open spec fn without_code(s: Seq<char>) -> Seq<char>
    decreases s.len(),
{
    match char_at(s, '`', 0) {
        Some(p) => match char_at(s, '`', p + 1) {
            Some(q) => if 0 <= p < q < s.len() {
                s.take(p) + without_code(s.skip(q + 1))
            } else {
                s
            },
            None => s,
        },
        None => s,
    }
}

/// Whether a line opens or closes a block of code.
pub open spec fn is_code_fence(line: Seq<char>) -> bool {
    starts(trimmed_start(line), "```"@) || starts(trimmed_start(line), "~~~"@)
}

/// Whether line `n` stands in a block of code.
pub open spec fn in_code(ls: Seq<Seq<char>>, n: int) -> bool
    decreases n,
{
    if n <= 0 {
        false
    } else {
        is_code_fence(ls[n - 1]) != in_code(ls, n - 1)
    }
}

/// The targets of the links in the first `n` lines, but for those in code.
pub open spec fn links_in_lines(ls: Seq<Seq<char>>, n: int) -> Seq<Seq<char>>
    decreases n,
{
    if n <= 0 {
        seq![]
    } else if is_code_fence(ls[n - 1]) || in_code(ls, n - 1) {
        links_in_lines(ls, n - 1)
    } else {
        links_in_lines(ls, n - 1) + links_from(without_code(ls[n - 1]), 0)
    }
}

/// The targets of the links in a text, ascending, each once.
pub open spec fn links_of(content: Seq<char>) -> Seq<Seq<char>> {
    text_set(links_in_lines(lines_of(content), lines_of(content).len() as int))
}

/// Drops the code between backticks from a line.
fn strip_code(line: &Vec<char>) -> (r: Vec<char>)
    ensures
        r@ == without_code(line@),
{
    let mut out: Vec<char> = Vec::new();
    let mut i: usize = 0;
    let ghost s = line@;
    assert(s.skip(0) =~= s);
    assert(out@ + without_code(s.skip(0)) =~= without_code(s));
    while i <= line.len()
        invariant
            s == line@,
            i <= line.len(),
            out@ + without_code(s.skip(i as int)) == without_code(s),
        decreases line.len() + 1 - i,
    {
        let ghost rest = s.skip(i as int);
        proof {
            lemma_char_at_skip(s, '`', i as int, i as int);
            lemma_char_at(s, '`', i as int);
        }
        match find_char(line, '`', i) {
            Some(p) => {
                proof {
                    lemma_char_at_skip(s, '`', i as int, p + 1);
                    lemma_char_at(s, '`', p + 1);
                }
                match find_char(line, '`', p + 1) {
                    Some(q) => {
                        let ghost before = out@;
                        push_all(&mut out, &slice(line, i, p));
                        proof {
                            assert(s.subrange(i as int, p as int) =~= rest.take(p - i));
                            assert(rest.skip(q - i + 1) =~= s.skip(q + 1));
                            assert(out@ + without_code(s.skip(q + 1)) =~= before + (rest.take(p - i)
                                + without_code(rest.skip(q - i + 1))));
                        }
                        i = q + 1;
                        continue ;
                    },
                    None => {},
                }
            },
            None => {},
        }
        let ghost before = out@;
        push_all(&mut out, &slice(line, i, line.len()));
        assert(out@ =~= before + rest);
        return out;
    }
    out
}

/// Reads the target of a link from the text between its brackets.
fn read_target(inner: &Vec<char>) -> (r: Vec<char>)
    ensures
        r@ == trimmed(link_target(inner@)),
{
    let mut i: usize = 0;
    while i < inner.len() && inner[i] != '|' && inner[i] != '#'
        invariant
            i <= inner.len(),
            target_end(inner@, 0) == target_end(inner@, i as int),
        decreases inner.len() - i,
    {
        i += 1;
    }
    let t: Vec<char> = slice(inner, 0, i);
    assert(t@ =~= link_target(inner@));
    trim(&t)
}

/// Finds the first square bracket at or after a position.
fn find_bracket(s: &Vec<char>, from: usize) -> (r: Option<usize>)
    ensures
        match r {
            Some(e) => bracket_at(s@, from as int) == Some(e as int),
            None => bracket_at(s@, from as int) is None,
        },
{
    let mut i: usize = from;
    while i < s.len()
        invariant
            bracket_at(s@, from as int) == bracket_at(s@, i as int),
        decreases s.len() - i,
    {
        if s[i] == '[' || s[i] == ']' {
            return Some(i);
        }
        i += 1;
    }
    None
}

/// Adds the targets of the links in a text to ascending ones.
fn collect_links(s: &Vec<char>, out: &mut Vec<String>, Ghost(found): Ghost<Seq<Seq<char>>>)
    requires
        string_views(old(out)@) == text_set(found),
    ensures
        string_views(final(out)@) == text_set(found + links_from(s@, 0)),
{
    let ghost mut all = found;
    let mut i: usize = 0;
    assert(all + links_from(s@, 0) =~= found + links_from(s@, 0));
    while i < s.len() && i < s.len() - 1
        invariant
            i <= s.len() + 1,
            string_views(out@) == text_set(all),
            all + links_from(s@, i as int) == found + links_from(s@, 0),
        decreases s.len() + 1 - i,
    {
        if s[i] == '[' && s[i + 1] == '[' {
            proof {
                lemma_bracket_at(s@, i + 2);
            }
            match find_bracket(s, i + 2) {
                Some(e) => {
                    if s[e] == ']' && e < s.len() - 1 && s[e + 1] == ']' {
                        let inner: Vec<char> = slice(s, i + 2, e);
                        let t: Vec<char> = read_target(&inner);
                        let ghost before = all;
                        if t.len() > 0 {
                            insert_text(out, from_chars(&t).as_str());
                            proof {
                                assert(all.push(t@).drop_last() =~= all);
                                all = all.push(t@);
                            }
                        }
                        assert(all + links_from(s@, e + 2) =~= before + (target_of(inner@)
                            + links_from(s@, e + 2)));
                        i = e + 2;
                        continue ;
                    }
                },
                None => {},
            }
        }
        i += 1;
    }
    assert(links_from(s@, i as int) =~= seq![]);
    assert(all =~= found + links_from(s@, 0));
}

/// Finds the targets of the links in a text, ascending, each once. Links in code
/// do not count.
pub fn extract_links(content: &str) -> (r: Vec<String>)
    ensures
        string_views(r@) == links_of(content@),
{
    let all: Vec<Vec<char>> = lines(&to_chars(content));
    let ghost ls = lines_of(content@);
    let mut out: Vec<String> = Vec::new();
    let mut code: bool = false;
    let mut i: usize = 0;
    assert(string_views(out@) =~= seq![]);
    while i < all.len()
        invariant
            ls == views(all@),
            i <= all.len(),
            code == in_code(ls, i as int),
            string_views(out@) == text_set(links_in_lines(ls, i as int)),
        decreases all.len() - i,
    {
        assert(ls[i as int] == all@[i as int]@);
        let t: Vec<char> = trim_start(&all[i]);
        if starts_with(&t, "```") || starts_with(&t, "~~~") {
            code = !code;
        } else if !code {
            let plain: Vec<char> = strip_code(&all[i]);
            collect_links(&plain, &mut out, Ghost(links_in_lines(ls, i as int)));
        }
        i += 1;
    }
    out
}

// ── Building the graph ─────────────────────────────────────────────────────

/// Whether an edge comes before another: by the linking note, then by the note
/// linked to.
pub open spec fn edge_less(a: (Seq<char>, Seq<char>), b: (Seq<char>, Seq<char>)) -> bool {
    text_less(a.0, b.0) || (a.0 == b.0 && text_less(a.1, b.1))
}

/// Ascending edges with one more, unless it is there.
pub open spec fn with_edge(
    edges: Seq<(Seq<char>, Seq<char>)>,
    e: (Seq<char>, Seq<char>),
) -> Seq<(Seq<char>, Seq<char>)>
    decreases edges.len(),
{
    if edges.len() == 0 {
        seq![e]
    } else if edges[0] == e {
        edges
    } else if edge_less(e, edges[0]) {
        seq![e] + edges
    } else {
        seq![edges[0]] + with_edge(edges.skip(1), e)
    }
}

/// Ascending edges with those from a note to some targets.
pub open spec fn with_targets(
    edges: Seq<(Seq<char>, Seq<char>)>,
    name: Seq<char>,
    ts: Seq<Seq<char>>,
) -> Seq<(Seq<char>, Seq<char>)>
    decreases ts.len(),
{
    if ts.len() == 0 {
        edges
    } else {
        with_edge(with_targets(edges, name, ts.drop_last()), (name, ts.last()))
    }
}

/// The links between some notes, ascending.
pub open spec fn edges_of(rs: Seq<Rec>) -> Seq<(Seq<char>, Seq<char>)>
    decreases rs.len(),
{
    if rs.len() == 0 {
        seq![]
    } else {
        with_targets(
            edges_of(rs.drop_last()),
            note_name(rs.last().path),
            links_of(content_of(rs.last())),
        )
    }
}

/// The graph of some notes.
pub open spec fn graph_of(rs: Seq<Rec>) -> Graph {
    Graph { records: rs, edges: edges_of(rs) }
}

/// Edges followed by one more.
proof fn lemma_edge_views_push(v: Seq<(String, String)>, x: (String, String))
    ensures
        edge_views(v.push(x)) == edge_views(v).push((x.0@, x.1@)),
{
    assert(edge_views(v.push(x)) =~= edge_views(v).push((x.0@, x.1@)));
}

/// Puts an edge among ascending ones, unless it is there.
fn insert_edge(edges: &mut Vec<(String, String)>, a: &str, b: &str)
    ensures
        edge_views(final(edges)@) == with_edge(edge_views(old(edges)@), (a@, b@)),
{
    let ghost before = edge_views(edges@);
    let ghost e = (a@, b@);
    let mut i: usize = 0;
    assert(before.skip(0) =~= before);
    assert(before.take(0) + with_edge(before.skip(0), e) =~= with_edge(before, e));
    while i < edges.len()
        invariant
            i <= edges.len(),
            e == (a@, b@),
            edge_views(edges@) == before,
            before == edge_views(old(edges)@),
            before.take(i as int) + with_edge(before.skip(i as int), e) == with_edge(before, e),
        decreases edges.len() - i,
    {
        let ghost rest = before.skip(i as int);
        assert(rest[0] == before[i as int]);
        proof {
            lemma_text_order(a@, before[i as int].0);
            lemma_text_order(b@, before[i as int].1);
        }
        let first: Order = order_texts(a, edges[i].0.as_str());
        let second: Order = order_texts(b, edges[i].1.as_str());
        let o: Order = match first {
            Order::Equal => second,
            _ => first,
        };
        match o {
            Order::Equal => {
                assert(before =~= before.take(i as int) + rest);
                return ;
            },
            Order::Less => {
                edges.insert(i, (a.to_owned(), b.to_owned()));
                assert(edge_views(edges@) =~= before.take(i as int) + (seq![e] + rest));
                return ;
            },
            Order::Greater => {
                proof {
                    assert(rest.skip(1) =~= before.skip(i + 1));
                    assert(before.take(i as int) + (seq![rest[0]] + with_edge(rest.skip(1), e))
                        =~= before.take(i + 1) + with_edge(before.skip(i + 1), e));
                }
                i += 1;
            },
        }
    }
    let x: (String, String) = (a.to_owned(), b.to_owned());
    proof {
        lemma_edge_views_push(edges@, x);
        assert(before.skip(i as int) =~= seq![]);
        assert(before.take(i as int) =~= before);
    }
    edges.push(x);
    assert(edge_views(edges@) =~= before + seq![e]);
}

/// A link to a note that is not there, with the notes that have it.
#[derive(Debug, PartialEq, Eq)]
pub struct UnresolvedLink {
    pub target: String,
    pub sources: Vec<String>,
}

impl View for UnresolvedLink {
    type V = (Seq<char>, Seq<Seq<char>>);

    open spec fn view(&self) -> (Seq<char>, Seq<Seq<char>>) {
        (self.target@, string_views(self.sources@))
    }
}

/// What unresolved links are.
pub open spec fn unresolved_views(v: Seq<UnresolvedLink>) -> Seq<(Seq<char>, Seq<Seq<char>>)> {
    Seq::new(v.len(), |i: int| v[i]@)
}

/// The targets of some edges.
pub open spec fn all_targets(edges: Seq<(Seq<char>, Seq<char>)>) -> Seq<Seq<char>> {
    Seq::new(edges.len(), |i: int| edges[i].1)
}

/// Those of some targets that no record has as its name, each with the notes that
/// link to it.
pub open spec fn missing_of(g: Graph, ts: Seq<Seq<char>>) -> Seq<(Seq<char>, Seq<Seq<char>>)>
    decreases ts.len(),
{
    if ts.len() == 0 {
        seq![]
    } else if record_named(g.records, ts.last()) is None {
        missing_of(g, ts.drop_last()).push((ts.last(), sources(g.edges, ts.last())))
    } else {
        missing_of(g, ts.drop_last())
    }
}

/// The links of a graph that lead nowhere, ascending.
pub open spec fn unresolved_links(g: Graph) -> Seq<(Seq<char>, Seq<Seq<char>>)> {
    missing_of(g, text_set(all_targets(g.edges)))
}

impl LinkGraph {
    /// Builds the graph of some notes from the links in their texts.
    pub fn build(records: &Vec<Record>) -> (g: LinkGraph)
        ensures
            g@ == graph_of(recs(records@)),
    {
        let ghost rs = recs(records@);
        let mut kept: Vec<Record> = Vec::new();
        let mut edges: Vec<(String, String)> = Vec::new();
        let mut i: usize = 0;
        assert(rs.take(0) =~= seq![]);
        assert(edge_views(edges@) =~= seq![]);
        assert(recs(kept@) =~= seq![]);
        while i < records.len()
            invariant
                rs == recs(records@),
                i <= records.len(),
                recs(kept@) == rs.take(i as int),
                edge_views(edges@) == edges_of(rs.take(i as int)),
            decreases records.len() - i,
        {
            assert(rs.take(i + 1).drop_last() =~= rs.take(i as int));
            assert(rs.take(i + 1).last() == records@[i as int]@);
            let name: String = records[i].virtual_name();
            let ts: Vec<String> = extract_links(records[i].load_content().as_str());
            let ghost start = edge_views(edges@);
            let ghost tv = string_views(ts@);
            let mut j: usize = 0;
            assert(tv.take(0) =~= seq![]);
            while j < ts.len()
                invariant
                    tv == string_views(ts@),
                    j <= ts.len(),
                    edge_views(edges@) == with_targets(start, name@, tv.take(j as int)),
                decreases ts.len() - j,
            {
                assert(tv.take(j + 1).drop_last() =~= tv.take(j as int));
                insert_edge(&mut edges, name.as_str(), ts[j].as_str());
                j += 1;
            }
            assert(tv.take(j as int) =~= tv);
            let c: Record = copy_record(&records[i]);
            proof {
                lemma_recs_push(kept@, c);
                assert(recs(kept@).push(c@) =~= rs.take(i + 1));
            }
            kept.push(c);
            i += 1;
        }
        assert(rs.take(i as int) =~= rs);
        LinkGraph { records: kept, edges }
    }

    /// Tells whether a note links to another.
    pub fn has_link_to(&self, name: &str, target: &str) -> (r: bool)
        ensures
            r == targets(self@.edges, name@).contains(target@),
    {
        has_string(&self.outgoing_links(name), target)
    }

    /// Tells whether a note is linked from another.
    pub fn has_link_from(&self, name: &str, source: &str) -> (r: bool)
        ensures
            r == sources(self@.edges, name@).contains(source@),
    {
        has_string(&self.incoming_links(name), source)
    }

    /// The links that lead to no note, ascending.
    pub fn unresolved(&self) -> (r: Vec<UnresolvedLink>)
        ensures
            unresolved_views(r@) == unresolved_links(self@),
    {
        let ghost g = self@;
        let mut all: Vec<String> = Vec::new();
        let mut i: usize = 0;
        assert(string_views(all@) =~= all_targets(g.edges).take(0));
        while i < self.edges.len()
            invariant
                g == self@,
                i <= self.edges.len(),
                string_views(all@) == all_targets(g.edges).take(i as int),
            decreases self.edges.len() - i,
        {
            let t: String = self.edges[i].1.clone();
            proof {
                lemma_string_views_push(all@, t);
                assert(string_views(all@).push(t@) =~= all_targets(g.edges).take(i + 1));
            }
            all.push(t);
            i += 1;
        }
        assert(all_targets(g.edges).take(i as int) =~= all_targets(g.edges));
        let ts: Vec<String> = sort_texts(&all);
        let ghost tv = string_views(ts@);
        let mut out: Vec<UnresolvedLink> = Vec::new();
        let mut j: usize = 0;
        assert(tv.take(0) =~= seq![]);
        assert(unresolved_views(out@) =~= seq![]);
        while j < ts.len()
            invariant
                g == self@,
                tv == string_views(ts@),
                j <= ts.len(),
                unresolved_views(out@) == missing_of(g, tv.take(j as int)),
            decreases ts.len() - j,
        {
            assert(tv.take(j + 1).drop_last() =~= tv.take(j as int));
            if self.record_by_name(ts[j].as_str()).is_none() {
                let u: UnresolvedLink = UnresolvedLink {
                    target: ts[j].clone(),
                    sources: self.incoming_links(ts[j].as_str()),
                };
                let ghost before = out@;
                out.push(u);
                assert(unresolved_views(out@) =~= unresolved_views(before).push(u@));
            }
            j += 1;
        }
        assert(tv.take(j as int) =~= tv);
        out
    }
}

// ── Traversal ──────────────────────────────────────────────────────────────

/// Which links a traversal follows.
#[derive(Debug, Clone, Copy, PartialEq, Eq, Structural)]
pub enum Direction {
    Outgoing,
    Incoming,
    Both,
}

/// The notes one step away from a note.
pub open spec fn neighbours(
    edges: Seq<(Seq<char>, Seq<char>)>,
    name: Seq<char>,
    direction: Direction,
) -> Seq<Seq<char>> {
    match direction {
        Direction::Outgoing => targets(edges, name),
        Direction::Incoming => sources(edges, name),
        Direction::Both => targets(edges, name) + sources(edges, name),
    }
}

/// The notes one step away from some notes.
pub open spec fn next_notes(
    edges: Seq<(Seq<char>, Seq<char>)>,
    names: Seq<Seq<char>>,
    direction: Direction,
) -> Seq<Seq<char>>
    decreases names.len(),
{
    if names.len() == 0 {
        seq![]
    } else {
        next_notes(edges, names.drop_last(), direction) + neighbours(
            edges,
            names.last(),
            direction,
        )
    }
}

/// Those of some notes that were not seen, each once.
pub open spec fn unseen(seen: Seq<Seq<char>>, names: Seq<Seq<char>>) -> Seq<Seq<char>>
    decreases names.len(),
{
    if names.len() == 0 {
        seq![]
    } else {
        let before = unseen(seen, names.drop_last());
        if seen.contains(names.last()) || before.contains(names.last()) {
            before
        } else {
            before.push(names.last())
        }
    }
}

/// The notes at a distance from a note, and those at most that far.
pub open spec fn level(
    edges: Seq<(Seq<char>, Seq<char>)>,
    name: Seq<char>,
    direction: Direction,
    d: nat,
) -> (Seq<Seq<char>>, Seq<Seq<char>>)
    decreases d,
{
    if d == 0 {
        (seq![name], seq![name])
    } else {
        let (last, seen) = level(edges, name, direction, (d - 1) as nat);
        let new = unseen(seen, next_notes(edges, last, direction));
        (new, seen + new)
    }
}

/// Notes with their distance.
pub open spec fn at_distance(names: Seq<Seq<char>>, d: nat) -> Seq<(Seq<char>, nat)> {
    Seq::new(names.len(), |i: int| (names[i], d))
}

/// The notes at most `depth` steps away from a note, nearest first, with their
/// distances.
pub open spec fn reached(
    edges: Seq<(Seq<char>, Seq<char>)>,
    name: Seq<char>,
    direction: Direction,
    depth: nat,
) -> Seq<(Seq<char>, nat)>
    decreases depth,
{
    if depth == 0 {
        at_distance(seq![name], 0)
    } else {
        reached(edges, name, direction, (depth - 1) as nat) + at_distance(
            level(edges, name, direction, depth).0,
            depth,
        )
    }
}

/// What hits of a traversal are.
pub open spec fn hit_views(v: Seq<(String, usize)>) -> Seq<(Seq<char>, nat)> {
    Seq::new(v.len(), |i: int| (v[i].0@, v[i].1 as nat))
}

/// Once no new note is found, none is found further on.
proof fn lemma_level_ends(
    edges: Seq<(Seq<char>, Seq<char>)>,
    name: Seq<char>,
    direction: Direction,
    d: nat,
    n: nat,
)
    requires
        d <= n,
        level(edges, name, direction, d).0.len() == 0,
    ensures
        level(edges, name, direction, n).0.len() == 0,
        reached(edges, name, direction, n) == reached(edges, name, direction, d),
    decreases n,
{
    if n > d {
        lemma_level_ends(edges, name, direction, d, (n - 1) as nat);
        let (last, seen) = level(edges, name, direction, (n - 1) as nat);
        assert(next_notes(edges, last, direction).len() == 0);
        assert(reached(edges, name, direction, n) =~= reached(edges, name, direction, (n - 1) as nat));
    } else if d == 0 {
        assert(false);
    }
}

impl LinkGraph {
    /// The notes one step away from a note.
    fn step(&self, name: &str, direction: Direction) -> (r: Vec<String>)
        ensures
            string_views(r@) == neighbours(self@.edges, name@, direction),
    {
        match direction {
            Direction::Outgoing => self.outgoing_links(name),
            Direction::Incoming => self.incoming_links(name),
            Direction::Both => {
                let mut a: Vec<String> = self.outgoing_links(name);
                let b: Vec<String> = self.incoming_links(name);
                push_strings(&mut a, &b);
                a
            },
        }
    }

    /// The notes at most `depth` steps away from a note, nearest first, with their
    /// distances. The note itself comes first.
    pub fn traverse(&self, name: &str, depth: usize, direction: Direction) -> (r: Vec<
        (String, usize),
    >)
        ensures
            hit_views(r@) == reached(self@.edges, name@, direction, depth as nat),
    {
        let ghost edges = self@.edges;
        let mut hits: Vec<(String, usize)> = Vec::new();
        let mut seen: Vec<String> = Vec::new();
        let mut last: Vec<String> = Vec::new();
        hits.push((name.to_owned(), 0));
        seen.push(name.to_owned());
        last.push(name.to_owned());
        assert(hit_views(hits@) =~= at_distance(seq![name@], 0));
        assert(string_views(seen@) =~= seq![name@]);
        assert(string_views(last@) =~= seq![name@]);
        let mut d: usize = 0;
        while d < depth
            invariant
                edges == self@.edges,
                d <= depth,
                hit_views(hits@) == reached(edges, name@, direction, d as nat),
                (string_views(last@), string_views(seen@)) == level(
                    edges,
                    name@,
                    direction,
                    d as nat,
                ),
            decreases depth - d,
        {
            if last.len() == 0 {
                proof {
                    assert(string_views(last@).len() == 0);
                    lemma_level_ends(edges, name@, direction, d as nat, depth as nat);
                }
                return hits;
            }
            let mut all: Vec<String> = Vec::new();
            let mut i: usize = 0;
            let ghost lv = string_views(last@);
            let ghost sv = string_views(seen@);
            assert(lv.take(0) =~= seq![]);
            assert(string_views(all@) =~= seq![]);
            while i < last.len()
                invariant
                    edges == self@.edges,
                    lv == string_views(last@),
                    i <= last.len(),
                    string_views(all@) == next_notes(edges, lv.take(i as int), direction),
                decreases last.len() - i,
            {
                assert(lv.take(i + 1).drop_last() =~= lv.take(i as int));
                let more: Vec<String> = self.step(last[i].as_str(), direction);
                push_strings(&mut all, &more);
                i += 1;
            }
            assert(lv.take(i as int) =~= lv);
            let mut new: Vec<String> = Vec::new();
            let ghost av = string_views(all@);
            let ghost hv = hit_views(hits@);
            d += 1;
            let mut j: usize = 0;
            assert(av.take(0) =~= seq![]);
            assert(string_views(new@) =~= seq![]);
            assert(hit_views(hits@) =~= hv + at_distance(seq![], d as nat));
            while j < all.len()
                invariant
                    av == string_views(all@),
                    sv == string_views(seen@),
                    j <= all.len(),
                    string_views(new@) == unseen(sv, av.take(j as int)),
                    hit_views(hits@) == hv + at_distance(string_views(new@), d as nat),
                decreases all.len() - j,
            {
                assert(av.take(j + 1).drop_last() =~= av.take(j as int));
                if !has_string(&seen, all[j].as_str()) && !has_string(&new, all[j].as_str()) {
                    let n: String = all[j].clone();
                    let ghost before = hit_views(hits@);
                    let ghost old_hits = hits@;
                    hits.push((n.clone(), d));
                    proof {
                        assert(hit_views(hits@) =~= before.push((n@, d as nat)));
                        lemma_string_views_push(new@, n);
                        assert(at_distance(string_views(new@).push(n@), d as nat) =~= at_distance(
                            string_views(new@),
                            d as nat,
                        ).push((n@, d as nat)));
                    }
                    new.push(n);
                    assert(hit_views(hits@) =~= hv + at_distance(string_views(new@), d as nat));
                }
                j += 1;
            }
            assert(av.take(j as int) =~= av);
            push_strings(&mut seen, &new);
            last = new;
        }
        hits
    }
}

/// Appends texts to texts.
pub fn push_strings(out: &mut Vec<String>, more: &Vec<String>)
    ensures
        string_views(final(out)@) == string_views(old(out)@) + string_views(more@),
{
    let ghost before = string_views(out@);
    let ghost mv = string_views(more@);
    let mut i: usize = 0;
    assert(string_views(out@) =~= before + mv.take(0));
    while i < more.len()
        invariant
            mv == string_views(more@),
            i <= more.len(),
            string_views(out@) == before + mv.take(i as int),
        decreases more.len() - i,
    {
        let t: String = more[i].clone();
        proof {
            lemma_string_views_push(out@, t);
        }
        out.push(t);
        i += 1;
        assert(string_views(out@) =~= before + mv.take(i as int));
    }
    assert(mv.take(i as int) =~= mv);
}

} // verus!
