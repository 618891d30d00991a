//! The tools `links`, `traverse` and `unresolved`, over the links of the whole vault.

use crate::json::{js, jss, lemma_js_array, lemma_js_object, members, Js, Json};
use crate::links::{
    hit_views, reached, sources, targets, unresolved_links, unresolved_views, Direction, Graph,
    LinkGraph, UnresolvedLink,
};
use crate::mcp::params::{LinksParams, TraverseParams, UnresolvedParams};
use crate::mcp::server::{invalid, invalid_because, Refusal, ToolError};
use crate::text::{
    cat3, from_chars, lowered, same_text, string_views, to_ascii_lowercase, to_chars,
};
use crate::tree::{Picture, Tree};
use crate::vault::{scoped_graph, GraphScope, Vault};
use vstd::prelude::*;

verus! {

/// The links of a note and its backlinks.
#[derive(Debug, PartialEq, Eq)]
pub struct LinksOutput {
    pub name: String,
    pub outgoing: Vec<String>,
    pub incoming: Vec<String>,
}

/// The links of a note, as sequences of texts.
pub struct Linked {
    pub name: Seq<char>,
    pub outgoing: Seq<Seq<char>>,
    pub incoming: Seq<Seq<char>>,
}

impl View for LinksOutput {
    type V = Linked;

    open spec fn view(&self) -> Linked {
        Linked {
            name: self.name@,
            outgoing: string_views(self.outgoing@),
            incoming: string_views(self.incoming@),
        }
    }
}

/// A note that is reached, with its distance.
#[derive(Debug, PartialEq, Eq)]
pub struct TraverseHit {
    pub name: String,
    pub depth: usize,
}

/// What notes that are reached are.
pub open spec fn traverse_views(v: Seq<TraverseHit>) -> Seq<(Seq<char>, nat)> {
    Seq::new(v.len(), |i: int| (v[i].name@, v[i].depth as nat))
}

/// The direction that a word stands for, in letters of any case.
pub open spec fn direction_of(word: Seq<char>) -> Result<Direction, Refusal> {
    let w = lowered(word);
    if w == "outgoing"@ || w == "out"@ {
        Ok(Direction::Outgoing)
    } else if w == "incoming"@ || w == "in"@ || w == "back"@ {
        Ok(Direction::Incoming)
    } else if w == "both"@ {
        Ok(Direction::Both)
    } else {
        Err(
            Refusal::InvalidParams(
                "direction must be 'outgoing', 'incoming', or 'both'; got '"@ + w + "'"@,
            ),
        )
    }
}

/// Reads a direction.
pub fn parse_direction(s: &str) -> (r: Result<Direction, ToolError>)
    ensures
        match r {
            Ok(d) => direction_of(s@) == Ok::<Direction, Refusal>(d),
            Err(e) => direction_of(s@) == Err::<Direction, Refusal>(e@),
        },
{
    let lower: String = from_chars(&to_ascii_lowercase(&to_chars(s)));
    let w: &str = lower.as_str();
    if same_text(w, "outgoing") || same_text(w, "out") {
        Ok(Direction::Outgoing)
    } else if same_text(w, "incoming") || same_text(w, "in") || same_text(w, "back") {
        Ok(Direction::Incoming)
    } else if same_text(w, "both") {
        Ok(Direction::Both)
    } else {
        Err(
            ToolError::InvalidParams(
                cat3("direction must be 'outgoing', 'incoming', or 'both'; got '", w, "'"),
            ),
        )
    }
}

/// The graph of the whole vault.
pub open spec fn whole_graph(p: Picture, root: Seq<char>) -> Result<Graph, Refusal> {
    match scoped_graph(p, root, GraphScope::All) {
        Ok(g) => Ok(g),
        Err(e) => Err(invalid_because("link_graph failed"@, e)),
    }
}

/// Builds the graph of the whole vault.
fn build_graph(vault: &Vault, tree: &Tree) -> (r: Result<LinkGraph, ToolError>)
    ensures
        match r {
            Ok(g) => whole_graph(tree@, vault.root@) == Ok::<Graph, Refusal>(g@),
            Err(e) => whole_graph(tree@, vault.root@) == Err::<Graph, Refusal>(e@),
        },
{
    match vault.link_graph(&GraphScope::All, tree) {
        Ok(g) => Ok(g),
        Err(e) => Err(invalid("link_graph failed", &e)),
    }
}

/// What the tool `links` answers. The direction only has to be one.
pub open spec fn links_answer(p: Picture, root: Seq<char>, name: Seq<char>, direction: Seq<char>) -> Result<
    Linked,
    Refusal,
> {
    match direction_of(direction) {
        Err(e) => Err(e),
        Ok(_) => match whole_graph(p, root) {
            Err(e) => Err(e),
            Ok(g) => Ok(
                Linked {
                    name,
                    outgoing: targets(g.edges, name),
                    incoming: sources(g.edges, name),
                },
            ),
        },
    }
}

/// The tool `links`.
pub fn links(vault: &Vault, tree: &Tree, params: &LinksParams) -> (r: Result<
    LinksOutput,
    ToolError,
>)
    ensures
        match r {
            Ok(o) => links_answer(tree@, vault.root@, params.name@, params.direction@) == Ok::<
                Linked,
                Refusal,
            >(o@),
            Err(e) => links_answer(tree@, vault.root@, params.name@, params.direction@) == Err::<
                Linked,
                Refusal,
            >(e@),
        },
{
    match parse_direction(params.direction.as_str()) {
        Ok(_) => {},
        Err(e) => {
            return Err(e);
        },
    }
    match build_graph(vault, tree) {
        Ok(g) => Ok(
            LinksOutput {
                name: params.name.clone(),
                outgoing: g.outgoing_links(params.name.as_str()),
                incoming: g.incoming_links(params.name.as_str()),
            },
        ),
        Err(e) => Err(e),
    }
}

/// What the tool `traverse` answers.
pub open spec fn traverse_answer(
    p: Picture,
    root: Seq<char>,
    name: Seq<char>,
    depth: nat,
    direction: Seq<char>,
) -> Result<Seq<(Seq<char>, nat)>, Refusal> {
    match direction_of(direction) {
        Err(e) => Err(e),
        Ok(d) => match whole_graph(p, root) {
            Err(e) => Err(e),
            Ok(g) => Ok(reached(g.edges, name, d, depth)),
        },
    }
}

/// What notes that are reached, or the refusal, are.
pub open spec fn traverse_view(r: Result<Vec<TraverseHit>, ToolError>) -> Result<
    Seq<(Seq<char>, nat)>,
    Refusal,
> {
    match r {
        Ok(v) => Ok(traverse_views(v@)),
        Err(e) => Err(e@),
    }
}

/// The tool `traverse`.
pub fn traverse(vault: &Vault, tree: &Tree, params: &TraverseParams) -> (r: Result<
    Vec<TraverseHit>,
    ToolError,
>)
    ensures
        traverse_view(r) == traverse_answer(
            tree@,
            vault.root@,
            params.name@,
            params.depth as nat,
            params.direction@,
        ),
{
    let d: Direction = match parse_direction(params.direction.as_str()) {
        Ok(d) => d,
        Err(e) => {
            return Err(e);
        },
    };
    let g: LinkGraph = match build_graph(vault, tree) {
        Ok(g) => g,
        Err(e) => {
            return Err(e);
        },
    };
    let hits: Vec<(String, usize)> = g.traverse(params.name.as_str(), params.depth, d);
    let ghost hv = hit_views(hits@);
    let mut out: Vec<TraverseHit> = Vec::new();
    let mut i: usize = 0;
    assert(traverse_views(out@) =~= hv.take(0));
    while i < hits.len()
        invariant
            hv == hit_views(hits@),
            i <= hits.len(),
            traverse_views(out@) == hv.take(i as int),
        decreases hits.len() - i,
    {
        let x: TraverseHit = TraverseHit { name: hits[i].0.clone(), depth: hits[i].1 };
        let ghost before = traverse_views(out@);
        out.push(x);
        assert(traverse_views(out@) =~= before.push((x.name@, x.depth as nat)));
        i += 1;
        assert(traverse_views(out@) =~= hv.take(i as int));
    }
    assert(hv.take(i as int) =~= hv);
    Ok(out)
}

/// The tool `unresolved`: links that lead to no note.
pub fn unresolved(vault: &Vault, tree: &Tree, _params: &UnresolvedParams) -> (r: Result<
    Vec<UnresolvedLink>,
    ToolError,
>)
    ensures
        match r {
            Ok(v) => whole_graph(tree@, vault.root@) is Ok && unresolved_views(v@)
                == unresolved_links(whole_graph(tree@, vault.root@)->Ok_0),
            Err(e) => whole_graph(tree@, vault.root@) == Err::<Graph, Refusal>(e@),
        },
{
    match build_graph(vault, tree) {
        Ok(g) => Ok(g.unresolved()),
        Err(e) => Err(e),
    }
}

// ── Answers ────────────────────────────────────────────────────────────────

/// Texts as a document.
pub open spec fn texts_js(v: Seq<Seq<char>>) -> Js {
    Js::Array(Seq::new(v.len(), |i: int| Js::Text(v[i])))
}

/// Makes a document of texts.
pub fn texts_json(v: &Vec<String>) -> (j: Json)
    ensures
        js(j) == texts_js(string_views(v@)),
{
    let ghost want = texts_js(string_views(v@))->Array_0;
    let mut items: Vec<Json> = Vec::new();
    let mut i: usize = 0;
    assert(jss(items@) =~= want.take(0));
    while i < v.len()
        invariant
            want == texts_js(string_views(v@))->Array_0,
            i <= v.len(),
            jss(items@) == want.take(i as int),
        decreases v.len() - i,
    {
        let t: Json = Json::Text(v[i].clone());
        let ghost before = jss(items@);
        items.push(t);
        assert(jss(items@) =~= before.push(js(t)));
        i += 1;
        assert(jss(items@) =~= want.take(i as int));
    }
    assert(want.take(i as int) =~= want);
    proof {
        lemma_js_array(items);
    }
    Json::Array(items)
}

/// The links of a note as a document.
pub open spec fn linked_js(l: Linked) -> Js {
    Js::Object(
        seq![
            ("incoming"@, texts_js(l.incoming)),
            ("name"@, Js::Text(l.name)),
            ("outgoing"@, texts_js(l.outgoing)),
        ],
    )
}

/// Makes a document of the links of a note.
pub fn links_json(o: &LinksOutput) -> (j: Json)
    ensures
        js(j) == linked_js(o@),
{
    let mut m: Vec<(String, Json)> = Vec::new();
    m.push(("incoming".to_owned(), texts_json(&o.incoming)));
    m.push(("name".to_owned(), Json::Text(o.name.clone())));
    m.push(("outgoing".to_owned(), texts_json(&o.outgoing)));
    assert(members(m@) =~= linked_js(o@)->Object_0);
    proof {
        lemma_js_object(m);
    }
    Json::Object(m)
}

/// A note that is reached as a document.
pub open spec fn hit_js(hit: (Seq<char>, nat)) -> Js {
    Js::Object(seq![("depth"@, Js::Large(hit.1 as u64)), ("name"@, Js::Text(hit.0))])
}

/// Makes a document of notes that are reached.
pub fn hits_json(hits: &Vec<TraverseHit>) -> (j: Json)
    ensures
        js(j) == Js::Array(
            Seq::new(traverse_views(hits@).len(), |i: int| hit_js(traverse_views(hits@)[i])),
        ),
{
    let ghost hv = traverse_views(hits@);
    let ghost want = Seq::new(hv.len(), |i: int| hit_js(hv[i]));
    let mut items: Vec<Json> = Vec::new();
    let mut i: usize = 0;
    assert(jss(items@) =~= want.take(0));
    while i < hits.len()
        invariant
            hv == traverse_views(hits@),
            want == Seq::new(hv.len(), |i: int| hit_js(hv[i])),
            i <= hits.len(),
            jss(items@) == want.take(i as int),
        decreases hits.len() - i,
    {
        let mut m: Vec<(String, Json)> = Vec::new();
        m.push(("depth".to_owned(), Json::Large(hits[i].depth as u64)));
        m.push(("name".to_owned(), Json::Text(hits[i].name.clone())));
        assert(members(m@) =~= hit_js(hv[i as int])->Object_0);
        proof {
            lemma_js_object(m);
        }
        let o: Json = Json::Object(m);
        let ghost before = jss(items@);
        items.push(o);
        assert(jss(items@) =~= before.push(js(o)));
        i += 1;
        assert(jss(items@) =~= want.take(i as int));
    }
    assert(want.take(i as int) =~= want);
    proof {
        lemma_js_array(items);
    }
    Json::Array(items)
}

/// A link that leads to no note as a document.
pub open spec fn unresolved_js(u: (Seq<char>, Seq<Seq<char>>)) -> Js {
    Js::Object(seq![("sources"@, texts_js(u.1)), ("target"@, Js::Text(u.0))])
}

/// Makes a document of links that lead to no note.
pub fn unresolved_json(links: &Vec<UnresolvedLink>) -> (j: Json)
    ensures
        js(j) == Js::Array(
            Seq::new(
                unresolved_views(links@).len(),
                |i: int| unresolved_js(unresolved_views(links@)[i]),
            ),
        ),
{
    let ghost uv = unresolved_views(links@);
    let ghost want = Seq::new(uv.len(), |i: int| unresolved_js(uv[i]));
    let mut items: Vec<Json> = Vec::new();
    let mut i: usize = 0;
    assert(jss(items@) =~= want.take(0));
    while i < links.len()
        invariant
            uv == unresolved_views(links@),
            want == Seq::new(uv.len(), |i: int| unresolved_js(uv[i])),
            i <= links.len(),
            jss(items@) == want.take(i as int),
        decreases links.len() - i,
    {
        let mut m: Vec<(String, Json)> = Vec::new();
        m.push(("sources".to_owned(), texts_json(&links[i].sources)));
        m.push(("target".to_owned(), Json::Text(links[i].target.clone())));
        assert(members(m@) =~= unresolved_js(uv[i as int])->Object_0);
        proof {
            lemma_js_object(m);
        }
        let o: Json = Json::Object(m);
        let ghost before = jss(items@);
        items.push(o);
        assert(jss(items@) =~= before.push(js(o)));
        i += 1;
        assert(jss(items@) =~= want.take(i as int));
    }
    assert(want.take(i as int) =~= want);
    proof {
        lemma_js_array(items);
    }
    Json::Array(items)
}

} // verus!
