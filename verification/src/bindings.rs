//! What the bindings to other languages ask of the library: notes as plain documents,
//! and the link graph as plain mappings.

use crate::dsl::parsed;
use crate::error::{message, Failure, VaultdbError};
use crate::filter::{evaluate_expr, holds};
use crate::json::{
    built, from_yaml, js, json_to_vaultdb_value, lemma_js_object, members, value_of_json,
    yaml_as_json, Js, Json,
};
use crate::links::{extract_links, links_of, sources, targets, Graph, LinkGraph};
use crate::path::below;
use crate::query::{cond, Cond, Expr, Query, Request, SortBy, SortKey};
use crate::record::{entries, note_name, recs, set_entry, with_entry, Rec, Record, Val, Value};
use crate::schema::text_view;
use crate::text::{
    cat2, find, find_at, from_chars, is_white, is_whitespace, lemma_find_at, lowered, same_text,
    slice, starts, starts_with, string_views, to_ascii_lowercase, to_chars, trim, trimmed,
};
use crate::tree::{has_folder, notes_in, Picture, Tree};
use crate::vault::{loaded, queried, scoped_graph, GraphScope, Vault};
use crate::yaml::{document_of, parse};
use vstd::prelude::*;

pub mod laws;

verus! {

// ── Failures ───────────────────────────────────────────────────────────────

/// Which kind of exception a failure becomes.
#[derive(Debug, Clone, Copy, PartialEq, Eq, Structural)]
pub enum ExceptionKind {
    /// What was given is wrong.
    Value,
    /// The file system is.
    Io,
}

/// The kind of exception that a failure becomes: frontmatter that cannot be read is
/// wrong as a value.
pub open spec fn kind_of(e: Failure) -> ExceptionKind {
    if e is InvalidFrontmatter || e is NoFrontmatter {
        ExceptionKind::Value
    } else {
        ExceptionKind::Io
    }
}

/// An exception, with its message.
#[derive(Debug, PartialEq, Eq)]
pub struct Exception {
    pub kind: ExceptionKind,
    pub message: String,
}

/// An exception, with its message as a sequence of characters.
pub type Raised = (ExceptionKind, Seq<char>);

impl View for Exception {
    type V = Raised;

    open spec fn view(&self) -> Raised {
        (self.kind, self.message@)
    }
}

/// The exception that a failure becomes.
pub open spec fn raised(e: Failure) -> Raised {
    (kind_of(e), message(e))
}

/// Makes an exception of a failure.
pub fn vaultdb_error_to_py(e: &VaultdbError) -> (r: Exception)
    ensures
        r@ == raised(e@),
{
    let kind: ExceptionKind = match e {
        VaultdbError::InvalidFrontmatter { .. } => ExceptionKind::Value,
        VaultdbError::NoFrontmatter(_) => ExceptionKind::Value,
        _ => ExceptionKind::Io,
    };
    Exception { kind, message: e.to_string() }
}

// ── Queries ────────────────────────────────────────────────────────────────

/// Opens the vault in a folder.
pub fn open_vault(path: &str, tree: &Tree) -> (r: Result<String, Exception>)
    ensures
        match r {
            Ok(root) => has_folder(tree@, path@) && root@ == path@,
            Err(e) => !has_folder(tree@, path@) && e@ == (
                ExceptionKind::Io,
                "vault root is not a directory: "@ + path@,
            ),
        },
{
    if tree.is_dir(path) {
        Ok(path.to_owned())
    } else {
        Err(
            Exception {
                kind: ExceptionKind::Io,
                message: cat2("vault root is not a directory: ", path),
            },
        )
    }
}

/// What notes, or the exception, are.
pub open spec fn notes_view(r: Result<Vec<Record>, Exception>) -> Result<Seq<Rec>, Raised> {
    match r {
        Ok(v) => Ok(recs(v@)),
        Err(e) => Err(e@),
    }
}

/// The notes of a folder, or the exception.
pub open spec fn listed(p: Picture, root: Seq<char>, folder: Seq<char>, recursive: bool) -> Result<
    Seq<Rec>,
    Raised,
> {
    if !has_folder(p, below(root, folder)) {
        Err(raised(Failure::FolderNotFound(folder)))
    } else {
        match loaded(notes_in(p.files, below(root, folder), recursive), false) {
            Ok((rs, _)) => Ok(rs),
            Err(e) => Err(raised(e)),
        }
    }
}

/// Lists the notes of a folder.
pub fn list_records(vault: &Vault, tree: &Tree, folder: &str, recursive: bool) -> (r: Result<
    Vec<Record>,
    Exception,
>)
    ensures
        notes_view(r) == listed(tree@, vault.root@, folder@, recursive),
{
    let path: String = match vault.resolve_folder(folder, tree) {
        Ok(p) => p,
        Err(e) => {
            return Err(vaultdb_error_to_py(&e));
        },
    };
    match vault.load_records(path.as_str(), recursive, tree) {
        Ok(l) => Ok(l.records),
        Err(e) => Err(vaultdb_error_to_py(&e)),
    }
}

/// The last position before one that holds white space.
pub open spec fn last_white(s: Seq<char>, to: int) -> Option<int>
    decreases to,
{
    if to <= 0 || to > s.len() {
        None
    } else if is_white(s[to - 1]) {
        Some(to - 1)
    } else {
        last_white(s, to - 1)
    }
}

/// The order that a text asks for: a field, with `asc` or `desc` behind it or not.
pub open spec fn sort_key_of(text: Seq<char>) -> Option<SortBy> {
    let t = trimmed(text);
    if t.len() == 0 {
        None
    } else {
        match last_white(t, t.len() as int) {
            None => Some(SortBy { field: t, descending: false }),
            Some(i) => {
                let word = lowered(t.skip(i + 1));
                if word == "asc"@ {
                    Some(SortBy { field: trimmed(t.take(i)), descending: false })
                } else if word == "desc"@ {
                    Some(SortBy { field: trimmed(t.take(i)), descending: true })
                } else {
                    Some(SortBy { field: t, descending: false })
                }
            },
        }
    }
}

/// Reads an order. An empty text is an exception.
pub fn parse_sort_key(s: &str) -> (r: Result<SortKey, Exception>)
    ensures
        match r {
            Ok(k) => sort_key_of(s@) == Some(k@),
            Err(e) => sort_key_of(s@) is None && e@ == (
                ExceptionKind::Value,
                "sort key cannot be empty"@,
            ),
        },
{
    let t: Vec<char> = trim(&to_chars(s));
    if t.len() == 0 {
        return Err(
            Exception {
                kind: ExceptionKind::Value,
                message: "sort key cannot be empty".to_owned(),
            },
        );
    }
    let mut j: usize = t.len();
    while j > 0 && !is_whitespace(t[j - 1])
        invariant
            j <= t.len(),
            last_white(t@, t@.len() as int) == last_white(t@, j as int),
        decreases j,
    {
        j -= 1;
    }
    if j > 0 {
        let tail: Vec<char> = slice(&t, j, t.len());
        let head: Vec<char> = slice(&t, 0, j - 1);
        assert(tail@ =~= t@.skip(j as int));
        assert(head@ =~= t@.take(j - 1));
        let lower: String = from_chars(&to_ascii_lowercase(&tail));
        if same_text(lower.as_str(), "asc") {
            return Ok(SortKey { field: from_chars(&trim(&head)), descending: false });
        }
        if same_text(lower.as_str(), "desc") {
            return Ok(SortKey { field: from_chars(&trim(&head)), descending: true });
        }
    }
    Ok(SortKey { field: from_chars(&t), descending: false })
}

/// The notes that a query finds, or the exception.
pub open spec fn query_answer(
    p: Picture,
    root: Seq<char>,
    folder: Seq<char>,
    filter: Option<Seq<char>>,
    sort: Option<Seq<char>>,
    limit: Option<usize>,
) -> Result<Seq<Rec>, Raised> {
    match filter {
        Some(w) => match parsed(w) {
            Err(e) => Err(raised(e)),
            Ok(c) => sorted_answer(p, root, folder, Some(c), sort, limit),
        },
        None => sorted_answer(p, root, folder, None, sort, limit),
    }
}

/// The notes that a query with a condition finds, or the exception.
pub open spec fn sorted_answer(
    p: Picture,
    root: Seq<char>,
    folder: Seq<char>,
    filter: Option<Cond>,
    sort: Option<Seq<char>>,
    limit: Option<usize>,
) -> Result<Seq<Rec>, Raised> {
    if sort is Some && sort_key_of(sort->0) is None {
        Err((ExceptionKind::Value, "sort key cannot be empty"@))
    } else {
        match queried(
            p,
            root,
            Request {
                folder,
                filter,
                select: None,
                sort: match sort {
                    Some(s) => sort_key_of(s),
                    None => None,
                },
                limit,
                recursive: false,
            },
        ) {
            Ok(rs) => Ok(rs),
            Err(e) => Err(raised(e)),
        }
    }
}

/// Runs a query.
pub fn query(
    vault: &Vault,
    tree: &Tree,
    folder: &str,
    where_clause: Option<&str>,
    sort: Option<&str>,
    limit: Option<usize>,
) -> (r: Result<Vec<Record>, Exception>)
    ensures
        notes_view(r) == query_answer(
            tree@,
            vault.root@,
            folder@,
            crate::cli::query::str_view(where_clause),
            crate::cli::query::str_view(sort),
            limit,
        ),
{
    let filter: Option<Expr> = match where_clause {
        Some(w) => match Expr::parse(w) {
            Ok(e) => Some(e),
            Err(e) => {
                return Err(vaultdb_error_to_py(&e));
            },
        },
        None => None,
    };
    let key: Option<SortKey> = match sort {
        Some(s) => match parse_sort_key(s) {
            Ok(k) => Some(k),
            Err(e) => {
                return Err(e);
            },
        },
        None => None,
    };
    let q: Query = Query {
        folder: folder.to_owned(),
        filter,
        select: None,
        sort: key,
        limit,
        recursive: false,
    };
    match vault.query(&q, tree) {
        Ok(v) => Ok(v),
        Err(e) => Err(vaultdb_error_to_py(&e)),
    }
}

/// Names with the notes that are linked, in the order of the notes; those without
/// links, and those that are there already, are left out.
pub open spec fn linked_names(g: Graph, rs: Seq<Rec>, incoming: bool) -> Seq<
    (Seq<char>, Seq<Seq<char>>),
>
    decreases rs.len(),
{
    if rs.len() == 0 {
        seq![]
    } else {
        let before = linked_names(g, rs.drop_last(), incoming);
        let name = note_name(rs.last().path);
        let names = if incoming {
            sources(g.edges, name)
        } else {
            targets(g.edges, name)
        };
        if names.len() == 0 || crate::record::key_at(before, name, 0) is Some {
            before
        } else {
            before.push((name, names))
        }
    }
}

/// What names with the notes that are linked are.
pub open spec fn name_lists(v: Seq<(String, Vec<String>)>) -> Seq<(Seq<char>, Seq<Seq<char>>)> {
    Seq::new(v.len(), |i: int| (v[i].0@, string_views(v[i].1@)))
}

/// Tells whether a name is there already.
fn has_name(v: &Vec<(String, Vec<String>)>, name: &str) -> (r: bool)
    ensures
        r == (crate::record::key_at(name_lists(v@), name@, 0) is Some),
{
    let ghost all = name_lists(v@);
    let mut i: usize = 0;
    while i < v.len()
        invariant
            all == name_lists(v@),
            i <= v.len(),
            crate::record::key_at(all, name@, 0) == crate::record::key_at(all, name@, i as int),
        decreases v.len() - i,
    {
        if same_text(v[i].0.as_str(), name) {
            return true;
        }
        i += 1;
    }
    false
}

/// Lists names with the notes that are linked.
fn list_names(g: &LinkGraph, records: &Vec<Record>, incoming: bool) -> (r: Vec<
    (String, Vec<String>),
>)
    ensures
        name_lists(r@) == linked_names(g@, recs(records@), incoming),
{
    let ghost rs = recs(records@);
    let mut out: Vec<(String, Vec<String>)> = Vec::new();
    let mut i: usize = 0;
    assert(rs.take(0) =~= seq![]);
    assert(name_lists(out@) =~= seq![]);
    while i < records.len()
        invariant
            rs == recs(records@),
            i <= records.len(),
            name_lists(out@) == linked_names(g@, rs.take(i as int), incoming),
        decreases records.len() - i,
    {
        assert(rs.take(i + 1).drop_last() =~= rs.take(i as int));
        assert(rs.take(i + 1).last() == records@[i as int]@);
        let name: String = records[i].virtual_name();
        let names: Vec<String> = if incoming {
            g.incoming_links(name.as_str())
        } else {
            g.outgoing_links(name.as_str())
        };
        assert(string_views(names@).len() == names.len());
        if names.len() > 0 && !has_name(&out, name.as_str()) {
            let ghost before = name_lists(out@);
            let x: (String, Vec<String>) = (name, names);
            out.push(x);
            assert(name_lists(out@) =~= before.push((x.0@, string_views(x.1@))));
        }
        i += 1;
    }
    assert(rs.take(i as int) =~= rs);
    out
}

/// The links of a vault: which notes link to a note, and which it links to.
#[derive(Debug, PartialEq, Eq)]
pub struct LinkMaps {
    pub incoming: Vec<(String, Vec<String>)>,
    pub outgoing: Vec<(String, Vec<String>)>,
}

/// Lists the links of a vault by the names of its notes.
pub fn link_graph(vault: &Vault, tree: &Tree) -> (r: Result<LinkMaps, Exception>)
    ensures
        match scoped_graph(tree@, vault.root@, GraphScope::All) {
            Err(e) => r is Err && r->Err_0@ == raised(e),
            Ok(g) => match loaded(notes_in(tree@.files, vault.root@, true), false) {
                Err(e) => r is Err && r->Err_0@ == raised(e),
                Ok((rs, _)) => r is Ok && name_lists(r->Ok_0.incoming@) == linked_names(g, rs, true)
                    && name_lists(r->Ok_0.outgoing@) == linked_names(g, rs, false),
            },
        },
{
    let g: LinkGraph = match vault.link_graph(&GraphScope::All, tree) {
        Ok(g) => g,
        Err(e) => {
            return Err(vaultdb_error_to_py(&e));
        },
    };
    match vault.load_records(vault.root.as_str(), true, tree) {
        Ok(l) => Ok(
            LinkMaps {
                incoming: list_names(&g, &l.records, true),
                outgoing: list_names(&g, &l.records, false),
            },
        ),
        Err(e) => Err(vaultdb_error_to_py(&e)),
    }
}

// ── Single notes ───────────────────────────────────────────────────────────

/// A note that was read from a text: its path as given, its frontmatter as a document,
/// and its body.
#[derive(Debug, PartialEq, Eq)]
pub struct ParsedRecord {
    pub path: String,
    pub fields: Json,
    pub body: Option<String>,
}

/// The frontmatter and the body of a text that starts with a fence and has another.
pub open spec fn fenced(raw: Seq<char>) -> Option<(Seq<char>, Seq<char>)> {
    if !starts(raw, "---\n"@) {
        None
    } else {
        let rest = raw.skip(4);
        match find_at(rest, "\n---\n"@, 0) {
            Some(i) => Some((rest.take(i), rest.skip(i + 5))),
            None => None,
        }
    }
}

/// What two texts that may be missing are.
pub open spec fn pair_view(r: Option<(String, String)>) -> Option<(Seq<char>, Seq<char>)> {
    match r {
        Some((a, b)) => Some((a@, b@)),
        None => None,
    }
}

/// Splits a text at its fences.
pub fn split_frontmatter(raw: &str) -> (r: Option<(String, String)>)
    ensures
        pair_view(r) == fenced(raw@),
{
    let s: Vec<char> = to_chars(raw);
    if !starts_with(&s, "---\n") {
        return None;
    }
    proof {
        reveal_strlit("---\n");
        reveal_strlit("\n---\n");
    }
    let rest: Vec<char> = slice(&s, 4, s.len());
    assert(rest@ =~= s@.skip(4));
    let fence: Vec<char> = to_chars("\n---\n");
    match find(&rest, &fence, 0) {
        Some(i) => {
            proof {
                lemma_find_at(rest@, fence@, 0);
            }
            let head: Vec<char> = slice(&rest, 0, i);
            let tail: Vec<char> = slice(&rest, i + 5, rest.len());
            assert(head@ =~= rest@.take(i as int));
            assert(tail@ =~= rest@.skip(i + 5));
            Some((from_chars(&head), from_chars(&tail)))
        },
        None => None,
    }
}

/// A note with its texts as sequences of characters.
pub struct Parsed {
    pub path: Seq<char>,
    pub fields: Js,
    pub body: Option<Seq<char>>,
}

impl View for ParsedRecord {
    type V = Parsed;

    open spec fn view(&self) -> Parsed {
        Parsed { path: self.path@, fields: js(self.fields), body: text_view(self.body) }
    }
}

/// The note that a text holds, or the message of the failure.
pub open spec fn record_of(path: Seq<char>, raw: Seq<char>) -> Result<Parsed, Seq<char>> {
    match fenced(raw) {
        None => Err("missing or malformed `---` frontmatter delimiters"@),
        Some((yaml, body)) => match document_of(yaml) {
            Err(m) => Err("frontmatter parse: "@ + m),
            Ok(_) => match yaml_as_json(yaml) {
                Err(m) => Err("yaml→json: "@ + m),
                Ok(steps) => Ok(Parsed { path, fields: built(steps), body: Some(body) }),
            },
        },
    }
}

/// Reads a note from a text.
pub fn parse_record(path: &str, raw: &str) -> (r: Result<ParsedRecord, String>)
    ensures
        match r {
            Ok(p) => record_of(path@, raw@) == Ok::<Parsed, Seq<char>>(p@),
            Err(m) => record_of(path@, raw@) == Err::<Parsed, Seq<char>>(m@),
        },
{
    let (yaml, body) = match split_frontmatter(raw) {
        Some(p) => p,
        None => {
            return Err("missing or malformed `---` frontmatter delimiters".to_owned());
        },
    };
    match parse(yaml.as_str()) {
        Ok(_) => {},
        Err(m) => {
            return Err(cat2("frontmatter parse: ", m.as_str()));
        },
    }
    match from_yaml(yaml.as_str()) {
        Ok(fields) => Ok(ParsedRecord { path: path.to_owned(), fields, body: Some(body) }),
        Err(m) => Err(cat2("yaml→json: ", m.as_str())),
    }
}

/// The fields of a document that is an object.
pub open spec fn fields_of(v: Js) -> Seq<(Seq<char>, Val)> {
    match v {
        Js::Object(m) => fields_from(m),
        _ => seq![],
    }
}

/// The fields that members of an object are, the keys ascending.
pub open spec fn fields_from(m: Seq<(Seq<char>, Js)>) -> Seq<(Seq<char>, Val)>
    decreases m.len(),
{
    if m.len() == 0 {
        seq![]
    } else {
        with_entry(fields_from(m.drop_last()), m.last().0, value_of_json(m.last().1))
    }
}

/// Reads the fields of a document.
fn read_fields(v: &Json) -> (r: Vec<(String, Value)>)
    ensures
        entries(r@) == fields_of(js(*v)),
{
    let mut out: Vec<(String, Value)> = Vec::new();
    assert(entries(out@) =~= seq![]);
    match v {
        Json::Object(m) => {
            proof {
                lemma_js_object(*m);
            }
            let ghost all = members(m@);
            let mut i: usize = 0;
            assert(all.take(0) =~= seq![]);
            while i < m.len()
                invariant
                    all == members(m@),
                    i <= m.len(),
                    entries(out@) == fields_from(all.take(i as int)),
                decreases m.len() - i,
            {
                assert(all.take(i + 1).drop_last() =~= all.take(i as int));
                let x: Value = json_to_vaultdb_value(&m[i].1);
                set_entry(&mut out, m[i].0.as_str(), x);
                i += 1;
            }
            assert(all.take(i as int) =~= all);
        },
        _ => {},
    }
    out
}

/// Whether a note meets a condition, or the message of the failure.
pub open spec fn evaluated(p: Parsed, clause: Seq<char>) -> Result<bool, Seq<char>> {
    match parsed(clause) {
        Err(e) => Err(message(e)),
        Ok(c) => Ok(
            holds(
                c,
                Rec {
                    path: p.path,
                    fields: fields_of(p.fields),
                    content: p.body,
                    modified: None,
                    created: None,
                },
                seq![],
                None,
            ),
        ),
    }
}

/// Tells whether a note meets a condition.
pub fn evaluate_where(record: ParsedRecord, where_clause: &str) -> (r: Result<bool, String>)
    ensures
        match r {
            Ok(b) => evaluated(record@, where_clause@) == Ok::<bool, Seq<char>>(b),
            Err(m) => evaluated(record@, where_clause@) == Err::<bool, Seq<char>>(m@),
        },
{
    let e: Expr = match Expr::parse(where_clause) {
        Ok(e) => e,
        Err(e) => {
            return Err(e.to_string());
        },
    };
    let fields: Vec<(String, Value)> = read_fields(&record.fields);
    let note: Record = Record {
        path: record.path,
        fields,
        raw_content: record.body,
        modified: None,
        created: None,
    };
    proof {
        reveal_strlit("");
        assert(""@ =~= seq![]);
    }
    Ok(evaluate_expr(&e, &note, "", None))
}

/// What a condition that was read, or the message of the failure, is.
pub open spec fn cond_view(r: Result<Expr, String>) -> Result<Cond, Seq<char>> {
    match r {
        Ok(e) => Ok(cond(e)),
        Err(m) => Err(m@),
    }
}

/// A condition, or the message of the failure.
pub open spec fn cond_of(clause: Seq<char>) -> Result<Cond, Seq<char>> {
    match parsed(clause) {
        Ok(c) => Ok(c),
        Err(e) => Err(message(e)),
    }
}

/// Reads a condition, so that a wrong one is found before notes are tested.
pub fn parse_where_dsl(input: &str) -> (r: Result<Expr, String>)
    ensures
        cond_view(r) == cond_of(input@),
{
    match Expr::parse(input) {
        Ok(e) => Ok(e),
        Err(e) => Err(e.to_string()),
    }
}

/// Finds the targets of the links in a body, ascending, each once.
pub fn extract_links_wasm(body: &str) -> (r: Vec<String>)
    ensures
        string_views(r@) == links_of(body@),
{
    extract_links(body)
}

} // verus!
