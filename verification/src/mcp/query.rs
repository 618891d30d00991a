//! The tools `query`, `find_by_name` and `list_folders`.

use crate::cli::query::{parse_select, selection};
use crate::dsl::parsed;
use crate::mcp::params::{FindByNameParams, QueryParams};
use crate::mcp::server::{invalid, invalid_because, Refusal, ToolError};
use crate::path::{file_name, file_name_of};
use crate::query::{Cond, Expr, Query, Request, SortBy, SortKey};
use crate::record::{recs, Rec, Record};
use crate::schema::text_view;
use crate::text::{insert_text, string_views, to_chars, with_text};
use crate::tree::{is_hidden, is_in_folder, is_note, lies_in, names_note, Picture, Tree};
use crate::vault::{found_by_name, queried, Vault};
use vstd::prelude::*;

verus! {

/// The condition that is asked for; none where the text is empty.
pub open spec fn asked_filter(filter: Option<Seq<char>>) -> Result<Option<Cond>, Refusal> {
    match filter {
        Some(s) => if s.len() == 0 {
            Ok(None)
        } else {
            match parsed(s) {
                Ok(c) => Ok(Some(c)),
                Err(e) => Err(invalid_because("invalid where expression"@, e)),
            }
        },
        None => Ok(None),
    }
}

/// The query that is asked for.
pub open spec fn asked_query(params: QueryParams, filter: Option<Cond>) -> Request {
    Request {
        folder: params.folder@,
        filter,
        select: match params.select {
            Some(s) => Some(selection(Some(s@))),
            None => None,
        },
        sort: match params.sort {
            Some(f) => Some(SortBy { field: f@, descending: params.desc }),
            None => None,
        },
        limit: params.limit,
        recursive: params.recursive,
    }
}

/// What the tool `query` answers.
pub open spec fn query_answer(p: Picture, root: Seq<char>, params: QueryParams) -> Result<
    Seq<Rec>,
    Refusal,
> {
    match asked_filter(text_view(params.filter)) {
        Err(e) => Err(e),
        Ok(filter) => match queried(p, root, asked_query(params, filter)) {
            Ok(rs) => Ok(rs),
            Err(e) => Err(invalid_because("query failed"@, e)),
        },
    }
}

/// What notes, or the refusal, are.
pub open spec fn answer_view(r: Result<Vec<Record>, ToolError>) -> Result<Seq<Rec>, Refusal> {
    match r {
        Ok(v) => Ok(recs(v@)),
        Err(e) => Err(e@),
    }
}

/// The tool `query`: notes without their texts.
pub fn query(vault: &Vault, tree: &Tree, params: &QueryParams) -> (r: Result<
    Vec<Record>,
    ToolError,
>)
    ensures
        answer_view(r) == query_answer(tree@, vault.root@, *params),
{
    let mut filter: Option<Expr> = None;
    match &params.filter {
        Some(s) => {
            if to_chars(s.as_str()).len() > 0 {
                match Expr::parse(s.as_str()) {
                    Ok(e) => {
                        filter = Some(e);
                    },
                    Err(e) => {
                        return Err(invalid("invalid where expression", &e));
                    },
                }
            }
        },
        None => {},
    }
    let q: Query = Query {
        folder: params.folder.clone(),
        filter,
        select: match &params.select {
            Some(s) => Some(parse_select(Some(s.as_str()))),
            None => None,
        },
        sort: match &params.sort {
            Some(f) => Some(SortKey { field: f.clone(), descending: params.desc }),
            None => None,
        },
        limit: params.limit,
        recursive: params.recursive,
    };
    match vault.query(&q, tree) {
        Ok(v) => Ok(v),
        Err(e) => Err(invalid("query failed", &e)),
    }
}

/// What a note that may be missing, or the refusal, is.
pub open spec fn found_answer(r: Result<Option<Record>, ToolError>) -> Result<Option<Rec>, Refusal> {
    match r {
        Ok(Some(x)) => Ok(Some(x@)),
        Ok(None) => Ok(None),
        Err(e) => Err(e@),
    }
}

/// The tool `find_by_name`: a note by its name, or none.
pub fn find_by_name(vault: &Vault, tree: &Tree, params: &FindByNameParams) -> (r: Result<
    Option<Record>,
    ToolError,
>)
    ensures
        found_answer(r) == match found_by_name(tree@, vault.root@, params.folder@, params.name@) {
            Ok(x) => Ok::<Option<Rec>, Refusal>(x),
            Err(e) => Err(invalid_because("find_by_name failed"@, e)),
        },
{
    match vault.find_by_name(params.folder.as_str(), params.name.as_str(), tree) {
        Ok(x) => Ok(x),
        Err(e) => Err(invalid("find_by_name failed", &e)),
    }
}

/// Whether a folder directly holds a file with the extension of notes.
pub open spec fn holds_notes(p: Picture, folder: Seq<char>) -> bool {
    ||| exists|i: int|
        0 <= i < p.files.len() && is_note((#[trigger] p.files[i]).path) && lies_in(
            p.files[i].path,
            folder,
            false,
        )
    ||| exists|i: int|
        0 <= i < p.folders.len() && is_note(#[trigger] p.folders[i]) && lies_in(
            p.folders[i],
            folder,
            false,
        )
}

/// Whether a folder is one of the vault that is worth asking: it lies directly below
/// it, is not hidden, and directly holds notes.
pub open spec fn is_queryable(p: Picture, root: Seq<char>, folder: Seq<char>) -> bool {
    &&& lies_in(folder, root, false)
    &&& file_name(folder) is Some
    &&& !is_hidden(file_name(folder)->0)
    &&& holds_notes(p, folder)
}

/// The names of those of some folders that are worth asking, ascending.
pub open spec fn queryable(p: Picture, root: Seq<char>, folders: Seq<Seq<char>>) -> Seq<Seq<char>>
    decreases folders.len(),
{
    if folders.len() == 0 {
        seq![]
    } else {
        let before = queryable(p, root, folders.drop_last());
        if is_queryable(p, root, folders.last()) {
            with_text(before, file_name(folders.last())->0)
        } else {
            before
        }
    }
}

/// Tells whether a folder directly holds a file with the extension of notes.
fn has_notes(tree: &Tree, folder: &str) -> (r: bool)
    ensures
        r == holds_notes(tree@, folder@),
{
    let ghost p = tree@;
    let mut i: usize = 0;
    while i < tree.files.len()
        invariant
            p == tree@,
            i <= tree.files.len(),
            forall|k: int|
                0 <= k < i ==> !(is_note((#[trigger] p.files[k]).path) && lies_in(
                    p.files[k].path,
                    folder@,
                    false,
                )),
        decreases tree.files.len() - i,
    {
        assert(p.files[i as int].path == tree.files@[i as int].path@);
        let path: &str = tree.files[i].path.as_str();
        if names_note(path) && is_in_folder(path, folder, false) {
            return true;
        }
        i += 1;
    }
    let mut j: usize = 0;
    while j < tree.folders.len()
        invariant
            p == tree@,
            j <= tree.folders.len(),
            forall|k: int|
                0 <= k < j ==> !(is_note(#[trigger] p.folders[k]) && lies_in(
                    p.folders[k],
                    folder@,
                    false,
                )),
        decreases tree.folders.len() - j,
    {
        assert(p.folders[j as int] == tree.folders@[j as int]@);
        let path: &str = tree.folders[j].as_str();
        if names_note(path) && is_in_folder(path, folder, false) {
            return true;
        }
        j += 1;
    }
    false
}

/// The tool `list_folders`: the folders of the vault that directly hold notes.
pub fn list_folders(vault: &Vault, tree: &Tree) -> (r: Vec<String>)
    ensures
        string_views(r@) == queryable(tree@, vault.root@, tree@.folders),
{
    let ghost p = tree@;
    let mut out: Vec<String> = Vec::new();
    let mut i: usize = 0;
    assert(p.folders.take(0) =~= seq![]);
    assert(string_views(out@) =~= seq![]);
    while i < tree.folders.len()
        invariant
            p == tree@,
            i <= tree.folders.len(),
            string_views(out@) == queryable(p, vault.root@, p.folders.take(i as int)),
        decreases tree.folders.len() - i,
    {
        assert(p.folders.take(i + 1).drop_last() =~= p.folders.take(i as int));
        assert(p.folders.take(i + 1).last() == tree.folders@[i as int]@);
        let folder: &str = tree.folders[i].as_str();
        match file_name_of(folder) {
            Some(name) => {
                if is_in_folder(folder, vault.root.as_str(), false)
                    && !is_dotted(name.as_str()) && has_notes(tree, folder) {
                    insert_text(&mut out, name.as_str());
                }
            },
            None => {},
        }
        i += 1;
    }
    assert(p.folders.take(i as int) =~= p.folders);
    out
}

/// Tells whether a name is hidden.
fn is_dotted(name: &str) -> (r: bool)
    ensures
        r == is_hidden(name@),
{
    let s: Vec<char> = to_chars(name);
    s.len() > 0 && s[0] == '.'
}

} // verus!
