//! Frontmatter: where it stands in a note, and the fields it holds.

use crate::error::{Failure, VaultdbError};
use crate::float::copy_float;
use crate::record::{
    entries, lemma_val_list, lemma_val_mapping, lemma_vals_push, set_entry, val, vals, with_entry,
    Rec, Record, Val, Value,
};
use crate::text::{
    byte_len, bytes, find, find_at, from_chars, is_text, slice, starts, starts_with, to_chars, trim,
    trimmed,
};
use crate::tree::{FileEntry, FileView};
use crate::yaml::{
    doc, doc_pairs, docs, document_of, lemma_doc_list, lemma_doc_mapping, parse, Doc, Yaml,
};
use vstd::prelude::*;

pub mod laws;

verus! {

// ── Where frontmatter stands ───────────────────────────────────────────────

/// A text without the byte order mark it may start with.
pub open spec fn without_mark(content: Seq<char>) -> Seq<char> {
    if starts(content, "\u{feff}"@) {
        content.skip(1)
    } else {
        content
    }
}

/// How long the opening fence is with its line ending; 0 where there is none.
pub open spec fn opening_len(c: Seq<char>) -> int {
    if starts(c, "---\n"@) {
        4
    } else if starts(c, "---\r\n"@) {
        5
    } else {
        0
    }
}

/// Of two places, the first; a place is a position and what ends there.
pub open spec fn earlier(a: Option<(int, int)>, b: Option<(int, int)>) -> Option<(int, int)> {
    match (a, b) {
        (Some(x), Some(y)) => if y.0 < x.0 {
            b
        } else {
            a
        },
        (None, _) => b,
        (_, None) => a,
    }
}

/// Where a pattern first stands, and where it ends.
pub open spec fn place_of(rest: Seq<char>, pattern: Seq<char>) -> Option<(int, int)> {
    match find_at(rest, pattern, 0) {
        Some(p) => Some((p, p + pattern.len())),
        None => None,
    }
}

/// Where the closing fence stands behind some lines: the position of the line
/// feed before it, and that of what follows it.
pub open spec fn closing(rest: Seq<char>) -> Option<(int, int)> {
    let at_end = match find_at(rest, "\n---"@, 0) {
        Some(p) => if p + 4 == rest.len() {
            Some((p, p + 4))
        } else {
            None
        },
        None => None,
    };
    earlier(earlier(place_of(rest, "\n---\n"@), place_of(rest, "\n---\r\n"@)), at_end)
}

/// The text between the fences and the position of what follows the closing one.
pub open spec fn fenced(c: Seq<char>) -> Option<(Seq<char>, int)> {
    let from = opening_len(c);
    let rest = c.skip(from);
    if from == 0 {
        None
    } else if starts(rest, "---\n"@) {
        Some((seq![], from + 4))
    } else if starts(rest, "---\r\n"@) {
        Some((seq![], from + 5))
    } else if rest == "---"@ {
        Some((seq![], from + 3))
    } else {
        match closing(rest) {
            Some((p, end)) => Some((rest.take(p), from + end)),
            None => None,
        }
    }
}

/// The frontmatter of a note and the position of its body.
pub open spec fn extracted(content: Seq<char>) -> Option<(Seq<char>, int)> {
    match fenced(without_mark(content)) {
        Some((fm, at)) => Some((fm, at + content.len() - without_mark(content).len())),
        None => None,
    }
}

/// Finds where a pattern first stands.
fn find_place(rest: &Vec<char>, pattern: &str) -> (r: Option<(usize, usize)>)
    ensures
        match r {
            Some((a, b)) => place_of(rest@, pattern@) == Some((a as int, b as int)) && a <= b
                <= rest.len(),
            None => place_of(rest@, pattern@) is None,
        },
{
    let p: Vec<char> = to_chars(pattern);
    match find(rest, &p, 0) {
        Some(i) => {
            assert(i + p.len() <= rest.len());
            Some((i, i + p.len()))
        },
        None => None,
    }
}

/// Takes the first of two places.
fn first_of(a: Option<(usize, usize)>, b: Option<(usize, usize)>) -> (r: Option<(usize, usize)>)
    ensures
        place_view(r) == earlier(place_view(a), place_view(b)),
        r is Some ==> r == a || r == b,
{
    match (a, b) {
        (Some(x), Some(y)) => if y.0 < x.0 {
            b
        } else {
            a
        },
        (None, _) => b,
        (_, None) => a,
    }
}

/// What a place is.
pub open spec fn place_view(p: Option<(usize, usize)>) -> Option<(int, int)> {
    match p {
        Some((a, b)) => Some((a as int, b as int)),
        None => None,
    }
}

/// Finds the text between the fences and the position of what follows.
fn find_fenced(c: &Vec<char>) -> (r: Option<(Vec<char>, usize)>)
    ensures
        match r {
            Some((fm, at)) => fenced(c@) == Some((fm@, at as int)) && at <= c.len(),
            None => fenced(c@) is None,
        },
{
    proof {
        reveal_strlit("---\n");
        reveal_strlit("---\r\n");
        reveal_strlit("---");
        reveal_strlit("\n---");
    }
    let from: usize = if starts_with(c, "---\n") {
        4
    } else if starts_with(c, "---\r\n") {
        5
    } else {
        return None;
    };
    let rest: Vec<char> = slice(c, from, c.len());
    assert(rest@ =~= c@.skip(from as int));
    if starts_with(&rest, "---\n") {
        return Some((Vec::new(), from + 4));
    }
    if starts_with(&rest, "---\r\n") {
        return Some((Vec::new(), from + 5));
    }
    if is_text(&rest, "---") {
        return Some((Vec::new(), from + 3));
    }
    let at_end: Option<(usize, usize)> = match find_place(&rest, "\n---") {
        Some((a, b)) => if b == rest.len() {
            Some((a, b))
        } else {
            None
        },
        None => None,
    };
    let best: Option<(usize, usize)> = first_of(
        first_of(find_place(&rest, "\n---\n"), find_place(&rest, "\n---\r\n")),
        at_end,
    );
    assert(place_view(best) == closing(rest@));
    match best {
        Some((p, end)) => {
            let fm: Vec<char> = slice(&rest, 0, p);
            assert(fm@ =~= rest@.take(p as int));
            Some((fm, from + end))
        },
        None => None,
    }
}

/// Finds the frontmatter of a note and the byte position of its body. There is
/// none where the fences are missing.
pub fn extract_frontmatter(content: &str) -> (r: Option<(String, usize)>)
    ensures
        match r {
            Some((fm, at)) => match extracted(content@) {
                Some((text, pos)) => fm@ == text && at == bytes(content@.take(pos)),
                None => false,
            },
            None => extracted(content@) is None,
        },
{
    match split_note(content) {
        Some((fm, head, _)) => Some((fm, byte_len(head.as_str()))),
        None => None,
    }
}

/// Splits a note at the start of its body: the frontmatter, all that stands
/// before the body, and the body.
pub fn split_note(content: &str) -> (r: Option<(String, String, String)>)
    ensures
        match r {
            Some((fm, head, body)) => match extracted(content@) {
                Some((text, pos)) => fm@ == text && head@ == content@.take(pos) && body@
                    == content@.skip(pos) && 0 <= pos <= content@.len(),
                None => false,
            },
            None => extracted(content@) is None,
        },
{
    let all: Vec<char> = to_chars(content);
    proof {
        reveal_strlit("\u{feff}");
    }
    let mark: usize = if starts_with(&all, "\u{feff}") {
        1
    } else {
        0
    };
    let c: Vec<char> = slice(&all, mark, all.len());
    assert(c@ =~= without_mark(content@));
    match find_fenced(&c) {
        Some((fm, at)) => {
            let head: Vec<char> = slice(&all, 0, at + mark);
            let body: Vec<char> = slice(&all, at + mark, all.len());
            assert(head@ =~= content@.take(at + mark));
            assert(body@ =~= content@.skip(at + mark));
            Some((from_chars(&fm), from_chars(&head), from_chars(&body)))
        },
        None => None,
    }
}

/// The frontmatter and the body of a note that starts and closes its frontmatter
/// with bare line feeds.
pub open spec fn strict_split(raw: Seq<char>) -> Option<(Seq<char>, Seq<char>)> {
    if starts(raw, "---\n"@) {
        let t = raw.skip(4);
        match find_at(t, "\n---\n"@, 0) {
            Some(p) => Some((t.take(p), t.skip(p + 5))),
            None => None,
        }
    } else {
        None
    }
}

/// Splits a note that starts and closes its frontmatter with bare line feeds.
pub fn split_frontmatter(raw: &str) -> (r: Option<(String, String)>)
    ensures
        match r {
            Some((fm, body)) => strict_split(raw@) == Some((fm@, body@)),
            None => strict_split(raw@) is None,
        },
{
    let all: Vec<char> = to_chars(raw);
    proof {
        reveal_strlit("---\n");
        reveal_strlit("\n---\n");
    }
    if !starts_with(&all, "---\n") {
        return None;
    }
    let t: Vec<char> = slice(&all, 4, all.len());
    assert(t@ =~= raw@.skip(4));
    match find_place(&t, "\n---\n") {
        Some((p, end)) => {
            let fm: Vec<char> = slice(&t, 0, p);
            let body: Vec<char> = slice(&t, end, t.len());
            assert(fm@ =~= t@.take(p as int));
            assert(body@ =~= t@.skip(p + 5));
            Some((from_chars(&fm), from_chars(&body)))
        },
        None => None,
    }
}

// ── The fields it holds ────────────────────────────────────────────────────

/// A key of a mapping as a text; a key that is no text is the empty one.
pub open spec fn key_text(d: Doc) -> Seq<char>
    decreases d,
{
    match d {
        Doc::Text(s) => s,
        Doc::Tagged(t) => key_text(*t),
        _ => seq![],
    }
}

/// The value that a document stands for.
pub open spec fn value_of(d: Doc) -> Val
    decreases d,
{
    match d {
        Doc::Null => Val::Null,
        Doc::Bool(b) => Val::Bool(b),
        Doc::Int(n) => Val::Int(n),
        Doc::Float(f) => Val::Float(f),
        Doc::Text(s) => Val::Text(s),
        Doc::List(items) => Val::List(values_of(items)),
        Doc::Mapping(m) => Val::Mapping(fields_of(m)),
        Doc::Tagged(t) => value_of(*t),
    }
}

/// The values that documents stand for.
pub open spec fn values_of(items: Seq<Doc>) -> Seq<Val>
    decreases items,
{
    Seq::new(
        items.len(),
        |i: int|
            if 0 <= i < items.len() {
                value_of(items[i])
            } else {
                Val::Null
            },
    )
}

/// The entries that a mapping stands for: of equal keys, the last one counts.
pub open spec fn fields_of(m: Seq<(Doc, Doc)>) -> Seq<(Seq<char>, Val)>
    decreases m,
{
    if m.len() == 0 {
        seq![]
    } else {
        with_entry(fields_of(m.drop_last()), key_text(m.last().0), value_of(m.last().1))
    }
}

/// The entries of a mapping whose keys are plain texts.
pub open spec fn plain_fields(m: Seq<(Doc, Doc)>) -> Seq<(Seq<char>, Val)>
    decreases m.len(),
{
    if m.len() == 0 {
        seq![]
    } else {
        match m.last().0 {
            Doc::Text(k) => with_entry(plain_fields(m.drop_last()), k, value_of(m.last().1)),
            _ => plain_fields(m.drop_last()),
        }
    }
}

/// The fields of a document: a mapping has its entries, nothing has none.
pub open spec fn document_fields(d: Doc) -> Result<Seq<(Seq<char>, Val)>, Failure> {
    match d {
        Doc::Mapping(m) => Ok(plain_fields(m)),
        Doc::Null => Ok(seq![]),
        _ => Err(
            Failure::InvalidFrontmatter {
                file: "<unknown>"@,
                reason: "frontmatter is not a YAML mapping"@,
            },
        ),
    }
}

/// The fields that a frontmatter text holds.
pub open spec fn parsed_fields(text: Seq<char>) -> Result<Seq<(Seq<char>, Val)>, Failure> {
    if trimmed(text).len() == 0 {
        Ok(seq![])
    } else {
        match document_of(text) {
            Ok(d) => document_fields(d),
            Err(e) => Err(Failure::Yaml(e)),
        }
    }
}

/// What fields that were read, or the failure, are.
pub open spec fn fields_view(r: Result<Vec<(String, Value)>, VaultdbError>) -> Result<
    Seq<(Seq<char>, Val)>,
    Failure,
> {
    match r {
        Ok(m) => Ok(entries(m@)),
        Err(e) => Err(e@),
    }
}

/// Reads a key of a mapping as a text.
fn yaml_key(y: &Yaml) -> (r: String)
    ensures
        r@ == key_text(doc(*y)),
    decreases y,
{
    match y {
        Yaml::Text(s) => s.clone(),
        Yaml::Tagged(t) => yaml_key(&**t),
        _ => String::new(),
    }
}

/// Turns a document into the value that it stands for.
pub fn yaml_to_field_value(y: &Yaml) -> (r: Value)
    ensures
        val(r) == value_of(doc(*y)),
    decreases y,
{
    match y {
        Yaml::Null => Value::Null,
        Yaml::Bool(b) => Value::Bool(*b),
        Yaml::Int(n) => Value::Integer(*n),
        Yaml::Float(f) => Value::Float(copy_float(f)),
        Yaml::Text(s) => Value::String(s.clone()),
        Yaml::List(items) => {
            proof {
                lemma_doc_list(*items);
            }
            let ghost all = docs(items@);
            let mut out: Vec<Value> = Vec::new();
            let mut i: usize = 0;
            assert(vals(out@) =~= values_of(all).take(0));
            while i < items.len()
                invariant
                    *y == Yaml::List(*items),
                    all == docs(items@),
                    i <= items.len(),
                    vals(out@) == values_of(all).take(i as int),
                decreases items.len() - i,
            {
                proof {
                    broadcast use vstd::std_specs::vec::axiom_vec_index_decreases;

                    assert(decreases_to!(*items => items[i as int]));
                    assert(decreases_to!(*y => y->List_0));
                }
                let v: Value = yaml_to_field_value(&items[i]);
                proof {
                    lemma_vals_push(out@, v);
                }
                out.push(v);
                i += 1;
                assert(vals(out@) =~= values_of(all).take(i as int));
            }
            assert(vals(out@) =~= values_of(all));
            proof {
                lemma_val_list(out);
            }
            Value::List(out)
        },
        Yaml::Mapping(m) => {
            proof {
                lemma_doc_mapping(*m);
            }
            let ghost all = doc_pairs(m@);
            let mut out: Vec<(String, Value)> = Vec::new();
            let mut i: usize = 0;
            assert(all.take(0) =~= seq![]);
            assert(entries(out@) =~= fields_of(all.take(0)));
            while i < m.len()
                invariant
                    *y == Yaml::Mapping(*m),
                    all == doc_pairs(m@),
                    i <= m.len(),
                    entries(out@) == fields_of(all.take(i as int)),
                decreases m.len() - i,
            {
                proof {
                    broadcast use vstd::std_specs::vec::axiom_vec_index_decreases;

                    assert(decreases_to!(*m => m[i as int]));
                    assert(decreases_to!(m[i as int] => m[i as int].1));
                    assert(decreases_to!(*y => y->Mapping_0));
                    assert(all.take(i + 1).drop_last() =~= all.take(i as int));
                }
                let v: Value = yaml_to_field_value(&m[i].1);
                let k: String = yaml_key(&m[i].0);
                set_entry(&mut out, k.as_str(), v);
                i += 1;
            }
            assert(all.take(i as int) =~= all);
            proof {
                lemma_val_mapping(out);
            }
            Value::Mapping(out)
        },
        Yaml::Tagged(t) => yaml_to_field_value(&**t),
    }
}

/// Reads the fields of a document.
pub fn fields_of_document(y: &Yaml) -> (r: Result<Vec<(String, Value)>, VaultdbError>)
    ensures
        fields_view(r) == document_fields(doc(*y)),
{
    match y {
        Yaml::Mapping(m) => {
            proof {
                lemma_doc_mapping(*m);
            }
            let ghost all = doc_pairs(m@);
            let mut out: Vec<(String, Value)> = Vec::new();
            let mut i: usize = 0;
            assert(all.take(0) =~= seq![]);
            assert(entries(out@) =~= plain_fields(all.take(0)));
            while i < m.len()
                invariant
                    all == doc_pairs(m@),
                    i <= m.len(),
                    entries(out@) == plain_fields(all.take(i as int)),
                decreases m.len() - i,
            {
                assert(all.take(i + 1).drop_last() =~= all.take(i as int));
                match &m[i].0 {
                    Yaml::Text(k) => {
                        let v: Value = yaml_to_field_value(&m[i].1);
                        set_entry(&mut out, k.as_str(), v);
                    },
                    _ => {},
                }
                i += 1;
            }
            assert(all.take(i as int) =~= all);
            Ok(out)
        },
        Yaml::Null => {
            let none: Vec<(String, Value)> = Vec::new();
            assert(entries(none@) =~= seq![]);
            Ok(none)
        },
        _ => Err(
            VaultdbError::InvalidFrontmatter {
                file: "<unknown>".to_owned(),
                reason: "frontmatter is not a YAML mapping".to_owned(),
            },
        ),
    }
}

/// Reads the fields that a frontmatter text holds.
pub fn parse_frontmatter(yaml_text: &str) -> (r: Result<Vec<(String, Value)>, VaultdbError>)
    ensures
        fields_view(r) == parsed_fields(yaml_text@),
{
    if trim(&to_chars(yaml_text)).len() == 0 {
        let none: Vec<(String, Value)> = Vec::new();
        assert(entries(none@) =~= seq![]);
        return Ok(none);
    }
    match parse(yaml_text) {
        Ok(y) => fields_of_document(&y),
        Err(e) => Err(VaultdbError::Yaml(e)),
    }
}

// ── Loading a note ─────────────────────────────────────────────────────────

/// The record of a file, with its text or without it.
pub open spec fn record_of(f: FileView, with_content: bool) -> Result<Rec, Failure> {
    match f.content {
        Err(e) => Err(Failure::Io(e)),
        Ok(text) => match extracted(text) {
            None => Err(Failure::NoFrontmatter(f.path)),
            Some((fm, _)) => match parsed_fields(fm) {
                Err(_) => Err(
                    Failure::InvalidFrontmatter { file: f.path, reason: "failed to parse YAML"@ },
                ),
                Ok(fields) => Ok(
                    Rec {
                        path: f.path,
                        fields,
                        content: if with_content {
                            Some(text)
                        } else {
                            None
                        },
                        modified: f.modified,
                        created: f.created,
                    },
                ),
            },
        },
    }
}

/// What a record, or the failure, is.
pub open spec fn record_view(r: Result<Record, VaultdbError>) -> Result<Rec, Failure> {
    match r {
        Ok(x) => Ok(x@),
        Err(e) => Err(e@),
    }
}

/// Reads the record of a file.
fn read_record(file: &FileEntry, with_content: bool) -> (r: Result<Record, VaultdbError>)
    ensures
        record_view(r) == record_of(file@, with_content),
{
    match &file.content {
        Err(e) => Err(VaultdbError::Io(e.clone())),
        Ok(text) => match extract_frontmatter(text.as_str()) {
            None => Err(VaultdbError::NoFrontmatter(file.path.clone())),
            Some((fm, _)) => match parse_frontmatter(fm.as_str()) {
                Err(_) => Err(
                    VaultdbError::InvalidFrontmatter {
                        file: file.path.clone(),
                        reason: "failed to parse YAML".to_owned(),
                    },
                ),
                Ok(fields) => Ok(
                    Record {
                        path: file.path.clone(),
                        fields,
                        raw_content: if with_content {
                            Some(text.clone())
                        } else {
                            None
                        },
                        modified: file.modified,
                        created: file.created,
                    },
                ),
            },
        },
    }
}

/// Reads the record of a file, without its text.
pub fn load_record(file: &FileEntry) -> (r: Result<Record, VaultdbError>)
    ensures
        record_view(r) == record_of(file@, false),
{
    read_record(file, false)
}

/// Reads the record of a file, with its text.
pub fn load_record_with_content(file: &FileEntry) -> (r: Result<Record, VaultdbError>)
    ensures
        record_view(r) == record_of(file@, true),
{
    read_record(file, true)
}

/// The record of a file, where a note without frontmatter has no fields.
pub open spec fn note_of(f: FileView, with_content: bool) -> Result<Rec, Failure> {
    match record_of(f, with_content) {
        Err(Failure::NoFrontmatter(_)) => Ok(
            Rec {
                path: f.path,
                fields: seq![],
                content: match f.content {
                    Ok(text) => if with_content {
                        Some(text)
                    } else {
                        None
                    },
                    Err(_) => None,
                },
                modified: f.modified,
                created: f.created,
            },
        ),
        r => r,
    }
}

/// Reads the record of a file; a note without frontmatter has no fields.
pub fn load_note(file: &FileEntry, with_content: bool) -> (r: Result<Record, VaultdbError>)
    ensures
        record_view(r) == note_of(file@, with_content),
{
    match read_record(file, with_content) {
        Ok(x) => Ok(x),
        Err(VaultdbError::NoFrontmatter(_)) => {
            let none: Vec<(String, Value)> = Vec::new();
            assert(entries(none@) =~= seq![]);
            Ok(
                Record {
                    path: file.path.clone(),
                    fields: none,
                    raw_content: match &file.content {
                        Ok(text) => if with_content {
                            Some(text.clone())
                        } else {
                            None
                        },
                        Err(_) => None,
                    },
                    modified: file.modified,
                    created: file.created,
                },
            )
        },
        Err(e) => Err(e),
    }
}

} // verus!
