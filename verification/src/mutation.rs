//! Changes to a vault: what they would do, and what they do.
//!
//! Each builder describes a change. `plan` tells what it would come to on a picture
//! of the file system; `execute` gives, besides, what is to be done on the disk.

use crate::error::{message, Failure, VaultdbError};
use crate::filter::{evaluate_expr, expr_uses_links, holds, uses_links};
use crate::links::{graph_of, graph_view, Graph, LinkGraph};
use crate::path::below;
use crate::query::{cond, Cond, Expr};
use crate::record::{
    bool_text, copy_fields, copy_value, entries, field, find_key, lemma_val_list, lemma_vals_push,
    note_name, recs, remove_entry, set_entry, val, vals, with_entry, without_entry, Rec, Record,
    Val, Value,
};
use crate::schema::{
    applying, by_depth, collection_views, ref_views, validate_record, violations, vios,
    CollectionRule, CollectionSchema, Vio, VaultSchema, Violation,
};
use crate::text::{
    bytes, cat2, cat3, cat4, from_chars, integer_text, join_strings, joined,
    lemma_string_views_push, same_text, signed_decimal, string_views, to_chars, trim_end,
    trimmed_end,
};
use crate::tree::{has_folder, notes_in, Picture, Tree};
use crate::vault::{loaded, LoadResult, Vault};
use crate::writer::{
    add_tag, append_body, body_appended, body_edit, body_of, change_text, clear_body, edit_view,
    field_removed, field_set, parts, quote_value, quoted, remove_tag, set_body, set_field_block,
    set_field_preformatted, tag_added, tag_removed, unset_field, value_set, Change,
    ChangeDescription, Edit, WriteOptions, WriteResult,
};
use crate::yaml::{render_value, value_yaml};
use vstd::prelude::*;

pub mod create;
pub mod laws;
pub mod relocate;
pub mod rename;
pub mod steps;
pub mod updates;

verus! {

// ── Reports ────────────────────────────────────────────────────────────────

/// What a change would do, or did: the changes note by note, and the notes it failed
/// on.
#[derive(Debug, PartialEq, Eq)]
pub struct MutationReport {
    pub changes: Vec<PlannedChange>,
    pub errors: Vec<MutationError>,
}

/// A change to one note.
#[derive(Debug, PartialEq, Eq)]
pub struct PlannedChange {
    pub path: String,
    pub description: String,
}

/// A failure on one note.
#[derive(Debug, PartialEq, Eq)]
pub struct MutationError {
    pub path: String,
    pub message: String,
}

/// A report as sequences: paths with descriptions, and paths with messages.
pub struct Report {
    pub changes: Seq<(Seq<char>, Seq<char>)>,
    pub errors: Seq<(Seq<char>, Seq<char>)>,
}

/// What changes are.
pub open spec fn changes_view(v: Seq<PlannedChange>) -> Seq<(Seq<char>, Seq<char>)> {
    Seq::new(v.len(), |i: int| (v[i].path@, v[i].description@))
}

/// What failures are.
pub open spec fn errors_view(v: Seq<MutationError>) -> Seq<(Seq<char>, Seq<char>)> {
    Seq::new(v.len(), |i: int| (v[i].path@, v[i].message@))
}

impl View for MutationReport {
    type V = Report;

    open spec fn view(&self) -> Report {
        Report { changes: changes_view(self.changes@), errors: errors_view(self.errors@) }
    }
}

/// Changes followed by one more.
pub proof fn lemma_changes_push(v: Seq<PlannedChange>, x: PlannedChange)
    ensures
        changes_view(v.push(x)) == changes_view(v).push((x.path@, x.description@)),
{
    assert(changes_view(v.push(x)) =~= changes_view(v).push((x.path@, x.description@)));
}

/// Failures followed by one more.
pub proof fn lemma_errors_push(v: Seq<MutationError>, x: MutationError)
    ensures
        errors_view(v.push(x)) == errors_view(v).push((x.path@, x.message@)),
{
    assert(errors_view(v.push(x)) =~= errors_view(v).push((x.path@, x.message@)));
}

/// Adds a change to a report.
pub fn push_change(v: &mut Vec<PlannedChange>, path: &str, description: String)
    ensures
        changes_view(final(v)@) == changes_view(old(v)@).push((path@, description@)),
{
    let x: PlannedChange = PlannedChange { path: path.to_owned(), description };
    proof {
        lemma_changes_push(v@, x);
    }
    v.push(x);
}

/// Adds a failure to a report.
pub fn push_error(v: &mut Vec<MutationError>, path: &str, message: String)
    ensures
        errors_view(final(v)@) == errors_view(old(v)@).push((path@, message@)),
{
    let x: MutationError = MutationError { path: path.to_owned(), message };
    proof {
        lemma_errors_push(v@, x);
    }
    v.push(x);
}

/// What a report, or the failure, is.
pub open spec fn report_view(r: Result<MutationReport, VaultdbError>) -> Result<Report, Failure> {
    match r {
        Ok(x) => Ok(x@),
        Err(e) => Err(e@),
    }
}

/// A write as sequences: the path, the text before and after, and the changes.
pub struct Write {
    pub path: Seq<char>,
    pub original: Seq<char>,
    pub modified: Seq<char>,
    pub changes: Seq<Change>,
}

/// What changes to a text are.
pub open spec fn change_views(v: Seq<ChangeDescription>) -> Seq<Change> {
    Seq::new(v.len(), |i: int| v[i]@)
}

impl View for WriteResult {
    type V = Write;

    open spec fn view(&self) -> Write {
        Write {
            path: self.path@,
            original: self.original_content@,
            modified: self.modified_content@,
            changes: change_views(self.changes@),
        }
    }
}

/// What writes are.
pub open spec fn write_views(v: Seq<WriteResult>) -> Seq<Write> {
    Seq::new(v.len(), |i: int| v[i]@)
}

// ── Values in the frontmatter ──────────────────────────────────────────────

/// A value as it is written behind the key of a field.
pub open spec fn inline_yaml(v: Val) -> Seq<char> {
    match v {
        Val::Null => "null"@,
        Val::Bool(b) => bool_text(b),
        Val::Int(n) => signed_decimal(n as int),
        Val::Float(f) => f.1,
        Val::Text(s) => quoted(s),
        _ => match value_yaml(v) {
            Ok(t) => trimmed_end(t),
            Err(_) => seq![],
        },
    }
}

/// Writes a value as it stands behind the key of a field.
pub fn render_value_for_yaml(v: &Value) -> (r: String)
    ensures
        r@ == inline_yaml(val(*v)),
{
    match v {
        Value::Null => "null".to_owned(),
        Value::Bool(b) => if *b {
            "true".to_owned()
        } else {
            "false".to_owned()
        },
        Value::Integer(n) => integer_text(*n),
        Value::Float(f) => f.text.clone(),
        Value::String(s) => quote_value(s.as_str()),
        Value::List(_) | Value::Mapping(_) => match render_value(v) {
            Ok(t) => from_chars(&trim_end(&to_chars(t.as_str()))),
            Err(_) => String::new(),
        },
    }
}

// ── Updating notes ─────────────────────────────────────────────────────────

/// A change to the body of a note.
#[derive(Debug, PartialEq, Eq)]
pub enum BodyOp {
    Clear,
    Replace(String),
    Append { text: String, separator: String },
}

/// A change to the body, with its texts as sequences of characters.
pub enum BodyStep {
    Clear,
    Replace(Seq<char>),
    Append { text: Seq<char>, separator: Seq<char> },
}

impl View for BodyOp {
    type V = BodyStep;

    open spec fn view(&self) -> BodyStep {
        match *self {
            BodyOp::Clear => BodyStep::Clear,
            BodyOp::Replace(t) => BodyStep::Replace(t@),
            BodyOp::Append { text, separator } => BodyStep::Append {
                text: text@,
                separator: separator@,
            },
        }
    }
}

/// What changes to the body are.
pub open spec fn body_views(v: Seq<BodyOp>) -> Seq<BodyStep> {
    Seq::new(v.len(), |i: int| v[i]@)
}

/// Changes to the body followed by one more.
proof fn lemma_body_views_push(v: Seq<BodyOp>, x: BodyOp)
    ensures
        body_views(v.push(x)) == body_views(v).push(x@),
{
    assert(body_views(v.push(x)) =~= body_views(v).push(x@));
}

/// Copies a change to the body.
fn copy_body_op(b: &BodyOp) -> (r: BodyOp)
    ensures
        r@ == b@,
{
    match b {
        BodyOp::Clear => BodyOp::Clear,
        BodyOp::Replace(t) => BodyOp::Replace(t.clone()),
        BodyOp::Append { text, separator } => BodyOp::Append {
            text: text.clone(),
            separator: separator.clone(),
        },
    }
}

/// A change to a note.
pub enum Op {
    SetField(String, Value),
    Unset(String),
    AddTag(String),
    RemoveTag(String),
    Body(BodyOp),
}

/// A change to a note, with its texts as sequences of characters.
pub enum Step {
    SetField(Seq<char>, Val),
    Unset(Seq<char>),
    AddTag(Seq<char>),
    RemoveTag(Seq<char>),
    Body(BodyStep),
}

impl View for Op {
    type V = Step;

    open spec fn view(&self) -> Step {
        match *self {
            Op::SetField(f, v) => Step::SetField(f@, val(v)),
            Op::Unset(f) => Step::Unset(f@),
            Op::AddTag(t) => Step::AddTag(t@),
            Op::RemoveTag(t) => Step::RemoveTag(t@),
            Op::Body(b) => Step::Body(b@),
        }
    }
}

/// What changes to a note are.
pub open spec fn step_views(v: Seq<Op>) -> Seq<Step> {
    Seq::new(v.len(), |i: int| v[i]@)
}

/// One change to the body of a note.
pub open spec fn body_stepped(content: Seq<char>, b: BodyStep) -> Edit {
    let old = body_of(content);
    match b {
        BodyStep::Clear => body_edit(content, seq![], Change::ClearBody { old_len: bytes(old) }),
        BodyStep::Replace(t) => body_edit(
            content,
            t,
            Change::SetBody { old_len: bytes(old), new_len: bytes(t) },
        ),
        BodyStep::Append { text, separator } => body_edit(
            content,
            body_appended(old, text, separator),
            Change::AppendBody { added_len: bytes(text) },
        ),
    }
}

/// One change to the text of a note.
pub open spec fn stepped(content: Seq<char>, s: Step) -> Edit {
    match s {
        Step::SetField(f, v) => if v is List || v is Mapping {
            value_set(content, f, v)
        } else {
            field_set(content, f, inline_yaml(v), inline_yaml(v))
        },
        Step::Unset(f) => field_removed(parts(content), content, f),
        Step::AddTag(t) => tag_added(parts(content), content, t),
        Step::RemoveTag(t) => tag_removed(parts(content), content, t),
        Step::Body(b) => body_stepped(content, b),
    }
}

/// Several changes to the text of a note, one after the other; the first that fails
/// is the failure.
pub open spec fn edited(content: Seq<char>, steps: Seq<Step>) -> Result<
    (Seq<char>, Seq<Change>),
    Failure,
>
    decreases steps.len(),
{
    if steps.len() == 0 {
        Ok((content, seq![]))
    } else {
        match edited(content, steps.drop_last()) {
            Err(e) => Err(e),
            Ok((text, changes)) => match stepped(text, steps.last()) {
                Err(e) => Err(e),
                Ok((new, change)) => Ok((new, changes.push(change))),
            },
        }
    }
}

/// The first change that fails stands.
proof fn lemma_edited_prefix(content: Seq<char>, steps: Seq<Step>, k: int)
    requires
        0 <= k <= steps.len(),
        edited(content, steps.take(k)) is Err,
    ensures
        edited(content, steps) == edited(content, steps.take(k)),
    decreases steps.len() - k,
{
    if k == steps.len() {
        assert(steps.take(k) =~= steps);
    } else {
        assert(steps.take(k + 1).drop_last() =~= steps.take(k));
        lemma_edited_prefix(content, steps, k + 1);
    }
}

/// The texts of some changes.
pub open spec fn change_texts(v: Seq<Change>) -> Seq<Seq<char>> {
    Seq::new(v.len(), |i: int| change_text(v[i]))
}

/// Makes one change to the text of a note.
fn apply_op(content: &str, op: &Op) -> (r: Result<(String, ChangeDescription), VaultdbError>)
    ensures
        edit_view(r) == stepped(content@, op@),
{
    match op {
        Op::SetField(f, v) => match v {
            Value::List(_) | Value::Mapping(_) => set_field_block(content, f.as_str(), v),
            _ => {
                let text: String = render_value_for_yaml(v);
                set_field_preformatted(content, f.as_str(), text.as_str())
            },
        },
        Op::Unset(f) => unset_field(content, f.as_str()),
        Op::AddTag(t) => add_tag(content, t.as_str()),
        Op::RemoveTag(t) => remove_tag(content, t.as_str()),
        Op::Body(BodyOp::Clear) => clear_body(content),
        Op::Body(BodyOp::Replace(t)) => set_body(content, t.as_str()),
        Op::Body(BodyOp::Append { text, separator }) => append_body(
            content,
            text.as_str(),
            separator.as_str(),
        ),
    }
}

/// What edits of a text, or the failure, are.
pub open spec fn edits_view(r: Result<(String, Vec<ChangeDescription>), VaultdbError>) -> Result<
    (Seq<char>, Seq<Change>),
    Failure,
> {
    match r {
        Ok((t, c)) => Ok((t@, change_views(c@))),
        Err(e) => Err(e@),
    }
}

/// Makes several changes to the text of a note.
pub fn apply_ops(content: &str, ops: &Vec<Op>) -> (r: Result<
    (String, Vec<ChangeDescription>),
    VaultdbError,
>)
    ensures
        edits_view(r) == edited(content@, step_views(ops@)),
{
    let ghost steps = step_views(ops@);
    let mut text: String = content.to_owned();
    let mut changes: Vec<ChangeDescription> = Vec::new();
    let mut i: usize = 0;
    assert(steps.take(0) =~= seq![]);
    assert(change_views(changes@) =~= seq![]);
    while i < ops.len()
        invariant
            steps == step_views(ops@),
            i <= ops.len(),
            edited(content@, steps.take(i as int)) == Ok::<(Seq<char>, Seq<Change>), Failure>(
                (text@, change_views(changes@)),
            ),
        decreases ops.len() - i,
    {
        assert(steps.take(i + 1).drop_last() =~= steps.take(i as int));
        match apply_op(text.as_str(), &ops[i]) {
            Ok((new, change)) => {
                let ghost before = changes@;
                text = new;
                changes.push(change);
                assert(change_views(changes@) =~= change_views(before).push(change@));
            },
            Err(e) => {
                proof {
                    lemma_edited_prefix(content@, steps, i + 1);
                }
                return Err(e);
            },
        }
        i += 1;
    }
    assert(steps.take(i as int) =~= steps);
    Ok((text, changes))
}

/// Describes some changes.
fn describe(changes: &Vec<ChangeDescription>) -> (r: String)
    ensures
        r@ == joined(change_texts(change_views(changes@)), "; "@),
{
    let ghost all = change_texts(change_views(changes@));
    let mut out: Vec<String> = Vec::new();
    let mut i: usize = 0;
    assert(string_views(out@) =~= all.take(0));
    while i < changes.len()
        invariant
            all == change_texts(change_views(changes@)),
            i <= changes.len(),
            string_views(out@) == all.take(i as int),
        decreases changes.len() - i,
    {
        let t: String = changes[i].to_string();
        proof {
            lemma_string_views_push(out@, t);
            assert(string_views(out@).push(t@) =~= all.take(i + 1));
        }
        out.push(t);
        i += 1;
    }
    assert(all.take(i as int) =~= all);
    join_strings(&out, "; ")
}

/// An update: which notes of a folder, and what changes in them.
pub struct UpdateBuilder {
    pub filter: Expr,
    pub folder: String,
    pub set_fields: Vec<(String, Value)>,
    pub unset_fields: Vec<String>,
    pub add_tags: Vec<String>,
    pub remove_tags: Vec<String>,
    pub body: Vec<BodyOp>,
    /// Whether notes in folders below count, too.
    pub recursive: bool,
    /// The schema that the notes must still meet.
    pub vault_schema: Option<VaultSchema>,
    pub write_options: WriteOptions,
}

/// An update as sequences.
pub struct Update {
    pub filter: Cond,
    pub folder: Seq<char>,
    pub sets: Seq<(Seq<char>, Val)>,
    pub unsets: Seq<Seq<char>>,
    pub adds: Seq<Seq<char>>,
    pub removes: Seq<Seq<char>>,
    pub body: Seq<BodyStep>,
    pub recursive: bool,
    pub schema: Option<Seq<(Seq<char>, CollectionRule)>>,
    pub fsync: bool,
}

/// What a schema that may be missing is.
pub open spec fn schema_view(s: Option<VaultSchema>) -> Option<Seq<(Seq<char>, CollectionRule)>> {
    match s {
        Some(s) => Some(collection_views(s.collections@)),
        None => None,
    }
}

impl View for UpdateBuilder {
    type V = Update;

    open spec fn view(&self) -> Update {
        Update {
            filter: cond(self.filter),
            folder: self.folder@,
            sets: entries(self.set_fields@),
            unsets: string_views(self.unset_fields@),
            adds: string_views(self.add_tags@),
            removes: string_views(self.remove_tags@),
            body: body_views(self.body@),
            recursive: self.recursive,
            schema: schema_view(self.vault_schema),
            fsync: self.write_options.fsync,
        }
    }
}

/// The changes of an update in the order in which they are made: fields set, fields
/// removed, tags added, tags removed, the body.
pub open spec fn steps_of(u: Update) -> Seq<Step> {
    Seq::new(u.sets.len(), |i: int| Step::SetField(u.sets[i].0, u.sets[i].1)) + Seq::new(
        u.unsets.len(),
        |i: int| Step::Unset(u.unsets[i]),
    ) + Seq::new(u.adds.len(), |i: int| Step::AddTag(u.adds[i])) + Seq::new(
        u.removes.len(),
        |i: int| Step::RemoveTag(u.removes[i]),
    ) + Seq::new(u.body.len(), |i: int| Step::Body(u.body[i]))
}

/// Fields with some set.
pub open spec fn with_all(fields: Seq<(Seq<char>, Val)>, sets: Seq<(Seq<char>, Val)>) -> Seq<
    (Seq<char>, Val),
>
    decreases sets.len(),
{
    if sets.len() == 0 {
        fields
    } else {
        with_entry(with_all(fields, sets.drop_last()), sets.last().0, sets.last().1)
    }
}

/// Fields with some removed.
pub open spec fn without_all(fields: Seq<(Seq<char>, Val)>, unsets: Seq<Seq<char>>) -> Seq<
    (Seq<char>, Val),
>
    decreases unsets.len(),
{
    if unsets.len() == 0 {
        fields
    } else {
        without_entry(without_all(fields, unsets.drop_last()), unsets.last())
    }
}

/// The tags among some fields.
pub open spec fn tags_of(fields: Seq<(Seq<char>, Val)>) -> Seq<Val> {
    match field(fields, "tags"@) {
        Some(Val::List(items)) => items,
        _ => seq![],
    }
}

/// The first item from a position on that is a text.
pub open spec fn text_at(items: Seq<Val>, t: Seq<char>, from: int) -> Option<int>
    decreases items.len() - from,
{
    if from < 0 || from >= items.len() {
        None
    } else if items[from] == Val::Text(t) {
        Some(from)
    } else {
        text_at(items, t, from + 1)
    }
}

/// Items without the first that is a text.
pub open spec fn without_text(items: Seq<Val>, t: Seq<char>) -> Seq<Val> {
    match text_at(items, t, 0) {
        Some(i) => items.remove(i),
        None => items,
    }
}

/// Items without some texts.
pub open spec fn without_texts(items: Seq<Val>, ts: Seq<Seq<char>>) -> Seq<Val>
    decreases ts.len(),
{
    if ts.len() == 0 {
        items
    } else {
        without_text(without_texts(items, ts.drop_last()), ts.last())
    }
}

/// The fields of a note after an update.
pub open spec fn updated_fields(fields: Seq<(Seq<char>, Val)>, u: Update) -> Seq<(Seq<char>, Val)> {
    let f = without_all(with_all(fields, u.sets), u.unsets);
    if u.adds.len() == 0 && u.removes.len() == 0 {
        f
    } else {
        with_entry(
            f,
            "tags"@,
            Val::List(
                without_texts(tags_of(f) + crate::links::text_vals(u.adds), u.removes),
            ),
        )
    }
}

// ── Checking a note against a schema ───────────────────────────────────────

/// What is wrong with the fields of a note by some collections.
pub open spec fn all_violations(
    file: Seq<char>,
    fields: Seq<(Seq<char>, Val)>,
    cs: Seq<CollectionRule>,
) -> Seq<Vio>
    decreases cs.len(),
{
    if cs.len() == 0 {
        seq![]
    } else {
        all_violations(file, fields, cs.drop_last()) + violations(file, fields, cs.last())
    }
}

/// The fields and messages of some violations, each pair once.
pub open spec fn noticed(vs: Seq<Vio>) -> Seq<(Seq<char>, Seq<char>)>
    decreases vs.len(),
{
    if vs.len() == 0 {
        seq![]
    } else {
        let before = noticed(vs.drop_last());
        let pair = (vs.last().field, vs.last().message);
        if before.contains(pair) {
            before
        } else {
            before.push(pair)
        }
    }
}

/// The failures on a note that some violations come to.
pub open spec fn schema_errors(path: Seq<char>, pairs: Seq<(Seq<char>, Seq<char>)>) -> Seq<
    (Seq<char>, Seq<char>),
> {
    Seq::new(pairs.len(), |i: int| (path, "schema: "@ + pairs[i].0 + " — "@ + pairs[i].1))
}

/// Tells whether a pair is among others.
fn has_pair(v: &Vec<(String, String)>, a: &str, b: &str) -> (r: bool)
    ensures
        r == crate::links::edge_views(v@).contains((a@, b@)),
{
    let ghost all = crate::links::edge_views(v@);
    let mut i: usize = 0;
    while i < v.len()
        invariant
            all == crate::links::edge_views(v@),
            i <= v.len(),
            forall|k: int| 0 <= k < i ==> #[trigger] all[k] != (a@, b@),
        decreases v.len() - i,
    {
        if same_text(v[i].0.as_str(), a) && same_text(v[i].1.as_str(), b) {
            assert(all[i as int] == (a@, b@));
            return true;
        }
        i += 1;
    }
    false
}

/// Adds violations to those that were noticed.
fn notice(seen: &mut Vec<(String, String)>, found: &Vec<Violation>, Ghost(vs): Ghost<Seq<Vio>>)
    requires
        crate::links::edge_views(old(seen)@) == noticed(vs),
    ensures
        crate::links::edge_views(final(seen)@) == noticed(vs + vios(found@)),
{
    let ghost fv = vios(found@);
    let mut i: usize = 0;
    assert(vs + fv.take(0) =~= vs);
    while i < found.len()
        invariant
            fv == vios(found@),
            i <= found.len(),
            crate::links::edge_views(seen@) == noticed(vs + fv.take(i as int)),
        decreases found.len() - i,
    {
        let ghost now = vs + fv.take(i + 1);
        assert(now.drop_last() =~= vs + fv.take(i as int));
        assert(now.last() == found@[i as int]@);
        if !has_pair(seen, found[i].field.as_str(), found[i].message.as_str()) {
            let ghost before = seen@;
            let x: (String, String) = (found[i].field.clone(), found[i].message.clone());
            seen.push(x);
            assert(crate::links::edge_views(seen@) =~= crate::links::edge_views(before).push(
                (x.0@, x.1@),
            ));
        }
        i += 1;
    }
    assert(fv.take(i as int) =~= fv);
}

/// Checks the fields of a note against some collections.
pub fn check_schema(filename: &str, fields: &Vec<(String, Value)>, cols: &Vec<&CollectionSchema>) -> (r:
    Vec<(String, String)>)
    ensures
        crate::links::edge_views(r@) == noticed(
            all_violations(filename@, entries(fields@), ref_views(cols@)),
        ),
{
    let ghost cs = ref_views(cols@);
    let ghost fs = entries(fields@);
    let mut seen: Vec<(String, String)> = Vec::new();
    let mut i: usize = 0;
    assert(cs.take(0) =~= seq![]);
    assert(crate::links::edge_views(seen@) =~= seq![]);
    while i < cols.len()
        invariant
            cs == ref_views(cols@),
            fs == entries(fields@),
            i <= cols.len(),
            crate::links::edge_views(seen@) == noticed(
                all_violations(filename@, fs, cs.take(i as int)),
            ),
        decreases cols.len() - i,
    {
        assert(cs.take(i + 1).drop_last() =~= cs.take(i as int));
        let found: Vec<Violation> = validate_record(filename, fields, cols[i]);
        notice(&mut seen, &found, Ghost(all_violations(filename@, fs, cs.take(i as int))));
        i += 1;
    }
    assert(cs.take(i as int) =~= cs);
    seen
}

/// Adds the failures that violations come to.
pub fn push_violations(errors: &mut Vec<MutationError>, path: &str, pairs: &Vec<(String, String)>)
    ensures
        errors_view(final(errors)@) == errors_view(old(errors)@) + schema_errors(
            path@,
            crate::links::edge_views(pairs@),
        ),
{
    let ghost before = errors_view(errors@);
    let ghost all = schema_errors(path@, crate::links::edge_views(pairs@));
    let mut i: usize = 0;
    assert(errors_view(errors@) =~= before + all.take(0));
    while i < pairs.len()
        invariant
            all == schema_errors(path@, crate::links::edge_views(pairs@)),
            i <= pairs.len(),
            errors_view(errors@) == before + all.take(i as int),
        decreases pairs.len() - i,
    {
        push_error(
            errors,
            path,
            cat4("schema: ", pairs[i].0.as_str(), " — ", pairs[i].1.as_str()),
        );
        i += 1;
        assert(errors_view(errors@) =~= before + all.take(i as int));
    }
    assert(all.take(i as int) =~= all);
}

// ── What an update comes to ────────────────────────────────────────────────

/// What an update came to so far.
pub struct Plan {
    pub changes: Seq<(Seq<char>, Seq<char>)>,
    pub errors: Seq<(Seq<char>, Seq<char>)>,
    pub writes: Seq<Write>,
}

/// The failures of a note after an update by a schema; nothing where it meets it.
pub open spec fn schema_failures(
    schema: Option<Seq<(Seq<char>, CollectionRule)>>,
    folder: Seq<char>,
    r: Rec,
    fields: Seq<(Seq<char>, Val)>,
    root: Seq<char>,
) -> Seq<(Seq<char>, Seq<char>)> {
    match schema {
        None => seq![],
        Some(cs) => match applying(cs, folder, Rec { fields, ..r }, root) {
            Err(e) => seq![(r.path, "evaluating schema applicability: "@ + message(e))],
            Ok(v) => schema_errors(
                r.path,
                noticed(all_violations(note_name(r.path), fields, by_depth(v))),
            ),
        },
    }
}

/// What an update comes to with one more note.
pub open spec fn update_one(
    u: Update,
    r: Rec,
    root: Seq<char>,
    g: Option<Graph>,
    p: Plan,
) -> Result<Plan, Failure> {
    let bad = schema_failures(u.schema, u.folder, r, updated_fields(r.fields, u), root);
    if !holds(u.filter, r, root, g) {
        Ok(p)
    } else if bad.len() > 0 {
        Ok(Plan { errors: p.errors + bad, ..p })
    } else {
        match r.content {
            None => Err(
                Failure::Internal(
                    "record at "@ + r.path
                        + " has no raw_content; UpdateBuilder loaded without content"@,
                ),
            ),
            Some(content) => match edited(content, steps_of(u)) {
                Err(e) => Ok(Plan { errors: p.errors.push((r.path, message(e))), ..p }),
                Ok((text, changes)) => if changes.len() == 0 {
                    Ok(p)
                } else {
                    Ok(
                        Plan {
                            changes: p.changes.push((r.path, joined(change_texts(changes), "; "@))),
                            errors: p.errors,
                            writes: p.writes.push(
                                Write { path: r.path, original: content, modified: text, changes },
                            ),
                        },
                    )
                },
            },
        }
    }
}

/// What an update comes to with some notes.
pub open spec fn update_all(u: Update, rs: Seq<Rec>, root: Seq<char>, g: Option<Graph>) -> Result<
    Plan,
    Failure,
>
    decreases rs.len(),
{
    if rs.len() == 0 {
        Ok(Plan { changes: seq![], errors: seq![], writes: seq![] })
    } else {
        match update_all(u, rs.drop_last(), root, g) {
            Err(e) => Err(e),
            Ok(p) => update_one(u, rs.last(), root, g, p),
        }
    }
}

/// The graph of some notes, where a condition looks at it.
pub open spec fn graph_if_used(c: Cond, rs: Seq<Rec>) -> Option<Graph> {
    if uses_links(c) {
        Some(graph_of(rs))
    } else {
        None
    }
}

/// What an update comes to on a vault.
pub open spec fn update_plan(u: Update, p: Picture, root: Seq<char>) -> Result<Plan, Failure> {
    let folder = below(root, u.folder);
    if !has_folder(p, folder) {
        Err(Failure::FolderNotFound(u.folder))
    } else {
        match loaded(notes_in(p.files, folder, u.recursive), true) {
            Err(e) => Err(e),
            Ok((rs, _)) => update_all(u, rs, root, graph_if_used(u.filter, rs)),
        }
    }
}

/// The first failure of an update stands.
proof fn lemma_update_prefix(u: Update, rs: Seq<Rec>, root: Seq<char>, g: Option<Graph>, k: int)
    requires
        0 <= k <= rs.len(),
        update_all(u, rs.take(k), root, g) is Err,
    ensures
        update_all(u, rs, root, g) == update_all(u, rs.take(k), root, g),
    decreases rs.len() - k,
{
    if k == rs.len() {
        assert(rs.take(k) =~= rs);
    } else {
        assert(rs.take(k + 1).drop_last() =~= rs.take(k));
        lemma_update_prefix(u, rs, root, g, k + 1);
    }
}

/// What an update, with what is to be written, is.
pub open spec fn plan_view(r: Result<(MutationReport, Vec<WriteResult>), VaultdbError>) -> Result<
    Plan,
    Failure,
> {
    match r {
        Ok((report, writes)) => Ok(
            Plan {
                changes: changes_view(report.changes@),
                errors: errors_view(report.errors@),
                writes: write_views(writes@),
            },
        ),
        Err(e) => Err(e@),
    }
}

/// The report of a plan.
pub open spec fn plan_report(p: Result<Plan, Failure>) -> Result<Report, Failure> {
    match p {
        Ok(p) => Ok(Report { changes: p.changes, errors: p.errors }),
        Err(e) => Err(e),
    }
}

/// Appends texts that may be given as strings.
pub fn push_text(v: &mut Vec<String>, t: &str)
    ensures
        string_views(final(v)@) == string_views(old(v)@).push(t@),
{
    let x: String = t.to_owned();
    proof {
        lemma_string_views_push(v@, x);
    }
    v.push(x);
}

impl UpdateBuilder {
    /// An update that changes nothing yet.
    pub fn new(folder: &str, filter: Expr) -> (r: Self)
        ensures
            r@ == (Update {
                filter: cond(filter),
                folder: folder@,
                sets: seq![],
                unsets: seq![],
                adds: seq![],
                removes: seq![],
                body: seq![],
                recursive: false,
                schema: None,
                fsync: false,
            }),
    {
        let r = UpdateBuilder {
            filter,
            folder: folder.to_owned(),
            set_fields: Vec::new(),
            unset_fields: Vec::new(),
            add_tags: Vec::new(),
            remove_tags: Vec::new(),
            body: Vec::new(),
            recursive: false,
            vault_schema: None,
            write_options: WriteOptions::default(),
        };
        assert(r@.sets =~= seq![]);
        assert(r@.unsets =~= seq![]);
        assert(r@.adds =~= seq![]);
        assert(r@.removes =~= seq![]);
        assert(r@.body =~= seq![]);
        r
    }

    /// Sets a field, too.
    pub fn set(self, field: &str, value: Value) -> (r: Self)
        ensures
            r@ == (Update { sets: self@.sets.push((field@, val(value))), ..self@ }),
    {
        let mut r: UpdateBuilder = self;
        let x: (String, Value) = (field.to_owned(), value);
        proof {
            crate::record::lemma_entries_push(r.set_fields@, x);
        }
        r.set_fields.push(x);
        r
    }

    /// Removes a field, too.
    pub fn unset(self, field: &str) -> (r: Self)
        ensures
            r@ == (Update { unsets: self@.unsets.push(field@), ..self@ }),
    {
        let mut r: UpdateBuilder = self;
        push_text(&mut r.unset_fields, field);
        r
    }

    /// Adds a tag, too.
    pub fn add_tag(self, tag: &str) -> (r: Self)
        ensures
            r@ == (Update { adds: self@.adds.push(tag@), ..self@ }),
    {
        let mut r: UpdateBuilder = self;
        push_text(&mut r.add_tags, tag);
        r
    }

    /// Removes a tag, too.
    pub fn remove_tag(self, tag: &str) -> (r: Self)
        ensures
            r@ == (Update { removes: self@.removes.push(tag@), ..self@ }),
    {
        let mut r: UpdateBuilder = self;
        push_text(&mut r.remove_tags, tag);
        r
    }

    /// Changes the body, too.
    pub fn change_body(self, op: BodyOp) -> (r: Self)
        ensures
            r@ == (Update { body: self@.body.push(op@), ..self@ }),
    {
        let mut r: UpdateBuilder = self;
        proof {
            lemma_body_views_push(r.body@, op);
        }
        r.body.push(op);
        r
    }

    /// Says whether notes in folders below count, too.
    pub fn recursive(self, yes: bool) -> (r: Self)
        ensures
            r@ == (Update { recursive: yes, ..self@ }),
    {
        let mut r: UpdateBuilder = self;
        r.recursive = yes;
        r
    }

    /// Holds the notes to a schema: one that would not meet it is a failure and stays
    /// as it is, the others are changed.
    pub fn with_vault_schema(self, schema: VaultSchema) -> (r: Self)
        ensures
            r@ == (Update { schema: Some(collection_views(schema.collections@)), ..self@ }),
    {
        let mut r: UpdateBuilder = self;
        r.vault_schema = Some(schema);
        r
    }

    /// Says how the notes are written.
    pub fn write_options(self, opts: WriteOptions) -> (r: Self)
        ensures
            r@ == (Update { fsync: opts.fsync, ..self@ }),
    {
        let mut r: UpdateBuilder = self;
        r.write_options = opts;
        r
    }

    /// Says whether the notes are forced to stable storage.
    pub fn fsync(self, yes: bool) -> (r: Self)
        ensures
            r@ == (Update { fsync: yes, ..self@ }),
    {
        let mut r: UpdateBuilder = self;
        r.write_options.fsync = yes;
        r
    }

    /// The changes in the order in which they are made.
    fn ops(&self) -> (r: Vec<Op>)
        ensures
            step_views(r@) == steps_of(self@),
    {
        let ghost all = steps_of(self@);
        let mut out: Vec<Op> = Vec::new();
        let mut i: usize = 0;
        assert(step_views(out@) =~= all.take(0));
        while i < self.set_fields.len()
            invariant
                all == steps_of(self@),
                i <= self.set_fields.len(),
                out.len() == i,
                step_views(out@) == all.take(i as int),
            decreases self.set_fields.len() - i,
        {
            let op: Op = Op::SetField(
                self.set_fields[i].0.clone(),
                copy_value(&self.set_fields[i].1),
            );
            assert(op@ == all[i as int]);
            out.push(op);
            i += 1;
            assert(step_views(out@) =~= all.take(i as int));
        }
        let a: usize = self.set_fields.len();
        let mut j: usize = 0;
        while j < self.unset_fields.len()
            invariant
                all == steps_of(self@),
                a == self.set_fields.len(),
                j <= self.unset_fields.len(),
                out.len() == a + j,
                step_views(out@) == all.take(a + j),
            decreases self.unset_fields.len() - j,
        {
            let op: Op = Op::Unset(self.unset_fields[j].clone());
            assert(op@ == all[a + j]);
            out.push(op);
            j += 1;
            assert(step_views(out@) =~= all.take(a + j));
        }
        let mut k: usize = 0;
        while k < self.add_tags.len()
            invariant
                all == steps_of(self@),
                a == self.set_fields.len(),
                j == self.unset_fields.len(),
                k <= self.add_tags.len(),
                out.len() == a + j + k,
                step_views(out@) == all.take(a + j + k),
            decreases self.add_tags.len() - k,
        {
            let op: Op = Op::AddTag(self.add_tags[k].clone());
            assert(op@ == all[a + j + k]);
            out.push(op);
            k += 1;
            assert(step_views(out@) =~= all.take(a + j + k));
        }
        let mut l: usize = 0;
        while l < self.remove_tags.len()
            invariant
                all == steps_of(self@),
                a == self.set_fields.len(),
                j == self.unset_fields.len(),
                k == self.add_tags.len(),
                l <= self.remove_tags.len(),
                out.len() == a + j + k + l,
                step_views(out@) == all.take(a + j + k + l),
            decreases self.remove_tags.len() - l,
        {
            let op: Op = Op::RemoveTag(self.remove_tags[l].clone());
            assert(op@ == all[a + j + k + l]);
            out.push(op);
            l += 1;
            assert(step_views(out@) =~= all.take(a + j + k + l));
        }
        let mut m: usize = 0;
        while m < self.body.len()
            invariant
                all == steps_of(self@),
                a == self.set_fields.len(),
                j == self.unset_fields.len(),
                k == self.add_tags.len(),
                l == self.remove_tags.len(),
                m <= self.body.len(),
                out.len() == a + j + k + l + m,
                step_views(out@) == all.take(a + j + k + l + m),
            decreases self.body.len() - m,
        {
            let op: Op = Op::Body(copy_body_op(&self.body[m]));
            assert(op@ == all[a + j + k + l + m]);
            out.push(op);
            m += 1;
            assert(step_views(out@) =~= all.take(a + j + k + l + m));
        }
        assert(all.take(a + j + k + l + m) =~= all);
        out
    }

    /// The fields of a note after the update.
    fn project_fields(&self, original: &Vec<(String, Value)>) -> (r: Vec<(String, Value)>)
        ensures
            entries(r@) == updated_fields(entries(original@), self@),
    {
        let ghost u = self@;
        let mut fields: Vec<(String, Value)> = copy_fields(original);
        set_all(&mut fields, &self.set_fields);
        let ghost f1 = entries(fields@);
        let mut j: usize = 0;
        assert(u.unsets.take(0) =~= seq![]);
        while j < self.unset_fields.len()
            invariant
                u == self@,
                j <= self.unset_fields.len(),
                entries(fields@) == without_all(f1, u.unsets.take(j as int)),
            decreases self.unset_fields.len() - j,
        {
            assert(u.unsets.take(j + 1).drop_last() =~= u.unsets.take(j as int));
            remove_entry(&mut fields, self.unset_fields[j].as_str());
            j += 1;
        }
        assert(u.unsets.take(j as int) =~= u.unsets);
        if self.add_tags.len() > 0 || self.remove_tags.len() > 0 {
            let tags: Vec<Value> = self.project_tags(&fields);
            proof {
                lemma_val_list(tags);
            }
            set_entry(&mut fields, "tags", Value::List(tags));
        }
        fields
    }

    /// The tags of a note after the update.
    fn project_tags(&self, fields: &Vec<(String, Value)>) -> (tags: Vec<Value>)
        ensures
            vals(tags@) == without_texts(
                tags_of(entries(fields@)) + crate::links::text_vals(self@.adds),
                self@.removes,
            ),
    {
        let ghost u = self@;
        let mut tags: Vec<Value> = read_tags(fields);
        let ghost start = vals(tags@);
        let ghost added = crate::links::text_vals(u.adds);
        let mut i: usize = 0;
        assert(vals(tags@) =~= start + added.take(0));
        while i < self.add_tags.len()
            invariant
                u == self@,
                added == crate::links::text_vals(u.adds),
                i <= self.add_tags.len(),
                vals(tags@) == start + added.take(i as int),
            decreases self.add_tags.len() - i,
        {
            let t: Value = Value::String(self.add_tags[i].clone());
            proof {
                lemma_vals_push(tags@, t);
            }
            tags.push(t);
            i += 1;
            assert(vals(tags@) =~= start + added.take(i as int));
        }
        assert(added.take(i as int) =~= added);
        let ghost all = vals(tags@);
        let mut j: usize = 0;
        assert(u.removes.take(0) =~= seq![]);
        while j < self.remove_tags.len()
            invariant
                u == self@,
                j <= self.remove_tags.len(),
                vals(tags@) == without_texts(all, u.removes.take(j as int)),
            decreases self.remove_tags.len() - j,
        {
            assert(u.removes.take(j + 1).drop_last() =~= u.removes.take(j as int));
            remove_text(&mut tags, self.remove_tags[j].as_str());
            j += 1;
        }
        assert(u.removes.take(j as int) =~= u.removes);
        tags
    }

    /// Finds what is wrong with a note after the update by the schema.
    fn find_violations(&self, record: &Record, root: &str, errors: &mut Vec<MutationError>) -> (bad:
        bool)
        ensures
            ({
                let found = schema_failures(
                    self@.schema,
                    self@.folder,
                    record@,
                    updated_fields(record@.fields, self@),
                    root@,
                );
                &&& bad == (found.len() > 0)
                &&& errors_view(final(errors)@) == errors_view(old(errors)@) + found
            }),
    {
        match &self.vault_schema {
            None => {
                assert(errors_view(errors@) + seq![] =~= errors_view(errors@));
                false
            },
            Some(schema) => {
                let fields: Vec<(String, Value)> = self.project_fields(&record.fields);
                let projected: Record = Record {
                    path: record.path.clone(),
                    fields: copy_fields(&fields),
                    raw_content: match &record.raw_content {
                        Some(t) => Some(t.clone()),
                        None => None,
                    },
                    modified: record.modified,
                    created: record.created,
                };
                match schema.applicable_collections(self.folder.as_str(), &projected, root) {
                    Err(e) => {
                        push_error(
                            errors,
                            record.path.as_str(),
                            cat2(
                                "evaluating schema applicability: ",
                                e.to_string().as_str(),
                            ),
                        );
                        true
                    },
                    Ok(cols) => {
                        let name: String = record.virtual_name();
                        let pairs: Vec<(String, String)> = check_schema(
                            name.as_str(),
                            &fields,
                            &cols,
                        );
                        push_violations(errors, record.path.as_str(), &pairs);
                        pairs.len() > 0
                    },
                }
            },
        }
    }

    /// What the update comes to on a vault, and what is to be written.
    pub fn compute(&self, vault: &Vault, tree: &Tree) -> (r: Result<
        (MutationReport, Vec<WriteResult>),
        VaultdbError,
    >)
        ensures
            plan_view(r) == update_plan(self@, tree@, vault.root@),
    {
        let ghost u = self@;
        let ghost root = vault.root@;
        let folder: String = match vault.resolve_folder(self.folder.as_str(), tree) {
            Ok(p) => p,
            Err(e) => {
                return Err(e);
            },
        };
        let load: LoadResult = match vault.load_records_with_content(
            folder.as_str(),
            self.recursive,
            tree,
        ) {
            Ok(l) => l,
            Err(e) => {
                return Err(e);
            },
        };
        let ghost rs = recs(load.records@);
        let graph: Option<LinkGraph> = if expr_uses_links(&self.filter) {
            Some(LinkGraph::build(&load.records))
        } else {
            None
        };
        let g: Option<&LinkGraph> = graph.as_ref();
        let ghost gv = graph_view(g);
        let ops: Vec<Op> = self.ops();
        let mut changes: Vec<PlannedChange> = Vec::new();
        let mut errors: Vec<MutationError> = Vec::new();
        let mut writes: Vec<WriteResult> = Vec::new();
        let mut i: usize = 0;
        assert(rs.take(0) =~= seq![]);
        assert(changes_view(changes@) =~= seq![]);
        assert(errors_view(errors@) =~= seq![]);
        assert(write_views(writes@) =~= seq![]);
        while i < load.records.len()
            invariant
                u == self@,
                root == vault.root@,
                rs == recs(load.records@),
                gv == graph_view(g),
                step_views(ops@) == steps_of(u),
                update_plan(self@, tree@, vault.root@) == update_all(u, rs, root, gv),
                i <= load.records.len(),
                update_all(u, rs.take(i as int), root, gv) == Ok::<Plan, Failure>(
                    Plan {
                        changes: changes_view(changes@),
                        errors: errors_view(errors@),
                        writes: write_views(writes@),
                    },
                ),
            decreases load.records.len() - i,
        {
            assert(rs.take(i + 1).drop_last() =~= rs.take(i as int));
            assert(rs.take(i + 1).last() == load.records@[i as int]@);
            let record: &Record = &load.records[i];
            i += 1;
            if !evaluate_expr(&self.filter, record, vault.root.as_str(), g) {
                continue ;
            }
            let ghost before = errors_view(errors@);
            if self.find_violations(record, vault.root.as_str(), &mut errors) {
                continue ;
            }
            assert(errors_view(errors@) =~= before);
            match &record.raw_content {
                None => {
                    proof {
                        lemma_update_prefix(u, rs, root, gv, i as int);
                    }
                    return Err(
                        VaultdbError::Internal(
                            cat3(
                                "record at ",
                                record.path.as_str(),
                                " has no raw_content; UpdateBuilder loaded without content",
                            ),
                        ),
                    );
                },
                Some(content) => {
                    match apply_ops(content.as_str(), &ops) {
                        Err(e) => {
                            push_error(&mut errors, record.path.as_str(), e.to_string());
                        },
                        Ok((text, made)) => {
                            if made.len() > 0 {
                                assert(change_views(made@).len() > 0);
                                push_change(&mut changes, record.path.as_str(), describe(&made));
                                let w: WriteResult = WriteResult {
                                    path: record.path.clone(),
                                    original_content: content.clone(),
                                    modified_content: text,
                                    changes: made,
                                };
                                let ghost old_writes = writes@;
                                writes.push(w);
                                assert(write_views(writes@) =~= write_views(old_writes).push(w@));
                            } else {
                                assert(change_views(made@).len() == 0);
                            }
                        },
                    }
                },
            }
        }
        assert(rs.take(i as int) =~= rs);
        Ok((MutationReport { changes, errors }, writes))
    }

    /// What the update would come to.
    pub fn plan(&self, vault: &Vault, tree: &Tree) -> (r: Result<MutationReport, VaultdbError>)
        ensures
            report_view(r) == plan_report(update_plan(self@, tree@, vault.root@)),
    {
        match self.compute(vault, tree) {
            Ok((report, _)) => Ok(report),
            Err(e) => Err(e),
        }
    }

    /// What the update comes to, with the writes to be done in this order; a write that
    /// fails is a failure of the whole.
    pub fn execute(self, vault: &Vault, tree: &Tree) -> (r: Result<
        (MutationReport, Vec<WriteResult>),
        VaultdbError,
    >)
        ensures
            plan_view(r) == update_plan(self@, tree@, vault.root@),
    {
        self.compute(vault, tree)
    }
}

/// Sets some fields.
pub fn set_all(fields: &mut Vec<(String, Value)>, sets: &Vec<(String, Value)>)
    ensures
        entries(final(fields)@) == with_all(entries(old(fields)@), entries(sets@)),
{
    let ghost before = entries(fields@);
    let ghost all = entries(sets@);
    let mut i: usize = 0;
    assert(all.take(0) =~= seq![]);
    while i < sets.len()
        invariant
            all == entries(sets@),
            i <= sets.len(),
            entries(fields@) == with_all(before, all.take(i as int)),
        decreases sets.len() - i,
    {
        assert(all.take(i + 1).drop_last() =~= all.take(i as int));
        set_entry(fields, sets[i].0.as_str(), copy_value(&sets[i].1));
        i += 1;
    }
    assert(all.take(i as int) =~= all);
}

/// Reads the tags among some fields.
fn read_tags(fields: &Vec<(String, Value)>) -> (r: Vec<Value>)
    ensures
        vals(r@) == tags_of(entries(fields@)),
{
    let none: Vec<Value> = Vec::new();
    assert(vals(none@) =~= seq![]);
    match find_key(fields, "tags") {
        Some(i) => match &fields[i].1 {
            Value::List(items) => {
                proof {
                    lemma_val_list(*items);
                }
                match copy_value(&fields[i].1) {
                    Value::List(copy) => {
                        proof {
                            lemma_val_list(copy);
                        }
                        copy
                    },
                    _ => none,
                }
            },
            _ => none,
        },
        None => none,
    }
}

/// Removes the first item that is a text.
fn remove_text(items: &mut Vec<Value>, t: &str)
    ensures
        vals(final(items)@) == without_text(vals(old(items)@), t@),
{
    let ghost before = vals(items@);
    let mut i: usize = 0;
    while i < items.len()
        invariant
            i <= items.len(),
            before == vals(items@),
            before == vals(old(items)@),
            text_at(before, t@, 0) == text_at(before, t@, i as int),
        decreases items.len() - i,
    {
        let found: bool = match &items[i] {
            Value::String(s) => same_text(s.as_str(), t),
            _ => false,
        };
        assert(before[i as int] == val(items@[i as int]));
        if found {
            let ghost start = items@;
            let _ = items.remove(i);
            assert(vals(items@) =~= before.remove(i as int));
            return ;
        }
        i += 1;
    }
}

} // verus!
