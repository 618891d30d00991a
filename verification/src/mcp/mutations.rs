//! The tools that plan and make changes.
//!
//! Those that plan never touch the disk. Those that make changes answer with what is
//! to be done on the disk, and with a line for the log of what was done.

use crate::dsl::{parsed, scalar};
use crate::error::{Failure, VaultdbError};
use crate::json::{json_to_vaultdb_value, members, value_of_json, Js, Json};
use crate::mcp::params::{
    PlanCreateParams, PlanDeleteParams, PlanMoveParams, PlanRenameParams, PlanUpdateParams,
};
use crate::mcp::server::{invalid, invalid_because, Refusal, ToolError};
use crate::mutation::create::{create_plan, creation_view, Creation, CreateBuilder};
use crate::mutation::relocate::{
    delete_plan, move_plan, started, DeleteBuilder, FileRun, FileTask, MoveBuilder,
};
use crate::mutation::rename::{rename_journal, rename_plan, rename_start, RenameBuilder, RenameRun};
use crate::mutation::{
    plan_report, plan_view, report_view, update_plan, BodyOp, BodyStep, MutationReport, Plan,
    Report, Update, UpdateBuilder, Write,
};
use crate::path::below;
use crate::query::{cond, Cond, Expr};
use crate::record::{Val, Value};
use crate::schema::{
    copy_collection, debug_quoted, debug_text, of_folder, stamp_text, text_view, CollectionRule,
    VaultSchema,
};
use crate::text::{
    cat2, cat3, cat4, cat5, char_at, decimal, find_char, from_chars, number_text, slice,
    string_views, to_chars, trim, trimmed,
};
use crate::tree::{Picture, Tree};
use crate::vault::Vault;
use crate::writer::WriteResult;
use vstd::prelude::*;

verus! {

// ── Conditions ─────────────────────────────────────────────────────────────

/// The condition that a text stands for.
pub open spec fn required_filter(text: Seq<char>) -> Result<Cond, Refusal> {
    match parsed(text) {
        Ok(c) => Ok(c),
        Err(e) => Err(
            invalid_because("invalid where expression '"@ + text + "'"@, e),
        ),
    }
}

/// Reads a condition.
fn parse_where(s: &str) -> (r: Result<Expr, ToolError>)
    ensures
        match r {
            Ok(e) => required_filter(s@) == Ok::<Cond, Refusal>(cond(e)),
            Err(e) => required_filter(s@) == Err::<Cond, Refusal>(e@),
        },
{
    match Expr::parse(s) {
        Ok(e) => Ok(e),
        Err(e) => Err(invalid(cat3("invalid where expression '", s, "'").as_str(), &e)),
    }
}

// ── Updates ────────────────────────────────────────────────────────────────

/// The field and value that `FIELD=VALUE` stands for.
pub open spec fn assignment(s: Seq<char>) -> Result<(Seq<char>, Val), Refusal> {
    match char_at(s, '=', 0) {
        Some(i) => Ok((trimmed(s.take(i)), scalar(trimmed(s.skip(i + 1))))),
        None => Err(
            Refusal::InvalidParams("--set requires FIELD=VALUE format, got: "@ + s),
        ),
    }
}

/// The fields and values that texts stand for, or the first that stands for none.
pub open spec fn assignments(texts: Seq<Seq<char>>) -> Result<Seq<(Seq<char>, Val)>, Refusal>
    decreases texts.len(),
{
    if texts.len() == 0 {
        Ok(seq![])
    } else {
        match assignments(texts.drop_last()) {
            Err(e) => Err(e),
            Ok(before) => match assignment(texts.last()) {
                Ok(a) => Ok(before.push(a)),
                Err(e) => Err(e),
            },
        }
    }
}

/// The first text that stands for nothing stands.
proof fn lemma_assignments(texts: Seq<Seq<char>>, n: int)
    requires
        0 <= n <= texts.len(),
        assignments(texts.take(n)) is Err,
    ensures
        assignments(texts) == assignments(texts.take(n)),
    decreases texts.len() - n,
{
    if n < texts.len() {
        assert(texts.take(n + 1).drop_last() =~= texts.take(n));
        lemma_assignments(texts, n + 1);
    } else {
        assert(texts.take(n) =~= texts);
    }
}

/// Fields with the values of documents.
pub open spec fn typed_sets(m: Seq<(Seq<char>, Js)>) -> Seq<(Seq<char>, Val)> {
    Seq::new(m.len(), |i: int| (m[i].0, value_of_json(m[i].1)))
}

/// The changes to the body: it is emptied, replaced, and added to, in this order.
pub open spec fn body_steps(params: PlanUpdateParams) -> Seq<BodyStep> {
    let separator = match params.body_separator {
        Some(s) => s@,
        None => "\n"@,
    };
    let cleared: Seq<BodyStep> = if params.clear_body {
        seq![BodyStep::Clear]
    } else {
        seq![]
    };
    let replaced: Seq<BodyStep> = match params.set_body {
        Some(t) => seq![BodyStep::Replace(t@)],
        None => seq![],
    };
    cleared + replaced + Seq::new(
        params.append_body@.len(),
        |i: int| BodyStep::Append { text: params.append_body@[i]@, separator },
    )
}

/// The update that is asked for. Values that keep their kind come last, so that they
/// win over others.
pub open spec fn asked_update(params: PlanUpdateParams) -> Result<Update, Refusal> {
    match required_filter(params.filter@) {
        Err(e) => Err(e),
        Ok(filter) => match assignments(string_views(params.set@)) {
            Err(e) => Err(e),
            Ok(sets) => Ok(
                Update {
                    filter,
                    folder: params.folder@,
                    sets: sets + typed_sets(members(params.set_typed@)),
                    unsets: string_views(params.unset@),
                    adds: string_views(params.add_tag@),
                    removes: string_views(params.remove_tag@),
                    body: body_steps(params),
                    recursive: params.recursive,
                    schema: None,
                    fsync: false,
                },
            ),
        },
    }
}

/// What an update, or the refusal, is.
pub open spec fn update_view(r: Result<UpdateBuilder, ToolError>) -> Result<Update, Refusal> {
    match r {
        Ok(b) => Ok(b@),
        Err(e) => Err(e@),
    }
}

/// Adds fields given as `FIELD=VALUE` to an update.
fn set_texts(builder: UpdateBuilder, texts: &Vec<String>) -> (r: Result<UpdateBuilder, ToolError>)
    requires
        builder@.sets.len() == 0,
    ensures
        update_view(r) == match assignments(string_views(texts@)) {
            Ok(sets) => Ok::<Update, Refusal>(Update { sets, ..builder@ }),
            Err(e) => Err(e),
        },
{
    let ghost tv = string_views(texts@);
    let ghost base = builder@;
    let mut b: UpdateBuilder = builder;
    let mut i: usize = 0;
    assert(tv.take(0) =~= seq![]);
    assert(b@.sets =~= seq![]);
    while i < texts.len()
        invariant
            tv == string_views(texts@),
            i <= texts.len(),
            assignments(tv.take(i as int)) == Ok::<Seq<(Seq<char>, Val)>, Refusal>(b@.sets),
            b@ == (Update { sets: b@.sets, ..base }),
        decreases texts.len() - i,
    {
        assert(tv.take(i + 1).drop_last() =~= tv.take(i as int));
        assert(tv.take(i + 1).last() == texts@[i as int]@);
        let s: Vec<char> = to_chars(texts[i].as_str());
        match find_char(&s, '=', 0) {
            Some(at) => {
                proof {
                    crate::text::lemma_char_at(s@, '=', 0);
                }
                let name: Vec<char> = slice(&s, 0, at);
                let rest: Vec<char> = slice(&s, at + 1, s.len());
                assert(name@ =~= s@.take(at as int));
                assert(rest@ =~= s@.skip(at + 1));
                let field: String = from_chars(&trim(&name));
                let value: String = from_chars(&trim(&rest));
                let v: Value = Value::parse_scalar(value.as_str());
                b = b.set(field.as_str(), v);
            },
            None => {
                proof {
                    lemma_assignments(tv, i + 1);
                }
                return Err(
                    ToolError::InvalidParams(
                        cat2("--set requires FIELD=VALUE format, got: ", texts[i].as_str()),
                    ),
                );
            },
        }
        i += 1;
    }
    assert(tv.take(i as int) =~= tv);
    Ok(b)
}

/// Adds fields with the values of documents to an update.
fn set_documents(builder: UpdateBuilder, m: &Vec<(String, Json)>) -> (r: UpdateBuilder)
    ensures
        r@ == (Update { sets: builder@.sets + typed_sets(members(m@)), ..builder@ }),
{
    let ghost base = builder@;
    let ghost want = typed_sets(members(m@));
    let mut b: UpdateBuilder = builder;
    let mut i: usize = 0;
    assert(b@.sets =~= base.sets + want.take(0));
    while i < m.len()
        invariant
            want == typed_sets(members(m@)),
            i <= m.len(),
            b@ == (Update { sets: base.sets + want.take(i as int), ..base }),
        decreases m.len() - i,
    {
        let v: Value = json_to_vaultdb_value(&m[i].1);
        b = b.set(m[i].0.as_str(), v);
        i += 1;
        assert(b@.sets =~= base.sets + want.take(i as int));
    }
    assert(want.take(i as int) =~= want);
    b
}

/// Adds removals of fields to an update.
fn unset_all(builder: UpdateBuilder, names: &Vec<String>) -> (r: UpdateBuilder)
    ensures
        r@ == (Update { unsets: builder@.unsets + string_views(names@), ..builder@ }),
{
    let ghost base = builder@;
    let ghost want = string_views(names@);
    let mut b: UpdateBuilder = builder;
    let mut i: usize = 0;
    assert(b@.unsets =~= base.unsets + want.take(0));
    while i < names.len()
        invariant
            want == string_views(names@),
            i <= names.len(),
            b@ == (Update { unsets: base.unsets + want.take(i as int), ..base }),
        decreases names.len() - i,
    {
        b = b.unset(names[i].as_str());
        i += 1;
        assert(b@.unsets =~= base.unsets + want.take(i as int));
    }
    assert(want.take(i as int) =~= want);
    b
}

/// Adds tags to be added to an update.
fn add_tags(builder: UpdateBuilder, tags: &Vec<String>) -> (r: UpdateBuilder)
    ensures
        r@ == (Update { adds: builder@.adds + string_views(tags@), ..builder@ }),
{
    let ghost base = builder@;
    let ghost want = string_views(tags@);
    let mut b: UpdateBuilder = builder;
    let mut i: usize = 0;
    assert(b@.adds =~= base.adds + want.take(0));
    while i < tags.len()
        invariant
            want == string_views(tags@),
            i <= tags.len(),
            b@ == (Update { adds: base.adds + want.take(i as int), ..base }),
        decreases tags.len() - i,
    {
        b = b.add_tag(tags[i].as_str());
        i += 1;
        assert(b@.adds =~= base.adds + want.take(i as int));
    }
    assert(want.take(i as int) =~= want);
    b
}

/// Adds tags to be removed to an update.
fn remove_tags(builder: UpdateBuilder, tags: &Vec<String>) -> (r: UpdateBuilder)
    ensures
        r@ == (Update { removes: builder@.removes + string_views(tags@), ..builder@ }),
{
    let ghost base = builder@;
    let ghost want = string_views(tags@);
    let mut b: UpdateBuilder = builder;
    let mut i: usize = 0;
    assert(b@.removes =~= base.removes + want.take(0));
    while i < tags.len()
        invariant
            want == string_views(tags@),
            i <= tags.len(),
            b@ == (Update { removes: base.removes + want.take(i as int), ..base }),
        decreases tags.len() - i,
    {
        b = b.remove_tag(tags[i].as_str());
        i += 1;
        assert(b@.removes =~= base.removes + want.take(i as int));
    }
    assert(want.take(i as int) =~= want);
    b
}

/// Adds the changes to the body to an update.
fn change_bodies(builder: UpdateBuilder, params: &PlanUpdateParams) -> (r: UpdateBuilder)
    ensures
        r@ == (Update { body: builder@.body + body_steps(*params), ..builder@ }),
{
    let ghost base = builder@;
    let ghost want = body_steps(*params);
    let mut b: UpdateBuilder = builder;
    assert(b@.body =~= base.body + want.take(0));
    if params.clear_body {
        b = b.change_body(BodyOp::Clear);
        assert(b@.body =~= base.body + want.take(1));
    }
    let ghost k: int = if params.clear_body {
        1
    } else {
        0
    };
    match &params.set_body {
        Some(t) => {
            b = b.change_body(BodyOp::Replace(t.clone()));
            assert(b@.body =~= base.body + want.take(k + 1));
        },
        None => {},
    }
    let ghost n: int = k + if params.set_body is Some {
        1int
    } else {
        0int
    };
    let separator: String = match &params.body_separator {
        Some(s) => s.clone(),
        None => "\n".to_owned(),
    };
    let mut i: usize = 0;
    while i < params.append_body.len()
        invariant
            want == body_steps(*params),
            separator@ == match params.body_separator {
                Some(s) => s@,
                None => "\n"@,
            },
            n == (if params.clear_body {
                1int
            } else {
                0int
            }) + (if params.set_body is Some {
                1int
            } else {
                0int
            }),
            i <= params.append_body.len(),
            b@ == (Update { body: base.body + want.take(n + i), ..base }),
        decreases params.append_body.len() - i,
    {
        let op: BodyOp = BodyOp::Append {
            text: params.append_body[i].clone(),
            separator: separator.clone(),
        };
        assert(op@ == want[n + i]);
        b = b.change_body(op);
        i += 1;
        assert(b@.body =~= base.body + want.take(n + i));
    }
    assert(want.take(n + i) =~= want);
    b
}

/// Makes the update that is asked for.
pub fn build_update(params: &PlanUpdateParams) -> (r: Result<UpdateBuilder, ToolError>)
    ensures
        update_view(r) == asked_update(*params),
{
    let filter: Expr = match parse_where(params.filter.as_str()) {
        Ok(e) => e,
        Err(e) => {
            return Err(e);
        },
    };
    let empty: UpdateBuilder = UpdateBuilder::new(params.folder.as_str(), filter);
    let b: UpdateBuilder = match set_texts(empty, &params.set) {
        Ok(b) => b,
        Err(e) => {
            return Err(e);
        },
    };
    let b: UpdateBuilder = set_documents(b, &params.set_typed);
    let b: UpdateBuilder = unset_all(b, &params.unset);
    let b: UpdateBuilder = add_tags(b, &params.add_tag);
    let b: UpdateBuilder = remove_tags(b, &params.remove_tag);
    let b: UpdateBuilder = change_bodies(b, params);
    let b: UpdateBuilder = b.recursive(params.recursive);
    proof {
        let u = asked_update(*params)->Ok_0;
        assert(b@.unsets =~= u.unsets);
        assert(b@.adds =~= u.adds);
        assert(b@.removes =~= u.removes);
        assert(b@.body =~= u.body);
    }
    Ok(b)
}

/// A report, or the refusal because of a failure.
pub open spec fn reported(context: Seq<char>, r: Result<Report, Failure>) -> Result<
    Report,
    Refusal,
> {
    match r {
        Ok(x) => Ok(x),
        Err(e) => Err(invalid_because(context, e)),
    }
}

/// What a report, or the refusal, is.
pub open spec fn answer_view(r: Result<MutationReport, ToolError>) -> Result<Report, Refusal> {
    match r {
        Ok(x) => Ok(x@),
        Err(e) => Err(e@),
    }
}

/// Answers with a report.
fn report(context: &str, r: Result<MutationReport, VaultdbError>) -> (a: Result<
    MutationReport,
    ToolError,
>)
    ensures
        answer_view(a) == reported(context@, report_view(r)),
{
    match r {
        Ok(x) => Ok(x),
        Err(e) => Err(invalid(context, &e)),
    }
}

/// What the tool `plan_update` answers.
pub open spec fn update_answer(p: Picture, root: Seq<char>, params: PlanUpdateParams) -> Result<
    Report,
    Refusal,
> {
    match asked_update(params) {
        Err(e) => Err(e),
        Ok(u) => reported("plan_update failed"@, plan_report(update_plan(u, p, root))),
    }
}

/// The tool `plan_update`.
pub fn plan_update(vault: &Vault, tree: &Tree, params: &PlanUpdateParams) -> (r: Result<
    MutationReport,
    ToolError,
>)
    ensures
        answer_view(r) == update_answer(tree@, vault.root@, *params),
{
    match build_update(params) {
        Ok(b) => report("plan_update failed", b.plan(vault, tree)),
        Err(e) => Err(e),
    }
}

// ── Deletions, moves and renames ───────────────────────────────────────────

/// Makes the deletion that is asked for.
pub fn build_delete(params: &PlanDeleteParams) -> (r: Result<DeleteBuilder, ToolError>)
    ensures
        match r {
            Ok(b) => required_filter(params.filter@) == Ok::<Cond, Refusal>(cond(b.filter))
                && b.folder@ == params.folder@ && b.permanent == params.permanent && b.recursive
                == params.recursive && !b.write_options.fsync,
            Err(e) => required_filter(params.filter@) == Err::<Cond, Refusal>(e@),
        },
{
    match parse_where(params.filter.as_str()) {
        Ok(e) => Ok(
            DeleteBuilder::new(params.folder.as_str(), e).permanent(params.permanent).recursive(
                params.recursive,
            ),
        ),
        Err(e) => Err(e),
    }
}

/// What a deletion comes to, or why it is refused.
pub open spec fn delete_answer(
    context: Seq<char>,
    p: Picture,
    root: Seq<char>,
    params: PlanDeleteParams,
) -> Result<Report, Refusal> {
    match required_filter(params.filter@) {
        Err(e) => Err(e),
        Ok(c) => reported(
            context,
            delete_plan(c, params.folder@, params.permanent, params.recursive, p, root),
        ),
    }
}

/// The tool `plan_delete`.
pub fn plan_delete(vault: &Vault, tree: &Tree, params: &PlanDeleteParams) -> (r: Result<
    MutationReport,
    ToolError,
>)
    ensures
        answer_view(r) == delete_answer("plan_delete failed"@, tree@, vault.root@, *params),
{
    match build_delete(params) {
        Ok(b) => report("plan_delete failed", b.plan(vault, tree)),
        Err(e) => Err(e),
    }
}

/// Makes the move that is asked for.
pub fn build_move(params: &PlanMoveParams) -> (r: Result<MoveBuilder, ToolError>)
    ensures
        match r {
            Ok(b) => required_filter(params.filter@) == Ok::<Cond, Refusal>(cond(b.filter))
                && b.folder@ == params.folder@ && b.to_folder@ == params.to@ && b.recursive
                == params.recursive && !b.write_options.fsync,
            Err(e) => required_filter(params.filter@) == Err::<Cond, Refusal>(e@),
        },
{
    match parse_where(params.filter.as_str()) {
        Ok(e) => Ok(
            MoveBuilder::new(params.folder.as_str(), params.to.as_str(), e).recursive(
                params.recursive,
            ),
        ),
        Err(e) => Err(e),
    }
}

/// What a move comes to, or why it is refused.
pub open spec fn move_answer(
    context: Seq<char>,
    p: Picture,
    root: Seq<char>,
    params: PlanMoveParams,
) -> Result<Report, Refusal> {
    match required_filter(params.filter@) {
        Err(e) => Err(e),
        Ok(c) => reported(
            context,
            move_plan(c, params.folder@, params.to@, params.recursive, p, root),
        ),
    }
}

/// The tool `plan_move`.
pub fn plan_move(vault: &Vault, tree: &Tree, params: &PlanMoveParams) -> (r: Result<
    MutationReport,
    ToolError,
>)
    ensures
        answer_view(r) == move_answer("plan_move failed"@, tree@, vault.root@, *params),
{
    match build_move(params) {
        Ok(b) => report("plan_move failed", b.plan(vault, tree)),
        Err(e) => Err(e),
    }
}

/// The tool `plan_rename`.
pub fn plan_rename(vault: &Vault, tree: &Tree, params: &PlanRenameParams) -> (r: Result<
    MutationReport,
    ToolError,
>)
    ensures
        answer_view(r) == reported(
            "plan_rename failed"@,
            rename_plan(params.folder@, params.from@, params.to@, tree@, vault.root@),
        ),
{
    let b: RenameBuilder = RenameBuilder::new(
        params.folder.as_str(),
        params.from.as_str(),
        params.to.as_str(),
    );
    report("plan_rename failed", b.plan(vault, tree))
}

// ── Creations ──────────────────────────────────────────────────────────────

/// The creation that is asked for. It is held to the collection of its folder.
pub open spec fn asked_creation(
    params: PlanCreateParams,
    schema: Option<Seq<(Seq<char>, CollectionRule)>>,
) -> Creation {
    Creation {
        folder: params.folder@,
        name: params.name@,
        template: text_view(params.template),
        sets: typed_sets(members(params.set@)),
        body: text_view(params.body),
        schema: match schema {
            Some(all) => match of_folder(all, params.folder@, 0) {
                Some(c) => Some(seq![("__single__"@, c)]),
                None => None,
            },
            None => None,
        },
        fsync: false,
    }
}

/// Makes the creation that is asked for, with the schema of the vault where it has
/// one.
pub fn build_create(params: &PlanCreateParams, schema: &Option<VaultSchema>) -> (r: CreateBuilder)
    ensures
        r@ == asked_creation(*params, crate::mutation::schema_view(*schema)),
{
    let mut b: CreateBuilder = CreateBuilder::new(params.folder.as_str(), params.name.as_str());
    match &params.template {
        Some(t) => {
            b = b.template(t.as_str());
        },
        None => {},
    }
    let ghost base = b@;
    let ghost want = typed_sets(members(params.set@));
    let mut i: usize = 0;
    assert(b@.sets =~= want.take(0));
    while i < params.set.len()
        invariant
            want == typed_sets(members(params.set@)),
            i <= params.set.len(),
            b@ == (Creation { sets: want.take(i as int), ..base }),
        decreases params.set.len() - i,
    {
        let v: Value = json_to_vaultdb_value(&params.set[i].1);
        b = b.set(params.set[i].0.as_str(), v);
        i += 1;
        assert(b@.sets =~= want.take(i as int));
    }
    assert(want.take(i as int) =~= want);
    match &params.body {
        Some(t) => {
            b = b.body(t.as_str());
        },
        None => {},
    }
    match schema {
        Some(s) => match s.collection_for_folder(params.folder.as_str()) {
            Some(c) => {
                b = b.with_schema(copy_collection(c));
            },
            None => {},
        },
        None => {},
    }
    b
}

/// The tool `plan_create`.
pub fn plan_create(
    vault: &Vault,
    tree: &Tree,
    params: &PlanCreateParams,
    schema: &Option<VaultSchema>,
    now: u64,
) -> (r: Result<MutationReport, ToolError>)
    ensures
        answer_view(r) == reported(
            "plan_create failed"@,
            match create_plan(
                asked_creation(*params, crate::mutation::schema_view(*schema)),
                tree@,
                vault.root@,
                now,
            ) {
                Ok((report, _)) => Ok::<Report, Failure>(report),
                Err(e) => Err(e),
            },
        ),
{
    let b: CreateBuilder = build_create(params, schema);
    report("plan_create failed", b.plan(vault, tree, now))
}

// ── Making changes ─────────────────────────────────────────────────────────

/// What an execution is to do, and how it is told of in the log.
pub struct Execution<T> {
    pub work: T,
    pub summary: String,
}

/// The tool `execute_create`: the report, and the file to be written.
pub fn execute_create(
    vault: &Vault,
    tree: &Tree,
    params: &PlanCreateParams,
    schema: &Option<VaultSchema>,
    now: u64,
) -> (r: Result<Execution<(MutationReport, Option<WriteResult>)>, ToolError>)
    ensures
        match create_plan(
            asked_creation(*params, crate::mutation::schema_view(*schema)),
            tree@,
            vault.root@,
            now,
        ) {
            Err(e) => r is Err && r->Err_0@ == invalid_because("execute_create failed"@, e),
            Ok(plan) => r is Ok && creation_view(Ok(r->Ok_0.work)) == Ok::<
                (Report, Option<Write>),
                Failure,
            >(plan) && r->Ok_0.summary@ == "folder="@ + params.folder@ + " name="@ + params.name@,
        },
{
    let b: CreateBuilder = build_create(params, schema);
    match b.execute(vault, tree, now) {
        Ok(work) => Ok(
            Execution {
                work,
                summary: cat4(
                    "folder=",
                    params.folder.as_str(),
                    " name=",
                    params.name.as_str(),
                ),
            },
        ),
        Err(e) => Err(invalid("execute_create failed", &e)),
    }
}

/// The tool `execute_update`: the report, and the files to be written.
pub fn execute_update(vault: &Vault, tree: &Tree, params: &PlanUpdateParams) -> (r: Result<
    Execution<(MutationReport, Vec<WriteResult>)>,
    ToolError,
>)
    ensures
        match asked_update(*params) {
            Err(e) => r is Err && r->Err_0@ == e,
            Ok(u) => match update_plan(u, tree@, vault.root@) {
                Err(e) => r is Err && r->Err_0@ == invalid_because("execute_update failed"@, e),
                Ok(plan) => r is Ok && plan_view(Ok(r->Ok_0.work)) == Ok::<Plan, Failure>(plan)
                    && r->Ok_0.summary@ == "folder="@ + params.folder@ + " where="@ + debug_quoted(
                    params.filter@,
                ),
            },
        },
{
    let b: UpdateBuilder = match build_update(params) {
        Ok(b) => b,
        Err(e) => {
            return Err(e);
        },
    };
    match b.execute(vault, tree) {
        Ok(work) => Ok(
            Execution {
                work,
                summary: cat4(
                    "folder=",
                    params.folder.as_str(),
                    " where=",
                    debug_text(params.filter.as_str()).as_str(),
                ),
            },
        ),
        Err(e) => Err(invalid("execute_update failed", &e)),
    }
}

/// How a deletion is told of in the log.
pub open spec fn delete_summary(params: PlanDeleteParams) -> Seq<char> {
    "folder="@ + params.folder@ + " where="@ + debug_quoted(params.filter@) + " permanent="@
        + crate::record::bool_text(params.permanent)
}

/// The tool `execute_delete`: the deletion, ready to be carried out.
pub fn execute_delete(vault: &Vault, tree: &Tree, params: &PlanDeleteParams) -> (r: Result<
    Execution<FileRun>,
    ToolError,
>)
    ensures
        match delete_answer("execute_delete failed"@, tree@, vault.root@, *params) {
            Err(e) => r is Err && r->Err_0@ == e,
            Ok(report) => r is Ok && r->Ok_0.work@ == started(
                if params.permanent {
                    FileTask::Remove
                } else {
                    FileTask::Trash
                },
                below(vault.root@, ".trash"@),
                report,
                false,
                string_views(tree.folders@) + crate::vault::file_paths(tree@.files),
            ) && r->Ok_0.summary@ == delete_summary(*params),
        },
{
    let b: DeleteBuilder = match build_delete(params) {
        Ok(b) => b,
        Err(e) => {
            return Err(e);
        },
    };
    let mut summary: String = cat5(
        "folder=",
        params.folder.as_str(),
        " where=",
        debug_text(params.filter.as_str()).as_str(),
        " permanent=",
    );
    summary.append(
        if params.permanent {
            "true"
        } else {
            "false"
        },
    );
    match b.execute(vault, tree) {
        Ok(work) => Ok(Execution { work, summary }),
        Err(e) => Err(invalid("execute_delete failed", &e)),
    }
}

/// The tool `execute_move`: the move, ready to be carried out.
pub fn execute_move(vault: &Vault, tree: &Tree, params: &PlanMoveParams) -> (r: Result<
    Execution<FileRun>,
    ToolError,
>)
    ensures
        match move_answer("execute_move failed"@, tree@, vault.root@, *params) {
            Err(e) => r is Err && r->Err_0@ == e,
            Ok(report) => r is Ok && r->Ok_0.work@ == started(
                FileTask::Move,
                below(vault.root@, params.to@),
                report,
                false,
                string_views(tree.folders@) + crate::vault::file_paths(tree@.files),
            ) && r->Ok_0.summary@ == "folder="@ + params.folder@ + " to="@ + params.to@ + " where="@
                + debug_quoted(params.filter@),
        },
{
    let b: MoveBuilder = match build_move(params) {
        Ok(b) => b,
        Err(e) => {
            return Err(e);
        },
    };
    let mut summary: String = cat5(
        "folder=",
        params.folder.as_str(),
        " to=",
        params.to.as_str(),
        " where=",
    );
    summary.append(debug_text(params.filter.as_str()).as_str());
    match b.execute(vault, tree) {
        Ok(work) => Ok(Execution { work, summary }),
        Err(e) => Err(invalid("execute_move failed", &e)),
    }
}

/// The tool `execute_rename`: the rename, ready to be carried out.
pub fn execute_rename(vault: &Vault, tree: &Tree, params: &PlanRenameParams) -> (r: Result<
    Execution<RenameRun>,
    ToolError,
>)
    ensures
        match rename_plan(params.folder@, params.from@, params.to@, tree@, vault.root@) {
            Err(e) => r is Err && r->Err_0@ == invalid_because("execute_rename failed"@, e),
            Ok(report) => r is Ok && r->Ok_0.work.is_valid() && r->Ok_0.work@ == rename_start(
                rename_journal(params.folder@, params.from@, params.to@, report, vault.root@),
                report,
                false,
            ) && r->Ok_0.summary@ == "folder="@ + params.folder@ + " from="@ + params.from@
                + " to="@ + params.to@,
        },
{
    let b: RenameBuilder = RenameBuilder::new(
        params.folder.as_str(),
        params.from.as_str(),
        params.to.as_str(),
    );
    let mut summary: String = cat5(
        "folder=",
        params.folder.as_str(),
        " from=",
        params.from.as_str(),
        " to=",
    );
    summary.append(params.to.as_str());
    match b.execute(vault, tree) {
        Ok(work) => Ok(Execution { work, summary }),
        Err(e) => Err(invalid("execute_rename failed", &e)),
    }
}

/// A line of the log: when, what, and what it came to.
pub open spec fn log_line(
    now: u64,
    tool: Seq<char>,
    summary: Seq<char>,
    changes: nat,
    errors: nat,
) -> Seq<char> {
    stamp_text(now) + "Z "@ + tool + " "@ + summary + " changes="@ + decimal(changes) + " errors="@
        + decimal(errors) + "\n"@
}

/// Writes a line of the log; the time is given in seconds since 1970.
pub fn audit_line(now: u64, tool: &str, summary: &str, report: &MutationReport) -> (r: String)
    ensures
        r@ == log_line(
            now,
            tool@,
            summary@,
            report.changes@.len(),
            report.errors@.len(),
        ),
{
    let mut out: String = crate::record::format_stamp(now);
    out.append("Z ");
    out.append(tool);
    out.append(" ");
    out.append(summary);
    out.append(" changes=");
    out.append(number_text(report.changes.len() as u64).as_str());
    out.append(" errors=");
    out.append(number_text(report.errors.len() as u64).as_str());
    out.append("\n");
    out
}

} // verus!
