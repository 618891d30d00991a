//! What the tools of the server answer.

use crate::dsl::{parsed, scalar};
use crate::error::Failure;
use crate::json::{json_of, value_of_json, Js, Json};
use crate::links::laws::law_edge_is_source;
use crate::links::{reached, Direction, Graph};
use crate::mcp::links::{
    direction_of, hit_js, linked_js, links_answer, texts_js, traverse_answer, unresolved_js, Linked,
};
use crate::mcp::mutations::{
    asked_creation, asked_update, assignment, assignments, body_steps, delete_answer, log_line,
    move_answer, typed_sets,
};
use crate::mcp::params::{
    PlanCreateParams, PlanDeleteParams, PlanMoveParams, PlanUpdateParams, QueryParams,
};
use crate::mcp::query::{asked_filter, asked_query, is_queryable, query_answer, queryable};
use crate::mcp::server::{
    answered_with, delimiter_of, export_format_of, missing_flag, record_js, records_js,
    ExecutePermissions, ExecuteTool, Refusal,
};
use crate::mutation::relocate::{delete_plan, move_plan};
use crate::mutation::{BodyStep, Report, Update};
use crate::path::{below, file_name};
use crate::query::Cond;
use crate::record::{Rec, Val};
use crate::render::{format_of, Format};
use crate::text::{
    char_at, decimal, is_text_set, lemma_char_at, lemma_with_text, lowered, string_views, trimmed,
};
use crate::tree::{has_folder, notes_in, Picture};
use crate::vault::{loaded, queried, scoped_graph, GraphScope};
use crate::mcp::schema::infer_answer;
use crate::schema::{inferred, of_folder, stamp_text, CollectionRule};
use vstd::prelude::*;

verus! {

// ── Permissions ────────────────────────────────────────────────────────────

/// A tool may change the vault exactly if the permission for what it does is given: that for
/// creating, for updating, which moving and renaming are, or for deleting.
pub proof fn law_tools_are_allowed(p: ExecutePermissions)
    ensures
        missing_flag(p, ExecuteTool::Create) is None <==> p.create,
        missing_flag(p, ExecuteTool::Update) is None <==> p.update,
        missing_flag(p, ExecuteTool::Move) is None <==> p.update,
        missing_flag(p, ExecuteTool::Rename) is None <==> p.update,
        missing_flag(p, ExecuteTool::Delete { permanent: false }) is None <==> p.delete,
{
}

// ── Links ──────────────────────────────────────────────────────────────────

/// The words for directions, in letters of any case.
pub proof fn law_direction_words(word: Seq<char>)
    ensures
        lowered(word) == "outgoing"@ || lowered(word) == "out"@ ==> direction_of(word) == Ok::<
            Direction,
            Refusal,
        >(Direction::Outgoing),
        lowered(word) == "incoming"@ || lowered(word) == "in"@ || lowered(word) == "back"@
            ==> direction_of(word) == Ok::<Direction, Refusal>(Direction::Incoming),
        lowered(word) == "both"@ ==> direction_of(word) == Ok::<Direction, Refusal>(
            Direction::Both,
        ),
        direction_of(word) is Ok ==> lowered(word) == "outgoing"@ || lowered(word) == "out"@
            || lowered(word) == "incoming"@ || lowered(word) == "in"@ || lowered(word) == "back"@
            || lowered(word) == "both"@,
{
    reveal_strlit("outgoing");
    reveal_strlit("out");
    reveal_strlit("incoming");
    reveal_strlit("in");
    reveal_strlit("back");
    reveal_strlit("both");
    assert("outgoing"@[0] == 'o' && "out"@[0] == 'o' && "incoming"@[0] == 'i' && "in"@[0] == 'i');
    assert("back"@[1] == 'a' && "both"@[1] == 'o');
    assert("back"@[0] == 'b' && "both"@[0] == 'b');
}

/// The links of a note are those of the graph of the whole vault, in both directions.
pub proof fn law_links_are_answered(
    p: Picture,
    root: Seq<char>,
    name: Seq<char>,
    other: Seq<char>,
    direction: Seq<char>,
    g: Graph,
)
    requires
        scoped_graph(p, root, GraphScope::All) == Ok::<Graph, Failure>(g),
        direction_of(direction) is Ok,
    ensures
        links_answer(p, root, name, direction) is Ok,
        links_answer(p, root, name, direction)->Ok_0.name == name,
        links_answer(p, root, name, direction)->Ok_0.outgoing.contains(other) <==> g.edges.contains(
            (name, other),
        ),
        links_answer(p, root, name, direction)->Ok_0.incoming.contains(other) <==> g.edges.contains(
            (other, name),
        ),
{
    law_edge_is_source(g, name, other);
    law_edge_is_source(g, other, name);
}

/// A traversal goes through the graph of the whole vault in the direction that is asked for.
pub proof fn law_traversal_is_answered(
    p: Picture,
    root: Seq<char>,
    name: Seq<char>,
    depth: nat,
    direction: Seq<char>,
    g: Graph,
)
    requires
        scoped_graph(p, root, GraphScope::All) == Ok::<Graph, Failure>(g),
    ensures
        direction_of(direction) == Ok::<Direction, Refusal>(Direction::Outgoing)
            ==> traverse_answer(p, root, name, depth, direction) == Ok::<
            Seq<(Seq<char>, nat)>,
            Refusal,
        >(reached(g.edges, name, Direction::Outgoing, depth)),
        direction_of(direction) == Ok::<Direction, Refusal>(Direction::Incoming)
            ==> traverse_answer(p, root, name, depth, direction) == Ok::<
            Seq<(Seq<char>, nat)>,
            Refusal,
        >(reached(g.edges, name, Direction::Incoming, depth)),
        direction_of(direction) is Err ==> traverse_answer(p, root, name, depth, direction) is Err,
{
}

/// The links of a note are answered as an object of its name and two arrays of texts.
pub proof fn law_links_as_documents(l: Linked, i: int)
    ensures
        linked_js(l) is Object,
        linked_js(l)->Object_0.contains(("name"@, Js::Text(l.name))),
        linked_js(l)->Object_0.contains(("outgoing"@, texts_js(l.outgoing))),
        linked_js(l)->Object_0.contains(("incoming"@, texts_js(l.incoming))),
        texts_js(l.outgoing) is Array,
        texts_js(l.outgoing)->Array_0.len() == l.outgoing.len(),
        0 <= i < l.outgoing.len() ==> texts_js(l.outgoing)->Array_0[i] == Js::Text(l.outgoing[i]),
{
    let m = linked_js(l)->Object_0;
    assert(m[1] == ("name"@, Js::Text(l.name)));
    assert(m[2] == ("outgoing"@, texts_js(l.outgoing)));
    assert(m[0] == ("incoming"@, texts_js(l.incoming)));
}

// ── Changes ────────────────────────────────────────────────────────────────

/// A field is set to what stands behind the first equals sign, without the blanks around both;
/// a text without one sets nothing.
pub proof fn law_assignments(f: Seq<char>, v: Seq<char>)
    requires
        !f.contains('='),
    ensures
        assignment(f + seq!['='] + v) == Ok::<(Seq<char>, Val), Refusal>(
            (trimmed(f), scalar(trimmed(v))),
        ),
        assignment(f) is Err,
{
    let s = f + seq!['='] + v;
    lemma_char_at(f, '=', 0);
    if let Some(i) = char_at(f, '=', 0) {
        assert(f.contains(f[i]));
    }
    lemma_char_at(s, '=', 0);
    assert(s[f.len() as int] == '=');
    let i = char_at(s, '=', 0)->0;
    if i < f.len() {
        assert(s[i] == f[i]);
        assert(f.contains('='));
    }
    assert(s.take(i) =~= f);
    assert(s.skip(i + 1) =~= v);
}

/// Several fields are set in their order, and the first text that sets nothing is refused.
pub proof fn law_several_assignments(texts: Seq<Seq<char>>, t: Seq<char>)
    ensures
        assignments(Seq::empty()) == Ok::<Seq<(Seq<char>, Val)>, Refusal>(seq![]),
        assignments(texts) is Ok && assignment(t) is Ok ==> assignments(texts.push(t)) == Ok::<
            Seq<(Seq<char>, Val)>,
            Refusal,
        >(assignments(texts)->Ok_0.push(assignment(t)->Ok_0)),
        assignments(texts) is Err || assignment(t) is Err ==> assignments(texts.push(t)) is Err,
{
    assert(texts.push(t).drop_last() =~= texts);
}

/// The update that is asked for has the condition, the folder, the fields, the tags and the body
/// that are given: values that keep their kind come behind those given as texts, and the body
/// is first emptied, then replaced, then added to.
pub proof fn law_updates_are_asked(
    params: PlanUpdateParams,
    c: Cond,
    sets: Seq<(Seq<char>, Val)>,
    i: int,
)
    requires
        parsed(params.filter@) == Ok::<Cond, Failure>(c),
        assignments(string_views(params.set@)) == Ok::<Seq<(Seq<char>, Val)>, Refusal>(sets),
    ensures
        asked_update(params) is Ok,
        ({
            let u = asked_update(params)->Ok_0;
            &&& u.filter == c
            &&& u.folder == params.folder@
            &&& u.recursive == params.recursive
            &&& u.sets.len() == sets.len() + params.set_typed@.len()
            &&& u.sets.take(sets.len() as int) == sets
            &&& 0 <= i < params.set_typed@.len() ==> u.sets[sets.len() + i] == (
                params.set_typed@[i].0@,
                value_of_json(crate::json::js(params.set_typed@[i].1)),
            )
            &&& u.unsets == string_views(params.unset@)
            &&& u.adds == string_views(params.add_tag@)
            &&& u.removes == string_views(params.remove_tag@)
        }),
        !params.clear_body && params.set_body is None && params.append_body@.len() == 0
            ==> body_steps(params) == Seq::<BodyStep>::empty(),
        params.clear_body && params.set_body is None && params.append_body@.len() == 0
            ==> body_steps(params) == seq![BodyStep::Clear],
        !params.clear_body && params.set_body is Some && params.append_body@.len() == 0
            ==> body_steps(params) == seq![BodyStep::Replace((params.set_body->0)@)],
        !params.clear_body && params.set_body is None && params.append_body@.len() == 1
            && params.body_separator is None ==> body_steps(params) == seq![
            BodyStep::Append { text: params.append_body@[0]@, separator: "\n"@ },
        ],
        params.clear_body && params.set_body is Some && params.append_body@.len() == 0
            ==> body_steps(params) == seq![
            BodyStep::Clear,
            BodyStep::Replace((params.set_body->0)@),
        ],
{
    let u = asked_update(params)->Ok_0;
    assert(u.sets.take(sets.len() as int) =~= sets);
    if 0 <= i < params.set_typed@.len() {
        assert(u.sets[sets.len() + i] == typed_sets(crate::json::members(params.set_typed@))[i]);
    }
}

/// A tool that deletes or moves is refused where its condition cannot be read, and else comes to
/// what the deletion or the move of those notes comes to.
pub proof fn law_deletions_and_moves_are_asked(
    context: Seq<char>,
    p: Picture,
    root: Seq<char>,
    d: PlanDeleteParams,
    m: PlanMoveParams,
    c: Cond,
    report: Report,
)
    ensures
        parsed(d.filter@) is Err ==> delete_answer(context, p, root, d) is Err,
        parsed(d.filter@) == Ok::<Cond, Failure>(c) && delete_plan(
            c,
            d.folder@,
            d.permanent,
            d.recursive,
            p,
            root,
        ) == Ok::<Report, Failure>(report) ==> delete_answer(context, p, root, d) == Ok::<
            Report,
            Refusal,
        >(report),
        parsed(m.filter@) is Err ==> move_answer(context, p, root, m) is Err,
        parsed(m.filter@) == Ok::<Cond, Failure>(c) && move_plan(
            c,
            m.folder@,
            m.to@,
            m.recursive,
            p,
            root,
        ) == Ok::<Report, Failure>(report) ==> move_answer(context, p, root, m) == Ok::<
            Report,
            Refusal,
        >(report),
{
}

// ── Queries ────────────────────────────────────────────────────────────────

/// A query without a condition, or with an empty one, asks for all notes; one that cannot be
/// read is refused.
pub proof fn law_conditions_are_asked(text: Seq<char>, c: Cond)
    ensures
        asked_filter(None) == Ok::<Option<Cond>, Refusal>(None),
        asked_filter(Some(Seq::empty())) == Ok::<Option<Cond>, Refusal>(None),
        text.len() > 0 && parsed(text) == Ok::<Cond, Failure>(c) ==> asked_filter(Some(text))
            == Ok::<Option<Cond>, Refusal>(Some(c)),
        text.len() > 0 && parsed(text) is Err ==> asked_filter(Some(text)) is Err,
{
}

/// The query that is asked for has the folder, the condition, the order and the limit that are
/// given, and answers what the vault answers.
pub proof fn law_queries_are_asked(p: Picture, root: Seq<char>, params: QueryParams, c: Cond)
    requires
        params.filter is Some,
        (params.filter->0)@.len() > 0,
        parsed((params.filter->0)@) == Ok::<Cond, Failure>(c),
    ensures
        ({
            let q = asked_query(params, Some(c));
            &&& q.folder == params.folder@
            &&& q.filter == Some(c)
            &&& q.limit == params.limit
            &&& q.recursive == params.recursive
            &&& params.sort is None ==> q.sort is None
            &&& params.sort is Some ==> q.sort is Some && (q.sort->0).field == (params.sort->0)@ && (
            q.sort->0).descending == params.desc
            &&& params.select is None ==> q.select is None
            &&& queried(p, root, q) is Ok ==> query_answer(p, root, params) == Ok::<
                Seq<Rec>,
                Refusal,
            >(queried(p, root, q)->Ok_0)
            &&& queried(p, root, q) is Err ==> query_answer(p, root, params) is Err
        }),
{
}

/// The folders that are listed are those worth asking, by name, ascending, each once.
pub proof fn law_folders_are_listed(
    p: Picture,
    root: Seq<char>,
    folders: Seq<Seq<char>>,
    name: Seq<char>,
)
    ensures
        is_text_set(queryable(p, root, folders)),
        queryable(p, root, folders).contains(name) <==> exists|i: int|
            0 <= i < folders.len() && is_queryable(p, root, #[trigger] folders[i]) && file_name(
                folders[i],
            ) == Some(name),
    decreases folders.len(),
{
    if folders.len() > 0 {
        let init = folders.drop_last();
        law_folders_are_listed(p, root, init, name);
        if is_queryable(p, root, folders.last()) {
            lemma_with_text(queryable(p, root, init), file_name(folders.last())->0);
        }
        if exists|i: int|
            0 <= i < folders.len() && is_queryable(p, root, #[trigger] folders[i]) && file_name(
                folders[i],
            ) == Some(name) {
            let i = choose|i: int|
                0 <= i < folders.len() && is_queryable(p, root, #[trigger] folders[i])
                    && file_name(folders[i]) == Some(name);
            if i < init.len() {
                assert(init[i] == folders[i]);
            }
        }
        if exists|i: int|
            0 <= i < init.len() && is_queryable(p, root, #[trigger] init[i]) && file_name(init[i])
                == Some(name) {
            let i = choose|i: int|
                0 <= i < init.len() && is_queryable(p, root, #[trigger] init[i]) && file_name(
                    init[i],
                ) == Some(name);
            assert(folders[i] == init[i]);
        }
        assert(folders[folders.len() - 1] == folders.last());
    }
}

// ── Answers ────────────────────────────────────────────────────────────────

/// The names of separators, and the comma where there is none.
pub proof fn law_delimiters(name: Seq<char>)
    ensures
        delimiter_of(None) == Ok::<u8, Refusal>(',' as u8),
        delimiter_of(Some("comma"@)) == Ok::<u8, Refusal>(',' as u8),
        delimiter_of(Some("semicolon"@)) == Ok::<u8, Refusal>(';' as u8),
        delimiter_of(Some("tab"@)) == Ok::<u8, Refusal>('\t' as u8),
        delimiter_of(Some(name)) is Ok ==> name == "comma"@ || name == ","@ || name
            == "semicolon"@ || name == ";"@ || name == "tab"@ || name == "\t"@ || name == "\\t"@,
{
    reveal_strlit("comma");
    reveal_strlit("semicolon");
    reveal_strlit("tab");
    reveal_strlit(",");
    reveal_strlit(";");
    reveal_strlit("\t");
    reveal_strlit("\\t");
    assert("comma"@[0] == 'c' && "semicolon"@[0] == 's' && "tab"@[0] == 't');
    assert(","@[0] == ',' && ";"@[0] == ';');
    assert(',' as u8 == 44 && ';' as u8 == 59 && '\t' as u8 == 9);
}

/// A result is exported in the format of the path that is given, with the separator that is
/// given; without a path it is not exported.
pub proof fn law_exports_are_asked(path: Seq<char>, delimiter: Option<Seq<char>>, b: u8)
    requires
        delimiter_of(delimiter) == Ok::<u8, Refusal>(b),
    ensures
        export_format_of(None, delimiter) == Ok::<Option<Format>, Refusal>(None),
        format_of(path) == Ok::<Format, Failure>(Format::Json) ==> export_format_of(
            Some(path),
            delimiter,
        ) == Ok::<Option<Format>, Refusal>(Some(Format::Json)),
        format_of(path) == Ok::<Format, Failure>(Format::Yaml) ==> export_format_of(
            Some(path),
            delimiter,
        ) == Ok::<Option<Format>, Refusal>(Some(Format::Yaml)),
        format_of(path) == Ok::<Format, Failure>(Format::Xlsx) ==> export_format_of(
            Some(path),
            delimiter,
        ) == Ok::<Option<Format>, Refusal>(Some(Format::Xlsx)),
        format_of(path) is Ok && format_of(path)->Ok_0 is Csv ==> export_format_of(
            Some(path),
            delimiter,
        ) == Ok::<Option<Format>, Refusal>(Some(Format::Csv { delimiter: b })),
        format_of(path) is Err ==> export_format_of(Some(path), delimiter) is Err,
{
}

/// A note is answered as an object of its path, its fields, and its text where it has one;
/// notes are an array of those; and what was exported is told with where it was written to.
pub proof fn law_notes_as_documents(
    r: Rec,
    rs: Seq<Rec>,
    i: int,
    body: Js,
    path: Seq<char>,
    text: Seq<char>,
)
    ensures
        record_js(r) is Object,
        record_js(r)->Object_0.contains(("path"@, Js::Text(r.path))),
        record_js(r)->Object_0.contains(("fields"@, json_of(Val::Mapping(r.fields)))),
        r.content == Some(text) ==> record_js(r)->Object_0.contains(
            ("raw_content"@, Js::Text(text)),
        ),
        r.content is None ==> record_js(r)->Object_0.len() == 2,
        records_js(rs) is Array,
        records_js(rs)->Array_0.len() == rs.len(),
        0 <= i < rs.len() ==> records_js(rs)->Array_0[i] == record_js(rs[i]),
        answered_with(body, None) == body,
        answered_with(body, Some(path)) == Js::Object(
            seq![("data"@, body), ("exported_to"@, Js::Text(path))],
        ),
{
    let m = record_js(r)->Object_0;
    assert(m[1] == ("path"@, Js::Text(r.path)));
    assert(m[0] == ("fields"@, json_of(Val::Mapping(r.fields))));
    if r.content == Some(text) {
        assert(m[2] == ("raw_content"@, Js::Text(text)));
    }
}

/// A note that is reached is answered with its name and its distance, and a link that leads
/// nowhere with what it names and the notes that have it.
pub proof fn law_hits_as_documents(name: Seq<char>, depth: nat, sources: Seq<Seq<char>>, i: int)
    ensures
        hit_js((name, depth)) is Object,
        hit_js((name, depth))->Object_0.contains(("name"@, Js::Text(name))),
        hit_js((name, depth))->Object_0.contains(("depth"@, Js::Large(depth as u64))),
        unresolved_js((name, sources)) is Object,
        unresolved_js((name, sources))->Object_0.contains(("target"@, Js::Text(name))),
        unresolved_js((name, sources))->Object_0.contains(("sources"@, texts_js(sources))),
        0 <= i < sources.len() ==> texts_js(sources)->Array_0[i] == Js::Text(sources[i]),
{
    let a = hit_js((name, depth))->Object_0;
    assert(a[1] == ("name"@, Js::Text(name)));
    assert(a[0] == ("depth"@, Js::Large(depth as u64)));
    let b = unresolved_js((name, sources))->Object_0;
    assert(b[1] == ("target"@, Js::Text(name)));
    assert(b[0] == ("sources"@, texts_js(sources)));
}

/// A schema is inferred from the notes of the folder that are loaded; a folder that is not there
/// is refused.
pub proof fn law_schemas_are_inferred(
    p: Picture,
    root: Seq<char>,
    folder: Seq<char>,
    recursive: bool,
    rs: Seq<Rec>,
)
    ensures
        !has_folder(p, below(root, folder)) ==> infer_answer(p, root, folder, recursive) is Err,
        has_folder(p, below(root, folder)) && loaded(
            notes_in(p.files, below(root, folder), recursive),
            false,
        ) is Ok && loaded(notes_in(p.files, below(root, folder), recursive), false)->Ok_0.0 == rs
            ==> infer_answer(p, root, folder, recursive) == Ok::<CollectionRule, Refusal>(
            inferred(folder, rs),
        ),
{
}

/// What is executed is logged on a line of its own: when, what, and how many changes and errors
/// it came to.
pub proof fn law_log_lines(
    now: u64,
    tool: Seq<char>,
    summary: Seq<char>,
    changes: nat,
    errors: nat,
)
    ensures
        log_line(now, tool, summary, changes, errors) == stamp_text(now) + "Z "@ + tool + " "@
            + summary + " changes="@ + decimal(changes) + " errors="@ + decimal(errors) + "\n"@,
{
}

/// The creation that is asked for has the folder, the name, the template, the fields and the
/// body that are given, and is held to the collection of its folder, where there is one.
pub proof fn law_creations_are_asked(
    params: PlanCreateParams,
    all: Seq<(Seq<char>, CollectionRule)>,
    i: int,
)
    ensures
        ({
            let c = asked_creation(params, Some(all));
            &&& c.folder == params.folder@
            &&& c.name == params.name@
            &&& c.sets.len() == params.set@.len()
            &&& 0 <= i < params.set@.len() ==> c.sets[i] == (
                params.set@[i].0@,
                value_of_json(crate::json::js(params.set@[i].1)),
            )
            &&& params.body is Some ==> c.body == Some((params.body->0)@)
            &&& params.body is None ==> c.body is None
            &&& params.template is Some ==> c.template == Some((params.template->0)@)
            &&& params.template is None ==> c.template is None
            &&& of_folder(all, params.folder@, 0) is None ==> c.schema is None
            &&& of_folder(all, params.folder@, 0) is Some ==> c.schema is Some && (
            c.schema->0).len() == 1 && (c.schema->0)[0].1 == of_folder(all, params.folder@, 0)->0
        }),
        asked_creation(params, None).schema is None,
{
}

} // verus!
