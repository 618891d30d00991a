//! What changes to notes come to, told of their texts.

use crate::dsl::laws::is_plain_char;
use crate::error::{message, Failure};
use crate::filter::{holds, uses_links};
use crate::frontmatter::laws::{is_fenceable, law_fences_hold};
use crate::frontmatter::parsed_fields;
use crate::float::{digits_end, is_decimal_number, is_float_text, mantissa_end, unsigned};
use crate::links::laws::{lemma_contains_add, lemma_contains_push};
use crate::links::{graph_of, text_vals, Graph};
use crate::mutation::create::{
    create_plan, create_with, created, name_list, new_description, new_text, with_default,
    with_defaults, with_rules, Creation, Filled,
};
use crate::mutation::laws::written;
use crate::mutation::relocate::{deletions, is_claimed, move_all, numbered};
use crate::mutation::rename::rename_plan;
use crate::mutation::{
    all_violations, edited, noticed, schema_failures, stepped, steps_of, tags_of, text_at,
    update_all, update_one, update_plan, updated_fields, with_all, without_texts, BodyStep, Plan,
    Report, Step, Update, Write,
};
use crate::path::{below, extension, file_name, stem};
use crate::query::Cond;
use crate::record::{field, key_at, law_entry_is_set, lemma_key_at, note_name, Rec, Val};
use crate::schema::consistency::law_shallow_folders_come_first;
use crate::schema::{applying, by_depth, resolved, violations, CollectionRule, FieldRule, Vio};
use crate::text::laws::law_joined;
use crate::text::{all_digits, bytes, decimal, joined, lines_of, lowered, signed_decimal, starts};
use crate::tree::{file_at, has_file, has_folder, is_taken, notes_in, Picture};
use crate::vault::loaded;
use crate::writer::notes::{
    are_entries, entry_key, fenced_lines, is_name, is_unknown, law_body_is_appended,
    law_body_is_replaced, law_field_is_appended, law_field_is_dropped, law_field_is_replaced,
    law_note_is_taken_apart, law_tag_is_appended, law_tag_is_dropped, lemma_found, lemma_note_lead,
    note_text, Entry,
};
use crate::writer::{
    all_led, body_of, change_text, escaped, has_control, has_special, is_control, is_special,
    quoted, spliced, without_newlines, Change,
};
use crate::yaml::{entry_yaml, value_yaml};
use vstd::prelude::*;

verus! {

// ── How values are written ─────────────────────────────────────────────────

/// Whether a text is how a scalar is written behind the name of a field.
pub open spec fn is_written(v: Val, text: Seq<char>) -> bool {
    match v {
        Val::Bool(b) => b && text == "true"@ || !b && text == "false"@,
        Val::Int(n) => text == signed_decimal(n as int),
        Val::Float(f) => text == f.1,
        Val::Null => text == "null"@,
        _ => false,
    }
}

/// Setting a field to a boolean, a number or null puts the line with its name and that value
/// in place of the field, or behind the others where the note has no such field. All else
/// stays as it is.
pub proof fn law_scalars_are_set(
    es: Seq<Entry>,
    body: Seq<char>,
    key: Seq<char>,
    v: Val,
    text: Seq<char>,
    i: int,
)
    requires
        are_entries(es),
        is_name(key),
        is_written(v, text),
    ensures
        0 <= i < es.len() && entry_key(es[i]) == key ==> {
            let edit = stepped(note_text(es, body), Step::SetField(key, v));
            edit is Ok && edit->Ok_0.0 == note_text(
                es.update(i, Entry::Scalar { key, value: text }),
                body,
            )
        },
        is_unknown(es, key) ==> stepped(note_text(es, body), Step::SetField(key, v)) == Ok::<
            (Seq<char>, Change),
            Failure,
        >(
            (
                note_text(es.push(Entry::Scalar { key, value: text }), body),
                Change::SetField { field: key, old_value: seq![], new_value: text },
            ),
        ),
{
    if 0 <= i < es.len() && entry_key(es[i]) == key {
        law_field_is_replaced(es, body, i, text, text);
    }
    if is_unknown(es, key) {
        law_field_is_appended(es, body, key, text, text);
    }
}

/// Whether a text is one of the words that YAML reads as something else than a text.
pub open spec fn is_reserved(w: Seq<char>) -> bool {
    let l = lowered(w);
    ||| l == "true"@ || l == "false"@ || l == "yes"@ || l == "no"@ || l == "on"@ || l == "off"@
    ||| l == "null"@ || l == "inf"@ || l == "infinity"@ || l == "nan"@
}

/// Whether a text is a plain word of ASCII characters that starts with a letter.
pub open spec fn is_bare_word(w: Seq<char>) -> bool {
    is_name(w) && forall|i: int| 0 <= i < w.len() ==> (#[trigger] w[i]) <= '~'
}

/// A plain word that starts with a letter and is not reserved is written as it is.
pub proof fn law_words_are_written_bare(w: Seq<char>)
    requires
        is_bare_word(w),
        !is_reserved(w),
    ensures
        quoted(w) == w,
{
    reveal_strlit("~");
    reveal_strlit("0x");
    reveal_strlit("0o");
    reveal_strlit("0b");
    reveal_strlit(".inf");
    reveal_strlit(".nan");
    assert forall|i: int| 0 <= i < w.len() implies !is_special(#[trigger] w[i]) && !is_control(
        w[i],
    ) by {
        assert(is_plain_char(w[i]));
    }
    assert(is_plain_char(w[w.len() - 1]));
    assert(!has_special(w));
    assert(unsigned(w) == w);
    assert(digits_end(w, 0) == 0);
    assert(mantissa_end(w) == 0);
    assert(!is_decimal_number(w));
    let l = lowered(w);
    assert(l[0] == crate::text::lower_char(w[0]));
    assert("~"@[0] == '~' && ".inf"@[0] == '.' && ".nan"@[0] == '.');
    assert(!is_float_text(w));
    if starts(w, "0x"@) {
        assert(w.subrange(0, 2)[0] == w[0]);
    }
    if starts(w, "0o"@) {
        assert(w.subrange(0, 2)[0] == w[0]);
    }
    if starts(w, "0b"@) {
        assert(w.subrange(0, 2)[0] == w[0]);
    }
}

/// Whether a text can stand in single quotes as it is.
pub open spec fn is_quotable(w: Seq<char>) -> bool {
    forall|i: int| 0 <= i < w.len() ==> (#[trigger] w[i]) != '\'' && !is_control(w[i])
}

/// A text that is reserved, a number, empty, or that holds a character with a meaning of its
/// own in YAML, is written in quotes, and so never read as anything but a text.
pub proof fn law_other_texts_are_quoted(w: Seq<char>)
    requires
        is_quotable(w),
        ({
            ||| w.len() == 0
            ||| is_reserved(w) && !(lowered(w) == "inf"@ || lowered(w) == "infinity"@ || lowered(w)
                == "nan"@)
            ||| w.len() > 0 && all_digits(w)
            ||| exists|i: int|
                0 <= i < w.len() && ((#[trigger] w[i]) == ':' || w[i] == '#' || w[i] == '['
                    || w[i] == '{' || w[i] == '"' || w[i] == '&' || w[i] == '*' || w[i] == '!')
            ||| w.len() > 0 && (w[0] == ' ' || w[0] == '-' || w.last() == ' ')
        }),
    ensures
        quoted(w) == seq!['\''] + w + seq!['\''],
{
    if w.contains('\'') {
        let i = choose|i: int| 0 <= i < w.len() && w[i] == '\'';
        assert(w[i] != '\'');
    }
    if has_control(w) {
        let i = choose|i: int| 0 <= i < w.len() && is_control(#[trigger] w[i]);
        assert(!is_control(w[i]));
    }
    if w.len() > 0 && all_digits(w) {
        lemma_digits_to_end(w, 0);
        assert('0' <= w[0] <= '9');
        assert(unsigned(w) == w);
        assert(is_decimal_number(w));
    }
    if exists|i: int|
        0 <= i < w.len() && ((#[trigger] w[i]) == ':' || w[i] == '#' || w[i] == '[' || w[i] == '{'
            || w[i] == '"' || w[i] == '&' || w[i] == '*' || w[i] == '!') {
        let i = choose|i: int|
            0 <= i < w.len() && ((#[trigger] w[i]) == ':' || w[i] == '#' || w[i] == '[' || w[i]
                == '{' || w[i] == '"' || w[i] == '&' || w[i] == '*' || w[i] == '!');
        assert(is_special(w[i]));
    }
}

/// Digits go on to the end of a text of digits.
proof fn lemma_digits_to_end(w: Seq<char>, i: int)
    requires
        all_digits(w),
        0 <= i <= w.len(),
    ensures
        digits_end(w, i) == w.len(),
    decreases w.len() - i,
{
    if i < w.len() {
        assert('0' <= w[i] <= '9');
        lemma_digits_to_end(w, i + 1);
    }
}

/// Setting a field to a text puts the line with its name and the text in place of the field,
/// in quotes where the text needs them.
pub proof fn law_texts_are_set(es: Seq<Entry>, body: Seq<char>, t: Seq<char>, i: int)
    requires
        are_entries(es),
        0 <= i < es.len(),
    ensures
        ({
            let key = entry_key(es[i]);
            let edit = stepped(note_text(es, body), Step::SetField(key, Val::Text(t)));
            &&& edit is Ok
            &&& is_bare_word(t) && !is_reserved(t) ==> edit->Ok_0.0 == note_text(
                es.update(i, Entry::Scalar { key, value: t }),
                body,
            )
            &&& t.len() > 0 && all_digits(t) ==> edit->Ok_0.0 == note_text(
                es.update(i, Entry::Scalar { key, value: seq!['\''] + t + seq!['\''] }),
                body,
            )
        }),
{
    let text = quoted(t);
    law_field_is_replaced(es, body, i, text, text);
    if is_bare_word(t) && !is_reserved(t) {
        law_words_are_written_bare(t);
    }
    if t.len() > 0 && all_digits(t) {
        assert forall|k: int| 0 <= k < t.len() implies (#[trigger] t[k]) != '\'' && !is_control(
            t[k],
        ) by {
            assert('0' <= t[k] <= '9');
        }
        law_other_texts_are_quoted(t);
    }
}

/// Removing a field takes its lines away, adding a tag puts it behind the others, and removing
/// a tag takes the first one that is it away. All else stays as it is.
pub proof fn law_fields_and_tags_are_changed(
    es: Seq<Entry>,
    body: Seq<char>,
    i: int,
    items: Seq<Seq<char>>,
    tag: Seq<char>,
    j: int,
)
    requires
        are_entries(es),
        0 <= i < es.len(),
    ensures
        ({
            let edit = stepped(note_text(es, body), Step::Unset(entry_key(es[i])));
            edit is Ok && edit->Ok_0.0 == note_text(es.remove(i), body)
        }),
        es[i] == (Entry::Items { key: "tags"@, items }) ==> {
            let edit = stepped(note_text(es, body), Step::AddTag(tag));
            edit is Ok && edit->Ok_0.0 == note_text(
                es.update(i, Entry::Items { key: "tags"@, items: items.push(tag) }),
                body,
            )
        },
        es[i] == (Entry::Items { key: "tags"@, items }) && 0 <= j < items.len() && (forall|p: int|
            0 <= p < j ==> #[trigger] items[p] != items[j]) ==> {
            let edit = stepped(note_text(es, body), Step::RemoveTag(items[j]));
            edit is Ok && edit->Ok_0.0 == note_text(
                es.update(i, Entry::Items { key: "tags"@, items: items.remove(j) }),
                body,
            )
        },
{
    assert(crate::writer::notes::is_entry(es[i]));
    law_field_is_dropped(es, body, entry_key(es[i]), i);
    if es[i] == (Entry::Items { key: "tags"@, items }) {
        law_tag_is_appended(es, body, i, items, tag);
        if 0 <= j < items.len() && (forall|p: int| 0 <= p < j ==> #[trigger] items[p] != items[j]) {
            law_tag_is_dropped(es, body, i, items, j);
        }
    }
}

/// A body is replaced by the one that is given, emptied, or followed by the text that is
/// given; the frontmatter stays as it is.
pub proof fn law_bodies_are_changed(
    es: Seq<Entry>,
    body: Seq<char>,
    text: Seq<char>,
    separator: Seq<char>,
)
    requires
        are_entries(es),
    ensures
        stepped(note_text(es, body), Step::Body(BodyStep::Replace(text))) == Ok::<
            (Seq<char>, Change),
            Failure,
        >(
            (
                note_text(es, text),
                Change::SetBody { old_len: bytes(body), new_len: bytes(text) },
            ),
        ),
        stepped(note_text(es, body), Step::Body(BodyStep::Clear)) == Ok::<
            (Seq<char>, Change),
            Failure,
        >((note_text(es, seq![]), Change::ClearBody { old_len: bytes(body) })),
        body.len() > 0 && body.last() != '\n' && body.last() != '\r' ==> stepped(
            note_text(es, body),
            Step::Body(BodyStep::Append { text, separator }),
        ) == Ok::<(Seq<char>, Change), Failure>(
            (
                note_text(es, body + separator + text),
                Change::AppendBody { added_len: bytes(text) },
            ),
        ),
{
    let set = Change::SetBody { old_len: bytes(body), new_len: bytes(text) };
    let cleared = Change::ClearBody { old_len: bytes(body) };
    let appended = Change::AppendBody { added_len: bytes(text) };
    law_body_is_replaced(es, body, text, set);
    law_body_is_replaced(es, body, seq![], cleared);
    assert(body_of(note_text(es, body)) == body) by {
        crate::writer::notes::law_note_is_taken_apart(es, body);
    }
    if body.len() > 0 && body.last() != '\n' && body.last() != '\r' {
        law_body_is_appended(es, body, text, separator, appended);
    }
}

/// A body that is empty becomes the text that is added; one that ends with line feeds loses them
/// before the separator and the text are added.
pub proof fn law_texts_are_added_to_bodies(
    es: Seq<Entry>,
    body: Seq<char>,
    text: Seq<char>,
    separator: Seq<char>,
)
    requires
        are_entries(es),
        body.len() > 0,
        body.last() != '\n' && body.last() != '\r',
    ensures
        ({
            let b = Step::Body(BodyStep::Append { text, separator });
            let none = Seq::<char>::empty();
            &&& stepped(note_text(es, none), b) is Ok
            &&& stepped(note_text(es, none), b)->Ok_0.0 == note_text(es, text)
            &&& stepped(note_text(es, body.push('\n')), b) is Ok
            &&& stepped(note_text(es, body.push('\n')), b)->Ok_0.0 == note_text(
                es,
                body + separator + text,
            )
            &&& stepped(note_text(es, body.push('\n').push('\n')), b) is Ok
            &&& stepped(note_text(es, body.push('\n').push('\n')), b)->Ok_0.0 == note_text(
                es,
                body + separator + text,
            )
        }),
{
    let none = Seq::<char>::empty();
    let change = Change::AppendBody { added_len: bytes(text) };
    law_note_is_taken_apart(es, none);
    law_body_is_replaced(es, none, text, change);
    let one = body.push('\n');
    let two = one.push('\n');
    assert(one.drop_last() =~= body);
    assert(two.drop_last() =~= one);
    reveal_with_fuel(without_newlines, 3);
    assert(without_newlines(one) == body);
    assert(without_newlines(two) == body);
    law_note_is_taken_apart(es, one);
    law_note_is_taken_apart(es, two);
    law_body_is_replaced(es, one, body + separator + text, change);
    law_body_is_replaced(es, two, body + separator + text, change);
}

/// A note without tags can be given none and lose none: the change fails.
pub proof fn law_tags_must_be_there(es: Seq<Entry>, body: Seq<char>, tag: Seq<char>)
    requires
        are_entries(es),
        is_unknown(es, "tags"@),
    ensures
        stepped(note_text(es, body), Step::AddTag(tag)) is Err,
        stepped(note_text(es, body), Step::RemoveTag(tag)) is Err,
{
    reveal_strlit("tags");
    assert("tags"@.len() == 4);
    assert("tags"@[0] == 't' && "tags"@[1] == 'a' && "tags"@[2] == 'g' && "tags"@[3] == 's');
    assert(is_name("tags"@)) by {
        assert forall|i: int| 0 <= i < "tags"@.len() implies is_plain_char(#[trigger] "tags"@[i]) by {
        }
    }
    law_note_is_taken_apart(es, body);
    lemma_found(es, "tags"@, -1);
}

/// Setting a field that a note does not have to a list or a mapping puts the lines that it is
/// rendered as before the closing fence; all else stays as it is.
pub proof fn law_blocks_are_set(
    es: Seq<Entry>,
    body: Seq<char>,
    key: Seq<char>,
    v: Val,
    rendered: Seq<char>,
)
    requires
        are_entries(es),
        is_name(key),
        is_unknown(es, key),
        v is List || v is Mapping,
        entry_yaml(key, v) == Ok::<Seq<char>, Seq<char>>(rendered),
    ensures
        stepped(note_text(es, body), Step::SetField(key, v)) is Ok,
        stepped(note_text(es, body), Step::SetField(key, v))->Ok_0.0 == joined(
            fenced_lines(es).drop_last() + lines_of(rendered) + seq!["---"@],
            "\n"@,
        ) + "\n"@ + body,
{
    let ls = fenced_lines(es);
    law_note_is_taken_apart(es, body);
    lemma_found(es, key, -1);
    lemma_note_lead(es);
    let none = Seq::<char>::empty();
    let lines = lines_of(rendered);
    assert(all_led(lines, none) =~= lines) by {
        assert forall|i: int| 0 <= i < lines.len() implies all_led(lines, none)[i]
            == #[trigger] lines[i] by {
            assert(none + lines[i] =~= lines[i]);
        }
    }
    let at = ls.len() - 1;
    assert(ls.last() == "---"@);
    assert(spliced(ls, at, at, lines) =~= ls.drop_last() + lines + seq!["---"@]);
}

// ── Several changes to one note ────────────────────────────────────────────

/// Changes are made one after the other, each to what the ones before it left.
pub proof fn law_changes_follow_each_other(content: Seq<char>, steps: Seq<Step>, s: Step)
    ensures
        edited(content, Seq::empty()) == Ok::<(Seq<char>, Seq<Change>), Failure>(
            (content, seq![]),
        ),
        edited(content, steps.push(s)) is Ok <==> edited(content, steps) is Ok && stepped(
            edited(content, steps)->Ok_0.0,
            s,
        ) is Ok,
        edited(content, steps.push(s)) is Ok ==> edited(content, steps.push(s))->Ok_0.0 == stepped(
            edited(content, steps)->Ok_0.0,
            s,
        )->Ok_0.0 && edited(content, steps.push(s))->Ok_0.1.len() == edited(
            content,
            steps,
        )->Ok_0.1.len() + 1,
{
    assert(steps.push(s).drop_last() =~= steps);
}

/// An update that sets one field is one change, and so is one that removes one, adds or
/// removes one tag, or changes the body once.
pub proof fn law_single_changes(u: Update, key: Seq<char>, v: Val, b: BodyStep)
    requires
        u.sets.len() == 0 && u.unsets.len() == 0 && u.adds.len() == 0 && u.removes.len() == 0
            && u.body.len() == 0,
    ensures
        steps_of(u) == Seq::<Step>::empty(),
        steps_of(Update { sets: seq![(key, v)], ..u }) == seq![Step::SetField(key, v)],
        steps_of(Update { unsets: seq![key], ..u }) == seq![Step::Unset(key)],
        steps_of(Update { adds: seq![key], ..u }) == seq![Step::AddTag(key)],
        steps_of(Update { removes: seq![key], ..u }) == seq![Step::RemoveTag(key)],
        steps_of(Update { body: seq![b], ..u }) == seq![Step::Body(b)],
{
    assert(steps_of(u) =~= Seq::<Step>::empty());
    assert(steps_of(Update { sets: seq![(key, v)], ..u }) =~= seq![Step::SetField(key, v)]);
    assert(steps_of(Update { unsets: seq![key], ..u }) =~= seq![Step::Unset(key)]);
    assert(steps_of(Update { adds: seq![key], ..u }) =~= seq![Step::AddTag(key)]);
    assert(steps_of(Update { removes: seq![key], ..u }) =~= seq![Step::RemoveTag(key)]);
    assert(steps_of(Update { body: seq![b], ..u }) =~= seq![Step::Body(b)]);
}

// ── Updates of many notes ──────────────────────────────────────────────────

/// What an update came to is kept when more notes are looked at.
proof fn lemma_writes_are_kept(
    u: Update,
    rs: Seq<Rec>,
    root: Seq<char>,
    g: Option<Graph>,
    w: Write,
)
    requires
        rs.len() > 0,
        update_all(u, rs, root, g) is Ok,
        update_all(u, rs.drop_last(), root, g) is Ok,
        update_all(u, rs.drop_last(), root, g)->Ok_0.writes.contains(w),
    ensures
        update_all(u, rs, root, g)->Ok_0.writes.contains(w),
{
    let before = update_all(u, rs.drop_last(), root, g)->Ok_0.writes;
    let now = update_all(u, rs, root, g)->Ok_0.writes;
    let k = choose|k: int| 0 <= k < before.len() && before[k] == w;
    assert(now[k] == w);
}

/// Every note that meets the condition of an update and can be changed is written, with the
/// text that the changes make of its own.
pub proof fn law_every_match_is_written(
    u: Update,
    rs: Seq<Rec>,
    root: Seq<char>,
    g: Option<Graph>,
    j: int,
    content: Seq<char>,
    text: Seq<char>,
    changes: Seq<Change>,
)
    requires
        update_all(u, rs, root, g) is Ok,
        0 <= j < rs.len(),
        holds(u.filter, rs[j], root, g),
        schema_failures(u.schema, u.folder, rs[j], updated_fields(rs[j].fields, u), root).len()
            == 0,
        rs[j].content == Some(content),
        edited(content, steps_of(u)) == Ok::<(Seq<char>, Seq<Change>), Failure>((text, changes)),
        changes.len() > 0,
    ensures
        update_all(u, rs, root, g)->Ok_0.writes.contains(
            Write { path: rs[j].path, original: content, modified: text, changes },
        ),
    decreases rs.len(),
{
    let rest = rs.drop_last();
    let w = Write { path: rs[j].path, original: content, modified: text, changes };
    if j < rest.len() {
        assert(rest[j] == rs[j]);
        law_every_match_is_written(u, rest, root, g, j, content, text, changes);
        lemma_writes_are_kept(u, rs, root, g, w);
    } else {
        let before = update_all(u, rest, root, g)->Ok_0.writes;
        let now = update_all(u, rs, root, g)->Ok_0.writes;
        assert(rs.last() == rs[j]);
        assert(now[before.len() as int] == w);
    }
}

/// A note that meets the condition of an update and would break the schema is left as it is,
/// and its faults are the failures of the update; a note that does not meet the condition is
/// passed over.
pub proof fn law_breaking_notes_are_left(
    u: Update,
    r: Rec,
    root: Seq<char>,
    g: Option<Graph>,
    p: Plan,
)
    ensures
        !holds(u.filter, r, root, g) ==> update_one(u, r, root, g, p) == Ok::<Plan, Failure>(p),
        holds(u.filter, r, root, g) && schema_failures(
            u.schema,
            u.folder,
            r,
            updated_fields(r.fields, u),
            root,
        ).len() > 0 ==> {
            let q = update_one(u, r, root, g, p);
            &&& q is Ok
            &&& q->Ok_0.writes == p.writes
            &&& q->Ok_0.changes == p.changes
            &&& q->Ok_0.errors == p.errors + schema_failures(
                u.schema,
                u.folder,
                r,
                updated_fields(r.fields, u),
                root,
            )
        },
{
}

/// A note that cannot be changed is a failure of the update with its reason, and is left as it
/// is; and one that the changes leave as it is is not written.
pub proof fn law_failed_changes_are_told(
    u: Update,
    r: Rec,
    root: Seq<char>,
    g: Option<Graph>,
    p: Plan,
    content: Seq<char>,
)
    requires
        holds(u.filter, r, root, g),
        schema_failures(u.schema, u.folder, r, updated_fields(r.fields, u), root).len() == 0,
        r.content == Some(content),
    ensures
        edited(content, steps_of(u)) is Err ==> update_one(u, r, root, g, p) is Ok && update_one(
            u,
            r,
            root,
            g,
            p,
        )->Ok_0.errors == p.errors.push((r.path, message(edited(content, steps_of(u))->Err_0)))
            && update_one(u, r, root, g, p)->Ok_0.writes == p.writes,
        steps_of(u).len() == 0 ==> update_one(u, r, root, g, p) == Ok::<Plan, Failure>(p),
{
}

/// What one of the collections finds is among what all find.
proof fn lemma_all_violations(
    file: Seq<char>,
    fields: Seq<(Seq<char>, Val)>,
    cs: Seq<CollectionRule>,
    v: Vio,
)
    ensures
        all_violations(file, fields, cs).contains(v) <==> exists|i: int|
            0 <= i < cs.len() && violations(file, fields, #[trigger] cs[i]).contains(v),
    decreases cs.len(),
{
    if cs.len() > 0 {
        let init = cs.drop_last();
        lemma_all_violations(file, fields, init, v);
        lemma_contains_add(
            all_violations(file, fields, init),
            violations(file, fields, cs.last()),
            v,
        );
        if exists|i: int|
            0 <= i < cs.len() && violations(file, fields, #[trigger] cs[i]).contains(v) {
            let i = choose|i: int|
                0 <= i < cs.len() && violations(file, fields, #[trigger] cs[i]).contains(v);
            if i < init.len() {
                assert(init[i] == cs[i]);
            }
        }
        if exists|i: int|
            0 <= i < init.len() && violations(file, fields, #[trigger] init[i]).contains(v) {
            let i = choose|i: int|
                0 <= i < init.len() && violations(file, fields, #[trigger] init[i]).contains(v);
            assert(cs[i] == init[i]);
        }
        assert(cs[cs.len() - 1] == cs.last());
    }
}

/// What is found is noticed, with its field and its message.
proof fn lemma_noticed(vs: Seq<Vio>, v: Vio)
    requires
        vs.contains(v),
    ensures
        noticed(vs).contains((v.field, v.message)),
    decreases vs.len(),
{
    let init = vs.drop_last();
    assert(vs =~= init.push(vs.last()));
    lemma_contains_push(init, vs.last(), v);
    let before = noticed(init);
    let pair = (vs.last().field, vs.last().message);
    if init.contains(v) {
        lemma_noticed(init, v);
    }
    lemma_contains_push(before, pair, (v.field, v.message));
}

/// What the collections of the schema that apply to a note find in its fields as they would be
/// are failures of it; without a schema there are none.
pub proof fn law_faults_are_failures(
    cs: Seq<(Seq<char>, CollectionRule)>,
    folder: Seq<char>,
    r: Rec,
    fields: Seq<(Seq<char>, Val)>,
    root: Seq<char>,
    c: CollectionRule,
    v: Vio,
)
    ensures
        schema_failures(None, folder, r, fields, root).len() == 0,
        applying(cs, folder, Rec { fields, ..r }, root) is Ok && applying(
            cs,
            folder,
            Rec { fields, ..r },
            root,
        )->Ok_0.contains(c) && violations(note_name(r.path), fields, c).contains(v)
            ==> schema_failures(Some(cs), folder, r, fields, root).contains(
            (r.path, "schema: "@ + v.field + " — "@ + v.message),
        ),
{
    let found = applying(cs, folder, Rec { fields, ..r }, root);
    if found is Ok && found->Ok_0.contains(c) && violations(note_name(r.path), fields, c).contains(
        v,
    ) {
        let by = by_depth(found->Ok_0);
        law_shallow_folders_come_first(found->Ok_0);
        vstd::seq_lib::to_multiset_contains(found->Ok_0, c);
        vstd::seq_lib::to_multiset_contains(by, c);
        let i = choose|i: int| 0 <= i < by.len() && by[i] == c;
        assert(violations(note_name(r.path), fields, by[i]).contains(v));
        let all = all_violations(note_name(r.path), fields, by);
        lemma_all_violations(note_name(r.path), fields, by, v);
        lemma_noticed(all, v);
        let pairs = noticed(all);
        let k = choose|k: int| 0 <= k < pairs.len() && pairs[k] == (v.field, v.message);
        let out = schema_failures(Some(cs), folder, r, fields, root);
        assert(out[k] == (r.path, "schema: "@ + v.field + " — "@ + v.message));
    }
}

/// An update of a vault is one of the notes of its folder, and fails where that is not there.
pub proof fn law_updates_of_a_vault(u: Update, p: Picture, root: Seq<char>, rs: Seq<Rec>)
    ensures
        !has_folder(p, below(root, u.folder)) ==> update_plan(u, p, root) == Err::<Plan, Failure>(
            Failure::FolderNotFound(u.folder),
        ),
        has_folder(p, below(root, u.folder)) && loaded(
            notes_in(p.files, below(root, u.folder), u.recursive),
            true,
        ) is Ok && loaded(notes_in(p.files, below(root, u.folder), u.recursive), true)->Ok_0.0 == rs
            ==> update_plan(u, p, root) == update_all(
            u,
            rs,
            root,
            if uses_links(u.filter) {
                Some(graph_of(rs))
            } else {
                None
            },
        ),
{
}

/// The fields of a note after an update are those before it with the ones that are set and
/// without those that are removed; its tags are those before it, then those that are added,
/// without the first of each that is removed.
pub proof fn law_updated_fields(
    fields: Seq<(Seq<char>, Val)>,
    u: Update,
    key: Seq<char>,
    items: Seq<Val>,
    tag: Seq<char>,
)
    requires
        u.sets.len() == 0,
        u.unsets.len() == 0,
    ensures
        u.adds.len() == 0 && u.removes.len() == 0 ==> updated_fields(fields, u) == fields,
        key != "tags"@ ==> field(updated_fields(fields, u), key) == field(fields, key),
        field(fields, "tags"@) == Some(Val::List(items)) && u.adds == seq![tag] && u.removes.len()
            == 0 ==> field(updated_fields(fields, u), "tags"@) == Some(
            Val::List(items.push(Val::Text(tag))),
        ),
        field(fields, "tags"@) is None && u.adds == seq![tag] && u.removes.len() == 0 ==> field(
            updated_fields(fields, u),
            "tags"@,
        ) == Some(Val::List(seq![Val::Text(tag)])),
        field(fields, "tags"@) == Some(Val::List(items)) && u.adds.len() == 0 && u.removes
            == seq![tag] && !items.contains(Val::Text(tag)) ==> field(
            updated_fields(fields, u),
            "tags"@,
        ) == Some(Val::List(items)),
        field(fields, "tags"@) == Some(Val::List(items)) && u.adds.len() == 0 && u.removes
            == seq![tag] && items.len() > 0 && items[0] == Val::Text(tag) ==> field(
            updated_fields(fields, u),
            "tags"@,
        ) == Some(Val::List(items.remove(0))),
{
    let tags = tags_of(fields);
    let all = tags + text_vals(u.adds);
    let left = Val::List(without_texts(all, u.removes));
    law_entry_is_set(fields, "tags"@, left, key);
    law_entry_is_set(fields, "tags"@, left, "tags"@);
    if u.adds == seq![tag] {
        assert(all =~= tags.push(Val::Text(tag)));
        assert(Seq::<Val>::empty().push(Val::Text(tag)) =~= seq![Val::Text(tag)]);
    }
    if u.adds.len() == 0 {
        assert(all =~= tags);
    }
    if u.removes == seq![tag] {
        assert(u.removes.drop_last() =~= Seq::empty());
        reveal_with_fuel(without_texts, 2);
        lemma_text_at(all, tag, 0);
        if let Some(k) = text_at(all, tag, 0) {
            assert(all.contains(all[k]));
        }
    }
}

/// The item that is a text is the first that is.
proof fn lemma_text_at(items: Seq<Val>, t: Seq<char>, from: int)
    requires
        0 <= from,
    ensures
        match text_at(items, t, from) {
            Some(i) => from <= i < items.len() && items[i] == Val::Text(t) && forall|k: int|
                from <= k < i ==> items[k] != Val::Text(t),
            None => forall|k: int| from <= k < items.len() ==> items[k] != Val::Text(t),
        },
    decreases items.len() - from,
{
    if from < items.len() && items[from] != Val::Text(t) {
        lemma_text_at(items, t, from + 1);
    }
}

/// Fields with some set have the value that was set last, and the others as they were.
pub proof fn law_sets_are_seen(
    fields: Seq<(Seq<char>, Val)>,
    sets: Seq<(Seq<char>, Val)>,
    key: Seq<char>,
    v: Val,
    other: Seq<char>,
)
    ensures
        field(with_all(fields, sets.push((key, v))), key) == Some(v),
        other != key ==> field(with_all(fields, sets.push((key, v))), other) == field(
            with_all(fields, sets),
            other,
        ),
        with_all(fields, Seq::empty()) == fields,
{
    assert(sets.push((key, v)).drop_last() =~= sets);
    law_entry_is_set(with_all(fields, sets), key, v, other);
}

// ── Deletions and moves ────────────────────────────────────────────────────

/// Every note that meets the condition of a deletion is deleted, for good or to the trash as
/// is asked.
pub proof fn law_every_match_is_deleted(
    filter: Cond,
    permanent: bool,
    rs: Seq<Rec>,
    root: Seq<char>,
    g: Option<Graph>,
    j: int,
)
    requires
        0 <= j < rs.len(),
        holds(filter, rs[j], root, g),
    ensures
        permanent ==> deletions(filter, permanent, rs, root, g).contains(
            (rs[j].path, "delete (permanent)"@),
        ),
        !permanent ==> deletions(filter, permanent, rs, root, g).contains(
            (rs[j].path, "move to .trash/"@),
        ),
    decreases rs.len(),
{
    let rest = rs.drop_last();
    let before = deletions(filter, permanent, rest, root, g);
    let now = deletions(filter, permanent, rs, root, g);
    let x = (
        rs[j].path,
        if permanent {
            "delete (permanent)"@
        } else {
            "move to .trash/"@
        },
    );
    if j < rest.len() {
        assert(rest[j] == rs[j]);
        law_every_match_is_deleted(filter, permanent, rest, root, g, j);
        let k = choose|k: int| 0 <= k < before.len() && before[k] == x;
        assert(now[k] == x);
    } else {
        assert(rs.last() == rs[j]);
        assert(now[before.len() as int] == x);
    }
}

/// Whether a path is one of those of some changes or failures.
pub open spec fn names(list: Seq<(Seq<char>, Seq<char>)>, path: Seq<char>) -> bool {
    exists|i: int| 0 <= i < list.len() && (#[trigger] list[i]).0 == path
}

/// Every note that meets the condition of a move is moved or is a failure: it is a failure
/// only if a file of its name is in the other folder, or goes there before it.
pub proof fn law_every_match_is_moved(
    filter: Cond,
    to: Seq<char>,
    to_folder: Seq<char>,
    rs: Seq<Rec>,
    p: Picture,
    root: Seq<char>,
    g: Option<Graph>,
    j: int,
    name: Seq<char>,
)
    requires
        0 <= j < rs.len(),
        holds(filter, rs[j], root, g),
        file_name(rs[j].path) == Some(name),
    ensures
        ({
            let out = move_all(filter, to, to_folder, rs, p, root, g);
            &&& names(out.changes, rs[j].path) || names(out.errors, rs[j].path)
            &&& !is_taken(p, below(to, name)) && (forall|k: int|
                0 <= k < j ==> file_name((#[trigger] rs[k]).path) != Some(name))
                ==> out.changes.contains((rs[j].path, "move to "@ + below(to, name)))
        }),
    decreases rs.len(),
{
    let rest = rs.drop_last();
    let before = move_all(filter, to, to_folder, rest, p, root, g);
    let out = move_all(filter, to, to_folder, rs, p, root, g);
    let path = rs[j].path;
    let x = (path, "move to "@ + below(to, name));
    if j < rest.len() {
        assert(rest[j] == rs[j]);
        law_every_match_is_moved(filter, to, to_folder, rest, p, root, g, j, name);
        if names(before.changes, path) {
            let k = choose|k: int|
                0 <= k < before.changes.len() && (#[trigger] before.changes[k]).0 == path;
            assert(out.changes[k].0 == path);
        }
        if names(before.errors, path) {
            let k = choose|k: int|
                0 <= k < before.errors.len() && (#[trigger] before.errors[k]).0 == path;
            assert(out.errors[k].0 == path);
        }
        if !is_taken(p, below(to, name)) && (forall|k: int|
            0 <= k < j ==> file_name((#[trigger] rs[k]).path) != Some(name)) {
            assert forall|k: int| 0 <= k < j implies file_name((#[trigger] rest[k]).path) != Some(
                name,
            ) by {
                assert(rest[k] == rs[k]);
            }
            let k = choose|k: int| 0 <= k < before.changes.len() && before.changes[k] == x;
            assert(out.changes[k] == x);
        }
    } else {
        assert(rs.last() == rs[j]);
        if is_taken(p, below(to, name)) || is_claimed(before.changes, name) {
            let k = before.errors.len() as int;
            assert(out.errors[k].0 == path);
            if forall|k: int| 0 <= k < j ==> file_name((#[trigger] rs[k]).path) != Some(name) {
                if is_claimed(before.changes, name) {
                    crate::mutation::laws::law_move_is_free(
                        filter,
                        to,
                        to_folder,
                        rest,
                        p,
                        root,
                        g,
                    );
                    let c = choose|c: int|
                        0 <= c < before.changes.len() && file_name(
                            (#[trigger] before.changes[c]).0,
                        ) == Some(name);
                    let m = choose|m: int|
                        0 <= m < rest.len() && (#[trigger] rest[m]).path == before.changes[c].0
                            && holds(filter, rest[m], root, g);
                    assert(rs[m] == rest[m]);
                }
            }
        } else {
            let k = before.changes.len() as int;
            assert(out.changes[k] == x);
        }
    }
}

// ── New notes ──────────────────────────────────────────────────────────────

/// A new note without a template and a schema lies in its folder under its name, has the
/// fields that are set, and the body that is given, or else its name as a heading.
pub proof fn law_new_notes_are_written(
    c: Creation,
    p: Picture,
    root: Seq<char>,
    now: u64,
    text: Seq<char>,
)
    requires
        c.template is None,
        c.schema is None,
        !is_taken(p, below(below(root, c.folder), c.name + ".md"@)),
        new_text(
            with_all(Seq::empty(), c.sets),
            match c.body {
                Some(b) => b,
                None => "\n# "@ + c.name + "\n"@,
            },
        ) == Ok::<Seq<char>, Failure>(text),
    ensures
        written(create_plan(c, p, root, now)) == Some(
            Write {
                path: below(below(root, c.folder), c.name + ".md"@),
                original: seq![],
                modified: text,
                changes: seq![],
            },
        ),
{
}

/// The text of a new note has its fields in YAML between fences and its body behind them.
pub proof fn law_new_texts(fields: Seq<(Seq<char>, Val)>, body: Seq<char>, yaml: Seq<char>)
    ensures
        fields.len() == 0 ==> new_text(fields, body) == Ok::<Seq<char>, Failure>(
            "---\n---\n"@ + body,
        ),
        fields.len() > 0 && value_yaml(Val::Mapping(fields)) == Ok::<Seq<char>, Seq<char>>(yaml)
            && yaml.len() > 0 ==> new_text(fields, body) == Ok::<Seq<char>, Failure>(
            "---\n"@ + yaml + "---\n"@ + body,
        ),
{
}

/// A place that is taken is never written to: the creation is a failure that names it.
pub proof fn law_taken_places_are_refused(c: Creation, p: Picture, root: Seq<char>, now: u64)
    requires
        is_taken(p, below(below(root, c.folder), c.name + ".md"@)),
    ensures
        create_plan(c, p, root, now) is Ok,
        written(create_plan(c, p, root, now)) is None,
        crate::mutation::laws::reported(create_plan(c, p, root, now)).errors.len() == 1,
{
}

/// A new note from a template has the fields and the body of the template, where no others are
/// given; a template that is not there is a failure, and nothing is written.
pub proof fn law_templates_are_used(
    c: Creation,
    p: Picture,
    root: Seq<char>,
    now: u64,
    t: Seq<char>,
    i: int,
    x: Seq<char>,
    body: Seq<char>,
    fields: Seq<(Seq<char>, Val)>,
    text: Seq<char>,
)
    requires
        c.template == Some(t),
        c.schema is None,
        !is_taken(p, below(below(root, c.folder), c.name + ".md"@)),
        is_fenceable(x),
        parsed_fields(x) == Ok::<Seq<(Seq<char>, Val)>, Failure>(fields),
        new_text(
            with_all(fields, c.sets),
            match c.body {
                Some(b) => b,
                None => body,
            },
        ) == Ok::<Seq<char>, Failure>(text),
    ensures
        file_at(p.files, below(root, t), 0) is None ==> written(create_plan(c, p, root, now)) is None,
        file_at(p.files, below(root, t), 0) == Some(i) && p.files[i].content == Ok::<
            Seq<char>,
            Seq<char>,
        >("---\n"@ + x + "\n---\n"@ + body) ==> written(create_plan(c, p, root, now)) == Some(
            Write {
                path: below(below(root, c.folder), c.name + ".md"@),
                original: seq![],
                modified: text,
                changes: seq![],
            },
        ),
{
    law_fences_hold(x, body);
}

/// A new note that a collection of the schema finds fault with is not written.
pub proof fn law_faulty_notes_are_not_made(
    c: Creation,
    given: Seq<(Seq<char>, Val)>,
    body: Seq<char>,
    root: Seq<char>,
    now: u64,
    cs: Seq<(Seq<char>, CollectionRule)>,
    rule: CollectionRule,
    v: Vio,
)
    requires
        c.schema == Some(cs),
        ({
            let path = below(below(root, c.folder), c.name + ".md"@);
            let r = Rec { path, fields: given, content: None, modified: None, created: None };
            let found = applying(cs, c.folder, r, root);
            found is Ok && found->Ok_0.contains(rule) && violations(
                c.name + ".md"@,
                with_defaults(given, by_depth(found->Ok_0), path, now).0,
                rule,
            ).contains(v)
        }),
    ensures
        create_with(c, given, body, root, now) is Ok,
        written(create_with(c, given, body, root, now)) is None,
        crate::mutation::laws::reported(create_with(c, given, body, root, now)).changes.len() == 0,
{
    let path = below(below(root, c.folder), c.name + ".md"@);
    let r = Rec { path, fields: given, content: None, modified: None, created: None };
    let found = applying(cs, c.folder, r, root)->Ok_0;
    let by = by_depth(found);
    let filled = with_defaults(given, by, path, now);
    law_shallow_folders_come_first(found);
    vstd::seq_lib::to_multiset_contains(found, rule);
    vstd::seq_lib::to_multiset_contains(by, rule);
    let i = choose|i: int| 0 <= i < by.len() && by[i] == rule;
    assert(violations(c.name + ".md"@, filled.0, by[i]).contains(v));
    let all = all_violations(c.name + ".md"@, filled.0, by);
    lemma_all_violations(c.name + ".md"@, filled.0, by, v);
    lemma_noticed(all, v);
    assert(noticed(all).len() > 0);
}

/// A field that is not given gets its default, or the value that its expression for a default
/// stands for, where its rule is the last that has one.
pub proof fn law_defaults_are_filled_in(
    given: Seq<(Seq<char>, Val)>,
    so_far: Filled,
    name: Seq<char>,
    rule: FieldRule,
    path: Seq<char>,
    now: u64,
    v: Val,
    other: Seq<char>,
)
    requires
        forall|i: int| 0 <= i < given.len() ==> (#[trigger] given[i]).0 != name,
        rule.default == Some(v) || (rule.default is None && rule.default_expr is Some && resolved(
            rule.default_expr->0,
            now,
        ) == Ok::<Val, Failure>(v)),
    ensures
        field(with_default(given, so_far, name, rule, path, now).0, name) == Some(v),
        other != name ==> field(with_default(given, so_far, name, rule, path, now).0, other)
            == field(so_far.0, other),
        with_default(given, so_far, name, rule, path, now).1 == so_far.1,
{
    lemma_key_at(given, name, 0);
    if let Some(k) = key_at(given, name, 0) {
        assert(given[k].0 == name);
    }
    law_entry_is_set(so_far.0, name, v, other);
}

/// Of several collections with a default for a field that is not given, the last counts, which is
/// that of the deepest folder; the fields that are given stay as they are.
pub proof fn law_last_default_counts(
    given: Seq<(Seq<char>, Val)>,
    cs: Seq<CollectionRule>,
    c: CollectionRule,
    name: Seq<char>,
    rule: FieldRule,
    path: Seq<char>,
    now: u64,
    v: Val,
    other: Seq<char>,
)
    requires
        forall|i: int| 0 <= i < given.len() ==> (#[trigger] given[i]).0 != name,
        c.fields == seq![(name, rule)],
        rule.default == Some(v),
    ensures
        with_defaults(given, Seq::empty(), path, now).0 == given,
        field(with_defaults(given, cs.push(c), path, now).0, name) == Some(v),
        other != name ==> field(with_defaults(given, cs.push(c), path, now).0, other) == field(
            with_defaults(given, cs, path, now).0,
            other,
        ),
{
    assert(cs.push(c).drop_last() =~= cs);
    assert(c.fields.drop_last() =~= Seq::empty());
    reveal_with_fuel(with_rules, 2);
    let before = with_defaults(given, cs, path, now);
    law_defaults_are_filled_in(given, before, name, rule, path, now, v, other);
}

// ── Renames ────────────────────────────────────────────────────────────────

/// A note is renamed only where it is there and nothing has its new name; its file then moves to
/// the new name, and that is the first change.
pub proof fn law_renames(
    folder: Seq<char>,
    from: Seq<char>,
    to: Seq<char>,
    p: Picture,
    root: Seq<char>,
)
    requires
        has_folder(p, below(root, folder)),
    ensures
        ({
            let source = below(below(root, folder), from + ".md"@);
            let dest = below(below(root, folder), to + ".md"@);
            let plan = rename_plan(folder, from, to, p, root);
            &&& !has_file(p, source) || is_taken(p, dest) ==> plan is Ok
                && plan->Ok_0.changes.len() == 0 && plan->Ok_0.errors.len() == 1
            &&& has_file(p, source) && !is_taken(p, dest) && plan is Ok
                ==> plan->Ok_0.errors.len() == 0 && plan->Ok_0.changes.len() > 0
                && plan->Ok_0.changes[0] == (source, "rename to "@ + dest)
        }),
        !has_folder(p, below(root, to)) ==> rename_plan(to, from, to, p, root) == Err::<
            Report,
            Failure,
        >(Failure::FolderNotFound(to)),
{
}

// ── What is told of changes ────────────────────────────────────────────────

/// Each change is told by what it does, to what, and what was there before.
pub proof fn law_changes_are_told(
    field: Seq<char>,
    old_value: Seq<char>,
    new_value: Seq<char>,
    tag: Seq<char>,
    a: usize,
    b: usize,
)
    ensures
        change_text(Change::SetField { field, old_value, new_value }) == "set "@ + field + " = "@
            + new_value + " (was: "@ + old_value + ")"@,
        change_text(Change::UnsetField { field, old_value }) == "unset "@ + field + " (was: "@
            + old_value + ")"@,
        change_text(Change::AddTag { tag }) == "add tag: "@ + tag,
        change_text(Change::RemoveTag { tag }) == "remove tag: "@ + tag,
        change_text(Change::SetBody { old_len: a, new_len: b }) == "set body ("@ + decimal(a as nat)
            + " → "@ + decimal(b as nat) + " bytes)"@,
        change_text(Change::AppendBody { added_len: a }) == "append body (+"@ + decimal(a as nat)
            + " bytes)"@,
        change_text(Change::ClearBody { old_len: a }) == "clear body (was "@ + decimal(a as nat)
            + " bytes)"@,
{
}

/// A new note is told by how many fields it has and their names.
pub proof fn law_new_notes_are_told(fields: Seq<(Seq<char>, Val)>, key: Seq<char>, v: Val)
    ensures
        new_description(Seq::empty()) == "create (no frontmatter fields)"@,
        new_description(seq![(key, v)]) == "create with "@ + decimal(1) + " field(s): "@ + key,
        fields.len() > 0 ==> new_description(fields.push((key, v))) == "create with "@ + decimal(
            fields.len() + 1,
        ) + " field(s): "@ + (name_list(fields) + ", "@ + key),
{
    let names = Seq::new(fields.len(), |i: int| fields[i].0);
    let more = fields.push((key, v));
    assert(Seq::new(more.len(), |i: int| more[i].0) =~= names.push(key));
    assert(Seq::new(seq![(key, v)].len(), |i: int| seq![(key, v)][i].0) =~= seq![key]);
    law_joined(names, key, ", "@);
}

/// The changes of an update are made in this order: fields are set, fields are removed, tags are
/// added, tags are removed, and the body is changed; each kind in the order that is given.
pub proof fn law_order_of_changes(u: Update, i: int)
    ensures
        ({
            let a = u.sets.len() as int;
            let b = a + u.unsets.len();
            let c = b + u.adds.len();
            let d = c + u.removes.len();
            let steps = steps_of(u);
            &&& steps.len() == d + u.body.len()
            &&& 0 <= i < u.sets.len() ==> steps[i] == Step::SetField(u.sets[i].0, u.sets[i].1)
            &&& 0 <= i < u.unsets.len() ==> steps[a + i] == Step::Unset(u.unsets[i])
            &&& 0 <= i < u.adds.len() ==> steps[b + i] == Step::AddTag(u.adds[i])
            &&& 0 <= i < u.removes.len() ==> steps[c + i] == Step::RemoveTag(u.removes[i])
            &&& 0 <= i < u.body.len() ==> steps[d + i] == Step::Body(u.body[i])
        }),
{
}

/// A file whose name is taken in the trash gets the first number behind its name that is free.
pub proof fn law_numbered_names(path: Seq<char>, name: Seq<char>, n: nat)
    requires
        file_name(path) == Some(name),
    ensures
        extension(name) is Some ==> numbered(path, n) == stem(name) + "-"@ + decimal(n) + "."@
            + extension(name)->0,
        extension(name) is None ==> numbered(path, n) == stem(name) + "-"@ + decimal(n) + "."@
            + "md"@,
{
}

/// A text with a single quote is written in double quotes, with a backslash before each double
/// quote and backslash; one without any of these, and without control characters, as it is.
pub proof fn law_double_quotes(w: Seq<char>, s: Seq<char>, c: char)
    ensures
        w.contains('\'') ==> quoted(w) == seq!['"'] + escaped(w) + seq!['"'],
        escaped(Seq::empty()) == Seq::<char>::empty(),
        escaped(s.push('"')) == escaped(s) + seq!['\\', '"'],
        escaped(s.push('\\')) == escaped(s) + seq!['\\', '\\'],
        ' ' <= c <= '~' && c != '"' && c != '\\' ==> escaped(s.push(c)) == escaped(s) + seq![c],
{
    assert(s.push('"').drop_last() =~= s);
    assert(s.push('\\').drop_last() =~= s);
    assert(s.push(c).drop_last() =~= s);
    if w.contains('\'') {
        let i = choose|i: int| 0 <= i < w.len() && w[i] == '\'';
        assert(is_special(w[i]));
    }
}

} // verus!
