//! What edits make of notes, text for text.
//!
//! The notes have a frontmatter of plain fields, each with a scalar on its line or with a list
//! of items below it.

use crate::dsl::laws::{is_plain_char, is_plain_word};
use crate::text::laws::{all_white, law_trimmed};
use crate::text::{
    char_at, has, indent, is_white, joined, lemma_char_at, lemma_find_at, starts, trimmed,
    trimmed_start,
};
use crate::writer::laws::{is_block, is_plain, law_read_back};
use crate::writer::{
    assembled, block_len, body_appended, body_edit, body_of, continues_field, extent, field_removed,
    field_set, is_bare, is_block_scalar, is_comment, is_fence, is_flow_list, is_item, is_silent,
    item_prefix, key_line, keys_lead, lead, lemma_key_line, line_ending, old_value, opens_block,
    parts, scalar_text, sets_key, spliced, tag_added, tag_line, tag_removed, tag_text, value_part,
    Change,
};
use vstd::prelude::*;

verus! {

// ── Notes ──────────────────────────────────────────────────────────────────

/// A field of a frontmatter: one with a scalar, or one with a list of items.
pub enum Entry {
    Scalar { key: Seq<char>, value: Seq<char> },
    Items { key: Seq<char>, items: Seq<Seq<char>> },
}

/// The name of a field.
pub open spec fn entry_key(e: Entry) -> Seq<char> {
    match e {
        Entry::Scalar { key, value } => key,
        Entry::Items { key, items } => key,
    }
}

/// The lines of a field.
pub open spec fn entry_lines(e: Entry) -> Seq<Seq<char>> {
    match e {
        Entry::Scalar { key, value } => seq![key + ": "@ + value],
        Entry::Items { key, items } => seq![key + ":"@] + Seq::new(
            items.len(),
            |i: int| "  - "@ + items[i],
        ),
    }
}

/// The lines of fields.
pub open spec fn all_lines(es: Seq<Entry>) -> Seq<Seq<char>>
    decreases es.len(),
{
    if es.len() == 0 {
        seq![]
    } else {
        all_lines(es.drop_last()) + entry_lines(es.last())
    }
}

/// The lines of a frontmatter with its fences.
pub open spec fn fenced_lines(es: Seq<Entry>) -> Seq<Seq<char>> {
    seq!["---"@] + all_lines(es) + seq!["---"@]
}

/// The text of a note: its frontmatter, line by line, and its body.
pub open spec fn note_text(es: Seq<Entry>, body: Seq<char>) -> Seq<char> {
    joined(fenced_lines(es), "\n"@) + "\n"@ + body
}

/// Whether a text can name a field: a plain word that starts with a letter.
pub open spec fn is_name(w: Seq<char>) -> bool {
    is_plain_word(w) && ('a' <= w[0] <= 'z' || 'A' <= w[0] <= 'Z')
}

/// Whether a field is plain: its name, its scalar and its items are plain words.
pub open spec fn is_entry(e: Entry) -> bool {
    is_name(entry_key(e)) && match e {
        Entry::Scalar { key, value } => is_plain_word(value),
        Entry::Items { key, items } => forall|i: int|
            0 <= i < items.len() ==> is_plain_word(#[trigger] items[i]),
    }
}

/// Whether fields are plain and no two have one name.
pub open spec fn are_entries(es: Seq<Entry>) -> bool {
    &&& forall|i: int| 0 <= i < es.len() ==> is_entry(#[trigger] es[i])
    &&& forall|i: int, j: int|
        0 <= i < j < es.len() ==> entry_key(#[trigger] es[i]) != entry_key(#[trigger] es[j])
}

/// Whether a field is named by none of some.
pub open spec fn is_unknown(es: Seq<Entry>, key: Seq<char>) -> bool {
    forall|i: int| 0 <= i < es.len() ==> entry_key(#[trigger] es[i]) != key
}

// ── Lines ──────────────────────────────────────────────────────────────────

/// Whether a line is one of a plain field: the line of a name, or an item.
spec fn is_key_line(l: Seq<char>) -> bool {
    &&& l.len() > 0
    &&& 'a' <= l[0] <= 'z' || 'A' <= l[0] <= 'Z'
    &&& !is_white(l.last())
    &&& !l.contains('\n') && !l.contains('\r')
}

/// Whether a line is an item of a plain field.
spec fn is_item_line(l: Seq<char>) -> bool {
    exists|x: Seq<char>| is_plain_word(x) && l == #[trigger] ("  - "@ + x)
}

/// A text of plain characters and some others holds no line ending.
proof fn lemma_no_ending(l: Seq<char>)
    requires
        forall|i: int|
            0 <= i < l.len() ==> is_plain_char(#[trigger] l[i]) || l[i] == ' ' || l[i] == ':',
    ensures
        !l.contains('\n'),
        !l.contains('\r'),
{
    if l.contains('\n') {
        let i = choose|i: int| 0 <= i < l.len() && l[i] == '\n';
        assert(is_plain_char(l[i]) || l[i] == ' ' || l[i] == ':');
    }
    if l.contains('\r') {
        let i = choose|i: int| 0 <= i < l.len() && l[i] == '\r';
        assert(is_plain_char(l[i]) || l[i] == ' ' || l[i] == ':');
    }
}

/// A text that starts and ends with something else than white space is trimmed to itself.
proof fn lemma_trim_same(l: Seq<char>)
    requires
        l.len() > 0,
        !is_white(l[0]),
        !is_white(l.last()),
    ensures
        trimmed(l) == l,
        trimmed_start(l) == l,
{
    let none = Seq::<char>::empty();
    law_trimmed(none, l, none);
    assert(none + l + none =~= l);
}

/// The line of a scalar.
proof fn lemma_scalar_line(key: Seq<char>, value: Seq<char>)
    requires
        is_name(key),
        is_plain_word(value),
    ensures
        is_key_line(key + ": "@ + value),
        value_part(key + ": "@ + value) == Some(value),
{
    reveal_strlit(": ");
    let l = key + ": "@ + value;
    assert(l[0] == key[0]);
    assert(l.last() == value.last());
    assert(is_plain_char(value[value.len() - 1]));
    assert forall|i: int| 0 <= i < l.len() implies is_plain_char(#[trigger] l[i]) || l[i] == ' '
        || l[i] == ':' by {
        if i < key.len() {
            assert(l[i] == key[i]);
        } else if i >= key.len() + 2 {
            assert(l[i] == value[i - key.len() - 2]);
        }
    }
    lemma_no_ending(l);
    lemma_colon(key, seq![' '] + value);
    assert(l =~= key + seq![':'] + (seq![' '] + value));
    let b = seq![' '];
    let none = Seq::<char>::empty();
    assert(is_plain_char(value[0]));
    assert(all_white(b));
    law_trimmed(b, value, none);
    assert(b + value + none =~= b + value);
}

/// What stands behind the first colon of a line.
proof fn lemma_colon(key: Seq<char>, rest: Seq<char>)
    requires
        is_plain_word(key),
    ensures
        value_part(key + seq![':'] + rest) == Some(trimmed(rest)),
{
    let l = key + seq![':'] + rest;
    lemma_char_at(l, ':', 0);
    assert(l[key.len() as int] == ':');
    let p = char_at(l, ':', 0)->0;
    if p < key.len() {
        assert(l[p] == key[p]);
        assert(is_plain_char(key[p]));
    }
    assert(l.skip(p + 1) =~= rest);
}

/// The line of a name before items.
proof fn lemma_head_line(key: Seq<char>)
    requires
        is_name(key),
    ensures
        is_key_line(key + ":"@),
        value_part(key + ":"@) == Some(Seq::<char>::empty()),
{
    reveal_strlit(":");
    let l = key + ":"@;
    assert(l[0] == key[0]);
    assert(l.last() == ':');
    assert forall|i: int| 0 <= i < l.len() implies is_plain_char(#[trigger] l[i]) || l[i] == ' '
        || l[i] == ':' by {
        if i < key.len() {
            assert(l[i] == key[i]);
        }
    }
    lemma_no_ending(l);
    let none = Seq::<char>::empty();
    lemma_colon(key, none);
    assert(l =~= key + seq![':'] + none);
    law_trimmed(none, none, none);
    assert(none + none + none =~= none);
}

/// The line of a name does not go on with a field, and says something.
proof fn lemma_key_line_is(l: Seq<char>)
    requires
        is_key_line(l),
    ensures
        !is_fence(l),
        !is_silent(l),
        !is_comment(l),
        lead(l) == Seq::<char>::empty(),
        indent(l) == 0,
        !continues_field(l, 0),
{
    reveal_strlit("---");
    assert(!is_white(l[0]));
    lemma_trim_same(l);
    assert("---"@[0] == '-');
    assert(lead(l) =~= Seq::<char>::empty());
}

/// An item goes on with a field.
proof fn lemma_item_line_is(x: Seq<char>)
    requires
        is_plain_word(x),
    ensures
        ({
            let l = "  - "@ + x;
            &&& trimmed(l) == "- "@ + x
            &&& !is_fence(l)
            &&& !is_silent(l)
            &&& indent(l) == 2
            &&& continues_field(l, 0)
            &&& is_item(l)
            &&& tag_text(l) == x
            &&& char_at(l, '-', 0) == Some(2int)
            &&& !l.contains('\n') && !l.contains('\r')
        }),
{
    reveal_strlit("---");
    reveal_strlit("  - ");
    reveal_strlit("- ");
    let l = "  - "@ + x;
    let t = "- "@ + x;
    let b = seq![' ', ' '];
    let none = Seq::<char>::empty();
    assert(is_plain_char(x[0]));
    assert(is_plain_char(x[x.len() - 1]));
    assert(t.last() == x.last());
    assert(t[0] == '-' && t[1] == ' ');
    assert(all_white(b));
    law_trimmed(b, t, none);
    assert(b + t + none =~= l);
    assert("---"@[1] == '-');
    reveal_with_fuel(indent, 3);
    assert(l[0] == ' ' && l[1] == ' ' && l[2] == '-');
    assert(l.drop_first()[0] == ' ');
    assert(l.drop_first().drop_first()[0] == '-');
    assert(starts(t, "- "@)) by {
        assert(t.subrange(0, 2) =~= "- "@);
    }
    assert(t.skip(2) =~= x);
    reveal_with_fuel(char_at, 4);
    assert forall|i: int| 0 <= i < l.len() implies is_plain_char(#[trigger] l[i]) || l[i] == ' '
        || l[i] == ':' by {
        if i >= 4 {
            assert(l[i] == x[i - 4]);
        }
    }
    lemma_no_ending(l);
}

/// Whether a line is one of a plain field.
spec fn is_good_line(l: Seq<char>) -> bool {
    is_key_line(l) || is_item_line(l)
}

/// The lines of a plain field.
proof fn lemma_entry_lines(e: Entry)
    requires
        is_entry(e),
    ensures
        entry_lines(e).len() > 0,
        is_key_line(entry_lines(e)[0]),
        forall|j: int| 0 <= j < entry_lines(e).len() ==> is_good_line(#[trigger] entry_lines(e)[j]),
        forall|j: int|
            1 <= j < entry_lines(e).len() ==> is_item_line(#[trigger] entry_lines(e)[j]),
{
    match e {
        Entry::Scalar { key, value } => {
            lemma_scalar_line(key, value);
        },
        Entry::Items { key, items } => {
            lemma_head_line(key);
            assert forall|j: int| 1 <= j < entry_lines(e).len() implies is_item_line(
                #[trigger] entry_lines(e)[j],
            ) by {
                assert(is_plain_word(items[j - 1]));
                assert(entry_lines(e)[j] == "  - "@ + items[j - 1]);
            }
        },
    }
}

/// The lines of plain fields.
proof fn lemma_all_lines(es: Seq<Entry>)
    requires
        forall|i: int| 0 <= i < es.len() ==> is_entry(#[trigger] es[i]),
    ensures
        forall|p: int| 0 <= p < all_lines(es).len() ==> is_good_line(#[trigger] all_lines(es)[p]),
        es.len() > 0 ==> all_lines(es).len() > 0 && all_lines(es)[0] == entry_lines(es[0])[0],
    decreases es.len(),
{
    if es.len() > 0 {
        let init = es.drop_last();
        assert forall|i: int| 0 <= i < init.len() implies is_entry(#[trigger] init[i]) by {
            assert(init[i] == es[i]);
        }
        lemma_all_lines(init);
        assert(is_entry(es[es.len() - 1]));
        lemma_entry_lines(es.last());
        let a = all_lines(init);
        let b = entry_lines(es.last());
        let all = all_lines(es);
        assert forall|p: int| 0 <= p < all.len() implies is_good_line(#[trigger] all[p]) by {
            if p < a.len() {
                assert(all[p] == a[p]);
            } else {
                assert(all[p] == b[p - a.len()]);
            }
        }
        if init.len() > 0 {
            assert(all[0] == a[0]);
            assert(init[0] == es[0]);
        } else {
            assert(all_lines(init).len() == 0);
            assert(all[0] == b[0]);
        }
    }
}

/// The lines of fields that stand one behind the other.
proof fn lemma_lines_of_two(a: Seq<Entry>, b: Seq<Entry>)
    ensures
        all_lines(a + b) == all_lines(a) + all_lines(b),
    decreases b.len(),
{
    if b.len() == 0 {
        assert(a + b =~= a);
        assert(all_lines(a) + all_lines(b) =~= all_lines(a));
    } else {
        lemma_lines_of_two(a, b.drop_last());
        assert((a + b).drop_last() =~= a + b.drop_last());
        assert(all_lines(a + b) =~= all_lines(a) + all_lines(b));
    }
}

/// The lines of one field.
proof fn lemma_lines_of_one(e: Entry)
    ensures
        all_lines(seq![e]) == entry_lines(e),
{
    assert(seq![e].drop_last() =~= Seq::<Entry>::empty());
    assert(all_lines(seq![e].drop_last()) =~= Seq::<Seq<char>>::empty());
    assert(all_lines(seq![e]) =~= entry_lines(e));
}

/// The lines before a field, those of the field, and those behind it.
proof fn lemma_lines_around(es: Seq<Entry>, i: int)
    requires
        0 <= i < es.len(),
    ensures
        all_lines(es) == all_lines(es.take(i)) + entry_lines(es[i]) + all_lines(es.skip(i + 1)),
{
    lemma_lines_of_two(es.take(i) + seq![es[i]], es.skip(i + 1));
    lemma_lines_of_two(es.take(i), seq![es[i]]);
    lemma_lines_of_one(es[i]);
    assert(es =~= es.take(i) + seq![es[i]] + es.skip(i + 1));
}

// ── Taking notes apart ─────────────────────────────────────────────────────

/// A fence is a fence.
proof fn lemma_fence()
    ensures
        is_fence("---"@),
        !("---"@.contains('\n')),
        !("---"@.contains('\r')),
        !is_silent("---"@),
{
    reveal_strlit("---");
    lemma_trim_same("---"@);
    if "---"@.contains('\n') {
        let i = choose|i: int| 0 <= i < "---"@.len() && "---"@[i] == '\n';
        assert("---"@[i] == '-');
    }
    if "---"@.contains('\r') {
        let i = choose|i: int| 0 <= i < "---"@.len() && "---"@[i] == '\r';
        assert("---"@[i] == '-');
    }
}

/// A good line is no fence and holds no line ending.
proof fn lemma_good_line(l: Seq<char>)
    requires
        is_good_line(l),
    ensures
        !is_fence(l),
        !l.contains('\n'),
        !l.contains('\r'),
{
    if is_key_line(l) {
        lemma_key_line_is(l);
    } else {
        let x = choose|x: Seq<char>| is_plain_word(x) && l == #[trigger] ("  - "@ + x);
        lemma_item_line_is(x);
    }
}

/// Nothing has the line ending of the simple kind.
proof fn lemma_nothing_ends()
    ensures
        line_ending(Seq::<char>::empty()) == "\n"@,
{
    reveal_strlit("\r\n");
    let none = Seq::<char>::empty();
    lemma_find_at(crate::writer::head_of(none), "\r\n"@, 0);
    assert(crate::writer::head_of(none).len() == 0);
}

/// Joined lines without a carriage return hold none.
proof fn lemma_joined_plain(ls: Seq<Seq<char>>)
    requires
        forall|i: int| 0 <= i < ls.len() ==> !(#[trigger] ls[i]).contains('\r'),
    ensures
        !joined(ls, "\n"@).contains('\r'),
    decreases ls.len(),
{
    reveal_strlit("\n");
    let all = joined(ls, "\n"@);
    if all.contains('\r') {
        let k = choose|k: int| 0 <= k < all.len() && all[k] == '\r';
        if ls.len() == 1 {
            assert(ls[0].contains('\r'));
        } else {
            let init = ls.drop_last();
            assert forall|i: int| 0 <= i < init.len() implies !(#[trigger] init[i]).contains(
                '\r',
            ) by {
                assert(init[i] == ls[i]);
            }
            lemma_joined_plain(init);
            let a = joined(init, "\n"@);
            let last = ls.len() - 1;
            if k < a.len() {
                assert(a[k] == '\r');
                assert(a.contains('\r'));
            } else if k > a.len() {
                assert(ls[last][k - a.len() - 1] == '\r');
                assert(ls[last].contains('\r'));
            }
        }
    }
}

/// A note of plain fields is taken apart into its lines and its body.
proof fn lemma_note_parts(es: Seq<Entry>, body: Seq<char>)
    requires
        are_entries(es),
    ensures
        parts(note_text(es, body)) == Some((fenced_lines(es), body)),
        opens_block(note_text(es, body)),
        line_ending(note_text(es, body)) == "\n"@,
        body_of(note_text(es, body)) == body,
{
    reveal_strlit("\n");
    reveal_strlit("\r\n");
    let ls = fenced_lines(es);
    let none = Seq::<char>::empty();
    let text = note_text(es, body);
    lemma_nothing_ends();
    lemma_fence();
    lemma_all_lines(es);
    assert forall|k: int| 0 <= k < ls.len() implies is_plain(#[trigger] ls[k], "\n"@)
        && !ls[k].contains('\r') && (1 <= k < ls.len() - 1 ==> !is_fence(ls[k])) by {
        if 1 <= k < ls.len() - 1 {
            assert(ls[k] == all_lines(es)[k - 1]);
            lemma_good_line(ls[k]);
        }
        if ls[k].len() > 0 && ls[k].last() == '\r' {
            assert(ls[k].contains('\r'));
        }
    }
    assert(is_block(ls, "\n"@));
    law_read_back(ls, body, none);
    assert(assembled(ls, body, none) == text);
    let head = joined(ls, "\n"@) + "\n"@;
    assert(text =~= head + body);
    assert(text.take(text.len() - body.len()) =~= head);
    lemma_joined_plain(ls);
    lemma_find_at(head, "\r\n"@, 0);
    if has(head, "\r\n"@) {
        let i = crate::text::find_at(head, "\r\n"@, 0)->0;
        assert(head.subrange(i, i + 2)[0] == head[i]);
        assert("\r\n"@[0] == '\r');
        if i < joined(ls, "\n"@).len() {
            assert(joined(ls, "\n"@)[i] == '\r');
            assert(joined(ls, "\n"@).contains('\r'));
        }
    }
}

/// A note of plain fields is taken apart into its lines, fences included, and its body.
pub proof fn law_note_is_taken_apart(es: Seq<Entry>, body: Seq<char>)
    requires
        are_entries(es),
    ensures
        parts(note_text(es, body)) == Some((fenced_lines(es), body)),
        body_of(note_text(es, body)) == body,
        line_ending(note_text(es, body)) == "\n"@,
{
    lemma_note_parts(es, body);
}

/// The keys of a frontmatter of plain fields are not indented.
pub proof fn lemma_note_lead(es: Seq<Entry>)
    requires
        are_entries(es),
    ensures
        keys_lead(fenced_lines(es), 1) == Seq::<char>::empty(),
{
    let ls = fenced_lines(es);
    lemma_fence();
    if es.len() > 0 {
        lemma_all_lines(es);
        assert(is_entry(es[0]));
        lemma_entry_lines(es[0]);
        assert(ls[1] == all_lines(es)[0]);
        lemma_key_line_is(ls[1]);
    } else {
        assert(all_lines(es).len() == 0);
        assert(ls[1] == "---"@);
        reveal_with_fuel(keys_lead, 3);
    }
}

/// The line of a name sets that name and no other.
proof fn lemma_sets(name: Seq<char>, rest: Seq<char>, key: Seq<char>)
    requires
        is_name(name),
        is_name(key),
        rest.len() > 0 ==> rest[0] == ' ',
    ensures
        sets_key(name + seq![':'] + rest, key, Seq::empty()) == (name == key),
{
    reveal_strlit(":");
    reveal_strlit(" :");
    let none = Seq::<char>::empty();
    let l = name + seq![':'] + rest;
    let tight = none + key + ":"@;
    let wide = none + key + " :"@;
    assert(tight =~= key + seq![':']);
    assert(wide =~= key + seq![' ', ':']);
    if name == key {
        assert(l.subrange(0, tight.len() as int) =~= tight);
        assert(starts(l, tight));
        assert(l.len() > tight.len() ==> l[tight.len() as int] == rest[0]);
    } else {
        let n = key.len() as int;
        let m = name.len() as int;
        if starts(l, tight) {
            assert(l.subrange(0, tight.len() as int)[n] == l[n]);
            assert(l[n] == ':');
            if n < m {
                assert(is_plain_char(name[n]));
            } else if m < n {
                assert(l.subrange(0, tight.len() as int)[m] == l[m]);
                assert(is_plain_char(key[m]));
            } else {
                assert forall|k: int| 0 <= k < n implies name[k] == key[k] by {
                    assert(l.subrange(0, tight.len() as int)[k] == l[k]);
                }
                assert(name =~= key);
            }
        }
        if starts(l, wide) {
            assert(l.subrange(0, wide.len() as int)[n] == l[n]);
            assert(l[n] == ' ');
            if n < m {
                assert(is_plain_char(name[n]));
            } else if m < n {
                assert(l.subrange(0, wide.len() as int)[m] == l[m]);
                assert(is_plain_char(key[m]));
            }
        }
    }
    if name == key && starts(l, wide) {
        assert(l.subrange(0, wide.len() as int)[key.len() as int] == l[key.len() as int]);
    }
}

/// Which line of a field sets a name.
proof fn lemma_entry_sets(e: Entry, key: Seq<char>)
    requires
        is_entry(e),
        is_name(key),
    ensures
        sets_key(entry_lines(e)[0], key, Seq::empty()) == (entry_key(e) == key),
        forall|j: int|
            1 <= j < entry_lines(e).len() ==> !sets_key(
                #[trigger] entry_lines(e)[j],
                key,
                Seq::empty(),
            ),
{
    reveal_strlit(":");
    reveal_strlit(": ");
    reveal_strlit("  - ");
    reveal_strlit(" :");
    let none = Seq::<char>::empty();
    match e {
        Entry::Scalar { key: name, value } => {
            lemma_sets(name, seq![' '] + value, key);
            assert(name + ": "@ + value =~= name + seq![':'] + (seq![' '] + value));
        },
        Entry::Items { key: name, items } => {
            lemma_sets(name, none, key);
            assert(name + ":"@ =~= name + seq![':'] + none);
            assert forall|j: int| 1 <= j < entry_lines(e).len() implies !sets_key(
                #[trigger] entry_lines(e)[j],
                key,
                none,
            ) by {
                let l = entry_lines(e)[j];
                assert(l == "  - "@ + items[j - 1]);
                assert(l[0] == ' ');
                let tight = none + key + ":"@;
                let wide = none + key + " :"@;
                if starts(l, tight) {
                    assert(l.subrange(0, tight.len() as int)[0] == l[0]);
                    assert(tight[0] == key[0]);
                }
                if starts(l, wide) {
                    assert(l.subrange(0, wide.len() as int)[0] == l[0]);
                    assert(wide[0] == key[0]);
                }
            }
        },
    }
}

/// Fields that are named otherwise set no name.
proof fn lemma_unknown_sets(es: Seq<Entry>, key: Seq<char>)
    requires
        forall|i: int| 0 <= i < es.len() ==> is_entry(#[trigger] es[i]),
        is_name(key),
        is_unknown(es, key),
    ensures
        forall|p: int|
            0 <= p < all_lines(es).len() ==> !sets_key(
                #[trigger] all_lines(es)[p],
                key,
                Seq::empty(),
            ),
    decreases es.len(),
{
    if es.len() > 0 {
        let init = es.drop_last();
        assert forall|i: int| 0 <= i < init.len() implies is_entry(#[trigger] init[i])
            && entry_key(init[i]) != key by {
            assert(init[i] == es[i]);
        }
        lemma_unknown_sets(init, key);
        assert(is_entry(es[es.len() - 1]) && entry_key(es[es.len() - 1]) != key);
        lemma_entry_sets(es.last(), key);
        let a = all_lines(init);
        let b = entry_lines(es.last());
        let all = all_lines(es);
        assert forall|p: int| 0 <= p < all.len() implies !sets_key(
            #[trigger] all[p],
            key,
            Seq::empty(),
        ) by {
            if p < a.len() {
                assert(all[p] == a[p]);
            } else {
                assert(all[p] == b[p - a.len()]);
            }
        }
    }
}

/// Where the lines of a field start.
pub open spec fn start_of(es: Seq<Entry>, i: int) -> int {
    1 + all_lines(es.take(i)).len() as int
}

/// The parts of a frontmatter around a field.
proof fn lemma_lines_at(es: Seq<Entry>, i: int)
    requires
        are_entries(es),
        0 <= i < es.len(),
    ensures
        ({
            let ls = fenced_lines(es);
            let k = start_of(es, i);
            let n = entry_lines(es[i]).len();
            &&& n > 0
            &&& k + n < ls.len()
            &&& ls.take(k) == seq!["---"@] + all_lines(es.take(i))
            &&& ls.skip(k + n) == all_lines(es.skip(i + 1)) + seq!["---"@]
            &&& forall|j: int| 0 <= j < n ==> #[trigger] ls[k + j] == entry_lines(es[i])[j]
            &&& ls[k + n] == "---"@ || is_key_line(ls[k + n])
        }),
{
    let ls = fenced_lines(es);
    let k = start_of(es, i);
    let mid = entry_lines(es[i]);
    let n = mid.len() as int;
    let a = all_lines(es.take(i));
    let b = all_lines(es.skip(i + 1));
    lemma_lines_around(es, i);
    assert(is_entry(es[i]));
    lemma_entry_lines(es[i]);
    assert(ls =~= seq!["---"@] + a + mid + b + seq!["---"@]);
    assert(ls.take(k) =~= seq!["---"@] + a);
    assert(ls.skip(k + n) =~= b + seq!["---"@]);
    let rest = es.skip(i + 1);
    if rest.len() > 0 {
        assert forall|j: int| 0 <= j < rest.len() implies is_entry(#[trigger] rest[j]) by {
            assert(rest[j] == es[j + i + 1]);
        }
        lemma_all_lines(rest);
        lemma_entry_lines(rest[0]);
        assert(ls[k + n] == b[0]);
    } else {
        assert(all_lines(rest).len() == 0);
        assert(ls[k + n] == "---"@);
    }
}

/// The name of a field is found on its first line, and one that no field has nowhere.
pub proof fn lemma_found(es: Seq<Entry>, key: Seq<char>, i: int)
    requires
        are_entries(es),
        is_name(key),
    ensures
        0 <= i < es.len() && entry_key(es[i]) == key ==> key_line(fenced_lines(es), key, 1) == Some(
            start_of(es, i),
        ),
        is_unknown(es, key) ==> key_line(fenced_lines(es), key, 1) is None,
{
    let ls = fenced_lines(es);
    let none = Seq::<char>::empty();
    lemma_note_lead(es);
    lemma_key_line(ls, key, 1);
    lemma_fence();
    if 0 <= i < es.len() && entry_key(es[i]) == key {
        let k = start_of(es, i);
        let before = es.take(i);
        lemma_lines_at(es, i);
        assert forall|j: int| 0 <= j < before.len() implies is_entry(#[trigger] before[j])
            && entry_key(before[j]) != key by {
            assert(before[j] == es[j]);
        }
        lemma_unknown_sets(before, key);
        assert(is_entry(es[i]));
        lemma_entry_sets(es[i], key);
        lemma_entry_lines(es[i]);
        assert(ls[k + 0] == entry_lines(es[i])[0]);
        lemma_good_line(ls[k]);
        assert(sets_key(ls[k], key, none));
        let found = key_line(ls, key, 1);
        assert(found is Some);
        let p = found->0;
        if p < k {
            assert(ls.take(k)[p] == ls[p]);
            assert(ls[p] == all_lines(before)[p - 1]);
        }
        assert(p == k);
    }
    if is_unknown(es, key) {
        lemma_unknown_sets(es, key);
        if let Some(p) = key_line(ls, key, 1) {
            if p < ls.len() - 1 {
                assert(ls[p] == all_lines(es)[p - 1]);
            } else {
                assert(ls[p] == "---"@);
            }
        }
    }
}

/// Items make up the field that they stand below.
proof fn lemma_items_go_on(ls: Seq<Seq<char>>, from: int, n: nat, bare: bool)
    requires
        0 <= from,
        from + n < ls.len(),
        forall|p: int| from <= p < from + n ==> is_item_line(#[trigger] ls[p]),
        ls[from + n] == "---"@ || is_key_line(ls[from + n]),
    ensures
        block_len(ls, from, 0, bare) == n,
    decreases n,
{
    if n == 0 {
        if ls[from] == "---"@ {
            lemma_fence();
        } else {
            lemma_key_line_is(ls[from]);
        }
    } else {
        let l = ls[from];
        assert(is_item_line(l));
        let x = choose|x: Seq<char>| is_plain_word(x) && l == #[trigger] ("  - "@ + x);
        lemma_item_line_is(x);
        lemma_items_go_on(ls, from + 1, (n - 1) as nat, bare);
    }
}

/// A field takes its lines, and can be rewritten.
pub proof fn lemma_takes(es: Seq<Entry>, i: int)
    requires
        are_entries(es),
        0 <= i < es.len(),
    ensures
        extent(fenced_lines(es), start_of(es, i)) == entry_lines(es[i]).len(),
        !is_flow_list(fenced_lines(es)[start_of(es, i)]),
        !is_block_scalar(fenced_lines(es)[start_of(es, i)]),
        es[i] is Scalar ==> old_value(fenced_lines(es), start_of(es, i)) == es[i]->value
            && scalar_text(fenced_lines(es)[start_of(es, i)]) == es[i]->value,
{
    let ls = fenced_lines(es);
    let k = start_of(es, i);
    let n = entry_lines(es[i]).len() as int;
    lemma_lines_at(es, i);
    assert(is_entry(es[i]));
    lemma_entry_lines(es[i]);
    assert(ls[k + 0] == entry_lines(es[i])[0]);
    lemma_key_line_is(ls[k]);
    match es[i] {
        Entry::Scalar { key, value } => {
            lemma_scalar_line(key, value);
            assert(is_plain_char(value[0]));
        },
        Entry::Items { key, items } => {
            lemma_head_line(key);
        },
    }
    assert forall|p: int| k + 1 <= p < k + n implies is_item_line(#[trigger] ls[p]) by {
        assert(ls[k + (p - k)] == entry_lines(es[i])[p - k]);
    }
    lemma_items_go_on(ls, k + 1, (n - 1) as nat, is_bare(ls[k]));
}

// ── Setting and removing fields ────────────────────────────────────────────

/// Setting a field of a note gives the note with that field's lines replaced by one line with
/// its name and the text, where there is such a field; all else stays as it is, and the old
/// scalar and the new one are reported.
pub proof fn law_field_is_replaced(
    es: Seq<Entry>,
    body: Seq<char>,
    i: int,
    text: Seq<char>,
    shown: Seq<char>,
)
    requires
        are_entries(es),
        0 <= i < es.len(),
    ensures
        ({
            let key = entry_key(es[i]);
            let edit = field_set(note_text(es, body), key, text, shown);
            &&& edit is Ok
            &&& edit->Ok_0.0 == note_text(es.update(i, Entry::Scalar { key, value: text }), body)
            &&& es[i] is Scalar ==> edit->Ok_0.1 == (Change::SetField {
                field: key,
                old_value: es[i]->value,
                new_value: shown,
            })
        }),
{
    let key = entry_key(es[i]);
    let ls = fenced_lines(es);
    let k = start_of(es, i);
    let n = entry_lines(es[i]).len() as int;
    let e = Entry::Scalar { key, value: text };
    let none = Seq::<char>::empty();
    assert(is_entry(es[i]));
    lemma_note_parts(es, body);
    lemma_note_lead(es);
    lemma_found(es, key, i);
    lemma_takes(es, i);
    lemma_lines_at(es, i);
    let line = none + (key + ": "@ + text);
    assert(line =~= key + ": "@ + text);
    let new = es.update(i, e);
    lemma_lines_around(new, i);
    assert(new.take(i) =~= es.take(i));
    assert(new.skip(i + 1) =~= es.skip(i + 1));
    assert(spliced(ls, k, k + n, seq![line]) =~= fenced_lines(new));
}

/// Setting a field that a note does not have gives the note with one more line at the end of
/// its frontmatter; all else stays as it is.
pub proof fn law_field_is_appended(
    es: Seq<Entry>,
    body: Seq<char>,
    key: Seq<char>,
    text: Seq<char>,
    shown: Seq<char>,
)
    requires
        are_entries(es),
        is_name(key),
        is_unknown(es, key),
    ensures
        field_set(note_text(es, body), key, text, shown) == Ok::<
            (Seq<char>, Change),
            crate::error::Failure,
        >(
            (
                note_text(es.push(Entry::Scalar { key, value: text }), body),
                Change::SetField { field: key, old_value: seq![], new_value: shown },
            ),
        ),
{
    let ls = fenced_lines(es);
    let e = Entry::Scalar { key, value: text };
    let none = Seq::<char>::empty();
    let at = ls.len() - 1;
    lemma_note_parts(es, body);
    lemma_note_lead(es);
    lemma_found(es, key, -1);
    let line = none + (key + ": "@ + text);
    assert(line =~= key + ": "@ + text);
    assert(es.push(e).drop_last() =~= es);
    assert(spliced(ls, at, at, seq![line]) =~= fenced_lines(es.push(e)));
}

/// Removing a field of a note gives the note without the lines of that field; removing one
/// that it does not have fails.
pub proof fn law_field_is_dropped(es: Seq<Entry>, body: Seq<char>, key: Seq<char>, i: int)
    requires
        are_entries(es),
        is_name(key),
    ensures
        0 <= i < es.len() && entry_key(es[i]) == key ==> {
            let edit = field_removed(parts(note_text(es, body)), note_text(es, body), key);
            &&& edit is Ok
            &&& edit->Ok_0.0 == note_text(es.remove(i), body)
            &&& es[i] is Scalar ==> edit->Ok_0.1 == (Change::UnsetField {
                field: key,
                old_value: es[i]->value,
            })
        },
        is_unknown(es, key) ==> field_removed(
            parts(note_text(es, body)),
            note_text(es, body),
            key,
        ) is Err,
{
    lemma_note_parts(es, body);
    lemma_found(es, key, i);
    if 0 <= i < es.len() && entry_key(es[i]) == key {
        let ls = fenced_lines(es);
        let k = start_of(es, i);
        let n = entry_lines(es[i]).len() as int;
        lemma_takes(es, i);
        lemma_lines_at(es, i);
        lemma_lines_of_two(es.take(i), es.skip(i + 1));
        assert(es.remove(i) =~= es.take(i) + es.skip(i + 1));
        assert(spliced(ls, k, k + n, seq![]) =~= fenced_lines(es.remove(i)));
    }
}

// ── Tags ───────────────────────────────────────────────────────────────────

/// The lines of a list with other items.
proof fn lemma_items_replaced(
    es: Seq<Entry>,
    i: int,
    key: Seq<char>,
    items: Seq<Seq<char>>,
    new: Seq<Seq<char>>,
)
    requires
        are_entries(es),
        0 <= i < es.len(),
        es[i] == (Entry::Items { key, items }),
    ensures
        ({
            let ls = fenced_lines(es);
            let k = start_of(es, i);
            let n = entry_lines(es[i]).len() as int;
            fenced_lines(es.update(i, Entry::Items { key, items: new })) == ls.take(k)
                + entry_lines(Entry::Items { key, items: new }) + ls.skip(k + n)
        }),
{
    let e = Entry::Items { key, items: new };
    let after = es.update(i, e);
    lemma_lines_at(es, i);
    lemma_lines_around(after, i);
    assert(after.take(i) =~= es.take(i));
    assert(after.skip(i + 1) =~= es.skip(i + 1));
    let ls = fenced_lines(es);
    let k = start_of(es, i);
    let n = entry_lines(es[i]).len() as int;
    assert(fenced_lines(after) =~= ls.take(k) + entry_lines(e) + ls.skip(k + n));
}

/// Adding a tag to a note gives the note with that tag as the last of its tags; all else stays
/// as it is.
pub proof fn law_tag_is_appended(
    es: Seq<Entry>,
    body: Seq<char>,
    i: int,
    items: Seq<Seq<char>>,
    tag: Seq<char>,
)
    requires
        are_entries(es),
        0 <= i < es.len(),
        es[i] == (Entry::Items { key: "tags"@, items }),
    ensures
        tag_added(parts(note_text(es, body)), note_text(es, body), tag) == Ok::<
            (Seq<char>, Change),
            crate::error::Failure,
        >(
            (
                note_text(
                    es.update(i, Entry::Items { key: "tags"@, items: items.push(tag) }),
                    body,
                ),
                Change::AddTag { tag },
            ),
        ),
{
    let key = "tags"@;
    let ls = fenced_lines(es);
    let k = start_of(es, i);
    let n = entry_lines(es[i]).len() as int;
    assert(is_entry(es[i]));
    lemma_note_parts(es, body);
    lemma_note_lead(es);
    lemma_found(es, key, i);
    lemma_takes(es, i);
    lemma_lines_at(es, i);
    let none = Seq::<char>::empty();
    assert(item_prefix(ls, k + 1, k + n) == "  - "@) by {
        if items.len() > 0 {
            assert(ls[k + 1] == entry_lines(es[i])[1]);
            assert(entry_lines(es[i])[1] == "  - "@ + items[0]);
            assert(is_plain_word(items[0]));
            lemma_item_line_is(items[0]);
            reveal_strlit("  - ");
            reveal_strlit("- ");
            assert(ls[k + 1].take(2) + "- "@ =~= "  - "@);
        } else {
            assert(none + "  - "@ =~= "  - "@);
        }
    }
    lemma_items_replaced(es, i, key, items, items.push(tag));
    let new = entry_lines(Entry::Items { key, items: items.push(tag) });
    assert(new =~= entry_lines(es[i]) + seq!["  - "@ + tag]);
    assert(ls.take(k) + entry_lines(es[i]) =~= ls.take(k + n)) by {
        assert forall|p: int| k <= p < k + n implies ls[p] == entry_lines(es[i])[p - k] by {
            assert(ls[k + (p - k)] == entry_lines(es[i])[p - k]);
        }
    }
    assert(spliced(ls, k + n, k + n, seq!["  - "@ + tag]) =~= ls.take(k) + new + ls.skip(k + n));
}

/// The first of some items that is a tag.
proof fn lemma_tag_found(ls: Seq<Seq<char>>, tag: Seq<char>, from: int, to: int, at: int)
    requires
        0 <= from <= at < to <= ls.len(),
        tag_text(ls[at]) == tag,
        forall|p: int| from <= p < at ==> tag_text(#[trigger] ls[p]) != tag,
    ensures
        tag_line(ls, tag, from, to) == Some(at),
    decreases at - from,
{
    if from < at {
        lemma_tag_found(ls, tag, from + 1, to, at);
    }
}

/// Removing a tag from a note gives the note without the first of its tags that is that tag;
/// all else stays as it is.
pub proof fn law_tag_is_dropped(
    es: Seq<Entry>,
    body: Seq<char>,
    i: int,
    items: Seq<Seq<char>>,
    j: int,
)
    requires
        are_entries(es),
        0 <= i < es.len(),
        es[i] == (Entry::Items { key: "tags"@, items }),
        0 <= j < items.len(),
        forall|p: int| 0 <= p < j ==> #[trigger] items[p] != items[j],
    ensures
        tag_removed(parts(note_text(es, body)), note_text(es, body), items[j]) == Ok::<
            (Seq<char>, Change),
            crate::error::Failure,
        >(
            (
                note_text(
                    es.update(i, Entry::Items { key: "tags"@, items: items.remove(j) }),
                    body,
                ),
                Change::RemoveTag { tag: items[j] },
            ),
        ),
{
    let key = "tags"@;
    let tag = items[j];
    let ls = fenced_lines(es);
    let k = start_of(es, i);
    let mid = entry_lines(es[i]);
    let n = mid.len() as int;
    assert(is_entry(es[i]));
    lemma_note_parts(es, body);
    lemma_found(es, key, i);
    lemma_takes(es, i);
    lemma_lines_at(es, i);
    assert forall|p: int| 0 <= p < items.len() implies tag_text(#[trigger] ls[k + 1 + p])
        == items[p] by {
        assert(ls[k + (1 + p)] == mid[1 + p]);
        assert(mid[1 + p] == "  - "@ + items[p]);
        assert(is_plain_word(items[p]));
        lemma_item_line_is(items[p]);
    }
    let at = k + 1 + j;
    assert(tag_text(ls[k + 1 + j]) == tag);
    assert forall|p: int| k + 1 <= p < at implies tag_text(#[trigger] ls[p]) != tag by {
        assert(ls[k + 1 + (p - k - 1)] == ls[p]);
        assert(items[p - k - 1] != tag);
    }
    lemma_tag_found(ls, tag, k + 1, k + n, at);
    lemma_items_replaced(es, i, key, items, items.remove(j));
    lemma_item_dropped(key, items, j);
    lemma_middle(ls, k, mid);
    lemma_spliced_inside(ls.take(k), mid, ls.skip(k + n), 1 + j);
}

/// The lines of a list without one of its items.
proof fn lemma_item_dropped(key: Seq<char>, items: Seq<Seq<char>>, j: int)
    requires
        0 <= j < items.len(),
    ensures
        entry_lines(Entry::Items { key, items: items.remove(j) }) == entry_lines(
            Entry::Items { key, items },
        ).remove(1 + j),
{
    assert(entry_lines(Entry::Items { key, items: items.remove(j) }) =~= entry_lines(
        Entry::Items { key, items },
    ).remove(1 + j));
}

/// Lines with some of them in the middle.
proof fn lemma_middle(ls: Seq<Seq<char>>, k: int, mid: Seq<Seq<char>>)
    requires
        0 <= k,
        k + mid.len() <= ls.len(),
        forall|j: int| 0 <= j < mid.len() ==> #[trigger] ls[k + j] == mid[j],
    ensures
        ls == ls.take(k) + mid + ls.skip(k + mid.len()),
{
    let all = ls.take(k) + mid + ls.skip(k + mid.len());
    assert forall|p: int| 0 <= p < ls.len() implies ls[p] == all[p] by {
        if k <= p < k + mid.len() {
            assert(ls[k + (p - k)] == mid[p - k]);
        }
    }
    assert(ls =~= all);
}

/// Taking one line out of the middle of others.
proof fn lemma_spliced_inside(
    a: Seq<Seq<char>>,
    mid: Seq<Seq<char>>,
    b: Seq<Seq<char>>,
    m: int,
)
    requires
        0 <= m < mid.len(),
    ensures
        spliced(a + mid + b, a.len() + m, a.len() + m + 1, seq![]) == a + mid.remove(m) + b,
{
    assert(spliced(a + mid + b, a.len() + m, a.len() + m + 1, seq![]) =~= a + mid.remove(m) + b);
}

// ── Bodies ─────────────────────────────────────────────────────────────────

/// Setting the body of a note gives the note with its frontmatter as it was and the new body.
pub proof fn law_body_is_replaced(es: Seq<Entry>, body: Seq<char>, new: Seq<char>, change: Change)
    requires
        are_entries(es),
    ensures
        body_edit(note_text(es, body), new, change) == Ok::<
            (Seq<char>, Change),
            crate::error::Failure,
        >((note_text(es, new), change)),
{
    reveal_strlit("\n");
    lemma_note_parts(es, body);
    let text = note_text(es, body);
    let head = joined(fenced_lines(es), "\n"@) + "\n"@;
    assert(text =~= head + body);
    assert(text.take(text.len() - body.len()) =~= head);
    assert(head.last() == '\n');
}

/// Appending to the body of a note gives the note with the text behind its body and a
/// separator, once the line feeds at the end of the body are gone; an empty body becomes the
/// text.
pub proof fn law_body_is_appended(
    es: Seq<Entry>,
    body: Seq<char>,
    text: Seq<char>,
    separator: Seq<char>,
    change: Change,
)
    requires
        are_entries(es),
        body.len() > 0 ==> body.last() != '\n' && body.last() != '\r',
    ensures
        ({
            let content = note_text(es, body);
            let edit = body_edit(
                content,
                body_appended(body_of(content), text, separator),
                change,
            );
            &&& edit is Ok
            &&& body.len() > 0 ==> edit->Ok_0.0 == note_text(es, body + separator + text)
            &&& body.len() == 0 ==> edit->Ok_0.0 == note_text(es, text)
        }),
{
    lemma_note_parts(es, body);
    law_body_is_replaced(es, body, body_appended(body, text, separator), change);
}

} // verus!
