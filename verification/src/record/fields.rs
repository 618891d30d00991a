//! What notes show besides their own fields, and what values stand for.

use crate::frontmatter::laws::{is_fenceable, law_fences_hold};
use crate::links::{graph_value, Graph};
use crate::mutation::laws::is_plain_component;
use crate::path::laws::{law_component_is_added, law_paths_are_relative};
use crate::path::below;
use crate::record::laws::{are_distinct, law_field_is_found};
use crate::record::{
    byte_at, civil_date, date_text, decoded_from, escaped_at, field, float_of, hex_value, int_of, is_blank, key_at, lemma_key_at, lists,
    looked_up, note_name, padded, percent_decoded, shown, shown_items, time_text, without_entry, Rec, Val,
};
use crate::schema::laws::law_integer_is_read_back;
use crate::text::laws::law_decimal;
use crate::text::{bytes, decimal, has, signed_decimal, trimmed};
use vstd::prelude::*;

verus! {

// ── Fields that are computed ───────────────────────────────────────────────

/// The names of computed fields differ.
proof fn lemma_computed_names()
    ensures
        "_path"@ != "_name"@,
        "_folder"@ != "_name"@ && "_folder"@ != "_path"@,
        "_modified"@ != "_name"@ && "_modified"@ != "_path"@ && "_modified"@ != "_folder"@,
        "_created"@ != "_name"@ && "_created"@ != "_path"@ && "_created"@ != "_folder"@
            && "_created"@ != "_modified"@,
        "_body"@ != "_name"@ && "_body"@ != "_path"@ && "_body"@ != "_folder"@ && "_body"@
            != "_modified"@ && "_body"@ != "_created"@ && "_body"@ != "_links"@ && "_body"@
            != "_link_count"@ && "_body"@ != "_backlinks"@ && "_body"@ != "_backlink_count"@,
        "_body_length"@ != "_name"@ && "_body_length"@ != "_path"@ && "_body_length"@ != "_folder"@
            && "_body_length"@ != "_modified"@ && "_body_length"@ != "_created"@
            && "_body_length"@ != "_links"@ && "_body_length"@ != "_link_count"@
            && "_body_length"@ != "_backlinks"@ && "_body_length"@ != "_backlink_count"@
            && "_body_length"@ != "_body"@ && "_body_length"@ != "_length"@,
        "_links"@ != "_name"@ && "_links"@ != "_path"@ && "_links"@ != "_folder"@ && "_links"@
            != "_modified"@ && "_links"@ != "_created"@,
        "_link_count"@ != "_name"@ && "_link_count"@ != "_path"@ && "_link_count"@ != "_folder"@
            && "_link_count"@ != "_modified"@ && "_link_count"@ != "_created"@,
        "_backlinks"@ != "_name"@ && "_backlinks"@ != "_path"@ && "_backlinks"@ != "_folder"@
            && "_backlinks"@ != "_modified"@ && "_backlinks"@ != "_created"@,
        "_backlink_count"@ != "_name"@ && "_backlink_count"@ != "_path"@ && "_backlink_count"@
            != "_folder"@ && "_backlink_count"@ != "_modified"@ && "_backlink_count"@
            != "_created"@,
{
    reveal_strlit("_name");
    reveal_strlit("_path");
    reveal_strlit("_folder");
    reveal_strlit("_modified");
    reveal_strlit("_created");
    reveal_strlit("_links");
    reveal_strlit("_link_count");
    reveal_strlit("_backlinks");
    reveal_strlit("_backlink_count");
    reveal_strlit("_body");
    reveal_strlit("_length");
    reveal_strlit("_body_length");
    assert("_name"@[1] == 'n' && "_path"@[1] == 'p' && "_folder"@[1] == 'f');
    assert("_modified"@[1] == 'm' && "_created"@[1] == 'c' && "_length"@[2] == 'e');
    assert("_links"@[1] == 'l' && "_link_count"@[1] == 'l' && "_backlinks"@[2] == 'a');
    assert("_backlink_count"@[2] == 'a' && "_body"@[2] == 'o' && "_body_length"@[2] == 'o');
    assert("_body"@.len() == 5 && "_body_length"@.len() == 12);
    assert("_body"@[1] == 'b' && "_body_length"@[1] == 'b' && "_length"@[1] == 'l');
    assert("_backlinks"@[1] == 'b' && "_backlink_count"@[1] == 'b');
}

/// A note in a folder of the vault shows the path that leads to it from the vault, and the name
/// of its folder.
pub proof fn law_places_are_shown(
    r: Rec,
    root: Seq<char>,
    y: Seq<char>,
    x: Seq<char>,
    g: Option<Graph>,
)
    requires
        is_plain_component(x),
        is_plain_component(y),
        x != ".."@,
        y != ".."@,
        r.path == below(below(root, y), x),
    ensures
        looked_up(r, "_path"@, root, g) == Some(Val::Text(y + "/"@ + x)),
        looked_up(r, "_folder"@, root, g) == Some(Val::Text(y)),
{
    lemma_computed_names();
    law_paths_are_relative(root, y, x);
    law_component_is_added(root, y, x);
}

/// A note shows when it was changed and made, where that is known.
pub proof fn law_times_are_shown(r: Rec, root: Seq<char>, g: Option<Graph>)
    ensures
        r.modified is None ==> looked_up(r, "_modified"@, root, g) is None,
        r.modified is Some ==> looked_up(r, "_modified"@, root, g) == Some(
            Val::Text(time_text(r.modified->0)),
        ),
        r.created is None ==> looked_up(r, "_created"@, root, g) is None,
        r.created is Some ==> looked_up(r, "_created"@, root, g) == Some(
            Val::Text(time_text(r.created->0)),
        ),
{
    lemma_computed_names();
}

/// A note shows what follows its frontmatter as its body, and how long that is in bytes
/// without the white space around it; a note without frontmatter is all body.
pub proof fn law_bodies_are_shown(
    r: Rec,
    x: Seq<char>,
    body: Seq<char>,
    root: Seq<char>,
    g: Option<Graph>,
)
    requires
        is_fenceable(x),
        r.content == Some("---\n"@ + x + "\n---\n"@ + body),
    ensures
        looked_up(r, "_body"@, root, g) == Some(Val::Text(body)),
        looked_up(r, "_body_length"@, root, g) == Some(Val::Int(bytes(trimmed(body)) as i64)),
{
    lemma_computed_names();
    law_fences_hold(x, body);
}

/// A note shows its links where the graph is known, and else none.
pub proof fn law_graph_fields_are_shown(r: Rec, root: Seq<char>, g: Graph)
    ensures
        looked_up(r, "_links"@, root, Some(g)) == Some(
            graph_value(g, note_name(r.path), "_links"@),
        ),
        looked_up(r, "_link_count"@, root, Some(g)) == Some(
            graph_value(g, note_name(r.path), "_link_count"@),
        ),
        looked_up(r, "_backlinks"@, root, Some(g)) == Some(
            graph_value(g, note_name(r.path), "_backlinks"@),
        ),
        looked_up(r, "_backlink_count"@, root, Some(g)) == Some(
            graph_value(g, note_name(r.path), "_backlink_count"@),
        ),
        looked_up(r, "_links"@, root, None) is None,
        looked_up(r, "_backlinks"@, root, None) is None,
        looked_up(r, "_link_count"@, root, None) is None,
        looked_up(r, "_backlink_count"@, root, None) is None,
{
    lemma_computed_names();
}

// ── Times ──────────────────────────────────────────────────────────────────

/// A number below a hundred is written with two digits.
pub proof fn law_two_digits(a: nat, b: nat)
    requires
        a < 10,
        b < 10,
    ensures
        padded(10 * a + b, 2) == decimal(a) + decimal(b),
{
    law_decimal(a, b);
    law_decimal(0, a);
    law_decimal(0, b);
    if a == 0 {
        assert(10 * a + b == b);
        assert(padded(b, 2) =~= decimal(0) + decimal(b)) by {
            law_decimal(0, 0);
        }
    } else {
        let none = Seq::<char>::empty();
        assert(decimal(10 * a + b).len() == 2);
        assert(padded(10 * a + b, 2) =~= decimal(10 * a + b));
    }
}

/// A time is shown as its date, and the hour and minute of its day with two digits each.
pub proof fn law_times(days: nat, hour: nat, minute: nat, second: nat, secs: u64)
    requires
        hour < 24,
        minute < 60,
        second < 60,
        secs == 86400 * days + 3600 * hour + 60 * minute + second,
    ensures
        time_text(secs) == date_text(secs) + " "@ + (padded(hour, 2) + ":"@ + padded(minute, 2)),
        date_text(secs) == ({
            let (y, m, d) = civil_date(days);
            padded(y, 4) + "-"@ + padded(m, 2) + "-"@ + padded(d, 2)
        }),
{
    let s = secs as int;
    let rest = 3600 * hour + 60 * minute + second;
    assert(rest < 86400);
    assert(s / 86400 == days && s % 86400 == rest) by (nonlinear_arith)
        requires
            s == 86400 * days + rest,
            0 <= rest < 86400,
    ;
    assert(rest / 3600 == hour as int) by (nonlinear_arith)
        requires
            rest == 3600 * hour + 60 * minute + second,
            minute < 60,
            second < 60,
    ;
    assert(s % 3600 == 60 * minute + second) by (nonlinear_arith)
        requires
            s == 3600 * (24 * days + hour) + (60 * minute + second),
            minute < 60,
            second < 60,
    ;
    assert((60 * minute + second) as int / 60 == minute as int);
}

// ── What values stand for ──────────────────────────────────────────────────

/// An integer stands for itself, and so does a text that is one in decimal; a boolean, null, a
/// list or a mapping stands for none. An integer stands for a floating-point number, too.
pub proof fn law_integers_of_values(n: i64, b: bool, items: Seq<Val>, m: Seq<(Seq<char>, Val)>)
    ensures
        int_of(Val::Int(n)) == Some(n as int),
        int_of(Val::Text(signed_decimal(n as int))) == Some(n as int),
        int_of(Val::Bool(b)) is None && int_of(Val::Null) is None && int_of(Val::List(items))
            is None && int_of(Val::Mapping(m)) is None,
        float_of(Val::Int(n)) is Some && (float_of(Val::Int(n))->0).0 == crate::float::int_bits(
            n as int,
        ) as u64,
        float_of(Val::Bool(b)) is None && float_of(Val::Null) is None && float_of(Val::List(items))
            is None && float_of(Val::Mapping(m)) is None,
{
    law_integer_is_read_back(n);
}

/// A list holds a text that one of its items is shown as, and a text each text in it; other
/// values hold none.
pub proof fn law_values_hold(items: Seq<Val>, i: int, s: Seq<char>, needle: Seq<char>, n: i64)
    ensures
        0 <= i < items.len() ==> lists(Val::List(items), shown(items[i])),
        (forall|k: int| 0 <= k < items.len() ==> shown(#[trigger] items[k]) != needle) ==> !lists(
            Val::List(items),
            needle,
        ),
        lists(Val::Text(s), needle) <==> has(s, needle),
        !lists(Val::Int(n), needle) && !lists(Val::Null, needle),
{
    reveal_with_fuel(shown_items, 2);
    let texts = shown_items(items);
    if 0 <= i < items.len() {
        assert(texts[i] == shown(items[i]));
    }
    if lists(Val::List(items), needle) {
        let k = choose|k: int| 0 <= k < texts.len() && texts[k] == needle;
        assert(shown(items[k]) == needle);
    }
}

/// Null and what holds nothing is blank, and nothing else.
pub proof fn law_blank_values(
    s: Seq<char>,
    n: i64,
    b: bool,
    items: Seq<Val>,
    m: Seq<(Seq<char>, Val)>,
)
    ensures
        is_blank(Val::Null),
        is_blank(Val::Text(s)) <==> s.len() == 0,
        is_blank(Val::List(items)) <==> items.len() == 0,
        is_blank(Val::Mapping(m)) <==> m.len() == 0,
        !is_blank(Val::Int(n)) && !is_blank(Val::Bool(b)),
{
}

/// Removing a field leaves no field of its name and the others as they were.
pub proof fn law_entry_is_removed(m: Seq<(Seq<char>, Val)>, key: Seq<char>, other: Seq<char>)
    requires
        are_distinct(m),
    ensures
        field(without_entry(m, key), key) is None,
        other != key ==> field(without_entry(m, key), other) == field(m, other),
{
    let w = without_entry(m, key);
    lemma_key_at(m, key, 0);
    lemma_key_at(w, key, 0);
    if let Some(i) = key_at(m, key, 0) {
        if let Some(k) = key_at(w, key, 0) {
            let j = if k < i {
                k
            } else {
                k + 1
            };
            assert(w[k] == m[j]);
            assert(m[j].0 == m[i].0);
        }
        assert(are_distinct(w)) by {
            assert forall|p: int, q: int| 0 <= p < q < w.len() implies (#[trigger] w[p]).0 != (
            #[trigger] w[q]).0 by {
                assert(w[p] == m[if p < i {
                    p
                } else {
                    p + 1
                }]);
                assert(w[q] == m[if q < i {
                    q
                } else {
                    q + 1
                }]);
            }
        }
        if other != key {
            lemma_key_at(m, other, 0);
            lemma_key_at(w, other, 0);
            match key_at(m, other, 0) {
                Some(j) => {
                    let k = if j < i {
                        j
                    } else {
                        j - 1
                    };
                    assert(w[k] == m[j]);
                    law_field_is_found(w, other, k);
                },
                None => {
                    if let Some(k) = key_at(w, other, 0) {
                        let j = if k < i {
                            k
                        } else {
                            k + 1
                        };
                        assert(w[k] == m[j]);
                    }
                },
            }
        }
    }
}

// ── Names of notes ─────────────────────────────────────────────────────────

/// The digit of a number below sixteen.
pub open spec fn hex_of(d: nat) -> char {
    if d < 10 {
        ('0' as int + d) as char
    } else {
        ('A' as int + d - 10) as char
    }
}

/// An escape of a byte below 128 in the name of a file is decoded to its character, and what
/// comes before it stays as it is.
pub proof fn law_escapes_are_decoded(a: nat, b: nat, rest: Seq<char>, c: char)
    requires
        a < 8,
        b < 16,
        c != '%',
    ensures
        percent_decoded(seq!['%', hex_of(a), hex_of(b)] + rest) == seq![(16 * a + b) as char]
            + percent_decoded(rest),
        percent_decoded(seq![c] + rest) == seq![c] + percent_decoded(rest),
        percent_decoded(Seq::empty()) == Seq::<char>::empty(),
{
    let s = seq!['%', hex_of(a), hex_of(b)] + rest;
    assert(s[0] == '%' && s[1] == hex_of(a) && s[2] == hex_of(b));
    assert(hex_value(hex_of(a)) == a && hex_value(hex_of(b)) == b);
    assert(byte_at(s, 0) == Some(a * 16 + b));
    lemma_decoded_skip(s, 3, 0);
    assert(s.skip(3) =~= rest);
    let t = seq![c] + rest;
    assert(t[0] == c);
    lemma_decoded_skip(t, 1, 0);
    assert(t.skip(1) =~= rest);
}

/// What is decoded from a position on is what stands there, decoded.
proof fn lemma_decoded_skip(s: Seq<char>, n: int, i: int)
    requires
        0 <= n <= s.len(),
        0 <= i,
    ensures
        decoded_from(s, n + i) == decoded_from(s.skip(n), i),
    decreases s.len() - n - i,
{
    let t = s.skip(n);
    if i < t.len() {
        assert forall|k: int| 0 <= k implies #[trigger] byte_at(t, k) == byte_at(s, n + k) by {
            if k + 2 < t.len() {
                assert(t[k] == s[n + k] && t[k + 1] == s[n + k + 1] && t[k + 2] == s[n + k + 2]);
            }
        }
        assert(byte_at(t, i) == byte_at(s, n + i));
        assert(byte_at(t, i + 3) == byte_at(s, n + i + 3));
        assert(byte_at(t, i + 6) == byte_at(s, n + i + 6));
        assert(byte_at(t, i + 9) == byte_at(s, n + i + 9));
        assert(t[i] == s[n + i]);
        match escaped_at(t, i) {
            Some((c, j)) => {
                assert(escaped_at(s, n + i) == Some((c, n + j)));
                if i < j {
                    lemma_decoded_skip(s, n, j);
                }
            },
            None => {
                assert(escaped_at(s, n + i) is None);
                lemma_decoded_skip(s, n, i + 1);
            },
        }
    }
}

} // verus!
