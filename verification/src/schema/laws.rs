//! What an inferred schema promises of the notes that it was inferred from.

use crate::dsl::{binary_cond, scalar, BinaryOp};
use crate::record::{field, key_at, kind, lemma_key_at, shown, Rec, Val};
use crate::schema::{
    allows, complaints, dominant_kind, everywhere, field_names, forced, has_format, inferred,
    inferred_rule, integer_or_text, is_allowed, is_everywhere, kind_count, kind_fits,
    law_inferred_fields, required_violations, rule_violations, scalar_texts, suggested_values,
    values_in, values_of, violations, written_value, FieldRule, Vio,
};
use crate::text::{
    all_digits, decimal, digits_value, integer_of, is_text_set, lemma_text_set, signed_decimal,
    text_less, text_set,
};
use vstd::prelude::*;

verus! {

// ── Integers as texts ──────────────────────────────────────────────────────

/// The digits of a number stand for it.
proof fn lemma_decimal_value(n: nat)
    ensures
        all_digits(decimal(n)),
        digits_value(decimal(n)) == n,
        decimal(n).len() > 0,
    decreases n,
{
    reveal_with_fuel(digits_value, 2);
    if n >= 10 {
        lemma_decimal_value(n / 10);
        assert(decimal(n).drop_last() =~= decimal(n / 10));
    } else {
        assert(decimal(n).drop_last() =~= seq![]);
    }
}

/// An integer that was written is read back.
pub proof fn law_integer_is_read_back(n: i64)
    ensures
        integer_of(signed_decimal(n as int)) == Some(n as int),
{
    let s = signed_decimal(n as int);
    if n < 0 {
        let d = decimal((-n) as nat);
        lemma_decimal_value((-n) as nat);
        assert(s.skip(1) =~= d);
    } else {
        let d = decimal(n as nat);
        lemma_decimal_value(n as nat);
        assert('0' <= d[0] <= '9');
    }
}

// ── Fields and their values ────────────────────────────────────────────────

/// Whether no field is there twice.
pub open spec fn is_map(fields: Seq<(Seq<char>, Val)>) -> bool {
    forall|i: int, j: int|
        0 <= i < j < fields.len() ==> (#[trigger] fields[i]).0 != (#[trigger] fields[j]).0
}

/// The values that fields give a name are that of the field, or none.
proof fn lemma_values_in(fields: Seq<(Seq<char>, Val)>, name: Seq<char>)
    requires
        is_map(fields),
    ensures
        match field(fields, name) {
            Some(v) => values_in(fields, name) == seq![v],
            None => values_in(fields, name) == Seq::<Val>::empty(),
        },
    decreases fields.len(),
{
    lemma_key_at(fields, name, 0);
    if fields.len() > 0 {
        let init = fields.drop_last();
        let last = fields.len() - 1;
        assert forall|i: int, j: int| 0 <= i < j < init.len() implies (#[trigger] init[i]).0 != (
        #[trigger] init[j]).0 by {
            assert(init[i] == fields[i] && init[j] == fields[j]);
        }
        lemma_values_in(init, name);
        lemma_key_at(init, name, 0);
        match key_at(fields, name, 0) {
            Some(i) => {
                if i < last {
                    assert(init[i] == fields[i]);
                    assert(fields[last].0 != name);
                    let k = key_at(init, name, 0);
                    assert(k is Some);
                    assert(init[k->0] == fields[k->0]);
                    if k->0 < i {
                        assert(fields[k->0].0 == name);
                    }
                    assert(k->0 == i);
                } else {
                    if let Some(k) = key_at(init, name, 0) {
                        assert(fields[k] == init[k]);
                    }
                    assert(values_in(fields, name) =~= seq![fields[last].1]);
                }
            },
            None => {
                assert(fields[last].0 != name);
                if let Some(k) = key_at(init, name, 0) {
                    assert(fields[k] == init[k]);
                }
            },
        }
    }
}

/// How many of some values are not null.
pub open spec fn filled(vs: Seq<Val>) -> int {
    vs.len() - kind_count(vs, "null"@)
}

/// The values of a kind among two lists are those among the one and the other.
proof fn lemma_kind_count_append(u: Seq<Val>, v: Seq<Val>, k: Seq<char>)
    ensures
        kind_count(u + v, k) == kind_count(u, k) + kind_count(v, k),
    decreases v.len(),
{
    if v.len() == 0 {
        assert(u + v =~= u);
    } else {
        lemma_kind_count_append(u, v.drop_last(), k);
        assert((u + v).drop_last() =~= u + v.drop_last());
        assert((u + v).last() == v.last());
    }
}

/// Only null is of the kind of null.
proof fn lemma_null_kind(v: Val)
    ensures
        (kind(v) == "null"@) == (v is Null),
{
    reveal_strlit("null");
    reveal_strlit("string");
    reveal_strlit("integer");
    reveal_strlit("float");
    reveal_strlit("bool");
    reveal_strlit("list");
    reveal_strlit("map");
    assert("null"@[0] == 'n');
    assert("bool"@[0] == 'b');
    assert("list"@[0] == 'l');
}

/// Whether all notes have each field at most once.
pub open spec fn are_maps(rs: Seq<Rec>) -> bool {
    forall|i: int| 0 <= i < rs.len() ==> is_map((#[trigger] rs[i]).fields)
}

/// The values of a field are no more than the notes, and as many only where each note has
/// one.
proof fn lemma_filled(rs: Seq<Rec>, name: Seq<char>)
    requires
        are_maps(rs),
    ensures
        filled(values_of(rs, name)) <= rs.len(),
        filled(values_of(rs, name)) == rs.len() ==> forall|i: int|
            0 <= i < rs.len() ==> {
                let f = field((#[trigger] rs[i]).fields, name);
                f is Some && !(f->0 is Null)
            },
    decreases rs.len(),
{
    if rs.len() > 0 {
        let init = rs.drop_last();
        let last = rs.len() - 1;
        assert forall|i: int| 0 <= i < init.len() implies is_map((#[trigger] init[i]).fields) by {
            assert(init[i] == rs[i]);
        }
        lemma_filled(init, name);
        let more = values_in(rs[last].fields, name);
        lemma_values_in(rs[last].fields, name);
        lemma_kind_count_append(values_of(init, name), more, "null"@);
        reveal_with_fuel(kind_count, 2);
        if let Some(v) = field(rs[last].fields, name) {
            lemma_null_kind(v);
            assert(more.drop_last() =~= seq![]);
            assert(more.last() == v);
        }
        if filled(values_of(rs, name)) == rs.len() {
            assert forall|i: int| 0 <= i < rs.len() implies {
                let f = field((#[trigger] rs[i]).fields, name);
                f is Some && !(f->0 is Null)
            } by {
                if i < last {
                    assert(init[i] == rs[i]);
                }
            }
        }
    }
}

/// The value of a field is among the values of that field.
proof fn lemma_value_is_there(rs: Seq<Rec>, name: Seq<char>, i: int)
    requires
        are_maps(rs),
        0 <= i < rs.len(),
        field(rs[i].fields, name) is Some,
    ensures
        values_of(rs, name).contains(field(rs[i].fields, name)->0),
    decreases rs.len(),
{
    let init = rs.drop_last();
    let last = rs.len() - 1;
    let before = values_of(init, name);
    let more = values_in(rs[last].fields, name);
    let v = field(rs[i].fields, name)->0;
    if i < last {
        assert forall|k: int| 0 <= k < init.len() implies is_map((#[trigger] init[k]).fields) by {
            assert(init[k] == rs[k]);
        }
        assert(init[i] == rs[i]);
        lemma_value_is_there(init, name, i);
        let k = choose|k: int| 0 <= k < before.len() && before[k] == v;
        assert((before + more)[k] == v);
    } else {
        lemma_values_in(rs[last].fields, name);
        assert((before + more)[before.len() as int] == v);
    }
}

// ── The rule of a field ────────────────────────────────────────────────────

/// Whether a value is neither null nor made of others.
pub open spec fn is_scalar(v: Val) -> bool {
    !(v is Null) && !(v is List) && !(v is Mapping)
}

/// The text of a scalar among some values is among their texts.
proof fn lemma_scalar_text(vs: Seq<Val>, v: Val)
    requires
        vs.contains(v),
        is_scalar(v),
    ensures
        scalar_texts(vs).contains(shown(v)),
    decreases vs.len(),
{
    let k = choose|k: int| 0 <= k < vs.len() && vs[k] == v;
    let init = vs.drop_last();
    let texts = scalar_texts(vs);
    if k < init.len() {
        assert(init[k] == v);
        lemma_scalar_text(init, v);
        let t = choose|t: int| 0 <= t < scalar_texts(init).len() && scalar_texts(init)[t] == shown(v);
        assert(texts[t] == shown(v));
    } else {
        assert(texts[texts.len() - 1] == shown(v));
    }
}

/// Values without scalars have no texts.
proof fn lemma_no_scalars(vs: Seq<Val>)
    requires
        forall|i: int| 0 <= i < vs.len() ==> !is_scalar(#[trigger] vs[i]),
    ensures
        scalar_texts(vs).len() == 0,
    decreases vs.len(),
{
    if vs.len() > 0 {
        let init = vs.drop_last();
        assert(!is_scalar(vs[vs.len() - 1]));
        assert forall|i: int| 0 <= i < init.len() implies !is_scalar(#[trigger] init[i]) by {
            assert(init[i] == vs[i]);
        }
        lemma_no_scalars(init);
    }
}

/// The kind that is inferred asks no format of texts, and one of lists or mappings takes
/// no others.
proof fn lemma_dominant_kind(vs: Seq<Val>)
    ensures
        forall|s: Seq<char>| #[trigger] has_format(s, dominant_kind(vs)),
        forall|v: Val|
            (v is List || v is Mapping) && #[trigger] kind_fits(kind(v), dominant_kind(vs))
                ==> forall|w: Val|
                #[trigger] kind_fits(kind(w), dominant_kind(vs)) ==> !is_scalar(w),
{
    reveal_strlit("bool");
    reveal_strlit("float");
    reveal_strlit("integer");
    reveal_strlit("list");
    reveal_strlit("map");
    reveal_strlit("string");
    reveal_strlit("null");
    reveal_strlit("number");
    reveal_strlit("wikilink");
    reveal_strlit("date");
    reveal_strlit("url");
    assert("bool"@[0] == 'b' && "list"@[0] == 'l' && "null"@[0] == 'n' && "date"@[0] == 'd');
    assert("map"@[0] == 'm' && "url"@[0] == 'u');
    assert("string"@[0] == 's' && "number"@[0] == 'n');
    let d = dominant_kind(vs);
    assert(d == "bool"@ || d == "float"@ || d == "integer"@ || d == "list"@ || d == "map"@ || d
        == "string"@);
    assert(d.len() != 8);
    assert(d.len() == 4 ==> d[0] != 'd');
    assert(d.len() == 3 ==> d[0] != 'u');
    assert(d != "wikilink"@ && d != "date"@ && d != "url"@);
}

/// Whether a value is one that the rule of its field was inferred for: of a kind that the
/// most frequent one takes, and, where values are suggested, shown as a text that stands
/// for itself: one that reads as an integer is written as the integer is.
pub open spec fn is_typical(v: Val, vs: Seq<Val>) -> bool {
    &&& kind_fits(kind(v), dominant_kind(vs))
    &&& v is Text || v is Float ==> suggested_values(vs).len() == 0 || (integer_of(
        shown(v),
    ) matches Some(n) ==> signed_decimal(n) == shown(v))
}

/// A typical value breaks no rule that is inferred from values that it is among.
proof fn lemma_typical_fits(v: Val, vs: Seq<Val>)
    requires
        vs.contains(v),
        !(v is Null),
        forall|i: int| 0 <= i < vs.len() && !((#[trigger] vs[i]) is Null) ==> is_typical(vs[i], vs),
    ensures
        complaints(v, inferred_rule(vs)) == Seq::<Seq<char>>::empty(),
{
    let k = choose|k: int| 0 <= k < vs.len() && vs[k] == v;
    assert(is_typical(vs[k], vs));
    let rule = inferred_rule(vs);
    let texts = scalar_texts(vs);
    let unique = text_set(texts);
    lemma_dominant_kind(vs);
    if rule.enum_values.len() > 0 {
        if is_scalar(v) {
            lemma_scalar_text(vs, v);
            lemma_text_set(texts);
            assert(unique.contains(shown(v)));
            let i = choose|i: int| 0 <= i < unique.len() && unique[i] == shown(v);
            let e = rule.enum_values[i];
            assert(e == integer_or_text(shown(v)));
            if let Val::Int(n) = v {
                law_integer_is_read_back(n);
            }
            if let Val::Bool(b) = v {
                lemma_bool_is_no_integer(b);
            }
            assert(allows(e, shown(v)));
            assert(is_allowed(rule.enum_values, shown(v)));
        } else {
            assert forall|i: int| 0 <= i < vs.len() implies !is_scalar(#[trigger] vs[i]) by {
                if !(vs[i] is Null) {
                    assert(is_typical(vs[i], vs));
                    assert(kind_fits(kind(v), dominant_kind(vs)));
                }
            }
            lemma_no_scalars(vs);
        }
    }
    if let Val::Text(s) = v {
        assert(has_format(s, rule.field_type));
    }
    assert(complaints(v, rule) =~= Seq::<Seq<char>>::empty());
}

/// The text of a truth value is no integer.
proof fn lemma_bool_is_no_integer(b: bool)
    ensures
        integer_of(shown(Val::Bool(b))) is None,
{
    reveal_strlit("true");
    reveal_strlit("false");
    let s = shown(Val::Bool(b));
    assert(!('0' <= s[0] <= '9'));
    assert(s[0] != '+' && s[0] != '-');
}

// ── What filters force ─────────────────────────────────────────────────────

/// An equality forces what its value reads as on its field, in whatever form the value is
/// written.
pub proof fn law_equality_is_forced(field: Seq<char>, value: Seq<char>)
    ensures
        forced(binary_cond(field, BinaryOp::Equals, value)) == seq![(field, scalar(value))],
{
    reveal(written_value);
}

// ── The schema of some notes ───────────────────────────────────────────────

/// Whether the values of every field of some notes are typical of it.
pub open spec fn are_typical(rs: Seq<Rec>) -> bool {
    forall|name: Seq<char>, k: int|
        0 <= k < values_of(rs, name).len() && !((#[trigger] values_of(rs, name)[k]) is Null)
            ==> is_typical(values_of(rs, name)[k], values_of(rs, name))
}

/// No required field is missing.
proof fn lemma_required_met(file: Seq<char>, rs: Seq<Rec>, names: Seq<Seq<char>>, i: int)
    requires
        are_maps(rs),
        0 <= i < rs.len(),
    ensures
        required_violations(file, rs[i].fields, everywhere(rs, names)) == Seq::<Vio>::empty(),
    decreases names.len(),
{
    if names.len() > 0 {
        let init = names.drop_last();
        lemma_required_met(file, rs, init, i);
        if is_everywhere(rs, names.last()) {
            lemma_filled(rs, names.last());
            let all = everywhere(rs, names);
            assert(all.drop_last() =~= everywhere(rs, init));
            assert(all.last() == names.last());
            let f = field(rs[i].fields, names.last());
            assert(f is Some && !(f->0 is Null));
        }
    }
}

/// No rule of a field is broken.
proof fn lemma_rules_met(
    file: Seq<char>,
    rs: Seq<Rec>,
    all: Seq<(Seq<char>, FieldRule)>,
    i: int,
)
    requires
        are_maps(rs),
        are_typical(rs),
        0 <= i < rs.len(),
        forall|k: int|
            0 <= k < all.len() ==> (#[trigger] all[k]).1 == inferred_rule(values_of(rs, all[k].0)),
    ensures
        rule_violations(file, rs[i].fields, all) == Seq::<Vio>::empty(),
    decreases all.len(),
{
    if all.len() > 0 {
        let init = all.drop_last();
        let last = all.len() - 1;
        assert forall|k: int| 0 <= k < init.len() implies (#[trigger] init[k]).1 == inferred_rule(
            values_of(rs, init[k].0),
        ) by {
            assert(init[k] == all[k]);
        }
        lemma_rules_met(file, rs, init, i);
        let name = all[last].0;
        match field(rs[i].fields, name) {
            None => {},
            Some(Val::Null) => {},
            Some(v) => {
                lemma_value_is_there(rs, name, i);
                lemma_typical_fits(v, values_of(rs, name));
                assert(rule_violations(file, rs[i].fields, all) =~= Seq::<Vio>::empty());
            },
        }
    }
}

/// Each note meets the schema that was inferred from it and others, where the values of
/// each field are typical of it: of one kind, or of kinds that the most frequent one
/// takes.
pub proof fn law_inferred_is_met(folder: Seq<char>, rs: Seq<Rec>, file: Seq<char>, i: int)
    requires
        are_maps(rs),
        are_typical(rs),
        0 <= i < rs.len(),
    ensures
        violations(file, rs[i].fields, inferred(folder, rs)) == Seq::<Vio>::empty(),
{
    law_inferred_fields(folder, rs);
    lemma_required_met(file, rs, field_names(rs), i);
    lemma_rules_met(file, rs, inferred(folder, rs).fields, i);
    assert(violations(file, rs[i].fields, inferred(folder, rs)) =~= Seq::<Vio>::empty());
}

// ── What is inferred of a field ────────────────────────────────────────────

/// Whether the values that are not null are of one kind.
pub open spec fn of_one_kind(vs: Seq<Val>) -> bool {
    forall|a: int, b: int|
        0 <= a < vs.len() && 0 <= b < vs.len() && !((#[trigger] vs[a]) is Null) && !((
        #[trigger] vs[b]) is Null) ==> kind(vs[a]) == kind(vs[b])
}

/// Whether all values are null.
pub open spec fn all_null(vs: Seq<Val>) -> bool {
    forall|i: int| 0 <= i < vs.len() ==> (#[trigger] vs[i]) is Null
}

/// No value is counted for a kind exactly if none is of that kind.
proof fn lemma_kind_count(vs: Seq<Val>, k: Seq<char>)
    ensures
        (kind_count(vs, k) == 0) == (forall|i: int|
            0 <= i < vs.len() ==> kind(#[trigger] vs[i]) != k),
    decreases vs.len(),
{
    if vs.len() > 0 {
        let init = vs.drop_last();
        let last = vs.len() - 1;
        lemma_kind_count(init, k);
        if kind_count(vs, k) == 0 {
            assert forall|i: int| 0 <= i < vs.len() implies kind(#[trigger] vs[i]) != k by {
                if i < last {
                    assert(init[i] == vs[i]);
                }
            }
        } else if forall|i: int| 0 <= i < vs.len() ==> kind(#[trigger] vs[i]) != k {
            assert(kind(vs[last]) != k);
            assert forall|i: int| 0 <= i < init.len() implies kind(#[trigger] init[i]) != k by {
                assert(init[i] == vs[i]);
            }
        }
    }
}

/// The names of kinds differ.
pub proof fn lemma_kinds_differ()
    ensures
        "bool"@ != "float"@ && "bool"@ != "integer"@ && "bool"@ != "list"@ && "bool"@ != "map"@
            && "bool"@ != "string"@,
        "float"@ != "integer"@ && "float"@ != "list"@ && "float"@ != "map"@ && "float"@
            != "string"@,
        "integer"@ != "list"@ && "integer"@ != "map"@ && "integer"@ != "string"@,
        "list"@ != "map"@ && "list"@ != "string"@,
        "map"@ != "string"@,
        "null"@ != "bool"@ && "null"@ != "float"@ && "null"@ != "integer"@ && "null"@ != "list"@
            && "null"@ != "map"@ && "null"@ != "string"@,
{
    reveal_strlit("bool");
    reveal_strlit("float");
    reveal_strlit("integer");
    reveal_strlit("list");
    reveal_strlit("map");
    reveal_strlit("string");
    reveal_strlit("null");
    assert("bool"@[0] == 'b' && "list"@[0] == 'l' && "null"@[0] == 'n');
    assert("bool"@.len() == 4 && "list"@.len() == 4 && "null"@.len() == 4);
    assert("float"@.len() == 5 && "integer"@.len() == 7 && "map"@.len() == 3 && "string"@.len()
        == 6);
}

/// The kind that is inferred of values of one kind is that kind, and that of values that
/// are all null is `string`.
pub proof fn law_dominant_kind(vs: Seq<Val>, i: int)
    ensures
        all_null(vs) ==> dominant_kind(vs) == "string"@,
        of_one_kind(vs) && 0 <= i < vs.len() && !(vs[i] is Null) ==> dominant_kind(vs) == kind(
            vs[i],
        ),
{
    lemma_kinds_differ();
    lemma_kind_count(vs, "bool"@);
    lemma_kind_count(vs, "float"@);
    lemma_kind_count(vs, "integer"@);
    lemma_kind_count(vs, "list"@);
    lemma_kind_count(vs, "map"@);
    lemma_kind_count(vs, "string"@);
    if all_null(vs) {
        assert forall|a: int| 0 <= a < vs.len() implies kind(#[trigger] vs[a]) == "null"@ by {}
    }
    if of_one_kind(vs) && 0 <= i < vs.len() && !(vs[i] is Null) {
        let k = kind(vs[i]);
        assert forall|a: int| 0 <= a < vs.len() implies kind(#[trigger] vs[a]) == k || kind(vs[a])
            == "null"@ by {
            if !(vs[a] is Null) {
                assert(kind(vs[a]) == kind(vs[i]));
            }
        }
        assert(kind_count(vs, k) > 0);
    }
}

/// A field that every note has set has as many values that are not null as there are
/// notes.
proof fn lemma_all_filled(rs: Seq<Rec>, name: Seq<char>)
    requires
        are_maps(rs),
        forall|i: int| 0 <= i < rs.len() ==> is_set(#[trigger] rs[i], name),
    ensures
        filled(values_of(rs, name)) == rs.len(),
    decreases rs.len(),
{
    if rs.len() > 0 {
        let init = rs.drop_last();
        let last = rs.len() - 1;
        assert forall|i: int| 0 <= i < init.len() implies is_map((#[trigger] init[i]).fields)
            && is_set(init[i], name) by {
            assert(init[i] == rs[i]);
        }
        lemma_all_filled(init, name);
        let more = values_in(rs[last].fields, name);
        assert(is_set(rs[last], name));
        let v = field(rs[last].fields, name)->0;
        lemma_values_in(rs[last].fields, name);
        lemma_kind_count_append(values_of(init, name), more, "null"@);
        lemma_null_kind(v);
        reveal_with_fuel(kind_count, 2);
        assert(more.drop_last() =~= seq![]);
        assert(more.last() == v);
    }
}

/// Whether a note has a field set to something.
pub open spec fn is_set(r: Rec, name: Seq<char>) -> bool {
    field(r.fields, name) is Some && !(field(r.fields, name)->0 is Null)
}

/// Those of ascending names whose field is set in every note ascend.
proof fn lemma_everywhere(rs: Seq<Rec>, names: Seq<Seq<char>>)
    requires
        is_text_set(names),
    ensures
        is_text_set(everywhere(rs, names)),
        forall|name: Seq<char>| #[trigger]
            everywhere(rs, names).contains(name) <==> names.contains(name) && is_everywhere(
                rs,
                name,
            ),
    decreases names.len(),
{
    let out = everywhere(rs, names);
    if names.len() > 0 {
        let init = names.drop_last();
        let last = names.len() - 1;
        let part = everywhere(rs, init);
        assert forall|i: int, j: int| 0 <= i < j < init.len() implies text_less(
            #[trigger] init[i],
            #[trigger] init[j],
        ) by {
            assert(init[i] == names[i] && init[j] == names[j]);
        }
        lemma_everywhere(rs, init);
        assert forall|i: int| 0 <= i < part.len() implies text_less(
            #[trigger] part[i],
            names[last],
        ) by {
            assert(part.contains(part[i]));
            let k = choose|k: int| 0 <= k < init.len() && init[k] == part[i];
            assert(names[k] == part[i]);
        }
        assert forall|i: int, j: int| 0 <= i < j < out.len() implies text_less(
            #[trigger] out[i],
            #[trigger] out[j],
        ) by {
            assert(out[i] == part[i]);
            if j < part.len() {
                assert(out[j] == part[j]);
            }
        }
        assert forall|name: Seq<char>| #[trigger]
            out.contains(name) <==> names.contains(name) && is_everywhere(rs, name) by {
            if out.contains(name) {
                let k = choose|k: int| 0 <= k < out.len() && out[k] == name;
                if k < part.len() {
                    assert(part[k] == name);
                    assert(part.contains(name));
                    let n = choose|n: int| 0 <= n < init.len() && init[n] == name;
                    assert(names[n] == name);
                } else {
                    assert(names[last] == name);
                }
            }
            if names.contains(name) && is_everywhere(rs, name) {
                let n = choose|n: int| 0 <= n < names.len() && names[n] == name;
                if n < last {
                    assert(init[n] == name);
                    assert(part.contains(name));
                    let k = choose|k: int| 0 <= k < part.len() && part[k] == name;
                    assert(out[k] == name);
                } else {
                    assert(out[part.len() as int] == name);
                }
            }
        }
    }
}

/// A schema that is inferred from notes is for their folder, requires exactly the fields
/// that are set in every note, each once and in ascending order, and has a rule for exactly
/// the fields that some note has. The rule of a field asks for the kind of its values where
/// they are of one kind, and for `string` where all are null.
pub proof fn law_inferred_schema(folder: Seq<char>, rs: Seq<Rec>)
    requires
        are_maps(rs),
    ensures
        ({
            let c = inferred(folder, rs);
            &&& c.folder == folder
            &&& is_text_set(c.required)
            &&& forall|name: Seq<char>| #[trigger]
                c.required.contains(name) <==> rs.len() > 0 && forall|i: int|
                    0 <= i < rs.len() ==> is_set(#[trigger] rs[i], name)
            &&& is_text_set(field_names(rs))
            &&& c.fields.len() == field_names(rs).len()
            &&& forall|i: int|
                0 <= i < c.fields.len() ==> (#[trigger] c.fields[i]).0 == field_names(rs)[i]
            &&& forall|name: Seq<char>| #[trigger]
                field_names(rs).contains(name) <==> exists|r: int|
                    0 <= r < rs.len() && field((#[trigger] rs[r]).fields, name) is Some
            &&& forall|i: int, k: int|
                #![trigger c.fields[i], values_of(rs, field_names(rs)[i])[k]]
                0 <= i < c.fields.len() && 0 <= k < values_of(rs, field_names(rs)[i]).len()
                    && of_one_kind(values_of(rs, field_names(rs)[i])) && !(values_of(
                    rs,
                    field_names(rs)[i],
                )[k] is Null) ==> c.fields[i].1.field_type == kind(
                    values_of(rs, field_names(rs)[i])[k],
                )
            &&& forall|i: int|
                0 <= i < c.fields.len() && all_null(values_of(rs, field_names(rs)[i])) ==> (
                #[trigger] c.fields[i]).1.field_type == "string"@
        }),
{
    let c = inferred(folder, rs);
    let names = field_names(rs);
    law_inferred_fields(folder, rs);
    lemma_everywhere(rs, names);
    assert forall|name: Seq<char>| #[trigger]
        names.contains(name) <==> exists|r: int|
            0 <= r < rs.len() && field((#[trigger] rs[r]).fields, name) is Some by {
        if names.contains(name) {
            let (r, k) = choose|r: int, k: int|
                0 <= r < rs.len() && 0 <= k < rs[r].fields.len() && (#[trigger] rs[r].fields[k]).0
                    == name;
            lemma_key_at(rs[r].fields, name, 0);
            assert(field(rs[r].fields, name) is Some);
        }
        if exists|r: int| 0 <= r < rs.len() && field((#[trigger] rs[r]).fields, name) is Some {
            let r = choose|r: int|
                0 <= r < rs.len() && field((#[trigger] rs[r]).fields, name) is Some;
            lemma_key_at(rs[r].fields, name, 0);
            let k = key_at(rs[r].fields, name, 0)->0;
            assert(rs[r].fields[k].0 == name);
        }
    }
    assert forall|name: Seq<char>| #[trigger]
        c.required.contains(name) <==> rs.len() > 0 && forall|i: int|
            0 <= i < rs.len() ==> is_set(#[trigger] rs[i], name) by {
        lemma_filled(rs, name);
        if c.required.contains(name) {
            assert(filled(values_of(rs, name)) == rs.len());
        }
        if rs.len() > 0 && forall|i: int| 0 <= i < rs.len() ==> is_set(#[trigger] rs[i], name) {
            lemma_all_filled(rs, name);
            assert(is_set(rs[0], name));
            assert(names.contains(name));
        }
    }
    assert forall|i: int, k: int|
        #![trigger c.fields[i], values_of(rs, names[i])[k]]
        0 <= i < c.fields.len() && 0 <= k < values_of(rs, names[i]).len() && of_one_kind(
            values_of(rs, names[i]),
        ) && !(values_of(rs, names[i])[k] is Null) implies c.fields[i].1.field_type == kind(
        values_of(rs, names[i])[k],
    ) by {
        law_dominant_kind(values_of(rs, names[i]), k);
    }
    assert forall|i: int|
        0 <= i < c.fields.len() && all_null(values_of(rs, names[i])) implies (
    #[trigger] c.fields[i]).1.field_type == "string"@ by {
        law_dominant_kind(values_of(rs, names[i]), 0);
    }
}

/// Whether the values of every field of some notes are of one kind.
pub open spec fn all_of_one_kind(rs: Seq<Rec>) -> bool {
    forall|name: Seq<char>| of_one_kind(#[trigger] values_of(rs, name))
}

/// Whether a value is shown as no integer, or as that integer is written. A text such as
/// `007` is not, nor is a negative zero.
pub open spec fn is_shown_plainly(v: Val) -> bool {
    integer_of(shown(v)) matches Some(n) ==> signed_decimal(n) == shown(v)
}

/// Whether the texts and fractions of every field of some notes are shown plainly.
pub open spec fn all_shown_plainly(rs: Seq<Rec>) -> bool {
    forall|name: Seq<char>, k: int|
        0 <= k < values_of(rs, name).len() && ((#[trigger] values_of(rs, name)[k]) is Text
            || values_of(rs, name)[k] is Float) ==> is_shown_plainly(values_of(rs, name)[k])
}

/// Each note meets the schema that was inferred from it and others, where the values of
/// each field are of one kind and are shown plainly.
pub proof fn law_one_kind_is_met(folder: Seq<char>, rs: Seq<Rec>, file: Seq<char>, i: int)
    requires
        are_maps(rs),
        all_of_one_kind(rs),
        all_shown_plainly(rs),
        0 <= i < rs.len(),
    ensures
        violations(file, rs[i].fields, inferred(folder, rs)) == Seq::<Vio>::empty(),
{
    assert forall|name: Seq<char>, k: int|
        0 <= k < values_of(rs, name).len() && !((#[trigger] values_of(rs, name)[k])
            is Null) implies is_typical(values_of(rs, name)[k], values_of(rs, name)) by {
        let vs = values_of(rs, name);
        assert(of_one_kind(vs));
        law_dominant_kind(vs, k);
        lemma_kind_fits_itself(vs[k]);
    }
    law_inferred_is_met(folder, rs, file, i);
}

/// A value fits a rule that asks for its kind.
proof fn lemma_kind_fits_itself(v: Val)
    ensures
        kind_fits(kind(v), kind(v)),
{
    reveal_strlit("bool");
    reveal_strlit("list");
    reveal_strlit("map");
    reveal_strlit("string");
    reveal_strlit("integer");
    reveal_strlit("null");
    reveal_strlit("number");
    reveal_strlit("wikilink");
    reveal_strlit("date");
    reveal_strlit("url");
    assert("bool"@[0] == 'b' && "list"@[0] == 'l' && "null"@[0] == 'n' && "date"@[0] == 'd');
    assert("bool"@.len() == 4 && "list"@.len() == 4 && "null"@.len() == 4 && "date"@.len() == 4);
    assert("map"@.len() == 3 && "map"@[0] == 'm' && "url"@.len() == 3 && "url"@[0] == 'u');
    assert("string"@.len() == 6 && "string"@[0] == 's');
    assert("number"@.len() == 6 && "number"@[0] == 'n');
    assert("integer"@.len() == 7 && "wikilink"@.len() == 8);
    lemma_kinds_differ();
}

} // verus!
