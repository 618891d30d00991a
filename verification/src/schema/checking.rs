//! What checking notes against a schema promises.

use crate::float::{float_order, int_bits, law_integers_keep_their_order};
use crate::links::laws::{lemma_contains_add, lemma_contains_push};
use crate::record::laws::{are_distinct, law_field_is_found};
use crate::record::{field, float_of, key_at, kind, lemma_key_at, shown, Val};
use crate::schema::{
    allowed_list, allows, as_violations, complaints, format_message, has_format, is_allowed,
    is_date, is_wikilink, kind_fits, required_violations, rule_violations, url_parses, violations,
    CollectionRule, FieldRule, Vio,
};
use crate::schema::laws::lemma_kinds_differ;
use crate::text::{all_digits, char_at, digits_value, lemma_char_at, split_by, Order};
use vstd::prelude::*;

verus! {

// ── Notes ──────────────────────────────────────────────────────────────────

/// Whether some violations hold one of a field.
pub open spec fn is_blamed(vs: Seq<Vio>, name: Seq<char>) -> bool {
    exists|i: int| 0 <= i < vs.len() && (#[trigger] vs[i]).field == name
}

/// Whether a field is missing or null.
pub open spec fn is_absent(fields: Seq<(Seq<char>, Val)>, name: Seq<char>) -> bool {
    forall|i: int| 0 <= i < fields.len() && (#[trigger] fields[i]).0 == name ==> fields[i].1 is Null
}

/// Which required fields are blamed.
proof fn lemma_required(file: Seq<char>, fields: Seq<(Seq<char>, Val)>, required: Seq<Seq<char>>)
    requires
        are_distinct(fields),
    ensures
        forall|v: Vio| #[trigger]
            required_violations(file, fields, required).contains(v) <==> required.contains(v.field)
                && is_absent(fields, v.field) && v == (Vio {
                file,
                field: v.field,
                message: "required field is missing or null"@,
            }),
    decreases required.len(),
{
    if required.len() > 0 {
        let init = required.drop_last();
        let name = required.last();
        lemma_required(file, fields, init);
        let before = required_violations(file, fields, init);
        let x = Vio { file, field: name, message: "required field is missing or null"@ };
        lemma_key_at(fields, name, 0);
        let f = field(fields, name);
        assert((f is None || f == Some(Val::Null)) == is_absent(fields, name)) by {
            if let Some(k) = key_at(fields, name, 0) {
                if f == Some(Val::Null) {
                    assert forall|i: int|
                        0 <= i < fields.len() && (#[trigger] fields[i]).0 == name implies fields[i].1
                        is Null by {
                        law_field_is_found(fields, name, i);
                    }
                } else {
                    assert(fields[k].0 == name && !(fields[k].1 is Null));
                }
            }
        }
        assert forall|v: Vio| #[trigger]
            required_violations(file, fields, required).contains(v) <==> required.contains(v.field)
                && is_absent(fields, v.field) && v == (Vio {
                file,
                field: v.field,
                message: "required field is missing or null"@,
            }) by {
            lemma_contains_push(before, x, v);
            lemma_contains_push(init, name, v.field);
            assert(init.push(name) =~= required);
            assert(before.contains(v) || !before.contains(v));
        }
    }
}

/// Whether a message is one that a rule for a field of a note gives.
pub open spec fn is_complaint(
    fields: Seq<(Seq<char>, Val)>,
    rs: Seq<(Seq<char>, FieldRule)>,
    k: int,
    name: Seq<char>,
    message: Seq<char>,
) -> bool {
    &&& rs[k].0 == name
    &&& field(fields, name) is Some && !(field(fields, name)->0 is Null)
    &&& complaints(field(fields, name)->0, rs[k].1).contains(message)
}

/// Which rules are broken.
proof fn lemma_rules(
    file: Seq<char>,
    fields: Seq<(Seq<char>, Val)>,
    rs: Seq<(Seq<char>, FieldRule)>,
    v: Vio,
)
    ensures
        rule_violations(file, fields, rs).contains(v) <==> v.file == file && exists|k: int|
            0 <= k < rs.len() && #[trigger] is_complaint(fields, rs, k, v.field, v.message),
    decreases rs.len(),
{
    let all = rule_violations(file, fields, rs);
    if rs.len() > 0 {
        let init = rs.drop_last();
        let last = rs.len() - 1;
        let name = rs[last].0;
        lemma_rules(file, fields, init, v);
        let before = rule_violations(file, fields, init);
        assert forall|k: int| 0 <= k < init.len() implies #[trigger] is_complaint(
            fields,
            init,
            k,
            v.field,
            v.message,
        ) == is_complaint(fields, rs, k, v.field, v.message) by {
            assert(init[k] == rs[k]);
        }
        let f = field(fields, name);
        if f is Some && !(f->0 is Null) {
            let ms = complaints(f->0, rs[last].1);
            let new = as_violations(file, name, ms);
            lemma_contains_add(before, new, v);
            if new.contains(v) {
                let i = choose|i: int| 0 <= i < new.len() && new[i] == v;
                assert(ms[i] == v.message);
                assert(is_complaint(fields, rs, last, v.field, v.message));
            }
            if v.file == file && is_complaint(fields, rs, last, v.field, v.message) {
                let i = choose|i: int| 0 <= i < ms.len() && ms[i] == v.message;
                assert(new[i] == v);
            }
        }
        if before.contains(v) {
            let k = choose|k: int|
                0 <= k < init.len() && #[trigger] is_complaint(
                    fields,
                    init,
                    k,
                    v.field,
                    v.message,
                );
            assert(is_complaint(fields, rs, k, v.field, v.message));
        }
        if v.file == file && exists|k: int|
            0 <= k < rs.len() && #[trigger] is_complaint(fields, rs, k, v.field, v.message) {
            let k = choose|k: int|
                0 <= k < rs.len() && #[trigger] is_complaint(fields, rs, k, v.field, v.message);
            if k < last {
                assert(is_complaint(fields, init, k, v.field, v.message));
            }
        }
    }
}

/// A required field is blamed for missing exactly if it is missing or null.
pub proof fn law_required_fields_are_there(
    file: Seq<char>,
    fields: Seq<(Seq<char>, Val)>,
    c: CollectionRule,
    name: Seq<char>,
)
    requires
        are_distinct(fields),
    ensures
        c.required.contains(name) && is_absent(fields, name) ==> violations(
            file,
            fields,
            c,
        ).contains(Vio { file, field: name, message: "required field is missing or null"@ }),
        is_absent(fields, name) && is_blamed(violations(file, fields, c), name)
            ==> c.required.contains(name),
{
    lemma_required(file, fields, c.required);
    let x = Vio { file, field: name, message: "required field is missing or null"@ };
    lemma_contains_add(
        required_violations(file, fields, c.required),
        rule_violations(file, fields, c.fields),
        x,
    );
    let vs = violations(file, fields, c);
    if is_absent(fields, name) && is_blamed(vs, name) {
        let i = choose|i: int| 0 <= i < vs.len() && (#[trigger] vs[i]).field == name;
        let v = vs[i];
        assert(vs.contains(v));
        lemma_contains_add(
            required_violations(file, fields, c.required),
            rule_violations(file, fields, c.fields),
            v,
        );
        lemma_rules(file, fields, c.fields, v);
        if rule_violations(file, fields, c.fields).contains(v) {
            let k = choose|k: int|
                0 <= k < c.fields.len() && #[trigger] is_complaint(
                    fields,
                    c.fields,
                    k,
                    v.field,
                    v.message,
                );
            lemma_key_at(fields, name, 0);
            let at = key_at(fields, name, 0)->0;
            assert(fields[at].1 is Null);
        }
    }
}

/// A rule of a collection for a field of a note, and the value of the field.
pub open spec fn is_ruled(
    fields: Seq<(Seq<char>, Val)>,
    c: CollectionRule,
    name: Seq<char>,
    v: Val,
    rule: FieldRule,
) -> bool {
    &&& are_distinct(fields)
    &&& fields.contains((name, v))
    &&& !(v is Null)
    &&& c.fields.contains((name, rule))
}

/// What a rule has to say of the value of a field is a violation of the note.
proof fn lemma_complaint_is_violation(
    file: Seq<char>,
    fields: Seq<(Seq<char>, Val)>,
    c: CollectionRule,
    name: Seq<char>,
    v: Val,
    rule: FieldRule,
    message: Seq<char>,
)
    requires
        is_ruled(fields, c, name, v, rule),
        complaints(v, rule).contains(message),
    ensures
        violations(file, fields, c).contains(Vio { file, field: name, message }),
        is_blamed(violations(file, fields, c), name),
{
    let x = Vio { file, field: name, message };
    let i = choose|i: int| 0 <= i < fields.len() && fields[i] == (name, v);
    law_field_is_found(fields, name, i);
    let k = choose|k: int| 0 <= k < c.fields.len() && c.fields[k] == (name, rule);
    assert(c.fields[k].0 == name && c.fields[k].1 == rule);
    assert(field(fields, name) == Some(v));
    assert(is_complaint(fields, c.fields, k, x.field, x.message));
    lemma_rules(file, fields, c.fields, x);
    lemma_contains_add(
        required_violations(file, fields, c.required),
        rule_violations(file, fields, c.fields),
        x,
    );
    let vs = violations(file, fields, c);
    let j = choose|j: int| 0 <= j < vs.len() && vs[j] == x;
    assert(vs[j].field == name);
}

/// The messages that a rule can have for a value, one by one.
proof fn lemma_complaints(v: Val, rule: FieldRule, m: Seq<char>)
    ensures
        complaints(v, rule).contains(m) <==> {
            ||| !kind_fits(kind(v), rule.field_type) && m == "expected type '"@ + rule.field_type
                + "', got '"@ + kind(v) + "'"@
            ||| rule.enum_values.len() > 0 && !is_allowed(rule.enum_values, shown(v)) && m
                == "value '"@ + shown(v) + "' not in allowed values: "@ + allowed_list(
                rule.enum_values,
            )
            ||| rule.min is Some && float_of(v) is Some && float_order(
                (float_of(v)->0).0,
                (rule.min->0).0,
            ) == Some(Order::Less) && m == "value "@ + (float_of(v)->0).1 + " is below minimum "@
                + (rule.min->0).1
            ||| rule.max is Some && float_of(v) is Some && float_order(
                (rule.max->0).0,
                (float_of(v)->0).0,
            ) == Some(Order::Less) && m == "value "@ + (float_of(v)->0).1 + " exceeds maximum "@
                + (rule.max->0).1
            ||| v is Text && !has_format(v->Text_0, rule.field_type) && m == format_message(
                v->Text_0,
                rule.field_type,
            )
        },
{
    let none = Seq::<Seq<char>>::empty();
    let a: Seq<Seq<char>> = if kind_fits(kind(v), rule.field_type) {
        seq![]
    } else {
        seq!["expected type '"@ + rule.field_type + "', got '"@ + kind(v) + "'"@]
    };
    let b: Seq<Seq<char>> = if rule.enum_values.len() == 0 || is_allowed(
        rule.enum_values,
        shown(v),
    ) {
        seq![]
    } else {
        seq![
            "value '"@ + shown(v) + "' not in allowed values: "@ + allowed_list(rule.enum_values),
        ]
    };
    let c: Seq<Seq<char>> = if rule.min is Some && float_of(v) is Some && float_order(
        (float_of(v)->0).0,
        (rule.min->0).0,
    ) == Some(Order::Less) {
        seq!["value "@ + (float_of(v)->0).1 + " is below minimum "@ + (rule.min->0).1]
    } else {
        seq![]
    };
    let d: Seq<Seq<char>> = if rule.max is Some && float_of(v) is Some && float_order(
        (rule.max->0).0,
        (float_of(v)->0).0,
    ) == Some(Order::Less) {
        seq!["value "@ + (float_of(v)->0).1 + " exceeds maximum "@ + (rule.max->0).1]
    } else {
        seq![]
    };
    let e: Seq<Seq<char>> = if v is Text && !has_format(v->Text_0, rule.field_type) {
        seq![format_message(v->Text_0, rule.field_type)]
    } else {
        seq![]
    };
    assert(complaints(v, rule) =~= a + b + c + d + e);
    lemma_contains_add(a + b + c + d, e, m);
    lemma_contains_add(a + b + c, d, m);
    lemma_contains_add(a + b, c, m);
    lemma_contains_add(a, b, m);
    lemma_contains_push(none, m, m);
    if a.len() > 0 {
        assert(a[0] == a[0] && a.contains(a[0]));
    }
    if b.len() > 0 {
        assert(b.contains(b[0]));
    }
    if c.len() > 0 {
        assert(c.contains(c[0]));
    }
    if d.len() > 0 {
        assert(d.contains(d[0]));
    }
    if e.len() > 0 {
        assert(e.contains(e[0]));
    }
}

/// A number below the minimum of its field is blamed, whatever else the rule of the field
/// says, and so is one above the maximum.
pub proof fn law_numbers_are_bounded(
    file: Seq<char>,
    fields: Seq<(Seq<char>, Val)>,
    c: CollectionRule,
    name: Seq<char>,
    v: Val,
    rule: FieldRule,
    bound: (u64, Seq<char>),
)
    requires
        is_ruled(fields, c, name, v, rule),
        v is Float,
    ensures
        rule.min == Some(bound) && float_order((v->Float_0).0, bound.0) == Some(Order::Less)
            ==> violations(file, fields, c).contains(
            Vio {
                file,
                field: name,
                message: "value "@ + (v->Float_0).1 + " is below minimum "@ + bound.1,
            },
        ),
        rule.max == Some(bound) && float_order(bound.0, (v->Float_0).0) == Some(Order::Less)
            ==> violations(file, fields, c).contains(
            Vio {
                file,
                field: name,
                message: "value "@ + (v->Float_0).1 + " exceeds maximum "@ + bound.1,
            },
        ),
        (rule.field_type == "number"@ || rule.field_type == "float"@) && rule.enum_values.len() == 0
            && (rule.min is Some ==> float_order((v->Float_0).0, (rule.min->0).0) != Some(
            Order::Less,
        )) && (rule.max is Some ==> float_order((rule.max->0).0, (v->Float_0).0) != Some(
            Order::Less,
        )) && is_only_rule(c, name, rule) ==> !is_blamed(violations(file, fields, c), name),
{
    let low = "value "@ + (v->Float_0).1 + " is below minimum "@ + bound.1;
    let high = "value "@ + (v->Float_0).1 + " exceeds maximum "@ + bound.1;
    lemma_complaints(v, rule, low);
    lemma_complaints(v, rule, high);
    if rule.min == Some(bound) && float_order((v->Float_0).0, bound.0) == Some(Order::Less) {
        lemma_complaint_is_violation(file, fields, c, name, v, rule, low);
    }
    if rule.max == Some(bound) && float_order(bound.0, (v->Float_0).0) == Some(Order::Less) {
        lemma_complaint_is_violation(file, fields, c, name, v, rule, high);
    }
    if (rule.field_type == "number"@ || rule.field_type == "float"@) && rule.enum_values.len() == 0
        && (rule.min is Some ==> float_order((v->Float_0).0, (rule.min->0).0) != Some(Order::Less))
        && (rule.max is Some ==> float_order((rule.max->0).0, (v->Float_0).0) != Some(Order::Less))
        && is_only_rule(c, name, rule) {
        lemma_type_names();
        assert forall|m: Seq<char>| !#[trigger] complaints(v, rule).contains(m) by {
            lemma_complaints(v, rule, m);
        }
        lemma_no_complaint(file, fields, c, name, v, rule);
    }
}

/// Whether a bound is the integer `m`.
pub open spec fn is_integer_bound(bound: Option<(u64, Seq<char>)>, m: int) -> bool {
    bound is Some && (bound->0).0 == int_bits(m)
}

/// An integer below a minimum that is an integer is blamed, whatever else the rule of the
/// field says, and so is one above a maximum that is an integer. One of a fitting type that
/// is within both is not, where no values are listed.
pub proof fn law_integers_are_bounded(
    file: Seq<char>,
    fields: Seq<(Seq<char>, Val)>,
    c: CollectionRule,
    name: Seq<char>,
    n: i64,
    rule: FieldRule,
    least: int,
    most: int,
)
    requires
        is_ruled(fields, c, name, Val::Int(n), rule),
        -0x20_0000_0000_0000 < n < 0x20_0000_0000_0000,
        -0x20_0000_0000_0000 < least < 0x20_0000_0000_0000,
        -0x20_0000_0000_0000 < most < 0x20_0000_0000_0000,
    ensures
        is_integer_bound(rule.min, least) && n < least ==> is_blamed(
            violations(file, fields, c),
            name,
        ),
        is_integer_bound(rule.max, most) && n > most ==> is_blamed(
            violations(file, fields, c),
            name,
        ),
        (rule.field_type == "integer"@ || rule.field_type == "number"@ || rule.field_type
            == "float"@) && rule.enum_values.len() == 0 && (is_integer_bound(rule.min, least)
            && n >= least || rule.min is None) && (is_integer_bound(rule.max, most) && n <= most
            || rule.max is None) && is_only_rule(c, name, rule) ==> !is_blamed(
            violations(file, fields, c),
            name,
        ),
{
    let v = Val::Int(n);
    let x = float_of(v)->0;
    law_integers_keep_their_order(n as int, least);
    law_integers_keep_their_order(n as int, most);
    law_integers_keep_their_order(most, n as int);
    lemma_int_bits_fit(n as int);
    if is_integer_bound(rule.min, least) && n < least {
        let m = "value "@ + x.1 + " is below minimum "@ + (rule.min->0).1;
        lemma_complaints(v, rule, m);
        lemma_complaint_is_violation(file, fields, c, name, v, rule, m);
    }
    if is_integer_bound(rule.max, most) && n > most {
        let m = "value "@ + x.1 + " exceeds maximum "@ + (rule.max->0).1;
        lemma_complaints(v, rule, m);
        lemma_complaint_is_violation(file, fields, c, name, v, rule, m);
    }
    if (rule.field_type == "integer"@ || rule.field_type == "number"@ || rule.field_type
        == "float"@) && rule.enum_values.len() == 0 && (is_integer_bound(rule.min, least) && n
        >= least || rule.min is None) && (is_integer_bound(rule.max, most) && n <= most
        || rule.max is None) && is_only_rule(c, name, rule) {
        lemma_type_names();
        assert forall|m: Seq<char>| !#[trigger] complaints(v, rule).contains(m) by {
            lemma_complaints(v, rule, m);
        }
        lemma_no_complaint(file, fields, c, name, v, rule);
    }
}

/// The bits of an integer are bits.
proof fn lemma_int_bits_fit(n: int)
    requires
        -0x20_0000_0000_0000 < n < 0x20_0000_0000_0000,
    ensures
        float_order(int_bits(n) as u64, int_bits(n) as u64) == Some(Order::Equal),
{
    law_integers_keep_their_order(n, n);
}

/// Whether a rule is the only one of a collection for a field.
pub open spec fn is_only_rule(c: CollectionRule, name: Seq<char>, rule: FieldRule) -> bool {
    forall|k: int|
        0 <= k < c.fields.len() && (#[trigger] c.fields[k]).0 == name ==> c.fields[k].1 == rule
}

/// The names of types differ.
pub proof fn lemma_type_names()
    ensures
        "number"@ != "string"@ && "number"@ != "integer"@ && "number"@ != "bool"@ && "number"@
            != "list"@ && "number"@ != "map"@ && "number"@ != "float"@,
        "wikilink"@ != "string"@ && "wikilink"@ != "integer"@ && "wikilink"@ != "bool"@
            && "wikilink"@ != "list"@ && "wikilink"@ != "map"@ && "wikilink"@ != "float"@
            && "wikilink"@ != "number"@ && "wikilink"@ != "date"@ && "wikilink"@ != "url"@,
        "date"@ != "string"@ && "date"@ != "integer"@ && "date"@ != "bool"@ && "date"@ != "list"@
            && "date"@ != "map"@ && "date"@ != "float"@ && "date"@ != "number"@ && "date"@
            != "url"@,
        "url"@ != "string"@ && "url"@ != "integer"@ && "url"@ != "bool"@ && "url"@ != "list"@
            && "url"@ != "map"@ && "url"@ != "float"@ && "url"@ != "number"@,
        "bool"@ != "float"@ && "bool"@ != "integer"@ && "bool"@ != "list"@ && "bool"@ != "map"@
            && "bool"@ != "string"@,
        "float"@ != "integer"@ && "float"@ != "list"@ && "float"@ != "map"@ && "float"@
            != "string"@,
        "integer"@ != "list"@ && "integer"@ != "map"@ && "integer"@ != "string"@,
        "list"@ != "map"@ && "list"@ != "string"@,
        "map"@ != "string"@,
        "null"@ != "bool"@ && "null"@ != "float"@ && "null"@ != "integer"@ && "null"@ != "list"@
            && "null"@ != "map"@ && "null"@ != "string"@,
{
    lemma_kinds_differ();
    reveal_strlit("bool");
    reveal_strlit("float");
    reveal_strlit("integer");
    reveal_strlit("list");
    reveal_strlit("map");
    reveal_strlit("string");
    reveal_strlit("number");
    reveal_strlit("wikilink");
    reveal_strlit("date");
    reveal_strlit("url");
    assert("bool"@[0] == 'b' && "list"@[0] == 'l' && "date"@[0] == 'd');
    assert("bool"@.len() == 4 && "list"@.len() == 4 && "date"@.len() == 4 && "float"@.len() == 5);
    assert("map"@.len() == 3 && "map"@[0] == 'm' && "url"@.len() == 3 && "url"@[0] == 'u');
    assert("string"@.len() == 6 && "string"@[0] == 's');
    assert("number"@.len() == 6 && "number"@[0] == 'n');
    assert("integer"@.len() == 7 && "wikilink"@.len() == 8);
}

/// A field that no rule has anything to say of is not blamed.
proof fn lemma_no_complaint(
    file: Seq<char>,
    fields: Seq<(Seq<char>, Val)>,
    c: CollectionRule,
    name: Seq<char>,
    v: Val,
    rule: FieldRule,
)
    requires
        is_ruled(fields, c, name, v, rule),
        is_only_rule(c, name, rule),
        forall|m: Seq<char>| !#[trigger] complaints(v, rule).contains(m),
    ensures
        !is_blamed(violations(file, fields, c), name),
{
    let vs = violations(file, fields, c);
    let at = choose|i: int| 0 <= i < fields.len() && fields[i] == (name, v);
    law_field_is_found(fields, name, at);
    if is_blamed(vs, name) {
        let i = choose|i: int| 0 <= i < vs.len() && (#[trigger] vs[i]).field == name;
        let x = vs[i];
        assert(vs.contains(x));
        lemma_contains_add(
            required_violations(file, fields, c.required),
            rule_violations(file, fields, c.fields),
            x,
        );
        lemma_required(file, fields, c.required);
        lemma_rules(file, fields, c.fields, x);
        if rule_violations(file, fields, c.fields).contains(x) {
            let k = choose|k: int|
                0 <= k < c.fields.len() && #[trigger] is_complaint(
                    fields,
                    c.fields,
                    k,
                    x.field,
                    x.message,
                );
            assert(c.fields[k].1 == rule);
            assert(complaints(v, rule).contains(x.message));
        } else {
            assert(fields[at].1 is Null);
        }
    }
}

/// Whether a value is one that a type stands for; a type that is not known stands for all.
pub open spec fn is_of_type(v: Val, field_type: Seq<char>) -> bool {
    &&& field_type == "string"@ ==> v is Text
    &&& field_type == "integer"@ ==> v is Int
    &&& field_type == "float"@ || field_type == "number"@ ==> v is Int || v is Float
    &&& field_type == "bool"@ ==> v is Bool
    &&& field_type == "list"@ ==> v is List
    &&& field_type == "map"@ ==> v is Mapping
    &&& field_type == "wikilink"@ || field_type == "date"@ || field_type == "url"@ ==> v is Text
}

/// Whether a text has the format of a type.
pub open spec fn is_in_format(s: Seq<char>, field_type: Seq<char>) -> bool {
    &&& field_type == "wikilink"@ ==> is_wikilink(s)
    &&& field_type == "date"@ ==> is_date(s)
    &&& field_type == "url"@ ==> url_parses(s)
}

/// A value that is not of the type of its field is blamed, with the type that is expected and
/// the kind that it has.
pub proof fn law_types_are_checked(
    file: Seq<char>,
    fields: Seq<(Seq<char>, Val)>,
    c: CollectionRule,
    name: Seq<char>,
    v: Val,
    rule: FieldRule,
)
    requires
        is_ruled(fields, c, name, v, rule),
    ensures
        !is_of_type(v, rule.field_type) ==> violations(file, fields, c).contains(
            Vio {
                file,
                field: name,
                message: "expected type '"@ + rule.field_type + "', got '"@ + kind(v) + "'"@,
            },
        ),
{
    lemma_type_names();
    if !is_of_type(v, rule.field_type) {
        let m = "expected type '"@ + rule.field_type + "', got '"@ + kind(v) + "'"@;
        lemma_complaints(v, rule, m);
        lemma_complaint_is_violation(file, fields, c, name, v, rule, m);
    }
}

/// A text, an integer or a boolean that is shown as none of the values that its rule lists is
/// blamed, and so is a text that is not in the format of its type.
pub proof fn law_listed_values_are_checked(
    file: Seq<char>,
    fields: Seq<(Seq<char>, Val)>,
    c: CollectionRule,
    name: Seq<char>,
    v: Val,
    rule: FieldRule,
)
    requires
        is_ruled(fields, c, name, v, rule),
    ensures
        rule.enum_values.len() > 0 && (forall|i: int|
            0 <= i < rule.enum_values.len() ==> shown(#[trigger] rule.enum_values[i]) != shown(v))
            ==> is_blamed(violations(file, fields, c), name),
        v is Text && !is_in_format(v->Text_0, rule.field_type) ==> is_blamed(
            violations(file, fields, c),
            name,
        ),
{
    lemma_type_names();
    if rule.enum_values.len() > 0 && (forall|i: int|
        0 <= i < rule.enum_values.len() ==> shown(#[trigger] rule.enum_values[i]) != shown(v)) {
        let m = "value '"@ + shown(v) + "' not in allowed values: "@ + allowed_list(
            rule.enum_values,
        );
        assert(!is_allowed(rule.enum_values, shown(v))) by {
            if is_allowed(rule.enum_values, shown(v)) {
                let i = choose|i: int|
                    0 <= i < rule.enum_values.len() && allows(
                        #[trigger] rule.enum_values[i],
                        shown(v),
                    );
                assert(shown(rule.enum_values[i]) != shown(v));
            }
        }
        lemma_complaints(v, rule, m);
        lemma_complaint_is_violation(file, fields, c, name, v, rule, m);
    }
    if v is Text && !is_in_format(v->Text_0, rule.field_type) {
        let m = format_message(v->Text_0, rule.field_type);
        lemma_complaints(v, rule, m);
        lemma_complaint_is_violation(file, fields, c, name, v, rule, m);
    }
}

/// A value of the type of its field is not blamed where it is one of the values that the rule
/// lists, or the rule lists none, where the rule has no bounds or the value reads as no
/// number, and where it is in the format of the type, if it is a text.
pub proof fn law_good_values_are_not_blamed(
    file: Seq<char>,
    fields: Seq<(Seq<char>, Val)>,
    c: CollectionRule,
    name: Seq<char>,
    v: Val,
    rule: FieldRule,
)
    requires
        is_ruled(fields, c, name, v, rule),
        is_only_rule(c, name, rule),
        is_of_type(v, rule.field_type),
        v is Text ==> is_in_format(v->Text_0, rule.field_type),
        rule.enum_values.len() == 0 || ((v is Text || v is Int || v is Float || v is Bool)
            && rule.enum_values.contains(v)),
        (rule.min is None && rule.max is None) || v is Bool || v is List || v is Mapping,
    ensures
        !is_blamed(violations(file, fields, c), name),
{
    lemma_type_names();
    if rule.enum_values.len() > 0 {
        let i = choose|i: int| 0 <= i < rule.enum_values.len() && rule.enum_values[i] == v;
        assert(allows(rule.enum_values[i], shown(v)));
    }
    assert forall|m: Seq<char>| !#[trigger] complaints(v, rule).contains(m) by {
        lemma_complaints(v, rule, m);
    }
    lemma_no_complaint(file, fields, c, name, v, rule);
}

/// A field that no rule speaks of is blamed for nothing but for missing.
pub proof fn law_unruled_fields_are_free(
    file: Seq<char>,
    fields: Seq<(Seq<char>, Val)>,
    c: CollectionRule,
    name: Seq<char>,
)
    requires
        are_distinct(fields),
        !is_absent(fields, name),
        forall|k: int| 0 <= k < c.fields.len() ==> (#[trigger] c.fields[k]).0 != name,
    ensures
        !is_blamed(violations(file, fields, c), name),
{
    let vs = violations(file, fields, c);
    if is_blamed(vs, name) {
        let i = choose|i: int| 0 <= i < vs.len() && (#[trigger] vs[i]).field == name;
        let x = vs[i];
        assert(vs.contains(x));
        lemma_contains_add(
            required_violations(file, fields, c.required),
            rule_violations(file, fields, c.fields),
            x,
        );
        lemma_required(file, fields, c.required);
        lemma_rules(file, fields, c.fields, x);
        if rule_violations(file, fields, c.fields).contains(x) {
            let k = choose|k: int|
                0 <= k < c.fields.len() && #[trigger] is_complaint(
                    fields,
                    c.fields,
                    k,
                    x.field,
                    x.message,
                );
            assert(c.fields[k].0 != name);
        }
    }
}

// ── Formats ────────────────────────────────────────────────────────────────

/// A text without a character has one part between its occurrences, and a text that starts
/// with such a one has it first.
proof fn lemma_split_first(a: Seq<char>, rest: Seq<char>, c: char)
    requires
        !a.contains(c),
    ensures
        split_by(a, c) == seq![a],
        split_by(a + seq![c] + rest, c) == seq![a] + split_by(rest, c),
{
    lemma_char_at(a, c, 0);
    if let Some(i) = char_at(a, c, 0) {
        assert(a.contains(a[i]));
    }
    let s = a + seq![c] + rest;
    lemma_char_at(s, c, 0);
    assert(s[a.len() as int] == c);
    let i = char_at(s, c, 0)->0;
    if i < a.len() {
        assert(s[i] == a[i]);
        assert(a.contains(c));
    }
    assert(s.take(i) =~= a);
    assert(s.skip(i + 1) =~= rest);
}

/// Digits hold no hyphen.
proof fn lemma_digits_are_plain(s: Seq<char>)
    requires
        all_digits(s),
    ensures
        !s.contains('-'),
{
    if s.contains('-') {
        let i = choose|i: int| 0 <= i < s.len() && s[i] == '-';
        assert('0' <= s[i] <= '9');
    }
}

/// Four digits, two and two, with hyphens between them, are a date exactly if the month and
/// the day are ones that a calendar has.
pub proof fn law_dates(y: Seq<char>, m: Seq<char>, d: Seq<char>)
    requires
        y.len() == 4 && all_digits(y),
        m.len() == 2 && all_digits(m),
        d.len() == 2 && all_digits(d),
    ensures
        is_date(y + seq!['-'] + (m + seq!['-'] + d)) <==> {
            let month = 10 * (m[0] as int - '0' as int) + (m[1] as int - '0' as int);
            let day = 10 * (d[0] as int - '0' as int) + (d[1] as int - '0' as int);
            1 <= month <= 12 && 1 <= day <= 31
        },
{
    lemma_digits_are_plain(y);
    lemma_digits_are_plain(m);
    lemma_digits_are_plain(d);
    lemma_split_first(y, m + seq!['-'] + d, '-');
    lemma_split_first(m, d, '-');
    lemma_split_first(d, d, '-');
    let p = split_by(y + seq!['-'] + (m + seq!['-'] + d), '-');
    assert(p =~= seq![y, m, d]);
    lemma_two_digits(m);
    lemma_two_digits(d);
}

/// What two digits stand for.
proof fn lemma_two_digits(s: Seq<char>)
    requires
        s.len() == 2,
        all_digits(s),
    ensures
        digits_value(s) == 10 * (s[0] as int - '0' as int) + (s[1] as int - '0' as int),
{
    reveal_with_fuel(digits_value, 3);
    assert(s.drop_last().drop_last() =~= seq![]);
    assert(s.drop_last()[0] == s[0]);
    assert('0' <= s[0] <= '9' && '0' <= s[1] <= '9');
}

/// A date has ten characters, with hyphens behind the fourth and the seventh.
pub proof fn law_dates_have_hyphens(s: Seq<char>)
    requires
        is_date(s),
    ensures
        s.len() == 10,
        s[4] == '-',
        s[7] == '-',
        forall|i: int| 0 <= i < 10 && i != 4 && i != 7 ==> '0' <= #[trigger] s[i] <= '9',
{
    reveal_with_fuel(split_by, 4);
    lemma_char_at(s, '-', 0);
    let p = split_by(s, '-');
    if let Some(i) = char_at(s, '-', 0) {
        let rest = s.skip(i + 1);
        lemma_char_at(rest, '-', 0);
        let q = split_by(rest, '-');
        assert(p =~= seq![s.take(i)] + q);
        assert(p[0] == s.take(i) && p[1] == q[0] && p[2] == q[1]);
        if let Some(j) = char_at(rest, '-', 0) {
            let last = rest.skip(j + 1);
            lemma_char_at(last, '-', 0);
            let t = split_by(last, '-');
            assert(q =~= seq![rest.take(j)] + t);
            assert(q[0] == rest.take(j) && q[1] == t[0]);
            assert(t.len() == 1);
            assert(char_at(last, '-', 0) is None) by {
                if let Some(k) = char_at(last, '-', 0) {
                    assert(split_by(last.skip(k + 1), '-').len() >= 1);
                }
            }
            assert(t[0] == last);
            assert(s.len() == 10);
            assert(s[7] == rest[2]);
            assert forall|k: int| 0 <= k < 10 && k != 4 && k != 7 implies '0' <= #[trigger] s[k]
                <= '9' by {
                if k < 4 {
                    assert(s[k] == p[0][k]);
                } else if k < 7 {
                    assert(s[k] == p[1][k - 5]);
                } else {
                    assert(s[k] == p[2][k - 8]);
                }
            }
        }
    }
}

} // verus!
