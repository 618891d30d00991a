//! JSON documents as plain values, written by `serde_json`.

use crate::float::{copy_float, Float};
use crate::record::{
    ascending, bool_text, entries, key_at, keyed, lemma_val_list, lemma_val_mapping,
    lemma_with_entry_ascending, put_entry, set_entry, val, vals, with_entry, Val, Value,
};
use crate::text::{
    decimal, insert_text, integer_text, join_strings, joined, lemma_string_views_push, number_text,
    same_text, signed_decimal, string_views, text_less, with_text,
};
use crate::yaml::{
    float_contents, float_reading, make_float, read_float, read_value, rendered_view, smaller,
    yaml_contents, yaml_parsed, Step,
};
use serde_json::Number as JsonNumber;
use serde_json::Value as JsonValue;
use serde_yaml::Value as YamlValue;
use vstd::prelude::*;

pub mod laws;

verus! {

/// A JSON document.
#[derive(Debug, PartialEq, Eq)]
pub enum Json {
    Null,
    Bool(bool),
    Int(i64),
    /// An integer that only an unsigned number holds.
    Large(u64),
    Float(Float),
    Text(String),
    Array(Vec<Json>),
    /// Keys with their values, the keys ascending.
    Object(Vec<(String, Json)>),
}

/// A JSON document with its texts and lists as sequences.
pub enum Js {
    Null,
    Bool(bool),
    Int(i64),
    Large(u64),
    Float((u64, Seq<char>)),
    Text(Seq<char>),
    Array(Seq<Js>),
    Object(Seq<(Seq<char>, Js)>),
}

/// What a document is.
pub open spec fn js(v: Json) -> Js
    decreases v,
{
    match v {
        Json::Null => Js::Null,
        Json::Bool(b) => Js::Bool(b),
        Json::Int(n) => Js::Int(n),
        Json::Large(n) => Js::Large(n),
        Json::Float(f) => Js::Float(f@),
        Json::Text(s) => Js::Text(s@),
        Json::Array(items) => Js::Array(
            Seq::new(
                items@.len(),
                |i: int|
                    if 0 <= i < items@.len() {
                        js(items@[i])
                    } else {
                        Js::Null
                    },
            ),
        ),
        Json::Object(m) => Js::Object(
            Seq::new(
                m@.len(),
                |i: int|
                    if 0 <= i < m@.len() {
                        (m@[i].0@, js(m@[i].1))
                    } else {
                        (seq![], Js::Null)
                    },
            ),
        ),
    }
}

/// What documents are.
pub open spec fn jss(items: Seq<Json>) -> Seq<Js> {
    Seq::new(items.len(), |i: int| js(items[i]))
}

/// What the entries of an object are.
pub open spec fn members(m: Seq<(String, Json)>) -> Seq<(Seq<char>, Js)> {
    Seq::new(m.len(), |i: int| (m[i].0@, js(m[i].1)))
}

/// An array is what its items are.
pub proof fn lemma_js_array(items: Vec<Json>)
    ensures
        js(Json::Array(items)) == Js::Array(jss(items@)),
{
    assert(js(Json::Array(items))->Array_0 =~= jss(items@));
}

/// An object is what its entries are.
pub proof fn lemma_js_object(m: Vec<(String, Json)>)
    ensures
        js(Json::Object(m)) == Js::Object(members(m@)),
{
    assert(js(Json::Object(m))->Object_0 =~= members(m@));
}

// ── Values ─────────────────────────────────────────────────────────────────

/// The document that a value makes.
pub open spec fn json_of(v: Val) -> Js
    decreases v,
{
    match v {
        Val::Null => Js::Null,
        Val::Text(s) => Js::Text(s),
        Val::Int(n) => Js::Int(n),
        Val::Float(f) => Js::Float(f),
        Val::Bool(b) => Js::Bool(b),
        Val::List(items) => Js::Array(json_of_items(items)),
        Val::Mapping(m) => Js::Object(json_of_entries(m)),
    }
}

/// The documents that some values make.
pub open spec fn json_of_items(items: Seq<Val>) -> Seq<Js>
    decreases items,
{
    Seq::new(
        items.len(),
        |i: int|
            if 0 <= i < items.len() {
                json_of(items[i])
            } else {
                Js::Null
            },
    )
}

/// The entries of an object that those of a mapping make.
pub open spec fn json_of_entries(m: Seq<(Seq<char>, Val)>) -> Seq<(Seq<char>, Js)>
    decreases m,
{
    Seq::new(
        m.len(),
        |i: int|
            if 0 <= i < m.len() {
                (m[i].0, json_of(m[i].1))
            } else {
                (seq![], Js::Null)
            },
    )
}

/// Makes a document of a value.
pub fn value_to_json(v: &Value) -> (r: Json)
    ensures
        js(r) == json_of(val(*v)),
    decreases v,
{
    match v {
        Value::Null => Json::Null,
        Value::String(s) => Json::Text(s.clone()),
        Value::Integer(n) => Json::Int(*n),
        Value::Float(f) => Json::Float(copy_float(f)),
        Value::Bool(b) => Json::Bool(*b),
        Value::List(items) => {
            let ghost all = json_of_items(vals(items@));
            let mut out: Vec<Json> = Vec::new();
            let mut i: usize = 0;
            assert(jss(out@) =~= all.take(0));
            while i < items.len()
                invariant
                    *v == Value::List(*items),
                    all == json_of_items(vals(items@)),
                    i <= items.len(),
                    jss(out@) == all.take(i as int),
                decreases items.len() - i,
            {
                proof {
                    broadcast use vstd::std_specs::vec::axiom_vec_index_decreases;

                    assert(decreases_to!(*items => items[i as int]));
                    assert(decreases_to!(*v => v->List_0));
                }
                let x: Json = value_to_json(&items[i]);
                let ghost before = jss(out@);
                out.push(x);
                assert(jss(out@) =~= before.push(js(x)));
                i += 1;
                assert(jss(out@) =~= all.take(i as int));
            }
            assert(all.take(i as int) =~= all);
            proof {
                lemma_val_list(*items);
                lemma_js_array(out);
            }
            Json::Array(out)
        },
        Value::Mapping(m) => {
            let ghost all = json_of_entries(entries(m@));
            let mut out: Vec<(String, Json)> = Vec::new();
            let mut i: usize = 0;
            assert(members(out@) =~= all.take(0));
            while i < m.len()
                invariant
                    *v == Value::Mapping(*m),
                    all == json_of_entries(entries(m@)),
                    i <= m.len(),
                    members(out@) == all.take(i as int),
                decreases m.len() - i,
            {
                proof {
                    broadcast use vstd::std_specs::vec::axiom_vec_index_decreases;

                    assert(decreases_to!(*m => m[i as int]));
                    assert(decreases_to!(m[i as int] => m[i as int].1));
                    assert(decreases_to!(*v => v->Mapping_0));
                }
                let x: (String, Json) = (m[i].0.clone(), value_to_json(&m[i].1));
                let ghost before = members(out@);
                out.push(x);
                assert(members(out@) =~= before.push((x.0@, js(x.1))));
                i += 1;
                assert(members(out@) =~= all.take(i as int));
            }
            assert(all.take(i as int) =~= all);
            proof {
                lemma_val_mapping(*m);
                lemma_js_object(out);
            }
            Json::Object(out)
        },
    }
}

/// The value that a document makes. An integer that no signed number holds is the
/// floating-point number nearest to it.
pub open spec fn value_of_json(v: Js) -> Val
    decreases v,
{
    match v {
        Js::Null => Val::Null,
        Js::Bool(b) => Val::Bool(b),
        Js::Int(n) => Val::Int(n),
        Js::Large(n) => match float_reading(decimal(n as nat)) {
            Some(f) => Val::Float(f),
            None => Val::Text(decimal(n as nat)),
        },
        Js::Float(f) => Val::Float(f),
        Js::Text(s) => Val::Text(s),
        Js::Array(items) => Val::List(values_of_json(items)),
        Js::Object(m) => Val::Mapping(fields_of_json(m)),
    }
}

/// The values that some documents make.
pub open spec fn values_of_json(items: Seq<Js>) -> Seq<Val>
    decreases items,
{
    Seq::new(
        items.len(),
        |i: int|
            if 0 <= i < items.len() {
                value_of_json(items[i])
            } else {
                Val::Null
            },
    )
}

/// The fields that the entries of an object make.
pub open spec fn fields_of_json(m: Seq<(Seq<char>, Js)>) -> Seq<(Seq<char>, Val)>
    decreases m,
{
    if m.len() == 0 {
        seq![]
    } else {
        with_entry(fields_of_json(m.drop_last()), m.last().0, value_of_json(m.last().1))
    }
}

/// Makes a value of a document.
pub fn json_to_vaultdb_value(v: &Json) -> (r: Value)
    ensures
        val(r) == value_of_json(js(*v)),
    decreases v,
{
    match v {
        Json::Null => Value::Null,
        Json::Bool(b) => Value::Bool(*b),
        Json::Int(n) => Value::Integer(*n),
        Json::Large(n) => {
            let digits: String = number_text(*n);
            match read_float(digits.as_str()) {
                Some(f) => Value::Float(f),
                None => Value::String(digits),
            }
        },
        Json::Float(f) => Value::Float(copy_float(f)),
        Json::Text(s) => Value::String(s.clone()),
        Json::Array(items) => {
            let ghost all = values_of_json(jss(items@));
            let mut out: Vec<Value> = Vec::new();
            let mut i: usize = 0;
            assert(vals(out@) =~= all.take(0));
            while i < items.len()
                invariant
                    *v == Json::Array(*items),
                    all == values_of_json(jss(items@)),
                    i <= items.len(),
                    vals(out@) == all.take(i as int),
                decreases items.len() - i,
            {
                proof {
                    broadcast use vstd::std_specs::vec::axiom_vec_index_decreases;

                    assert(decreases_to!(*items => items[i as int]));
                    assert(decreases_to!(*v => v->Array_0));
                }
                let x: Value = json_to_vaultdb_value(&items[i]);
                let ghost before = vals(out@);
                out.push(x);
                assert(vals(out@) =~= before.push(val(x)));
                i += 1;
                assert(vals(out@) =~= all.take(i as int));
            }
            assert(all.take(i as int) =~= all);
            proof {
                lemma_js_array(*items);
                lemma_val_list(out);
            }
            Value::List(out)
        },
        Json::Object(m) => {
            let ghost all = members(m@);
            let mut out: Vec<(String, Value)> = Vec::new();
            let mut i: usize = 0;
            assert(all.take(0) =~= seq![]);
            assert(entries(out@) =~= seq![]);
            while i < m.len()
                invariant
                    *v == Json::Object(*m),
                    all == members(m@),
                    i <= m.len(),
                    entries(out@) == fields_of_json(all.take(i as int)),
                decreases m.len() - i,
            {
                proof {
                    broadcast use vstd::std_specs::vec::axiom_vec_index_decreases;

                    assert(decreases_to!(*m => m[i as int]));
                    assert(decreases_to!(m[i as int] => m[i as int].1));
                    assert(decreases_to!(*v => v->Object_0));
                    assert(all.take(i + 1).drop_last() =~= all.take(i as int));
                }
                let x: Value = json_to_vaultdb_value(&m[i].1);
                set_entry(&mut out, m[i].0.as_str(), x);
                i += 1;
            }
            assert(all.take(i as int) =~= all);
            proof {
                lemma_js_object(*m);
                lemma_val_mapping(out);
            }
            Value::Mapping(out)
        },
    }
}

// ── Writing ────────────────────────────────────────────────────────────────

/// One step in building a document on a stack: push a scalar, or put what lies on
/// top of the stack into an array or an object.
#[derive(Debug, PartialEq, Eq)]
pub enum JsonStep {
    Null,
    Bool(bool),
    Int(i64),
    Large(u64),
    Float(Float),
    Text(String),
    /// An array of the topmost items.
    Array(usize),
    /// An object of the topmost pairs of key and value.
    Object(usize),
}

/// A step with its texts as sequences of characters.
pub enum JStep {
    Null,
    Bool(bool),
    Int(i64),
    Large(u64),
    Float((u64, Seq<char>)),
    Text(Seq<char>),
    Array(usize),
    Object(usize),
}

impl View for JsonStep {
    type V = JStep;

    open spec fn view(&self) -> JStep {
        match *self {
            JsonStep::Null => JStep::Null,
            JsonStep::Bool(b) => JStep::Bool(b),
            JsonStep::Int(n) => JStep::Int(n),
            JsonStep::Large(n) => JStep::Large(n),
            JsonStep::Float(f) => JStep::Float(f@),
            JsonStep::Text(s) => JStep::Text(s@),
            JsonStep::Array(n) => JStep::Array(n),
            JsonStep::Object(n) => JStep::Object(n),
        }
    }
}

/// What steps are.
pub open spec fn jsteps(v: Seq<JsonStep>) -> Seq<JStep> {
    Seq::new(v.len(), |i: int| v[i]@)
}

// ── Values of `serde_json` ─────────────────────────────────────────────────

/// A document as `serde_json` holds it.
#[verifier::external_type_specification]
#[verifier::external_body]
pub struct ExJsonValue(JsonValue);

/// A number as `serde_json` holds it.
#[verifier::external_type_specification]
#[verifier::external_body]
pub struct ExJsonNumber(JsonNumber);

/// What a `serde_json::Value` holds: the steps that build it, the leaves first.
pub uninterp spec fn json_contents(v: JsonValue) -> Seq<JStep>;

/// What a `serde_json::Number` holds: the one step that builds it.
pub uninterp spec fn json_number_contents(n: JsonNumber) -> Seq<JStep>;

/// What `serde_json::to_string_pretty` writes for a value that holds a document, or the
/// message of its error.
pub uninterp spec fn json_pretty(document: Seq<JStep>) -> Result<Seq<char>, Seq<char>>;

/// What `serde_json::to_string` writes for a value that holds a document, or the message
/// of its error.
pub uninterp spec fn json_compact(document: Seq<JStep>) -> Result<Seq<char>, Seq<char>>;

/// What `serde_yaml::to_string` writes for a `serde_json::Value` that holds a document, or
/// the message of its error.
pub uninterp spec fn json_as_yaml(document: Seq<JStep>) -> Result<Seq<char>, Seq<char>>;

/// What `serde_json::to_value` makes of a `serde_yaml::Value` that holds a document, or
/// the message of its error.
pub uninterp spec fn json_of_yaml(document: Seq<Step>) -> Result<Seq<JStep>, Seq<char>>;

/// A value of `serde_json` with its outermost layer taken off.
pub enum JsonNode<'a> {
    Null,
    Bool(bool),
    Number(&'a JsonNumber),
    Text(String),
    Array(Vec<&'a JsonValue>),
    Object(Vec<(&'a String, &'a JsonValue)>),
}

/// What some values hold, one after the other.
pub open spec fn all_contents(vs: Seq<&JsonValue>) -> Seq<JStep>
    decreases vs.len(),
{
    if vs.len() == 0 {
        seq![]
    } else {
        all_contents(vs.drop_last()) + json_contents(*vs.last())
    }
}

/// What some entries hold, one after the other.
pub open spec fn pair_contents(ps: Seq<(&String, &JsonValue)>) -> Seq<JStep>
    decreases ps.len(),
{
    if ps.len() == 0 {
        seq![]
    } else {
        pair_contents(ps.drop_last()).push(JStep::Text(ps.last().0@)) + json_contents(*ps.last().1)
    }
}

/// What a value holds whose outermost layer was taken off.
pub open spec fn node_contents(n: JsonNode<'_>) -> Seq<JStep> {
    match n {
        JsonNode::Null => seq![JStep::Null],
        JsonNode::Bool(b) => seq![JStep::Bool(b)],
        JsonNode::Number(n) => json_number_contents(*n),
        JsonNode::Text(s) => seq![JStep::Text(s@)],
        JsonNode::Array(vs) => all_contents(vs@).push(JStep::Array(vs@.len() as usize)),
        JsonNode::Object(ps) => pair_contents(ps@).push(JStep::Object(ps@.len() as usize)),
    }
}

/// Takes the outermost layer off a `serde_json::Value`, variant by variant. Claims that
/// the value holds what its parts hold, in their order, and then the layer.
#[verifier::external_body]
fn open_value<'a>(v: &'a JsonValue) -> (r: JsonNode<'a>)
    ensures
        json_contents(*v) == node_contents(r),
{
    match v {
        JsonValue::Null => JsonNode::Null,
        JsonValue::Bool(b) => JsonNode::Bool(*b),
        JsonValue::Number(n) => JsonNode::Number(n),
        JsonValue::String(s) => JsonNode::Text(s.clone()),
        JsonValue::Array(a) => JsonNode::Array(a.iter().collect()),
        JsonValue::Object(m) => JsonNode::Object(m.iter().collect()),
    }
}

/// Calls `as_i64`, `as_u64` and `as_f64` of a `serde_json::Number`. Claims that the
/// number holds the first of an `i64`, a `u64` and a floating-point number that they
/// give; the last is there as its bits and the text that it is shown as.
#[verifier::external_body]
fn open_number(n: &JsonNumber) -> (r: JsonStep)
    ensures
        json_number_contents(*n) == seq![r@],
{
    let x = n.as_f64().unwrap_or_default();
    match (n.as_i64(), n.as_u64()) {
        (Some(i), _) => JsonStep::Int(i),
        (_, Some(u)) => JsonStep::Large(u),
        _ => JsonStep::Float(Float { bits: x.to_bits(), text: x.to_string() }),
    }
}

/// Calls `serde_json::to_value` on a `serde_yaml::Value`. Claims that what comes out, or
/// the message of the error, depends on what the value holds alone.
#[verifier::external_body]
fn convert_value(v: &YamlValue) -> (r: Result<JsonValue, String>)
    ensures
        match r {
            Ok(j) => json_of_yaml(yaml_contents(*v)) == Ok::<Seq<JStep>, Seq<char>>(json_contents(j)),
            Err(e) => json_of_yaml(yaml_contents(*v)) == Err::<Seq<JStep>, Seq<char>>(e@),
        },
{
    serde_json::to_value(v).map_err(|e| e.to_string())
}

/// A value of `serde_json` to be made of its parts.
pub enum JsonPart {
    Null,
    Bool(bool),
    Int(i64),
    Large(u64),
    Text(String),
    Array(Vec<JsonValue>),
    Object(Vec<(String, JsonValue)>),
}

/// What some values hold, one after the other.
pub open spec fn list_contents(vs: Seq<JsonValue>) -> Seq<JStep>
    decreases vs.len(),
{
    if vs.len() == 0 {
        seq![]
    } else {
        list_contents(vs.drop_last()) + json_contents(vs.last())
    }
}

/// What entries hold, one after the other.
pub open spec fn entry_contents(m: Seq<(Seq<char>, Seq<JStep>)>) -> Seq<JStep>
    decreases m.len(),
{
    if m.len() == 0 {
        seq![]
    } else {
        entry_contents(m.drop_last()).push(JStep::Text(m.last().0)) + m.last().1
    }
}

/// What the values of entries hold.
pub open spec fn held_by(m: Seq<(Seq<char>, JsonValue)>) -> Seq<(Seq<char>, Seq<JStep>)> {
    Seq::new(m.len(), |i: int| (m[i].0, json_contents(m[i].1)))
}

/// What a value made of its parts holds.
pub open spec fn part_contents(p: JsonPart) -> Seq<JStep> {
    match p {
        JsonPart::Null => seq![JStep::Null],
        JsonPart::Bool(b) => seq![JStep::Bool(b)],
        JsonPart::Int(n) => seq![JStep::Int(n)],
        JsonPart::Large(n) => seq![large_step(n)],
        JsonPart::Text(s) => seq![JStep::Text(s@)],
        JsonPart::Array(vs) => list_contents(vs@).push(JStep::Array(vs@.len() as usize)),
        JsonPart::Object(m) => entry_contents(held_by(keyed(m@))).push(
            JStep::Object(m@.len() as usize),
        ),
    }
}

/// The step that builds an unsigned integer: a signed one where it fits.
pub open spec fn large_step(n: u64) -> JStep {
    if n <= i64::MAX {
        JStep::Int(n as i64)
    } else {
        JStep::Large(n)
    }
}

/// Makes a `serde_json::Value`, variant by variant. Claims that it holds what it is made
/// of; an object keeps the order of its keys, and each of them, since they ascend.
#[verifier::external_body]
fn make_value(p: JsonPart) -> (r: JsonValue)
    requires
        p matches JsonPart::Object(m) ==> ascending(keyed(m@)),
    ensures
        json_contents(r) == part_contents(p),
{
    match p {
        JsonPart::Null => JsonValue::Null,
        JsonPart::Bool(b) => b.into(),
        JsonPart::Int(n) => n.into(),
        JsonPart::Large(n) => n.into(),
        JsonPart::Text(s) => s.into(),
        JsonPart::Array(vs) => vs.into(),
        JsonPart::Object(m) => m.into_iter().collect(),
    }
}

/// Calls `serde_json::to_string_pretty` on a `serde_json::Value`. Claims that the text, or
/// the message of the error, depends on what the value holds alone.
#[verifier::external_body]
fn write_pretty(v: &JsonValue) -> (r: Result<String, String>)
    ensures
        rendered_view(r) == json_pretty(json_contents(*v)),
{
    serde_json::to_string_pretty(v).map_err(|e| e.to_string())
}

/// Calls `serde_json::to_string` on a `serde_json::Value`. Claims that the text, or the
/// message of the error, depends on what the value holds alone.
#[verifier::external_body]
fn write_compact(v: &JsonValue) -> (r: Result<String, String>)
    ensures
        rendered_view(r) == json_compact(json_contents(*v)),
{
    serde_json::to_string(v).map_err(|e| e.to_string())
}

/// Calls `serde_yaml::to_string` on a `serde_json::Value`. Claims that the text, or the
/// message of the error, depends on what the value holds alone.
#[verifier::external_body]
fn write_yaml(v: &JsonValue) -> (r: Result<String, String>)
    ensures
        rendered_view(r) == json_as_yaml(json_contents(*v)),
{
    serde_yaml::to_string(v).map_err(|e| e.to_string())
}

/// Each of some values holds part of what they hold together.
proof fn lemma_all_contents(vs: Seq<&JsonValue>, i: int)
    requires
        0 <= i < vs.len(),
    ensures
        json_contents(*vs[i]).len() <= all_contents(vs).len(),
    decreases vs.len(),
{
    if i < vs.len() - 1 {
        lemma_all_contents(vs.drop_last(), i);
    }
}

/// Each of some entries holds part of what they hold together.
proof fn lemma_pair_contents(ps: Seq<(&String, &JsonValue)>, i: int)
    requires
        0 <= i < ps.len(),
    ensures
        json_contents(*ps[i].1).len() <= pair_contents(ps).len(),
    decreases ps.len(),
{
    if i < ps.len() - 1 {
        lemma_pair_contents(ps.drop_last(), i);
    }
}

/// Appends a step.
fn push_step(out: &mut Vec<JsonStep>, x: JsonStep)
    ensures
        jsteps(final(out)@) == jsteps(old(out)@).push(x@),
{
    let ghost before = out@;
    out.push(x);
    assert(jsteps(out@) =~= jsteps(before).push(x@));
}

/// Appends what a value holds.
fn push_contents(out: &mut Vec<JsonStep>, v: &JsonValue)
    ensures
        jsteps(final(out)@) == jsteps(old(out)@) + json_contents(*v),
    decreases json_contents(*v).len(),
{
    let ghost before = jsteps(out@);
    match open_value(v) {
        JsonNode::Null => {
            push_step(out, JsonStep::Null);
        },
        JsonNode::Bool(b) => {
            push_step(out, JsonStep::Bool(b));
        },
        JsonNode::Number(n) => {
            push_step(out, open_number(n));
        },
        JsonNode::Text(s) => {
            push_step(out, JsonStep::Text(s));
        },
        JsonNode::Array(vs) => {
            let mut i: usize = 0;
            assert(vs@.take(0) =~= seq![]);
            assert(before + all_contents(vs@.take(0)) =~= before);
            while i < vs.len()
                invariant
                    i <= vs.len(),
                    json_contents(*v) == all_contents(vs@).push(JStep::Array(vs@.len() as usize)),
                    jsteps(out@) == before + all_contents(vs@.take(i as int)),
                decreases vs.len() - i,
            {
                proof {
                    lemma_all_contents(vs@, i as int);
                    assert(vs@.take(i + 1).drop_last() =~= vs@.take(i as int));
                }
                push_contents(out, vs[i]);
                i += 1;
                assert(jsteps(out@) =~= before + all_contents(vs@.take(i as int)));
            }
            assert(vs@.take(i as int) =~= vs@);
            push_step(out, JsonStep::Array(i));
        },
        JsonNode::Object(ps) => {
            let mut i: usize = 0;
            assert(ps@.take(0) =~= seq![]);
            assert(before + pair_contents(ps@.take(0)) =~= before);
            while i < ps.len()
                invariant
                    i <= ps.len(),
                    json_contents(*v) == pair_contents(ps@).push(
                        JStep::Object(ps@.len() as usize),
                    ),
                    jsteps(out@) == before + pair_contents(ps@.take(i as int)),
                decreases ps.len() - i,
            {
                proof {
                    lemma_pair_contents(ps@, i as int);
                    assert(ps@.take(i + 1).drop_last() =~= ps@.take(i as int));
                }
                push_step(out, JsonStep::Text(ps[i].0.clone()));
                push_contents(out, ps[i].1);
                i += 1;
                assert(jsteps(out@) =~= before + pair_contents(ps@.take(i as int)));
            }
            assert(ps@.take(i as int) =~= ps@);
            push_step(out, JsonStep::Object(i));
        },
    }
    assert(jsteps(out@) =~= before + json_contents(*v));
}

/// What the `serde_json::Value` of a floating-point number holds: nothing but null where
/// JSON has no such number.
pub open spec fn float_json(f: (u64, Seq<char>)) -> Seq<JStep> {
    match json_of_yaml(float_contents(f)) {
        Ok(s) => s,
        Err(_) => seq![JStep::Null],
    }
}

/// What the `serde_json::Value` of a document holds. The keys of an object ascend.
pub open spec fn held(v: Js) -> Seq<JStep>
    decreases v,
{
    match v {
        Js::Null => seq![JStep::Null],
        Js::Bool(b) => seq![JStep::Bool(b)],
        Js::Int(n) => seq![JStep::Int(n)],
        Js::Large(n) => seq![large_step(n)],
        Js::Float(f) => float_json(f),
        Js::Text(s) => seq![JStep::Text(s)],
        Js::Array(items) => held_items(items).push(JStep::Array(items.len() as usize)),
        Js::Object(m) => object_contents(held_members(m)),
    }
}

/// What the items of an array hold, one after the other.
pub open spec fn held_items(items: Seq<Js>) -> Seq<JStep>
    decreases items,
{
    if items.len() == 0 {
        seq![]
    } else {
        held_items(items.drop_last()) + held(items.last())
    }
}

/// What the entries of an object hold, in ascending order of their keys: of equal keys,
/// the last one counts.
pub open spec fn held_members(m: Seq<(Seq<char>, Js)>) -> Seq<(Seq<char>, Seq<JStep>)>
    decreases m,
{
    if m.len() == 0 {
        seq![]
    } else {
        with_entry(held_members(m.drop_last()), m.last().0, held(m.last().1))
    }
}

/// What an object of entries holds.
pub open spec fn object_contents(m: Seq<(Seq<char>, Seq<JStep>)>) -> Seq<JStep> {
    entry_contents(m).push(JStep::Object(m.len() as usize))
}

/// What the values of entries hold once a key is set.
proof fn lemma_held_by_entry(m: Seq<(Seq<char>, JsonValue)>, key: Seq<char>, v: JsonValue)
    ensures
        held_by(with_entry(m, key, v)) == with_entry(held_by(m), key, json_contents(v)),
    decreases m.len(),
{
    let h = held_by(m);
    if m.len() > 0 {
        assert(h[0] == (m[0].0, json_contents(m[0].1)));
        assert(held_by(m.skip(1)) =~= h.skip(1));
        if m[0].0 != key && !text_less(key, m[0].0) {
            lemma_held_by_entry(m.skip(1), key, v);
        }
    }
    assert(held_by(with_entry(m, key, v)) =~= with_entry(h, key, json_contents(v)));
}

/// Makes the `serde_json::Value` of a document.
fn to_value(v: &Json) -> (r: JsonValue)
    ensures
        json_contents(r) == held(js(*v)),
    decreases v,
{
    match v {
        Json::Null => make_value(JsonPart::Null),
        Json::Bool(b) => make_value(JsonPart::Bool(*b)),
        Json::Int(n) => make_value(JsonPart::Int(*n)),
        Json::Large(n) => make_value(JsonPart::Large(*n)),
        Json::Float(f) => match convert_value(&make_float(f)) {
            Ok(j) => j,
            Err(_) => make_value(JsonPart::Null),
        },
        Json::Text(s) => make_value(JsonPart::Text(s.clone())),
        Json::Array(items) => {
            proof {
                lemma_js_array(*items);
            }
            let ghost all = jss(items@);
            let mut out: Vec<JsonValue> = Vec::new();
            let mut i: usize = 0;
            assert(all.take(0) =~= seq![]);
            while i < items.len()
                invariant
                    *v == Json::Array(*items),
                    all == jss(items@),
                    i <= items.len(),
                    out.len() == i,
                    list_contents(out@) == held_items(all.take(i as int)),
                decreases items.len() - i,
            {
                proof {
                    broadcast use vstd::std_specs::vec::axiom_vec_index_decreases;

                    assert(decreases_to!(*items => items[i as int]));
                    assert(decreases_to!(*v => v->Array_0));
                    assert(all.take(i + 1).drop_last() =~= all.take(i as int));
                }
                let x: JsonValue = to_value(&items[i]);
                let ghost before = out@;
                out.push(x);
                assert(out@.drop_last() =~= before);
                i += 1;
            }
            assert(all.take(i as int) =~= all);
            make_value(JsonPart::Array(out))
        },
        Json::Object(m) => {
            proof {
                lemma_js_object(*m);
            }
            let ghost all = members(m@);
            let mut out: Vec<(String, JsonValue)> = Vec::new();
            let mut i: usize = 0;
            assert(all.take(0) =~= seq![]);
            assert(held_by(keyed(out@)) =~= seq![]);
            while i < m.len()
                invariant
                    *v == Json::Object(*m),
                    all == members(m@),
                    i <= m.len(),
                    ascending(keyed(out@)),
                    held_by(keyed(out@)) == held_members(all.take(i as int)),
                decreases m.len() - i,
            {
                proof {
                    broadcast use vstd::std_specs::vec::axiom_vec_index_decreases;

                    assert(decreases_to!(*m => m[i as int]));
                    assert(decreases_to!(m[i as int] => m[i as int].1));
                    assert(decreases_to!(*v => v->Object_0));
                    assert(all.take(i + 1).drop_last() =~= all.take(i as int));
                }
                let x: JsonValue = to_value(&m[i].1);
                proof {
                    lemma_held_by_entry(keyed(out@), m@[i as int].0@, x);
                    lemma_with_entry_ascending(keyed(out@), m@[i as int].0@, x);
                }
                put_entry(&mut out, m[i].0.as_str(), x);
                i += 1;
            }
            assert(all.take(i as int) =~= all);
            assert(held_by(keyed(out@)).len() == out@.len());
            make_value(JsonPart::Object(out))
        },
    }
}

/// Writes a document over several lines.
pub fn to_pretty(v: &Json) -> (r: Result<String, String>)
    ensures
        rendered_view(r) == json_pretty(held(js(*v))),
{
    write_pretty(&to_value(v))
}

/// Writes a document on one line.
pub fn to_compact(v: &Json) -> (r: Result<String, String>)
    ensures
        rendered_view(r) == json_compact(held(js(*v))),
{
    write_compact(&to_value(v))
}

/// Writes a document in YAML.
pub fn to_yaml(v: &Json) -> (r: Result<String, String>)
    ensures
        rendered_view(r) == json_as_yaml(held(js(*v))),
{
    write_yaml(&to_value(v))
}

// ── Documents from YAML ────────────────────────────────────────────────────

/// What `serde_json::to_value` makes of the value that `serde_yaml::from_str` reads, or
/// the message of the first error of the two.
pub open spec fn yaml_as_json(text: Seq<char>) -> Result<Seq<JStep>, Seq<char>> {
    match yaml_parsed(text) {
        Ok(document) => json_of_yaml(document),
        Err(e) => Err(e),
    }
}

/// What steps, or the message, are.
pub open spec fn steps_view(r: Result<Vec<JsonStep>, String>) -> Result<Seq<JStep>, Seq<char>> {
    match r {
        Ok(s) => Ok(jsteps(s@)),
        Err(m) => Err(m@),
    }
}

/// Reads a document in YAML as the steps that build it in JSON.
fn steps_from_yaml(text: &str) -> (r: Result<Vec<JsonStep>, String>)
    ensures
        steps_view(r) == yaml_as_json(text@),
{
    match read_value(text) {
        Err(e) => Err(e),
        Ok(v) => match convert_value(&v) {
            Err(e) => Err(e),
            Ok(j) => {
                let mut out: Vec<JsonStep> = Vec::new();
                push_contents(&mut out, &j);
                assert(jsteps(out@) =~= json_contents(j));
                Ok(out)
            },
        },
    }
}

/// The text of a document that is one.
pub open spec fn key_of(v: Js) -> Seq<char> {
    match v {
        Js::Text(s) => s,
        _ => seq![],
    }
}

/// Documents in pairs of a key and a value.
pub open spec fn paired(items: Seq<Js>) -> Seq<(Seq<char>, Js)> {
    Seq::new(items.len() / 2, |i: int| (key_of(items[2 * i]), items[2 * i + 1]))
}

/// The stack after one more step.
pub open spec fn stacked(stack: Seq<Js>, step: JStep) -> Seq<Js> {
    let n = stack.len() as int;
    match step {
        JStep::Null => stack.push(Js::Null),
        JStep::Bool(b) => stack.push(Js::Bool(b)),
        JStep::Int(i) => stack.push(Js::Int(i)),
        JStep::Large(u) => stack.push(Js::Large(u)),
        JStep::Float(f) => stack.push(Js::Float(f)),
        JStep::Text(s) => stack.push(Js::Text(s)),
        JStep::Array(k) => {
            let at = n - smaller(k as int, n);
            stack.take(at).push(Js::Array(stack.skip(at)))
        },
        JStep::Object(k) => {
            let at = n - 2 * smaller(k as int, n / 2);
            stack.take(at).push(Js::Object(paired(stack.skip(at))))
        },
    }
}

/// The stack that steps leave.
pub open spec fn stack_of(document: Seq<JStep>) -> Seq<Js>
    decreases document.len(),
{
    if document.len() == 0 {
        seq![]
    } else {
        stacked(stack_of(document.drop_last()), document.last())
    }
}

/// The document that steps build.
pub open spec fn built(document: Seq<JStep>) -> Js {
    let stack = stack_of(document);
    if stack.len() == 0 {
        Js::Null
    } else {
        stack.last()
    }
}

/// Puts documents in pairs of a key and a value.
fn pair_up(items: Vec<Json>) -> (r: Vec<(String, Json)>)
    requires
        items.len() % 2 == 0,
    ensures
        members(r@) == paired(jss(items@)),
{
    let ghost all = items@;
    let mut items: Vec<Json> = items;
    let mut out: Vec<(String, Json)> = Vec::new();
    assert(members(out@) =~= paired(jss(all)).skip(paired(jss(all)).len() as int));
    while items.len() >= 2
        invariant
            items.len() % 2 == 0,
            items@ == all.take(items@.len() as int),
            items@.len() <= all.len(),
            all.len() % 2 == 0,
            members(out@) == paired(jss(all)).skip(items@.len() as int / 2),
        decreases items.len(),
    {
        let ghost n = items@.len() as int;
        let v: Option<Json> = items.pop();
        let k: Option<Json> = items.pop();
        match (k, v) {
            (Some(k), Some(v)) => {
                let ghost before = out@;
                assert(k == all[n - 2] && v == all[n - 1]);
                let key: String = match k {
                    Json::Text(s) => s,
                    _ => String::new(),
                };
                assert(key@ =~= key_of(js(k)));
                out.insert(0, (key, v));
                assert(items@ =~= all.take(n - 2));
                assert(members(out@) =~= seq![(key@, js(v))] + members(before));
                assert(paired(jss(all))[n / 2 - 1] == (key@, js(v)));
                assert(members(out@) =~= paired(jss(all)).skip(n / 2 - 1));
            },
            _ => {},
        }
    }
    assert(paired(jss(all)).skip(0) =~= paired(jss(all)));
    out
}

/// Takes one step in building a document.
fn take_step(stack: &mut Vec<Json>, step: &JsonStep)
    ensures
        jss(final(stack)@) == stacked(jss(old(stack)@), step@),
{
    let ghost before = stack@;
    let n: usize = stack.len();
    let v: Json = match step {
        JsonStep::Null => Json::Null,
        JsonStep::Bool(b) => Json::Bool(*b),
        JsonStep::Int(i) => Json::Int(*i),
        JsonStep::Large(u) => Json::Large(*u),
        JsonStep::Float(f) => Json::Float(copy_float(f)),
        JsonStep::Text(s) => Json::Text(s.clone()),
        JsonStep::Array(k) => {
            let at: usize = if *k <= n {
                n - *k
            } else {
                0
            };
            let tail: Vec<Json> = stack.split_off(at);
            proof {
                assert(jss(tail@) =~= jss(before).skip(at as int));
                assert(jss(stack@) =~= jss(before).take(at as int));
                lemma_js_array(tail);
            }
            Json::Array(tail)
        },
        JsonStep::Object(k) => {
            let at: usize = if *k <= n / 2 {
                n - 2 * *k
            } else {
                n - 2 * (n / 2)
            };
            let tail: Vec<Json> = stack.split_off(at);
            assert(jss(tail@) =~= jss(before).skip(at as int));
            assert(jss(stack@) =~= jss(before).take(at as int));
            let pairs: Vec<(String, Json)> = pair_up(tail);
            proof {
                lemma_js_object(pairs);
            }
            Json::Object(pairs)
        },
    };
    let ghost rest = jss(stack@);
    stack.push(v);
    assert(jss(stack@) =~= rest.push(js(v)));
}

/// Builds a document from its steps.
pub fn build(document: &Vec<JsonStep>) -> (r: Json)
    ensures
        js(r) == built(jsteps(document@)),
{
    let ghost all = jsteps(document@);
    let mut stack: Vec<Json> = Vec::new();
    let mut i: usize = 0;
    assert(all.take(0) =~= seq![]);
    assert(jss(stack@) =~= seq![]);
    while i < document.len()
        invariant
            all == jsteps(document@),
            i <= document.len(),
            jss(stack@) == stack_of(all.take(i as int)),
        decreases document.len() - i,
    {
        assert(all.take(i + 1).drop_last() =~= all.take(i as int));
        take_step(&mut stack, &document[i]);
        i += 1;
    }
    assert(all.take(i as int) =~= all);
    match stack.pop() {
        Some(v) => v,
        None => Json::Null,
    }
}

/// What a document, or the message, is.
pub open spec fn document_view(r: Result<Json, String>) -> Result<Js, Seq<char>> {
    match r {
        Ok(v) => Ok(js(v)),
        Err(m) => Err(m@),
    }
}

/// Makes a document of a text in YAML.
pub fn from_yaml(text: &str) -> (r: Result<Json, String>)
    ensures
        document_view(r) == match yaml_as_json(text@) {
            Ok(s) => Ok::<Js, Seq<char>>(built(s)),
            Err(m) => Err(m),
        },
{
    match steps_from_yaml(text) {
        Ok(s) => Ok(build(&s)),
        Err(m) => Err(m),
    }
}

// ── Tables ─────────────────────────────────────────────────────────────────

/// A document on one line, or nothing where it cannot be written.
pub open spec fn compact_text(v: Js) -> Seq<char> {
    match json_compact(held(v)) {
        Ok(t) => t,
        Err(_) => seq![],
    }
}

/// The text of a document in a cell of a table: items of an array are listed, an
/// object is written in JSON.
pub open spec fn cell_text(v: Js) -> Seq<char>
    decreases v,
{
    match v {
        Js::Null => seq![],
        Js::Bool(b) => bool_text(b),
        Js::Int(n) => signed_decimal(n as int),
        Js::Large(n) => decimal(n as nat),
        Js::Float(_) => compact_text(v),
        Js::Text(s) => s,
        Js::Array(items) => joined(cell_texts(items), ", "@),
        Js::Object(_) => compact_text(v),
    }
}

/// The texts of some documents in cells of a table.
pub open spec fn cell_texts(items: Seq<Js>) -> Seq<Seq<char>>
    decreases items,
{
    Seq::new(
        items.len(),
        |i: int|
            if 0 <= i < items.len() {
                cell_text(items[i])
            } else {
                seq![]
            },
    )
}

/// Writes a document for a cell of a table.
pub fn json_to_cell_string(v: &Json) -> (r: String)
    ensures
        r@ == cell_text(js(*v)),
    decreases v,
{
    match v {
        Json::Null => String::new(),
        Json::Bool(b) => if *b {
            "true".to_owned()
        } else {
            "false".to_owned()
        },
        Json::Int(n) => integer_text(*n),
        Json::Large(n) => number_text(*n),
        Json::Float(_) | Json::Object(_) => match to_compact(v) {
            Ok(t) => t,
            Err(_) => String::new(),
        },
        Json::Text(s) => s.clone(),
        Json::Array(items) => {
            let mut parts: Vec<String> = Vec::new();
            let mut i: usize = 0;
            let ghost texts = cell_texts(jss(items@));
            assert(string_views(parts@) =~= texts.take(0));
            while i < items.len()
                invariant
                    *v == Json::Array(*items),
                    i <= items.len(),
                    texts == cell_texts(jss(items@)),
                    string_views(parts@) == texts.take(i as int),
                decreases items.len() - i,
            {
                proof {
                    broadcast use vstd::std_specs::vec::axiom_vec_index_decreases;

                    assert(decreases_to!(*items => items[i as int]));
                    assert(decreases_to!(*v => v->Array_0));
                }
                let t: String = json_to_cell_string(&items[i]);
                proof {
                    lemma_string_views_push(parts@, t);
                }
                parts.push(t);
                i += 1;
                assert(string_views(parts@) =~= texts.take(i as int));
            }
            assert(texts.take(i as int) =~= texts);
            proof {
                lemma_js_array(*items);
            }
            join_strings(&parts, ", ")
        },
    }
}

/// A table: its header and its rows.
pub type Table = (Seq<Seq<char>>, Seq<Seq<Seq<char>>>);

/// Ascending names with the keys of some entries.
pub open spec fn with_member_names(names: Seq<Seq<char>>, m: Seq<(Seq<char>, Js)>) -> Seq<Seq<char>>
    decreases m.len(),
{
    if m.len() == 0 {
        names
    } else {
        with_text(with_member_names(names, m.drop_last()), m.last().0)
    }
}

/// The keys of some objects, ascending, each once.
pub open spec fn object_names(items: Seq<Js>) -> Seq<Seq<char>>
    decreases items.len(),
{
    if items.len() == 0 {
        seq![]
    } else {
        with_member_names(object_names(items.drop_last()), items.last()->Object_0)
    }
}

/// The cell of an object under a key; empty where it lacks the key.
pub open spec fn member_cell(m: Seq<(Seq<char>, Js)>, key: Seq<char>) -> Seq<char> {
    match key_at(m, key, 0) {
        Some(i) => cell_text(m[i].1),
        None => seq![],
    }
}

/// The row of an object under some keys.
pub open spec fn member_row(m: Seq<(Seq<char>, Js)>, keys: Seq<Seq<char>>) -> Seq<Seq<char>> {
    Seq::new(keys.len(), |i: int| member_cell(m, keys[i]))
}

/// Whether all of some documents are objects.
pub open spec fn all_objects(items: Seq<Js>) -> bool {
    forall|i: int| 0 <= i < items.len() ==> (#[trigger] items[i]) is Object
}

/// Whether all of some documents are scalars.
pub open spec fn all_scalars(items: Seq<Js>) -> bool {
    forall|i: int|
        0 <= i < items.len() ==> !((#[trigger] items[i]) is Object) && !(items[i] is Array)
}

/// The table of an array: one row per object under the keys of all, or one column of
/// scalars. Any other array makes no table.
pub open spec fn array_table(items: Seq<Js>) -> Option<Table> {
    if items.len() == 0 {
        Some((seq![], seq![]))
    } else if all_objects(items) {
        let header = object_names(items);
        Some((header, Seq::new(items.len(), |i: int| member_row(items[i]->Object_0, header))))
    } else if all_scalars(items) {
        Some((seq!["value"@], Seq::new(items.len(), |i: int| seq![cell_text(items[i])])))
    } else {
        None
    }
}

/// The table of a document: that of an array, or one row for an object.
pub open spec fn table_of(v: Js) -> Option<Table> {
    match v {
        Js::Array(items) => array_table(items),
        Js::Object(_) => array_table(seq![v]),
        _ => None,
    }
}

/// What a list of lists of texts is.
pub open spec fn row_views(rows: Seq<Vec<String>>) -> Seq<Seq<Seq<char>>> {
    Seq::new(rows.len(), |i: int| string_views(rows[i]@))
}

/// What a table that may be missing is.
pub open spec fn table_view(t: Option<(Vec<String>, Vec<Vec<String>>)>) -> Option<Table> {
    match t {
        Some((h, rows)) => Some((string_views(h@), row_views(rows@))),
        None => None,
    }
}

/// Adds the keys of an object to ascending names.
fn collect_names(names: &mut Vec<String>, v: &Json)
    requires
        js(*v) is Object,
    ensures
        string_views(final(names)@) == with_member_names(
            string_views(old(names)@),
            js(*v)->Object_0,
        ),
{
    match v {
        Json::Object(m) => {
            proof {
                lemma_js_object(*m);
            }
            let ghost before = string_views(names@);
            let ghost all = members(m@);
            let mut i: usize = 0;
            assert(all.take(0) =~= seq![]);
            while i < m.len()
                invariant
                    all == members(m@),
                    i <= m.len(),
                    string_views(names@) == with_member_names(before, all.take(i as int)),
                decreases m.len() - i,
            {
                assert(all.take(i + 1).drop_last() =~= all.take(i as int));
                insert_text(names, m[i].0.as_str());
                i += 1;
            }
            assert(all.take(i as int) =~= all);
        },
        _ => {},
    }
}

/// Writes the row of an object.
fn object_row(v: &Json, keys: &Vec<String>) -> (r: Vec<String>)
    requires
        js(*v) is Object,
    ensures
        string_views(r@) == member_row(js(*v)->Object_0, string_views(keys@)),
{
    let mut out: Vec<String> = Vec::new();
    match v {
        Json::Object(m) => {
            proof {
                lemma_js_object(*m);
            }
            let ghost mv = members(m@);
            let ghost row = member_row(mv, string_views(keys@));
            let mut i: usize = 0;
            assert(string_views(out@) =~= row.take(0));
            while i < keys.len()
                invariant
                    mv == members(m@),
                    row == member_row(mv, string_views(keys@)),
                    i <= keys.len(),
                    string_views(out@) == row.take(i as int),
                decreases keys.len() - i,
            {
                let key: &str = keys[i].as_str();
                let mut j: usize = 0;
                while j < m.len() && !same_text(m[j].0.as_str(), key)
                    invariant
                        mv == members(m@),
                        j <= m.len(),
                        key_at(mv, key@, 0) == key_at(mv, key@, j as int),
                    decreases m.len() - j,
                {
                    j += 1;
                }
                let t: String = if j < m.len() {
                    json_to_cell_string(&m[j].1)
                } else {
                    String::new()
                };
                proof {
                    lemma_string_views_push(out@, t);
                    assert(t@ =~= row[i as int]);
                    assert(string_views(out@).push(t@) =~= row.take(i + 1));
                }
                out.push(t);
                i += 1;
            }
            assert(row.take(i as int) =~= row);
        },
        _ => {},
    }
    out
}

/// Makes a table of some documents.
fn items_to_table(items: &Vec<&Json>) -> (r: Option<(Vec<String>, Vec<Vec<String>>)>)
    ensures
        table_view(r) == array_table(ref_jss(items@)),
{
    let ghost all = ref_jss(items@);
    let mut objects: bool = true;
    let mut scalars: bool = true;
    let mut i: usize = 0;
    while i < items.len()
        invariant
            all == ref_jss(items@),
            i <= items.len(),
            objects == all_objects(all.take(i as int)),
            scalars == all_scalars(all.take(i as int)),
        decreases items.len() - i,
    {
        let ghost now = all.take(i + 1);
        assert(now[i as int] == js(*items@[i as int]));
        assert(forall|k: int| 0 <= k < i ==> #[trigger] now[k] == all.take(i as int)[k]);
        assert(forall|k: int| 0 <= k < i ==> #[trigger] all.take(i as int)[k] == now[k]);
        match items[i] {
            Json::Object(_) => {
                scalars = false;
            },
            Json::Array(_) => {
                objects = false;
                scalars = false;
            },
            _ => {
                objects = false;
            },
        }
        i += 1;
    }
    assert(all.take(i as int) =~= all);
    let mut header: Vec<String> = Vec::new();
    let mut rows: Vec<Vec<String>> = Vec::new();
    assert(string_views(header@) =~= seq![]);
    assert(row_views(rows@) =~= seq![]);
    if items.len() == 0 {
        return Some((header, rows));
    }
    if objects {
        let mut k: usize = 0;
        assert(all.take(0) =~= seq![]);
        while k < items.len()
            invariant
                all == ref_jss(items@),
                all_objects(all),
                k <= items.len(),
                string_views(header@) == object_names(all.take(k as int)),
            decreases items.len() - k,
        {
            assert(all.take(k + 1).drop_last() =~= all.take(k as int));
            assert(all[k as int] == js(*items@[k as int]));
            collect_names(&mut header, items[k]);
            k += 1;
        }
        assert(all.take(k as int) =~= all);
        let ghost hv = string_views(header@);
        let ghost want = Seq::new(all.len(), |i: int| member_row(all[i]->Object_0, hv));
        let mut j: usize = 0;
        assert(row_views(rows@) =~= want.take(0));
        while j < items.len()
            invariant
                all == ref_jss(items@),
                all_objects(all),
                hv == string_views(header@),
                want == Seq::new(all.len(), |i: int| member_row(all[i]->Object_0, hv)),
                j <= items.len(),
                row_views(rows@) == want.take(j as int),
            decreases items.len() - j,
        {
            assert(all[j as int] == js(*items@[j as int]));
            let row: Vec<String> = object_row(items[j], &header);
            let ghost before = row_views(rows@);
            rows.push(row);
            assert(row_views(rows@) =~= before.push(string_views(row@)));
            j += 1;
            assert(row_views(rows@) =~= want.take(j as int));
        }
        assert(want.take(j as int) =~= want);
        return Some((header, rows));
    }
    if scalars {
        header.push("value".to_owned());
        assert(string_views(header@) =~= seq!["value"@]);
        let ghost want = Seq::new(all.len(), |i: int| seq![cell_text(all[i])]);
        let mut j: usize = 0;
        assert(row_views(rows@) =~= want.take(0));
        while j < items.len()
            invariant
                all == ref_jss(items@),
                want == Seq::new(all.len(), |i: int| seq![cell_text(all[i])]),
                j <= items.len(),
                row_views(rows@) == want.take(j as int),
            decreases items.len() - j,
        {
            assert(all[j as int] == js(*items@[j as int]));
            let mut row: Vec<String> = Vec::new();
            row.push(json_to_cell_string(items[j]));
            assert(string_views(row@) =~= want[j as int]);
            let ghost before = row_views(rows@);
            rows.push(row);
            assert(row_views(rows@) =~= before.push(string_views(row@)));
            j += 1;
            assert(row_views(rows@) =~= want.take(j as int));
        }
        assert(want.take(j as int) =~= want);
        return Some((header, rows));
    }
    None
}

/// What references to documents are.
pub open spec fn ref_jss(items: Seq<&Json>) -> Seq<Js> {
    Seq::new(items.len(), |i: int| js(*items[i]))
}

/// Makes a table of a document, where it is one.
pub fn json_to_table(value: &Json) -> (r: Option<(Vec<String>, Vec<Vec<String>>)>)
    ensures
        table_view(r) == table_of(js(*value)),
{
    let mut refs: Vec<&Json> = Vec::new();
    match value {
        Json::Array(items) => {
            proof {
                lemma_js_array(*items);
            }
            let mut i: usize = 0;
            assert(ref_jss(refs@) =~= jss(items@).take(0));
            while i < items.len()
                invariant
                    i <= items.len(),
                    ref_jss(refs@) == jss(items@).take(i as int),
                decreases items.len() - i,
            {
                let ghost before = ref_jss(refs@);
                refs.push(&items[i]);
                assert(ref_jss(refs@) =~= before.push(js(items@[i as int])));
                i += 1;
                assert(ref_jss(refs@) =~= jss(items@).take(i as int));
            }
            assert(jss(items@).take(i as int) =~= jss(items@));
            items_to_table(&refs)
        },
        Json::Object(m) => {
            proof {
                lemma_js_object(*m);
            }
            refs.push(value);
            assert(ref_jss(refs@) =~= seq![js(*value)]);
            items_to_table(&refs)
        },
        _ => None,
    }
}

} // verus!
