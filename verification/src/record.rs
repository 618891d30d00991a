//! Records and their values.

use crate::float::{
    copy_float, float_of_int, float_order, int_bits, int_of_float, order_floats, truncated, Float,
};
use crate::frontmatter::{extracted, split_note};
use crate::links::{graph_view, Graph, LinkGraph};
use crate::path::{
    file_name, file_name_of, folder_name, folder_name_of, relative, relative_to, stem, stem_of,
};
use crate::text::{
    byte_len, bytes, cat3, contains, has, integer_of, is_text, integer_text, join_strings, joined,
    lemma_string_views_push, lemma_text_order, order_texts, parse_integer, same_text,
    signed_decimal, string_views, text_less, to_chars, Order,
};
use crate::yaml::{float_reading, float_view, read_float};
use vstd::prelude::*;

pub mod fields;
pub mod laws;

verus! {

/// A value of the frontmatter.
#[derive(Debug, PartialEq, Eq)]
pub enum Value {
    Null,
    String(String),
    Integer(i64),
    Float(Float),
    Bool(bool),
    List(Vec<Value>),
    /// Keys with their values, the keys ascending.
    Mapping(Vec<(String, Value)>),
}

/// A value with its texts and lists as sequences.
pub enum Val {
    Null,
    Text(Seq<char>),
    Int(i64),
    Float((u64, Seq<char>)),
    Bool(bool),
    List(Seq<Val>),
    Mapping(Seq<(Seq<char>, Val)>),
}

/// What a value is.
pub open spec fn val(v: Value) -> Val
    decreases v,
{
    match v {
        Value::Null => Val::Null,
        Value::String(s) => Val::Text(s@),
        Value::Integer(n) => Val::Int(n),
        Value::Float(f) => Val::Float(f@),
        Value::Bool(b) => Val::Bool(b),
        Value::List(items) => Val::List(
            Seq::new(
                items@.len(),
                |i: int|
                    if 0 <= i < items@.len() {
                        val(items@[i])
                    } else {
                        Val::Null
                    },
            ),
        ),
        Value::Mapping(m) => Val::Mapping(
            Seq::new(
                m@.len(),
                |i: int|
                    if 0 <= i < m@.len() {
                        (m@[i].0@, val(m@[i].1))
                    } else {
                        (seq![], Val::Null)
                    },
            ),
        ),
    }
}

/// What values are.
pub open spec fn vals(items: Seq<Value>) -> Seq<Val> {
    Seq::new(items.len(), |i: int| val(items[i]))
}

/// What keys and values are.
pub open spec fn entries(m: Seq<(String, Value)>) -> Seq<(Seq<char>, Val)> {
    Seq::new(m.len(), |i: int| (m[i].0@, val(m[i].1)))
}

/// A list is what its items are.
pub proof fn lemma_val_list(items: Vec<Value>)
    ensures
        val(Value::List(items)) == Val::List(vals(items@)),
{
    assert(val(Value::List(items))->List_0 =~= vals(items@));
}

/// A mapping is what its entries are.
pub proof fn lemma_val_mapping(m: Vec<(String, Value)>)
    ensures
        val(Value::Mapping(m)) == Val::Mapping(entries(m@)),
{
    assert(val(Value::Mapping(m))->Mapping_0 =~= entries(m@));
}

/// Values followed by one more.
pub proof fn lemma_vals_push(items: Seq<Value>, x: Value)
    ensures
        vals(items.push(x)) == vals(items).push(val(x)),
{
    assert(vals(items.push(x)) =~= vals(items).push(val(x)));
}

/// Entries followed by one more.
pub proof fn lemma_entries_push(m: Seq<(String, Value)>, x: (String, Value))
    ensures
        entries(m.push(x)) == entries(m).push((x.0@, val(x.1))),
{
    assert(entries(m.push(x)) =~= entries(m).push((x.0@, val(x.1))));
}

/// Copies a value.
pub fn copy_value(v: &Value) -> (r: Value)
    ensures
        val(r) == val(*v),
    decreases v,
{
    match v {
        Value::Null => Value::Null,
        Value::String(s) => Value::String(s.clone()),
        Value::Integer(n) => Value::Integer(*n),
        Value::Float(f) => Value::Float(copy_float(f)),
        Value::Bool(b) => Value::Bool(*b),
        Value::List(items) => {
            let mut out: Vec<Value> = Vec::new();
            let mut i: usize = 0;
            assert(vals(out@) =~= vals(items@).take(0));
            while i < items.len()
                invariant
                    *v == Value::List(*items),
                    i <= items.len(),
                    vals(out@) == vals(items@).take(i as int),
                decreases items.len() - i,
            {
                proof {
                    broadcast use vstd::std_specs::vec::axiom_vec_index_decreases;

                    assert(decreases_to!(*items => items[i as int]));
                    assert(decreases_to!(*v => v->List_0));
                }
                let c: Value = copy_value(&items[i]);
                proof {
                    lemma_vals_push(out@, c);
                }
                out.push(c);
                i += 1;
                assert(vals(out@) =~= vals(items@).take(i as int));
            }
            assert(vals(out@) =~= vals(items@));
            proof {
                lemma_val_list(out);
                lemma_val_list(*items);
            }
            Value::List(out)
        },
        Value::Mapping(m) => {
            let mut out: Vec<(String, Value)> = Vec::new();
            let mut i: usize = 0;
            assert(entries(out@) =~= entries(m@).take(0));
            while i < m.len()
                invariant
                    *v == Value::Mapping(*m),
                    i <= m.len(),
                    entries(out@) == entries(m@).take(i as int),
                decreases m.len() - i,
            {
                proof {
                    broadcast use vstd::std_specs::vec::axiom_vec_index_decreases;

                    assert(decreases_to!(*m => m[i as int]));
                    assert(decreases_to!(m[i as int] => m[i as int].1));
                    assert(decreases_to!(*v => v->Mapping_0));
                }
                let c: (String, Value) = (m[i].0.clone(), copy_value(&m[i].1));
                proof {
                    lemma_entries_push(out@, c);
                }
                out.push(c);
                i += 1;
                assert(entries(out@) =~= entries(m@).take(i as int));
            }
            assert(entries(out@) =~= entries(m@));
            proof {
                lemma_val_mapping(out);
                lemma_val_mapping(*m);
            }
            Value::Mapping(out)
        },
    }
}

/// Copies keys and values.
pub fn copy_fields(m: &Vec<(String, Value)>) -> (r: Vec<(String, Value)>)
    ensures
        entries(r@) == entries(m@),
{
    let mut out: Vec<(String, Value)> = Vec::new();
    let mut i: usize = 0;
    assert(entries(out@) =~= entries(m@).take(0));
    while i < m.len()
        invariant
            i <= m.len(),
            entries(out@) == entries(m@).take(i as int),
        decreases m.len() - i,
    {
        let c: (String, Value) = (m[i].0.clone(), copy_value(&m[i].1));
        proof {
            lemma_entries_push(out@, c);
        }
        out.push(c);
        i += 1;
        assert(entries(out@) =~= entries(m@).take(i as int));
    }
    assert(entries(out@) =~= entries(m@));
    out
}

impl Clone for Value {
    fn clone(&self) -> (r: Self)
        ensures
            val(r) == val(*self),
    {
        copy_value(self)
    }
}

// ── Equality ───────────────────────────────────────────────────────────────

/// Whether two values are equal. Values of different kinds are not; numbers are
/// equal by value, and what is no number equals nothing.
pub open spec fn equal_vals(a: Val, b: Val) -> bool
    decreases a,
{
    match (a, b) {
        (Val::Null, Val::Null) => true,
        (Val::Text(x), Val::Text(y)) => x == y,
        (Val::Int(x), Val::Int(y)) => x == y,
        (Val::Float(x), Val::Float(y)) => float_order(x.0, y.0) == Some(Order::Equal),
        (Val::Bool(x), Val::Bool(y)) => x == y,
        (Val::List(x), Val::List(y)) => x.len() == y.len() && forall|i: int|
            0 <= i < x.len() ==> equal_vals(#[trigger] x[i], y[i]),
        (Val::Mapping(x), Val::Mapping(y)) => x.len() == y.len() && forall|i: int|
            0 <= i < x.len() ==> (#[trigger] x[i]).0 == y[i].0 && equal_vals(x[i].1, y[i].1),
        _ => false,
    }
}

/// Tells whether two values are equal.
pub fn equal_values(a: &Value, b: &Value) -> (r: bool)
    ensures
        r == equal_vals(val(*a), val(*b)),
    decreases a,
{
    match (a, b) {
        (Value::Null, Value::Null) => true,
        (Value::String(x), Value::String(y)) => same_text(x.as_str(), y.as_str()),
        (Value::Integer(x), Value::Integer(y)) => *x == *y,
        (Value::Float(x), Value::Float(y)) => match order_floats(x.bits, y.bits) {
            Some(o) => o == Order::Equal,
            None => false,
        },
        (Value::Bool(x), Value::Bool(y)) => *x == *y,
        (Value::List(x), Value::List(y)) => {
            proof {
                lemma_val_list(*x);
                lemma_val_list(*y);
            }
            if x.len() != y.len() {
                return false;
            }
            let mut i: usize = 0;
            while i < x.len()
                invariant
                    *a == Value::List(*x),
                    x.len() == y.len(),
                    i <= x.len(),
                    val(*a) == Val::List(vals(x@)),
                    val(*b) == Val::List(vals(y@)),
                    forall|k: int| 0 <= k < i ==> equal_vals(#[trigger] vals(x@)[k], vals(y@)[k]),
                decreases x.len() - i,
            {
                proof {
                    broadcast use vstd::std_specs::vec::axiom_vec_index_decreases;

                    assert(decreases_to!(*x => x[i as int]));
                    assert(decreases_to!(*a => a->List_0));
                }
                if !equal_values(&x[i], &y[i]) {
                    assert(!equal_vals(vals(x@)[i as int], vals(y@)[i as int]));
                    return false;
                }
                i += 1;
            }
            true
        },
        (Value::Mapping(x), Value::Mapping(y)) => {
            proof {
                lemma_val_mapping(*x);
                lemma_val_mapping(*y);
            }
            if x.len() != y.len() {
                return false;
            }
            let mut i: usize = 0;
            while i < x.len()
                invariant
                    *a == Value::Mapping(*x),
                    x.len() == y.len(),
                    i <= x.len(),
                    val(*a) == Val::Mapping(entries(x@)),
                    val(*b) == Val::Mapping(entries(y@)),
                    forall|k: int|
                        0 <= k < i ==> (#[trigger] entries(x@)[k]).0 == entries(y@)[k].0
                            && equal_vals(entries(x@)[k].1, entries(y@)[k].1),
                decreases x.len() - i,
            {
                proof {
                    broadcast use vstd::std_specs::vec::axiom_vec_index_decreases;

                    assert(decreases_to!(*x => x[i as int]));
                    assert(decreases_to!(x[i as int] => x[i as int].1));
                    assert(decreases_to!(*a => a->Mapping_0));
                }
                let ghost p = entries(x@)[i as int];
                let ghost q = entries(y@)[i as int];
                if !same_text(x[i].0.as_str(), y[i].0.as_str()) || !equal_values(&x[i].1, &y[i].1) {
                    assert(p.0 != q.0 || !equal_vals(p.1, q.1));
                    return false;
                }
                i += 1;
            }
            true
        },
        _ => false,
    }
}

// ── Showing a value ────────────────────────────────────────────────────────

/// A boolean as a text.
pub open spec fn bool_text(b: bool) -> Seq<char> {
    if b {
        "true"@
    } else {
        "false"@
    }
}

/// The text that a value is shown as.
pub open spec fn shown(v: Val) -> Seq<char>
    decreases v,
{
    match v {
        Val::Null => seq![],
        Val::Text(s) => s,
        Val::Int(n) => signed_decimal(n as int),
        Val::Float(f) => f.1,
        Val::Bool(b) => bool_text(b),
        Val::List(items) => joined(shown_items(items), ", "@),
        Val::Mapping(m) => joined(shown_entries(m), ", "@),
    }
}

/// The texts that the items of a list are shown as.
pub open spec fn shown_items(items: Seq<Val>) -> Seq<Seq<char>>
    decreases items,
{
    Seq::new(
        items.len(),
        |i: int|
            if 0 <= i < items.len() {
                shown(items[i])
            } else {
                seq![]
            },
    )
}

/// The texts that the entries of a mapping are shown as.
pub open spec fn shown_entries(m: Seq<(Seq<char>, Val)>) -> Seq<Seq<char>>
    decreases m,
{
    Seq::new(
        m.len(),
        |i: int|
            if 0 <= i < m.len() {
                m[i].0 + ": "@ + shown(m[i].1)
            } else {
                seq![]
            },
    )
}

/// The name of a value's kind.
pub open spec fn kind(v: Val) -> Seq<char> {
    match v {
        Val::Null => "null"@,
        Val::Text(_) => "string"@,
        Val::Int(_) => "integer"@,
        Val::Float(_) => "float"@,
        Val::Bool(_) => "bool"@,
        Val::List(_) => "list"@,
        Val::Mapping(_) => "map"@,
    }
}

/// Whether a value is null or holds nothing.
pub open spec fn is_blank(v: Val) -> bool {
    match v {
        Val::Null => true,
        Val::Text(s) => s.len() == 0,
        Val::List(l) => l.len() == 0,
        Val::Mapping(m) => m.len() == 0,
        _ => false,
    }
}

/// The integer that a value stands for.
pub open spec fn int_of(v: Val) -> Option<int> {
    match v {
        Val::Int(n) => Some(n as int),
        Val::Float(f) => Some(truncated(f.0)),
        Val::Text(s) => integer_of(s),
        _ => None,
    }
}

/// Whether a list holds an item that is shown as the text, or a text holds it.
pub open spec fn lists(v: Val, needle: Seq<char>) -> bool {
    match v {
        Val::List(items) => shown_items(items).contains(needle),
        Val::Text(s) => has(s, needle),
        _ => false,
    }
}

impl Value {
    /// The text of a text value.
    pub fn as_str(&self) -> (r: Option<&str>)
        ensures
            match r {
                Some(s) => val(*self) == Val::Text(s@),
                None => !(val(*self) is Text),
            },
    {
        match self {
            Value::String(s) => Some(s.as_str()),
            _ => None,
        }
    }

    /// The integer that the value stands for: an integer, a number without its
    /// fraction, or a text that reads as an integer.
    pub fn as_integer(&self) -> (r: Option<i64>)
        ensures
            match r {
                Some(n) => int_of(val(*self)) == Some(n as int),
                None => int_of(val(*self)) is None,
            },
    {
        match self {
            Value::Integer(n) => Some(*n),
            Value::Float(f) => Some(int_of_float(f.bits)),
            Value::String(s) => parse_integer(s.as_str()),
            _ => None,
        }
    }

    /// Tells whether a list holds an item shown as the needle, or a text holds it.
    pub fn list_contains(&self, needle: &str) -> (r: bool)
        ensures
            r == lists(val(*self), needle@),
    {
        match self {
            Value::List(items) => {
                proof {
                    lemma_val_list(*items);
                }
                let ghost texts = shown_items(vals(items@));
                let mut i: usize = 0;
                while i < items.len()
                    invariant
                        i <= items.len(),
                        texts == shown_items(vals(items@)),
                        val(*self) == Val::List(vals(items@)),
                        forall|k: int| 0 <= k < i ==> texts[k] != needle@,
                    decreases items.len() - i,
                {
                    if same_text(items[i].display_value().as_str(), needle) {
                        assert(texts[i as int] == needle@);
                        return true;
                    }
                    i += 1;
                }
                assert(!texts.contains(needle@));
                false
            },
            Value::String(s) => contains(&to_chars(s.as_str()), needle),
            _ => false,
        }
    }

    /// The name of the value's kind.
    pub fn kind_name(&self) -> (r: &'static str)
        ensures
            r@ == kind(val(*self)),
    {
        match self {
            Value::Null => "null",
            Value::String(_) => "string",
            Value::Integer(_) => "integer",
            Value::Float(_) => "float",
            Value::Bool(_) => "bool",
            Value::List(_) => "list",
            Value::Mapping(_) => "map",
        }
    }

    /// The text that the value is shown as.
    pub fn display_value(&self) -> (r: String)
        ensures
            r@ == shown(val(*self)),
        decreases self,
    {
        match self {
            Value::Null => String::new(),
            Value::String(s) => s.clone(),
            Value::Integer(n) => integer_text(*n),
            Value::Float(f) => f.text.clone(),
            Value::Bool(b) => if *b {
                "true".to_owned()
            } else {
                "false".to_owned()
            },
            Value::List(items) => {
                let mut parts: Vec<String> = Vec::new();
                let mut i: usize = 0;
                let ghost texts = shown_items(vals(items@));
                assert(string_views(parts@) =~= texts.take(0));
                while i < items.len()
                    invariant
                        *self == Value::List(*items),
                        i <= items.len(),
                        texts == shown_items(vals(items@)),
                        string_views(parts@) == texts.take(i as int),
                    decreases items.len() - i,
                {
                    proof {
                        broadcast use vstd::std_specs::vec::axiom_vec_index_decreases;

                        assert(decreases_to!(*items => items[i as int]));
                        assert(decreases_to!(*self => self->List_0));
                    }
                    let t: String = items[i].display_value();
                    proof {
                        lemma_string_views_push(parts@, t);
                    }
                    parts.push(t);
                    i += 1;
                    assert(string_views(parts@) =~= texts.take(i as int));
                }
                assert(texts.take(i as int) =~= texts);
                proof {
                    lemma_val_list(*items);
                }
                join_strings(&parts, ", ")
            },
            Value::Mapping(m) => {
                let mut parts: Vec<String> = Vec::new();
                let mut i: usize = 0;
                let ghost texts = shown_entries(entries(m@));
                assert(string_views(parts@) =~= texts.take(0));
                while i < m.len()
                    invariant
                        *self == Value::Mapping(*m),
                        i <= m.len(),
                        texts == shown_entries(entries(m@)),
                        string_views(parts@) == texts.take(i as int),
                    decreases m.len() - i,
                {
                    proof {
                        broadcast use vstd::std_specs::vec::axiom_vec_index_decreases;

                        assert(decreases_to!(*m => m[i as int]));
                        assert(decreases_to!(m[i as int] => m[i as int].1));
                        assert(decreases_to!(*self => self->Mapping_0));
                    }
                    let t: String = m[i].1.display_value();
                    let e: String = cat3(m[i].0.as_str(), ": ", t.as_str());
                    proof {
                        lemma_string_views_push(parts@, e);
                    }
                    parts.push(e);
                    i += 1;
                    assert(string_views(parts@) =~= texts.take(i as int));
                }
                assert(texts.take(i as int) =~= texts);
                proof {
                    lemma_val_mapping(*m);
                }
                join_strings(&parts, ", ")
            },
        }
    }

    /// Whether the value is null or holds nothing.
    pub fn is_empty(&self) -> (r: bool)
        ensures
            r == is_blank(val(*self)),
    {
        match self {
            Value::Null => true,
            Value::String(s) => s.as_str().is_empty(),
            Value::List(l) => l.len() == 0,
            Value::Mapping(m) => m.len() == 0,
            _ => false,
        }
    }

    /// The boolean of a boolean value.
    pub fn as_bool(&self) -> (r: Option<bool>)
        ensures
            match r {
                Some(b) => val(*self) == Val::Bool(b),
                None => !(val(*self) is Bool),
            },
    {
        match self {
            Value::Bool(b) => Some(*b),
            _ => None,
        }
    }

    /// The items of a list.
    pub fn as_list(&self) -> (r: Option<&Vec<Value>>)
        ensures
            match r {
                Some(l) => val(*self) == Val::List(vals(l@)),
                None => !(val(*self) is List),
            },
    {
        match self {
            Value::List(v) => {
                proof {
                    lemma_val_list(*v);
                }
                Some(v)
            },
            _ => None,
        }
    }

    /// The entries of a mapping.
    pub fn as_map(&self) -> (r: Option<&Vec<(String, Value)>>)
        ensures
            match r {
                Some(m) => val(*self) == Val::Mapping(entries(m@)),
                None => !(val(*self) is Mapping),
            },
    {
        match self {
            Value::Mapping(m) => {
                proof {
                    lemma_val_mapping(*m);
                }
                Some(m)
            },
            _ => None,
        }
    }

    /// Whether the value is null.
    pub fn is_null(&self) -> (r: bool)
        ensures
            r == (val(*self) == Val::Null),
    {
        match self {
            Value::Null => true,
            _ => false,
        }
    }
}

// ── Fields ─────────────────────────────────────────────────────────────────

/// Whether keys ascend, so that none occurs twice.
pub open spec fn ascending<A>(m: Seq<(Seq<char>, A)>) -> bool {
    forall|i: int, j: int| 0 <= i < j < m.len() ==> text_less(#[trigger] m[i].0, #[trigger] m[j].0)
}

/// The position of a key at or after `from`.
pub open spec fn key_at<A>(m: Seq<(Seq<char>, A)>, key: Seq<char>, from: int) -> Option<int>
    decreases m.len() - from,
{
    if from < 0 || from >= m.len() {
        None
    } else if m[from].0 == key {
        Some(from)
    } else {
        key_at(m, key, from + 1)
    }
}

/// The value of a key.
pub open spec fn field(m: Seq<(Seq<char>, Val)>, key: Seq<char>) -> Option<Val> {
    match key_at(m, key, 0) {
        Some(i) => Some(m[i].1),
        None => None,
    }
}

/// What `key_at` finds is the first entry with the key.
pub proof fn lemma_key_at<A>(m: Seq<(Seq<char>, A)>, key: Seq<char>, from: int)
    requires
        0 <= from,
    ensures
        match key_at(m, key, from) {
            Some(i) => from <= i < m.len() && m[i].0 == key && forall|k: int|
                from <= k < i ==> (#[trigger] m[k]).0 != key,
            None => forall|k: int| from <= k < m.len() ==> (#[trigger] m[k]).0 != key,
        },
    decreases m.len() - from,
{
    if from < m.len() && m[from].0 != key {
        lemma_key_at(m, key, from + 1);
    }
}

/// Finds a key.
pub fn find_key(m: &Vec<(String, Value)>, key: &str) -> (r: Option<usize>)
    ensures
        match r {
            Some(i) => key_at(entries(m@), key@, 0) == Some(i as int) && i < m.len(),
            None => key_at(entries(m@), key@, 0) is None,
        },
{
    let mut i: usize = 0;
    while i < m.len()
        invariant
            i <= m.len(),
            key_at(entries(m@), key@, 0) == key_at(entries(m@), key@, i as int),
        decreases m.len() - i,
    {
        if same_text(m[i].0.as_str(), key) {
            return Some(i);
        }
        i += 1;
    }
    None
}

/// Reads the value of a key.
pub fn get_field(m: &Vec<(String, Value)>, key: &str) -> (r: Option<Value>)
    ensures
        match r {
            Some(v) => field(entries(m@), key@) == Some(val(v)),
            None => field(entries(m@), key@) is None,
        },
{
    match find_key(m, key) {
        Some(i) => Some(copy_value(&m[i].1)),
        None => None,
    }
}

/// Entries with a key set to a value: its entry is replaced, or a new one stands
/// before the first greater key.
pub open spec fn with_entry<A>(m: Seq<(Seq<char>, A)>, key: Seq<char>, v: A) -> Seq<(Seq<char>, A)>
    decreases m.len(),
{
    if m.len() == 0 {
        seq![(key, v)]
    } else if m[0].0 == key {
        seq![(key, v)] + m.skip(1)
    } else if text_less(key, m[0].0) {
        seq![(key, v)] + m
    } else {
        seq![m[0]] + with_entry(m.skip(1), key, v)
    }
}

/// Sets a key to a value.
pub fn set_entry(m: &mut Vec<(String, Value)>, key: &str, v: Value)
    ensures
        entries(final(m)@) == with_entry(entries(old(m)@), key@, val(v)),
{
    let ghost before = entries(m@);
    let mut i: usize = 0;
    assert(before.skip(0) =~= before);
    assert(before.take(0) + with_entry(before.skip(0), key@, val(v)) =~= with_entry(
        before,
        key@,
        val(v),
    ));
    while i < m.len()
        invariant
            i <= m.len(),
            entries(m@) == before,
            before == entries(old(m)@),
            before.take(i as int) + with_entry(before.skip(i as int), key@, val(v)) == with_entry(
                before,
                key@,
                val(v),
            ),
        decreases m.len() - i,
    {
        let ghost rest = before.skip(i as int);
        assert(rest[0] == before[i as int]);
        match order_texts(key, m[i].0.as_str()) {
            Order::Equal => {
                proof {
                    lemma_text_order(key@, before[i as int].0);
                }
                let k: String = key.to_owned();
                let ghost old_m = m@;
                m[i] = (k, v);
                assert(m@ == old_m.update(i as int, (k, v)));
                assert(entries(m@) =~= before.take(i as int) + (seq![(key@, val(v))] + rest.skip(
                    1,
                )));
                return ;
            },
            Order::Less => {
                proof {
                    lemma_text_order(key@, before[i as int].0);
                }
                let ghost old_m = m@;
                let k: String = key.to_owned();
                m.insert(i, (k, v));
                assert(entries(m@) =~= before.take(i as int) + (seq![(key@, val(v))] + rest));
                return ;
            },
            Order::Greater => {
                proof {
                    lemma_text_order(key@, before[i as int].0);
                    assert(rest.skip(1) =~= before.skip(i + 1));
                    assert(before.take(i as int) + (seq![rest[0]] + with_entry(
                        rest.skip(1),
                        key@,
                        val(v),
                    )) =~= before.take(i + 1) + with_entry(before.skip(i + 1), key@, val(v)));
                }
                i += 1;
            },
        }
    }
    let k: String = key.to_owned();
    proof {
        lemma_entries_push(m@, (k, v));
        assert(before.skip(i as int) =~= seq![]);
        assert(before.take(i as int) =~= before);
    }
    m.push((k, v));
    assert(entries(m@) =~= before + seq![(key@, val(v))]);
}

/// Keyed items, with their keys as sequences of characters.
pub open spec fn keyed<A>(m: Seq<(String, A)>) -> Seq<(Seq<char>, A)> {
    Seq::new(m.len(), |i: int| (m[i].0@, m[i].1))
}

/// Sets a key to an item.
pub fn put_entry<A>(m: &mut Vec<(String, A)>, key: &str, v: A)
    ensures
        keyed(final(m)@) == with_entry(keyed(old(m)@), key@, v),
{
    let ghost before = keyed(m@);
    let mut i: usize = 0;
    assert(before.skip(0) =~= before);
    assert(before.take(0) + with_entry(before.skip(0), key@, v) =~= with_entry(before, key@, v));
    while i < m.len()
        invariant
            i <= m.len(),
            keyed(m@) == before,
            before == keyed(old(m)@),
            before.take(i as int) + with_entry(before.skip(i as int), key@, v) == with_entry(
                before,
                key@,
                v,
            ),
        decreases m.len() - i,
    {
        let ghost rest = before.skip(i as int);
        assert(rest[0] == before[i as int]);
        proof {
            lemma_text_order(key@, before[i as int].0);
        }
        let o: Order = order_texts(key, m[i].0.as_str());
        if o == Order::Equal {
            let k: String = key.to_owned();
            let ghost old_m = m@;
            m[i] = (k, v);
            assert(m@ == old_m.update(i as int, (k, v)));
            assert(keyed(m@) =~= before.take(i as int) + (seq![(key@, v)] + rest.skip(1)));
            return ;
        }
        if o == Order::Less {
            let k: String = key.to_owned();
            m.insert(i, (k, v));
            assert(keyed(m@) =~= before.take(i as int) + (seq![(key@, v)] + rest));
            return ;
        }
        proof {
            assert(rest.skip(1) =~= before.skip(i + 1));
            assert(before.take(i as int) + (seq![rest[0]] + with_entry(rest.skip(1), key@, v))
                =~= before.take(i + 1) + with_entry(before.skip(i + 1), key@, v));
        }
        i += 1;
    }
    let k: String = key.to_owned();
    proof {
        assert(before.skip(i as int) =~= seq![]);
        assert(before.take(i as int) =~= before);
    }
    m.push((k, v));
    assert(keyed(m@) =~= before + seq![(key@, v)]);
}

/// Where a key stands behind the first entry.
proof fn lemma_key_at_skip<A>(m: Seq<(Seq<char>, A)>, key: Seq<char>, from: int)
    requires
        1 <= from,
        m.len() > 0,
    ensures
        key_at(m, key, from) == match key_at(m.skip(1), key, from - 1) {
            Some(i) => Some(i + 1),
            None => None,
        },
    decreases m.len() - from,
{
    if from < m.len() && m[from].0 != key {
        lemma_key_at_skip(m, key, from + 1);
    }
}

/// The value of a key is that of the first entry, or of those behind it.
proof fn lemma_field_step(m: Seq<(Seq<char>, Val)>, key: Seq<char>)
    requires
        m.len() > 0,
    ensures
        field(m, key) == if m[0].0 == key {
            Some(m[0].1)
        } else {
            field(m.skip(1), key)
        },
{
    lemma_key_at_skip(m, key, 1);
    lemma_key_at(m.skip(1), key, 0);
}

/// What was set is what is found, and no other key changes.
pub proof fn law_entry_is_set(m: Seq<(Seq<char>, Val)>, key: Seq<char>, v: Val, other: Seq<char>)
    ensures
        field(with_entry(m, key, v), key) == Some(v),
        other != key ==> field(with_entry(m, key, v), other) == field(m, other),
    decreases m.len(),
{
    let w = with_entry(m, key, v);
    lemma_field_step(w, key);
    lemma_field_step(w, other);
    if m.len() > 0 {
        lemma_field_step(m, other);
        if m[0].0 == key {
            assert(w.skip(1) =~= m.skip(1));
        } else if text_less(key, m[0].0) {
            assert(w.skip(1) =~= m);
        } else {
            law_entry_is_set(m.skip(1), key, v, other);
            assert(w.skip(1) =~= with_entry(m.skip(1), key, v));
        }
    } else {
        assert(w.skip(1) =~= m);
    }
}

/// Entries without a key.
pub open spec fn without_entry(m: Seq<(Seq<char>, Val)>, key: Seq<char>) -> Seq<(Seq<char>, Val)> {
    match key_at(m, key, 0) {
        Some(i) => m.remove(i),
        None => m,
    }
}

/// Removes a key.
pub fn remove_entry(m: &mut Vec<(String, Value)>, key: &str)
    ensures
        entries(final(m)@) == without_entry(entries(old(m)@), key@),
{
    let ghost before = entries(m@);
    match find_key(m, key) {
        Some(i) => {
            let ghost old_m = m@;
            let _ = m.remove(i);
            assert(entries(m@) =~= before.remove(i as int));
        },
        None => {},
    }
}

/// Setting a key keeps the keys ascending.
pub proof fn lemma_with_entry_ascending<A>(m: Seq<(Seq<char>, A)>, key: Seq<char>, v: A)
    requires
        ascending(m),
    ensures
        ascending(with_entry(m, key, v)),
        forall|i: int|
            0 <= i < with_entry(m, key, v).len() ==> (#[trigger] with_entry(m, key, v)[i]).0 == key
                || exists|j: int| 0 <= j < m.len() && (#[trigger] m[j]).0 == with_entry(
                m,
                key,
                v,
            )[i].0,
    decreases m.len(),
{
    let w = with_entry(m, key, v);
    if m.len() > 0 {
        lemma_text_order(key, m[0].0);
        if m[0].0 == key {
            assert forall|i: int, j: int| 0 <= i < j < w.len() implies text_less(
                #[trigger] w[i].0,
                #[trigger] w[j].0,
            ) by {
                assert(text_less(m[i].0, m[j].0));
            }
            assert forall|i: int| 0 <= i < w.len() implies (#[trigger] w[i]).0 == key || exists|j: int|
                0 <= j < m.len() && (#[trigger] m[j]).0 == w[i].0 by {
                assert(m[i].0 == w[i].0);
            }
        } else if text_less(key, m[0].0) {
            assert forall|i: int, j: int| 0 <= i < j < w.len() implies text_less(
                #[trigger] w[i].0,
                #[trigger] w[j].0,
            ) by {
                if i == 0 {
                    if j > 1 {
                        assert(text_less(m[0].0, m[j - 1].0));
                        crate::text::lemma_text_less_transitive(key, m[0].0, m[j - 1].0);
                    }
                } else {
                    assert(text_less(m[i - 1].0, m[j - 1].0));
                }
            }
            assert forall|i: int| 0 <= i < w.len() implies (#[trigger] w[i]).0 == key || exists|j: int|
                0 <= j < m.len() && (#[trigger] m[j]).0 == w[i].0 by {
                if i > 0 {
                    assert(m[i - 1].0 == w[i].0);
                }
            }
        } else {
            let t = m.skip(1);
            assert forall|i: int, j: int| 0 <= i < j < t.len() implies text_less(
                #[trigger] t[i].0,
                #[trigger] t[j].0,
            ) by {
                assert(text_less(m[i + 1].0, m[j + 1].0));
            }
            lemma_with_entry_ascending(t, key, v);
            let u = with_entry(t, key, v);
            assert forall|i: int, j: int| 0 <= i < j < w.len() implies text_less(
                #[trigger] w[i].0,
                #[trigger] w[j].0,
            ) by {
                assert(w[j] == u[j - 1]);
                if i == 0 {
                    if u[j - 1].0 == key {
                        lemma_text_order(m[0].0, key);
                    } else {
                        let k = choose|k: int| 0 <= k < t.len() && (#[trigger] t[k]).0 == u[j - 1].0;
                        assert(text_less(m[0].0, m[k + 1].0));
                    }
                } else {
                    assert(w[i] == u[i - 1]);
                }
            }
            assert forall|i: int| 0 <= i < w.len() implies (#[trigger] w[i]).0 == key || exists|j: int|
                0 <= j < m.len() && (#[trigger] m[j]).0 == w[i].0 by {
                if i == 0 {
                    assert(m[0].0 == w[0].0);
                } else {
                    assert(w[i] == u[i - 1]);
                    if u[i - 1].0 != key {
                        let k = choose|k: int| 0 <= k < t.len() && (#[trigger] t[k]).0 == u[i - 1].0;
                        assert(m[k + 1].0 == w[i].0);
                    }
                }
            }
        }
    }
}

// ── Numbers ────────────────────────────────────────────────────────────────

/// The text that the floating-point number nearest to an integer is shown as.
pub open spec fn int_float_text(n: int) -> Seq<char> {
    match float_reading(signed_decimal(n)) {
        Some(f) => f.1,
        None => signed_decimal(n),
    }
}

/// The floating-point number that a value stands for.
pub open spec fn float_of(v: Val) -> Option<(u64, Seq<char>)> {
    match v {
        Val::Float(f) => Some(f),
        Val::Int(n) => Some((int_bits(n as int) as u64, int_float_text(n as int))),
        Val::Text(s) => float_reading(s),
        _ => None,
    }
}

impl Value {
    /// The floating-point number that the value stands for: a number, or a text
    /// that reads as one.
    pub fn as_float(&self) -> (r: Option<Float>)
        ensures
            float_view(r) == float_of(val(*self)),
    {
        match self {
            Value::Float(f) => Some(copy_float(f)),
            Value::Integer(n) => {
                let digits: String = integer_text(*n);
                let text: String = match read_float(digits.as_str()) {
                    Some(f) => f.text,
                    None => digits,
                };
                Some(Float { bits: float_of_int(*n), text })
            },
            Value::String(s) => read_float(s.as_str()),
            _ => None,
        }
    }
}

// ── Records ────────────────────────────────────────────────────────────────

/// One note: where it lies, its fields, and what is known of the file.
#[derive(Debug, PartialEq, Eq)]
pub struct Record {
    /// The path of the note.
    pub path: String,
    /// The fields of the frontmatter, the keys ascending.
    pub fields: Vec<(String, Value)>,
    /// The text of the note, where it was loaded.
    pub raw_content: Option<String>,
    /// When the file was last changed, in seconds since 1970.
    pub modified: Option<u64>,
    /// When the file was made, in seconds since 1970.
    pub created: Option<u64>,
}

/// A record with its texts as sequences of characters.
pub struct Rec {
    pub path: Seq<char>,
    pub fields: Seq<(Seq<char>, Val)>,
    pub content: Option<Seq<char>>,
    pub modified: Option<u64>,
    pub created: Option<u64>,
}

impl View for Record {
    type V = Rec;

    open spec fn view(&self) -> Rec {
        Rec {
            path: self.path@,
            fields: entries(self.fields@),
            content: match self.raw_content {
                Some(c) => Some(c@),
                None => None,
            },
            modified: self.modified,
            created: self.created,
        }
    }
}

/// What records are.
pub open spec fn recs(v: Seq<Record>) -> Seq<Rec> {
    Seq::new(v.len(), |i: int| v[i]@)
}

/// Records followed by one more.
pub proof fn lemma_recs_push(v: Seq<Record>, x: Record)
    ensures
        recs(v.push(x)) == recs(v).push(x@),
{
    assert(recs(v.push(x)) =~= recs(v).push(x@));
}

/// Copies a record.
pub fn copy_record(r: &Record) -> (c: Record)
    ensures
        c@ == r@,
{
    Record {
        path: r.path.clone(),
        fields: copy_fields(&r.fields),
        raw_content: match &r.raw_content {
            Some(t) => Some(t.clone()),
            None => None,
        },
        modified: r.modified,
        created: r.created,
    }
}

impl Clone for Record {
    fn clone(&self) -> (r: Self)
        ensures
            r@ == self@,
    {
        copy_record(self)
    }
}

/// Whether a character is a hexadecimal digit.
pub open spec fn is_hex(c: char) -> bool {
    '0' <= c <= '9' || 'a' <= c <= 'f' || 'A' <= c <= 'F'
}

/// The number that a hexadecimal digit stands for.
pub open spec fn hex_value(c: char) -> nat {
    if '0' <= c <= '9' {
        (c as nat - '0' as nat) as nat
    } else if 'a' <= c <= 'f' {
        (c as nat - 'a' as nat + 10) as nat
    } else {
        (c as nat - 'A' as nat + 10) as nat
    }
}

/// The byte that is escaped at a position: a percent sign and two hexadecimal digits.
pub open spec fn byte_at(s: Seq<char>, i: int) -> Option<nat> {
    if 0 <= i && i + 2 < s.len() && s[i] == '%' && is_hex(s[i + 1]) && is_hex(s[i + 2]) {
        Some(hex_value(s[i + 1]) * 16 + hex_value(s[i + 2]))
    } else {
        None
    }
}

/// The six bits of the escaped byte at a position that goes on with a character.
pub open spec fn more_at(s: Seq<char>, i: int) -> Option<nat> {
    match byte_at(s, i) {
        Some(b) => if 0x80 <= b < 0xc0 {
            Some((b - 0x80) as nat)
        } else {
            None
        },
        None => None,
    }
}

/// The number of the character whose UTF-8 bytes are escaped at a position, and how many
/// bytes they are.
pub open spec fn code_at(s: Seq<char>, i: int) -> Option<(nat, nat)> {
    match byte_at(s, i) {
        None => None,
        Some(b) => if b < 0x80 {
            Some((b, 1))
        } else if 0xc0 <= b < 0xe0 {
            match more_at(s, i + 3) {
                Some(x) => Some((((b - 0xc0) * 64 + x) as nat, 2)),
                None => None,
            }
        } else if 0xe0 <= b < 0xf0 {
            match (more_at(s, i + 3), more_at(s, i + 6)) {
                (Some(x), Some(y)) => Some((((b - 0xe0) * 4096 + x * 64 + y) as nat, 3)),
                _ => None,
            }
        } else if 0xf0 <= b < 0xf8 {
            match (more_at(s, i + 3), more_at(s, i + 6), more_at(s, i + 9)) {
                (Some(x), Some(y), Some(z)) => Some(
                    (((b - 0xf0) * 262144 + x * 4096 + y * 64 + z) as nat, 4),
                ),
                _ => None,
            }
        } else {
            None
        },
    }
}

/// The least number of a character that takes so many bytes.
pub open spec fn least_code(bytes: nat) -> nat {
    if bytes == 1 {
        0
    } else if bytes == 2 {
        0x80
    } else if bytes == 3 {
        0x800
    } else {
        0x10000
    }
}

/// The character whose UTF-8 bytes are escaped at a position, and where they end. Bytes
/// that are no UTF-8 make up none.
pub open spec fn utf8_at(s: Seq<char>, i: int) -> Option<(char, int)> {
    match code_at(s, i) {
        Some((n, k)) => if n >= least_code(k) && (n < 0xd800 || 0xe000 <= n <= 0x10ffff) {
            Some((n as char, i + 3 * k))
        } else {
            None
        },
        None => None,
    }
}

/// The character that is escaped at a position, and where its escape ends: the one whose
/// UTF-8 bytes stand there, or the one whose number is the byte.
pub open spec fn escaped_at(s: Seq<char>, i: int) -> Option<(char, int)> {
    match (utf8_at(s, i), byte_at(s, i)) {
        (Some(x), _) => Some(x),
        (None, Some(b)) => Some((b as char, i + 3)),
        (None, None) => None,
    }
}

/// A text from a position on with its percent escapes decoded; what is no escape stays as
/// it is.
pub open spec fn decoded_from(s: Seq<char>, i: int) -> Seq<char>
    decreases s.len() - i,
{
    if i < 0 || i >= s.len() {
        seq![]
    } else {
        match escaped_at(s, i) {
            Some((c, j)) => if i < j {
                seq![c] + decoded_from(s, j)
            } else {
                seq![]
            },
            None => seq![s[i]] + decoded_from(s, i + 1),
        }
    }
}

/// A text with its percent escapes decoded: as UTF-8, and byte by byte where they are none.
pub open spec fn percent_decoded(s: Seq<char>) -> Seq<char> {
    decoded_from(s, 0)
}

/// Reads a hexadecimal digit.
fn read_hex(c: char) -> (r: Option<u8>)
    ensures
        match r {
            Some(n) => is_hex(c) && n == hex_value(c) && n < 16,
            None => !is_hex(c),
        },
{
    if '0' <= c && c <= '9' {
        Some((c as u8) - 48)
    } else if 'a' <= c && c <= 'f' {
        Some((c as u8) - 97 + 10)
    } else if 'A' <= c && c <= 'F' {
        Some((c as u8) - 65 + 10)
    } else {
        None
    }
}

/// Reads the byte that is escaped at a position.
fn read_byte(s: &Vec<char>, i: usize) -> (r: Option<u32>)
    ensures
        match r {
            Some(b) => byte_at(s@, i as int) == Some(b as nat) && b < 256 && i + 2 < s.len(),
            None => byte_at(s@, i as int) is None,
        },
{
    if s.len() < 3 || i >= s.len() - 2 || s[i] != '%' {
        return None;
    }
    match (read_hex(s[i + 1]), read_hex(s[i + 2])) {
        (Some(a), Some(b)) => Some(a as u32 * 16 + b as u32),
        _ => None,
    }
}

/// Reads the six bits of the escaped byte at a position that goes on with a character.
fn read_more(s: &Vec<char>, i: usize) -> (r: Option<u32>)
    ensures
        match r {
            Some(x) => more_at(s@, i as int) == Some(x as nat) && x < 64 && i + 2 < s.len(),
            None => more_at(s@, i as int) is None,
        },
{
    match read_byte(s, i) {
        Some(b) => if 0x80 <= b && b < 0xc0 {
            Some(b - 0x80)
        } else {
            None
        },
        None => None,
    }
}

/// Reads the number of the character whose bytes are escaped at a position.
fn read_code(s: &Vec<char>, i: usize) -> (r: Option<(u32, usize)>)
    ensures
        match r {
            Some((n, k)) => code_at(s@, i as int) == Some((n as nat, k as nat)) && 1 <= k <= 4 && i + 3
                * k <= s.len(),
            None => code_at(s@, i as int) is None,
        },
{
    let b: u32 = match read_byte(s, i) {
        Some(b) => b,
        None => {
            return None;
        },
    };
    if b < 0x80 {
        return Some((b, 1));
    }
    if b < 0xc0 || b >= 0xf8 {
        return None;
    }
    let x: u32 = match read_more(s, i + 3) {
        Some(x) => x,
        None => {
            return None;
        },
    };
    if b < 0xe0 {
        return Some(((b - 0xc0) * 64 + x, 2));
    }
    let y: u32 = match read_more(s, i + 6) {
        Some(y) => y,
        None => {
            return None;
        },
    };
    if b < 0xf0 {
        return Some(((b - 0xe0) * 4096 + x * 64 + y, 3));
    }
    match read_more(s, i + 9) {
        Some(z) => Some(((b - 0xf0) * 262144 + x * 4096 + y * 64 + z, 4)),
        None => None,
    }
}

/// Reads the character that is escaped at a position.
fn read_escaped(s: &Vec<char>, i: usize) -> (r: Option<(char, usize)>)
    ensures
        match r {
            Some((c, j)) => escaped_at(s@, i as int) == Some((c, j as int)) && i < j <= s.len(),
            None => escaped_at(s@, i as int) is None,
        },
{
    match read_utf8(s, i) {
        Some(x) => Some(x),
        None => match read_byte(s, i) {
            Some(b) => match char::from_u32(b) {
                Some(c) => Some((c, i + 3)),
                None => None,
            },
            None => None,
        },
    }
}

/// Reads the character whose UTF-8 bytes are escaped at a position.
fn read_utf8(s: &Vec<char>, i: usize) -> (r: Option<(char, usize)>)
    ensures
        match r {
            Some((c, j)) => utf8_at(s@, i as int) == Some((c, j as int)) && i < j <= s.len(),
            None => utf8_at(s@, i as int) is None,
        },
{
    let (n, k): (u32, usize) = match read_code(s, i) {
        Some(x) => x,
        None => {
            return None;
        },
    };
    let least: u32 = if k == 1 {
        0
    } else if k == 2 {
        0x80
    } else if k == 3 {
        0x800
    } else {
        0x10000
    };
    if n < least {
        return None;
    }
    match char::from_u32(n) {
        Some(c) => Some((c, i + 3 * k)),
        None => None,
    }
}

/// Decodes the percent escapes of a text.
pub fn decode_percent_encoding(input: &str) -> (r: String)
    ensures
        r@ == percent_decoded(input@),
{
    let s: Vec<char> = to_chars(input);
    let mut out: Vec<char> = Vec::new();
    let mut i: usize = 0;
    assert(out@ + decoded_from(s@, 0) =~= percent_decoded(s@));
    while i < s.len()
        invariant
            i <= s.len(),
            out@ + decoded_from(s@, i as int) == percent_decoded(s@),
        decreases s.len() - i,
    {
        let ghost before = out@;
        let ghost rest = decoded_from(s@, i as int);
        match read_escaped(&s, i) {
            Some((c, j)) => {
                out.push(c);
                i = j;
            },
            None => {
                out.push(s[i]);
                i += 1;
            },
        }
        assert(out@ + decoded_from(s@, i as int) =~= before + rest);
    }
    assert(out@ =~= percent_decoded(s@));
    crate::text::from_chars(&out)
}

/// The name of a note: that of its file without the extension, decoded.
pub open spec fn note_name(path: Seq<char>) -> Seq<char> {
    match file_name(path) {
        Some(n) => percent_decoded(stem(n)),
        None => percent_decoded(seq![]),
    }
}

/// A number in decimal with zeros in front, at least `width` digits long.
pub open spec fn padded(n: nat, width: nat) -> Seq<char> {
    let d = crate::text::decimal(n);
    Seq::new(
        if d.len() < width {
            (width - d.len()) as nat
        } else {
            0
        },
        |i: int| '0',
    ) + d
}

/// Appends a number with zeros in front.
pub fn push_padded(out: &mut Vec<char>, n: u64, width: usize)
    ensures
        final(out)@ == old(out)@ + padded(n as nat, width as nat),
{
    let ghost before = out@;
    let mut digits: Vec<char> = Vec::new();
    crate::text::push_number(&mut digits, n);
    assert(digits@ =~= crate::text::decimal(n as nat));
    let mut i: usize = digits.len();
    let ghost d = digits@.len();
    while i < width
        invariant
            digits@.len() == d,
            d <= i,
            i <= width || i == d,
            out@ == before + Seq::new((i - d) as nat, |k: int| '0'),
        decreases width - i,
    {
        out.push('0');
        i += 1;
        assert(out@ =~= before + Seq::new((i - d) as nat, |k: int| '0'));
    }
    crate::text::push_all(out, &digits);
    assert(out@ =~= before + padded(n as nat, width as nat));
}

/// The day of the calendar that lies a number of days after 1970-01-01, as year,
/// month and day.
pub open spec fn civil_date(days: nat) -> (nat, nat, nat) {
    let z = days + 719468;
    let era = z / 146097;
    let doe = (z - era * 146097) as nat;
    let yoe = ((doe - doe / 1460 + doe / 36524 - doe / 146096) / 365) as nat;
    let doy = (doe - (365 * yoe + yoe / 4 - yoe / 100)) as nat;
    let mp = (5 * doy + 2) / 153;
    let d = (doy - (153 * mp + 2) / 5 + 1) as nat;
    let m = if mp < 10 {
        mp + 3
    } else {
        (mp - 9) as nat
    };
    let y = yoe + era * 400;
    (if m <= 2 {
        y + 1
    } else {
        y
    }, m, d)
}

/// Finds the day of the calendar that lies a number of days after 1970-01-01.
pub fn epoch_days_to_date(days: u64) -> (r: (u64, u64, u64))
    requires
        days <= u64::MAX - 719468,
    ensures
        (r.0 as nat, r.1 as nat, r.2 as nat) == civil_date(days as nat),
{
    let z: u64 = days + 719468;
    let era: u64 = z / 146097;
    let doe: u64 = z - era * 146097;
    let yoe: u64 = (doe - doe / 1460 + doe / 36524 - doe / 146096) / 365;
    let y: u64 = yoe + era * 400;
    assert(365 * yoe + yoe / 4 - yoe / 100 <= doe);
    let doy: u64 = doe - (365 * yoe + yoe / 4 - yoe / 100);
    let mp: u64 = (5 * doy + 2) / 153;
    let d: u64 = doy - (153 * mp + 2) / 5 + 1;
    let m: u64 = if mp < 10 {
        mp + 3
    } else {
        mp - 9
    };
    (if m <= 2 {
        y + 1
    } else {
        y
    }, m, d)
}

/// A day of the calendar as a text.
pub open spec fn date_text(secs: u64) -> Seq<char> {
    let (y, m, d) = civil_date((secs / 86400) as nat);
    padded(y, 4) + "-"@ + padded(m, 2) + "-"@ + padded(d, 2)
}

/// The hour and minute of a time as a text.
pub open spec fn minute_text(secs: u64) -> Seq<char> {
    padded(((secs % 86400) / 3600) as nat, 2) + ":"@ + padded(((secs % 3600) / 60) as nat, 2)
}

/// A time as it is shown: day, hour and minute.
pub open spec fn time_text(secs: u64) -> Seq<char> {
    date_text(secs) + " "@ + minute_text(secs)
}

/// Writes a day of the calendar.
pub fn format_date(secs: u64) -> (r: String)
    ensures
        r@ == date_text(secs),
{
    let (y, m, d) = epoch_days_to_date(secs / 86400);
    let mut out: Vec<char> = Vec::new();
    push_padded(&mut out, y, 4);
    crate::text::push_str(&mut out, "-");
    push_padded(&mut out, m, 2);
    crate::text::push_str(&mut out, "-");
    push_padded(&mut out, d, 2);
    assert(out@ =~= date_text(secs));
    crate::text::from_chars(&out)
}

/// Writes a time: day, hour and minute.
pub fn format_system_time(secs: u64) -> (r: String)
    ensures
        r@ == time_text(secs),
{
    let mut out: Vec<char> = to_chars(format_date(secs).as_str());
    crate::text::push_str(&mut out, " ");
    let h: u64 = (secs % 86400) / 3600;
    let m: u64 = (secs % 86400 % 3600) / 60;
    assert(secs % 86400 % 3600 == secs % 3600);
    push_padded(&mut out, h, 2);
    crate::text::push_str(&mut out, ":");
    push_padded(&mut out, m, 2);
    assert(out@ =~= time_text(secs));
    crate::text::from_chars(&out)
}

/// Writes a time: day, hour, minute and second.
pub fn format_stamp(secs: u64) -> (r: String)
    ensures
        r@ == crate::schema::stamp_text(secs),
{
    let mut out: Vec<char> = to_chars(format_system_time(secs).as_str());
    crate::text::push_str(&mut out, ":");
    push_padded(&mut out, secs % 60, 2);
    assert(out@ =~= crate::schema::stamp_text(secs));
    crate::text::from_chars(&out)
}

/// The text of a record, or nothing where it was not loaded.
pub open spec fn content_of(r: Rec) -> Seq<char> {
    match r.content {
        Some(c) => c,
        None => seq![],
    }
}

/// The body of a note: what follows its frontmatter, or all of it.
pub open spec fn note_body(content: Seq<char>) -> Seq<char> {
    match extracted(content) {
        Some((_, at)) => content.skip(at),
        None => content,
    }
}

/// Whether a name is that of a field computed from the link graph.
pub open spec fn is_graph_field(key: Seq<char>) -> bool {
    key == "_links"@ || key == "_link_count"@ || key == "_backlinks"@ || key == "_backlink_count"@
}

/// The value of a field: a virtual one is computed, any other is that of the
/// frontmatter.
pub open spec fn looked_up(r: Rec, key: Seq<char>, root: Seq<char>, g: Option<Graph>) -> Option<
    Val,
> {
    if key == "_name"@ {
        Some(Val::Text(note_name(r.path)))
    } else if key == "_path"@ {
        Some(Val::Text(relative(r.path, root)))
    } else if key == "_folder"@ {
        Some(Val::Text(folder_name(r.path)))
    } else if key == "_modified"@ {
        match r.modified {
            Some(t) => Some(Val::Text(time_text(t))),
            None => None,
        }
    } else if key == "_created"@ {
        match r.created {
            Some(t) => Some(Val::Text(time_text(t))),
            None => None,
        }
    } else if is_graph_field(key) {
        match g {
            Some(g) => Some(crate::links::graph_value(g, note_name(r.path), key)),
            None => None,
        }
    } else if key == "_body"@ {
        Some(Val::Text(note_body(content_of(r))))
    } else if key == "_length"@ {
        Some(Val::Int(bytes(content_of(r)) as i64))
    } else if key == "_body_length"@ {
        Some(Val::Int(bytes(crate::text::trimmed(note_body(content_of(r)))) as i64))
    } else {
        field(r.fields, key)
    }
}

/// What a value that may be missing is.
pub open spec fn val_view(v: Option<Value>) -> Option<Val> {
    match v {
        Some(v) => Some(val(v)),
        None => None,
    }
}

/// A count of bytes as an integer value.
#[verifier::truncate]
fn count_value(n: usize) -> (v: Value)
    ensures
        val(v) == Val::Int(n as i64),
{
    Value::Integer(n as i64)
}

impl Record {
    /// The value of a field, virtual fields first.
    pub fn get(&self, key: &str, vault_root: &str) -> (r: Option<Value>)
        ensures
            val_view(r) == looked_up(self@, key@, vault_root@, None),
    {
        self.get_with_links(key, vault_root, None)
    }

    /// The value of a field; those of the link graph where one is given.
    pub fn get_with_links(&self, key: &str, vault_root: &str, link_index: Option<&LinkGraph>) -> (r:
        Option<Value>)
        ensures
            val_view(r) == looked_up(self@, key@, vault_root@, graph_view(link_index)),
    {
        let k: Vec<char> = to_chars(key);
        if is_text(&k, "_name") {
            Some(Value::String(self.virtual_name()))
        } else if is_text(&k, "_path") {
            Some(Value::String(self.virtual_path(vault_root)))
        } else if is_text(&k, "_folder") {
            Some(Value::String(self.virtual_folder()))
        } else if is_text(&k, "_modified") {
            match self.modified {
                Some(t) => Some(Value::String(format_system_time(t))),
                None => None,
            }
        } else if is_text(&k, "_created") {
            match self.created {
                Some(t) => Some(Value::String(format_system_time(t))),
                None => None,
            }
        } else if is_text(&k, "_links") || is_text(&k, "_link_count") || is_text(&k, "_backlinks")
            || is_text(&k, "_backlink_count") {
            match link_index {
                Some(g) => Some(g.virtual_field(self.virtual_name().as_str(), key)),
                None => None,
            }
        } else if is_text(&k, "_body") {
            Some(Value::String(self.body()))
        } else if is_text(&k, "_length") {
            let c: String = self.load_content();
            Some(count_value(byte_len(c.as_str())))
        } else if is_text(&k, "_body_length") {
            let b: Vec<char> = crate::text::trim(&to_chars(self.body().as_str()));
            let t: String = crate::text::from_chars(&b);
            Some(count_value(byte_len(t.as_str())))
        } else {
            get_field(&self.fields, key)
        }
    }

    /// The text of the note, or nothing where it was not loaded.
    pub fn load_content(&self) -> (r: String)
        ensures
            r@ == content_of(self@),
    {
        match &self.raw_content {
            Some(c) => c.clone(),
            None => String::new(),
        }
    }

    /// The body of the note.
    pub fn body(&self) -> (r: String)
        ensures
            r@ == note_body(content_of(self@)),
    {
        let c: String = self.load_content();
        match split_note(c.as_str()) {
            Some((_, _, body)) => body,
            None => c,
        }
    }

    /// The name of the note.
    pub fn virtual_name(&self) -> (r: String)
        ensures
            r@ == note_name(self@.path),
    {
        match file_name_of(self.path.as_str()) {
            Some(n) => decode_percent_encoding(stem_of(n.as_str()).as_str()),
            None => decode_percent_encoding(String::new().as_str()),
        }
    }

    /// The path of the note as seen from the vault.
    pub fn virtual_path(&self, vault_root: &str) -> (r: String)
        ensures
            r@ == relative(self@.path, vault_root@),
    {
        relative_to(self.path.as_str(), vault_root)
    }

    /// The name of the folder that the note lies in.
    pub fn virtual_folder(&self) -> (r: String)
        ensures
            r@ == folder_name(self@.path),
    {
        folder_name_of(self.path.as_str())
    }
}

} // verus!
