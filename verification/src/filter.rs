//! Whether a record meets a condition.

use crate::dsl::{regex_compiles, regex_valid};
use crate::float::{float_of_int, float_order, int_bits, int_order, order_floats};
use crate::links::{graph_view, record_named, sources, targets, Graph, LinkGraph};
use crate::query::{
    cond, conds, lemma_cond, CompareOp, Cond, Expr, LinkCond, LinkPredicate, Pred, Predicate,
};
use crate::record::{
    equal_vals, equal_values, is_graph_field, lemma_val_list, looked_up, note_name, shown, val,
    val_view, vals, Rec, Record, Val, Value,
};
use crate::text::{
    contains, ends, ends_with, has, has_string, order_texts, same_text, starts, starts_with,
    string_views, text_order, to_chars, Order,
};
use core::cmp::Ordering;
use vstd::prelude::*;

pub mod laws;

verus! {

/// Whether `is_match` of the `regex::Regex` that a pattern compiles to finds it in a
/// text.
pub uninterp spec fn regex_matches(pattern: Seq<char>, text: Seq<char>) -> bool;

/// Calls `is_match` of the `regex::Regex` of a pattern that compiles. Claims that the
/// result depends on the pattern and the text alone.
#[verifier::external_body]
fn regex_is_match(pattern: &str, text: &str) -> (r: bool)
    requires
        regex_valid(pattern@),
    ensures
        r == regex_matches(pattern@, text@),
{
    regex::Regex::new(pattern).is_ok_and(|re| re.is_match(text))
}

// ── Order of values ────────────────────────────────────────────────────────

/// The order of two floating-point numbers; equal where they have none.
pub open spec fn float_order_or_equal(a: u64, b: u64) -> Order {
    match float_order(a, b) {
        Some(o) => o,
        None => Order::Equal,
    }
}

/// The order of two booleans.
pub open spec fn bool_order(a: bool, b: bool) -> Order {
    if a == b {
        Order::Equal
    } else if b {
        Order::Less
    } else {
        Order::Greater
    }
}

/// The order of two values. Null comes first, numbers are ordered by value, and
/// values of kinds that have no common order are equal.
pub open spec fn val_order(a: Val, b: Val) -> Order {
    match (a, b) {
        (Val::Null, Val::Null) => Order::Equal,
        (Val::Null, _) => Order::Less,
        (_, Val::Null) => Order::Greater,
        (Val::Int(x), Val::Int(y)) => int_order(x as int, y as int),
        (Val::Float(x), Val::Float(y)) => float_order_or_equal(x.0, y.0),
        (Val::Text(x), Val::Text(y)) => text_order(x, y),
        (Val::Bool(x), Val::Bool(y)) => bool_order(x, y),
        (Val::Int(x), Val::Float(y)) => float_order_or_equal(int_bits(x as int) as u64, y.0),
        (Val::Float(x), Val::Int(y)) => float_order_or_equal(x.0, int_bits(y as int) as u64),
        _ => Order::Equal,
    }
}

/// Orders two floating-point numbers.
fn order_numbers(a: u64, b: u64) -> (r: Order)
    ensures
        r == float_order_or_equal(a, b),
{
    match order_floats(a, b) {
        Some(o) => o,
        None => Order::Equal,
    }
}

/// Orders two values.
pub fn order_values(a: &Value, b: &Value) -> (r: Order)
    ensures
        r == val_order(val(*a), val(*b)),
{
    match (a, b) {
        (Value::Null, Value::Null) => Order::Equal,
        (Value::Null, _) => Order::Less,
        (_, Value::Null) => Order::Greater,
        (Value::Integer(x), Value::Integer(y)) => if *x < *y {
            Order::Less
        } else if *x == *y {
            Order::Equal
        } else {
            Order::Greater
        },
        (Value::Float(x), Value::Float(y)) => order_numbers(x.bits, y.bits),
        (Value::String(x), Value::String(y)) => order_texts(x.as_str(), y.as_str()),
        (Value::Bool(x), Value::Bool(y)) => if *x == *y {
            Order::Equal
        } else if *y {
            Order::Less
        } else {
            Order::Greater
        },
        (Value::Integer(x), Value::Float(y)) => order_numbers(float_of_int(*x), y.bits),
        (Value::Float(x), Value::Integer(y)) => order_numbers(x.bits, float_of_int(*y)),
        _ => Order::Equal,
    }
}

/// An order as the standard library has it.
pub open spec fn std_order(o: Order) -> Ordering {
    match o {
        Order::Less => Ordering::Less,
        Order::Equal => Ordering::Equal,
        Order::Greater => Ordering::Greater,
    }
}

/// Orders two values.
pub fn compare_values(a: &Value, b: &Value) -> (r: Ordering)
    ensures
        r == std_order(val_order(val(*a), val(*b))),
{
    match order_values(a, b) {
        Order::Less => Ordering::Less,
        Order::Equal => Ordering::Equal,
        Order::Greater => Ordering::Greater,
    }
}

// ── Conditions ─────────────────────────────────────────────────────────────

/// The field that a condition speaks of.
pub open spec fn pred_field(p: Pred) -> Seq<char> {
    match p {
        Pred::Equals { field, value } => field,
        Pred::Contains { field, value } => field,
        Pred::Compare { field, op, value } => field,
        Pred::Matches { field, regex } => field,
        Pred::StartsWith { field, value } => field,
        Pred::EndsWith { field, value } => field,
        Pred::Exists { field } => field,
        Pred::Missing { field } => field,
    }
}

/// Whether an order meets a comparison.
pub open spec fn op_holds(op: CompareOp, o: Order) -> bool {
    match op {
        CompareOp::Lt => o == Order::Less,
        CompareOp::Le => o != Order::Greater,
        CompareOp::Gt => o == Order::Greater,
        CompareOp::Ge => o != Order::Less,
        CompareOp::Ne => o != Order::Equal,
    }
}

/// Whether a value that may be missing is missing or null.
pub open spec fn is_missing(v: Option<Val>) -> bool {
    v is None || v == Some(Val::Null)
}

/// Whether a value is the text that a number is shown as. A condition holds its value as the
/// number that it reads as; a text that is written like it is meant too.
pub open spec fn reads_as(v: Val, value: Val) -> bool {
    match (v, value) {
        (Val::Text(t), Val::Int(_)) => t == shown(value),
        (Val::Text(t), Val::Float(_)) => t == shown(value),
        _ => false,
    }
}

/// Whether a value is the one that a condition asks for.
pub open spec fn is_asked(v: Val, value: Val) -> bool {
    equal_vals(v, value) || reads_as(v, value)
}

/// Whether a list holds a value.
pub open spec fn has_item(items: Seq<Val>, value: Val) -> bool {
    exists|i: int| 0 <= i < items.len() && is_asked(#[trigger] items[i], value)
}

/// Whether the value of a field meets a condition.
pub open spec fn value_holds(p: Pred, v: Option<Val>) -> bool {
    match p {
        Pred::Equals { field, value } => v is Some && is_asked(v->0, value),
        Pred::Contains { field, value } => match v {
            Some(Val::Text(s)) => match value {
                Val::Text(t) => has(s, t),
                Val::Int(_) => has(s, shown(value)),
                Val::Float(_) => has(s, shown(value)),
                _ => false,
            },
            Some(Val::List(items)) => has_item(items, value),
            _ => false,
        },
        Pred::Compare { field, op, value } => v is Some && op_holds(op, val_order(v->0, value)),
        Pred::Matches { field, regex } => match v {
            Some(Val::Text(s)) => regex_valid(regex) && regex_matches(regex, s),
            _ => false,
        },
        Pred::StartsWith { field, value } => match v {
            Some(Val::Text(s)) => starts(s, value),
            _ => false,
        },
        Pred::EndsWith { field, value } => match v {
            Some(Val::Text(s)) => ends(s, value),
            _ => false,
        },
        Pred::Exists { field } => !is_missing(v),
        Pred::Missing { field } => is_missing(v),
    }
}

/// Whether a record meets a condition on a field.
pub open spec fn pred_holds(p: Pred, r: Rec, root: Seq<char>, g: Option<Graph>) -> bool {
    value_holds(p, looked_up(r, pred_field(p), root, g))
}

/// Whether a record meets a condition. Conditions on links hold of no record
/// where there is no graph.
pub open spec fn holds(c: Cond, r: Rec, root: Seq<char>, g: Option<Graph>) -> bool
    decreases c,
{
    match c {
        Cond::Predicate(p) => pred_holds(p, r, root, g),
        Cond::And(cs) => forall|i: int| 0 <= i < cs.len() ==> holds(#[trigger] cs[i], r, root, g),
        Cond::Or(cs) => exists|i: int| 0 <= i < cs.len() && holds(#[trigger] cs[i], r, root, g),
        Cond::Not(c) => !holds(*c, r, root, g),
        Cond::LinksTo(l) => match g {
            Some(graph) => {
                let names = targets(graph.edges, note_name(r.path));
                match l {
                    LinkCond::Target(name) => names.contains(name),
                    LinkCond::Where(inner) => exists|i: int|
                        0 <= i < names.len() && (match record_named(
                            graph.records,
                            #[trigger] names[i],
                        ) {
                            Some(other) => holds(*inner, other, root, g),
                            None => false,
                        }),
                }
            },
            None => false,
        },
        Cond::LinkedFrom(l) => match g {
            Some(graph) => {
                let names = sources(graph.edges, note_name(r.path));
                match l {
                    LinkCond::Target(name) => names.contains(name),
                    LinkCond::Where(inner) => exists|i: int|
                        0 <= i < names.len() && (match record_named(
                            graph.records,
                            #[trigger] names[i],
                        ) {
                            Some(other) => holds(*inner, other, root, g),
                            None => false,
                        }),
                }
            },
            None => false,
        },
    }
}

/// Whether a condition needs the link graph.
pub open spec fn uses_links(c: Cond) -> bool
    decreases c,
{
    match c {
        Cond::LinksTo(_) => true,
        Cond::LinkedFrom(_) => true,
        Cond::Predicate(p) => is_graph_field(pred_field(p)),
        Cond::And(cs) => exists|i: int| 0 <= i < cs.len() && uses_links(#[trigger] cs[i]),
        Cond::Or(cs) => exists|i: int| 0 <= i < cs.len() && uses_links(#[trigger] cs[i]),
        Cond::Not(c) => uses_links(*c),
    }
}

/// The field that a condition speaks of.
fn field_of(p: &Predicate) -> (r: &String)
    ensures
        r@ == pred_field(p@),
{
    match p {
        Predicate::Equals { field, value } => field,
        Predicate::Contains { field, value } => field,
        Predicate::Compare { field, op, value } => field,
        Predicate::Matches { field, regex } => field,
        Predicate::StartsWith { field, value } => field,
        Predicate::EndsWith { field, value } => field,
        Predicate::Exists { field } => field,
        Predicate::Missing { field } => field,
    }
}

/// Tells whether a name is that of a field computed from the link graph.
pub fn names_graph_field(field: &str) -> (r: bool)
    ensures
        r == is_graph_field(field@),
{
    same_text(field, "_links") || same_text(field, "_link_count") || same_text(field, "_backlinks")
        || same_text(field, "_backlink_count")
}

/// Tells whether a condition needs the link graph.
pub fn expr_uses_links(expr: &Expr) -> (r: bool)
    ensures
        r == uses_links(cond(*expr)),
    decreases expr,
{
    match expr {
        Expr::LinksTo(_) => true,
        Expr::LinkedFrom(_) => true,
        Expr::Predicate(p) => names_graph_field(field_of(p).as_str()),
        Expr::And(es) => {
            proof {
                lemma_cond(*es);
            }
            let mut i: usize = 0;
            while i < es.len()
                invariant
                    *expr == Expr::And(*es),
                    cond(*expr) == Cond::And(conds(es@)),
                    i <= es.len(),
                    forall|k: int| 0 <= k < i ==> !uses_links(#[trigger] conds(es@)[k]),
                decreases es.len() - i,
            {
                proof {
                    broadcast use vstd::std_specs::vec::axiom_vec_index_decreases;

                    assert(decreases_to!(*es => es[i as int]));
                    assert(decreases_to!(*expr => expr->And_0));
                }
                if expr_uses_links(&es[i]) {
                    assert(uses_links(cond(*expr)->And_0[i as int]));
                    return true;
                }
                i += 1;
            }
            false
        },
        Expr::Or(es) => {
            proof {
                lemma_cond(*es);
            }
            let mut i: usize = 0;
            while i < es.len()
                invariant
                    *expr == Expr::Or(*es),
                    cond(*expr) == Cond::Or(conds(es@)),
                    i <= es.len(),
                    forall|k: int| 0 <= k < i ==> !uses_links(#[trigger] conds(es@)[k]),
                decreases es.len() - i,
            {
                proof {
                    broadcast use vstd::std_specs::vec::axiom_vec_index_decreases;

                    assert(decreases_to!(*es => es[i as int]));
                    assert(decreases_to!(*expr => expr->Or_0));
                }
                if expr_uses_links(&es[i]) {
                    assert(uses_links(cond(*expr)->Or_0[i as int]));
                    return true;
                }
                i += 1;
            }
            false
        },
        Expr::Not(e) => expr_uses_links(&**e),
    }
}

/// Tells whether a value is the text that a number is shown as.
fn check_reading(v: &Value, value: &Value) -> (r: bool)
    ensures
        r == reads_as(val(*v), val(*value)),
{
    match (v, value) {
        (Value::String(t), Value::Integer(_)) => same_text(
            t.as_str(),
            value.display_value().as_str(),
        ),
        (Value::String(t), Value::Float(_)) => same_text(
            t.as_str(),
            value.display_value().as_str(),
        ),
        _ => false,
    }
}

/// Tells whether a value is the one that a condition asks for.
pub fn check_asked(v: &Value, value: &Value) -> (r: bool)
    ensures
        r == is_asked(val(*v), val(*value)),
{
    equal_values(v, value) || check_reading(v, value)
}

/// Tells whether a list holds a value.
fn list_holds(items: &Vec<Value>, value: &Value) -> (r: bool)
    ensures
        r == has_item(vals(items@), val(*value)),
{
    let mut i: usize = 0;
    while i < items.len()
        invariant
            i <= items.len(),
            forall|k: int| 0 <= k < i ==> !is_asked(#[trigger] vals(items@)[k], val(*value)),
        decreases items.len() - i,
    {
        if check_asked(&items[i], value) {
            assert(is_asked(vals(items@)[i as int], val(*value)));
            return true;
        }
        i += 1;
    }
    false
}

/// Tells whether the value of a field meets a condition.
pub fn check_value(p: &Predicate, v: &Option<Value>) -> (r: bool)
    ensures
        r == value_holds(p@, val_view(*v)),
{
    match p {
        Predicate::Equals { field, value } => match v {
            Some(x) => check_asked(x, value),
            None => false,
        },
        Predicate::Contains { field, value } => match v {
            Some(Value::String(s)) => match value {
                Value::String(t) => contains(&to_chars(s.as_str()), t.as_str()),
                Value::Integer(_) => contains(&to_chars(s.as_str()), value.display_value().as_str()),
                Value::Float(_) => contains(&to_chars(s.as_str()), value.display_value().as_str()),
                _ => false,
            },
            Some(Value::List(items)) => {
                proof {
                    lemma_val_list(*items);
                }
                list_holds(items, value)
            },
            _ => false,
        },
        Predicate::Compare { field, op, value } => match v {
            Some(x) => {
                let o: Order = order_values(x, value);
                match op {
                    CompareOp::Lt => o == Order::Less,
                    CompareOp::Le => o != Order::Greater,
                    CompareOp::Gt => o == Order::Greater,
                    CompareOp::Ge => o != Order::Less,
                    CompareOp::Ne => o != Order::Equal,
                }
            },
            None => false,
        },
        Predicate::Matches { field, regex } => match v {
            Some(Value::String(s)) => regex_compiles(regex.as_str()) && regex_is_match(
                regex.as_str(),
                s.as_str(),
            ),
            _ => false,
        },
        Predicate::StartsWith { field, value } => match v {
            Some(Value::String(s)) => starts_with(&to_chars(s.as_str()), value.as_str()),
            _ => false,
        },
        Predicate::EndsWith { field, value } => match v {
            Some(Value::String(s)) => ends_with(&to_chars(s.as_str()), value.as_str()),
            _ => false,
        },
        Predicate::Exists { field } => match v {
            None => false,
            Some(Value::Null) => false,
            _ => true,
        },
        Predicate::Missing { field } => match v {
            None => true,
            Some(Value::Null) => true,
            _ => false,
        },
    }
}

/// Tells whether a record meets a condition on a field.
pub fn evaluate_predicate(
    p: &Predicate,
    record: &Record,
    vault_root: &str,
    link_index: Option<&LinkGraph>,
) -> (r: bool)
    ensures
        r == pred_holds(p@, record@, vault_root@, graph_view(link_index)),
{
    let v: Option<Value> = record.get_with_links(field_of(p).as_str(), vault_root, link_index);
    check_value(p, &v)
}

/// Tells whether one of some notes meets a condition.
fn any_named_holds(
    names: &Vec<String>,
    inner: &Expr,
    vault_root: &str,
    graph: &LinkGraph,
) -> (r: bool)
    ensures
        r == exists|i: int|
            0 <= i < names@.len() && (match record_named(
                graph@.records,
                #[trigger] string_views(names@)[i],
            ) {
                Some(other) => holds(cond(*inner), other, vault_root@, Some(graph@)),
                None => false,
            }),
    decreases inner, 1nat,
{
    let ghost all = string_views(names@);
    let mut i: usize = 0;
    while i < names.len()
        invariant
            all == string_views(names@),
            i <= names.len(),
            forall|k: int|
                0 <= k < i ==> !(match record_named(graph@.records, #[trigger] all[k]) {
                    Some(other) => holds(cond(*inner), other, vault_root@, Some(graph@)),
                    None => false,
                }),
        decreases names.len() - i,
    {
        match graph.record_by_name(names[i].as_str()) {
            Some(other) => {
                if evaluate_expr(inner, other, vault_root, Some(graph)) {
                    let ghost t = all[i as int];
                    return true;
                }
            },
            None => {},
        }
        i += 1;
    }
    false
}

/// Tells whether a record meets a condition.
pub fn evaluate_expr(
    expr: &Expr,
    record: &Record,
    vault_root: &str,
    link_index: Option<&LinkGraph>,
) -> (r: bool)
    ensures
        r == holds(cond(*expr), record@, vault_root@, graph_view(link_index)),
    decreases expr, 0nat,
{
    let ghost g = graph_view(link_index);
    match expr {
        Expr::Predicate(p) => evaluate_predicate(p, record, vault_root, link_index),
        Expr::And(es) => {
            proof {
                lemma_cond(*es);
            }
            let mut i: usize = 0;
            while i < es.len()
                invariant
                    *expr == Expr::And(*es),
                    cond(*expr) == Cond::And(conds(es@)),
                    g == graph_view(link_index),
                    i <= es.len(),
                    forall|k: int|
                        0 <= k < i ==> holds(#[trigger] conds(es@)[k], record@, vault_root@, g),
                decreases es.len() - i,
            {
                proof {
                    broadcast use vstd::std_specs::vec::axiom_vec_index_decreases;

                    assert(decreases_to!(*es => es[i as int]));
                    assert(decreases_to!(*expr => expr->And_0));
                }
                if !evaluate_expr(&es[i], record, vault_root, link_index) {
                    assert(!holds(cond(*expr)->And_0[i as int], record@, vault_root@, g));
                    return false;
                }
                i += 1;
            }
            true
        },
        Expr::Or(es) => {
            proof {
                lemma_cond(*es);
            }
            let mut i: usize = 0;
            while i < es.len()
                invariant
                    *expr == Expr::Or(*es),
                    cond(*expr) == Cond::Or(conds(es@)),
                    g == graph_view(link_index),
                    i <= es.len(),
                    forall|k: int|
                        0 <= k < i ==> !holds(#[trigger] conds(es@)[k], record@, vault_root@, g),
                decreases es.len() - i,
            {
                proof {
                    broadcast use vstd::std_specs::vec::axiom_vec_index_decreases;

                    assert(decreases_to!(*es => es[i as int]));
                    assert(decreases_to!(*expr => expr->Or_0));
                }
                if evaluate_expr(&es[i], record, vault_root, link_index) {
                    assert(holds(cond(*expr)->Or_0[i as int], record@, vault_root@, g));
                    return true;
                }
                i += 1;
            }
            false
        },
        Expr::Not(e) => !evaluate_expr(&**e, record, vault_root, link_index),
        Expr::LinksTo(l) => match link_index {
            Some(graph) => {
                let names: Vec<String> = graph.outgoing_links(record.virtual_name().as_str());
                match l {
                    LinkPredicate::Target(name) => has_string(&names, name.as_str()),
                    LinkPredicate::Where(inner) => any_named_holds(
                        &names,
                        &**inner,
                        vault_root,
                        graph,
                    ),
                }
            },
            None => false,
        },
        Expr::LinkedFrom(l) => match link_index {
            Some(graph) => {
                let names: Vec<String> = graph.incoming_links(record.virtual_name().as_str());
                match l {
                    LinkPredicate::Target(name) => has_string(&names, name.as_str()),
                    LinkPredicate::Where(inner) => any_named_holds(
                        &names,
                        &**inner,
                        vault_root,
                        graph,
                    ),
                }
            },
            None => false,
        },
    }
}

} // verus!
