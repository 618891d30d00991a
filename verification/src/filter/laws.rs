//! What conditions promise.

use crate::dsl::{any_of, binary_cond, equalities, not_cond, regex_valid, scalar, BinaryOp};
use crate::filter::{has_item, holds, is_asked, pred_holds, regex_matches, uses_links};
use crate::float::place;
use crate::links::laws::law_edge_is_source;
use crate::links::{record_named, sources, targets, Graph};
use crate::query::{and_parts, negated, or_parts, CompareOp, Cond, LinkCond, Pred};
use crate::record::{equal_vals, looked_up, note_name, shown, Rec, Val};
use crate::text::laws::law_parts_of_texts;
use crate::text::{has, lemma_text_order, signed_decimal, text_order, Order};
use vstd::prelude::*;

verus! {

/// A field is missing exactly if it does not exist.
pub proof fn law_missing_is_not_existing(
    field: Seq<char>,
    r: Rec,
    root: Seq<char>,
    g: Option<Graph>,
)
    ensures
        holds(Cond::Predicate(Pred::Missing { field }), r, root, g) == holds(
            Cond::Not(Box::new(Cond::Predicate(Pred::Exists { field }))),
            r,
            root,
            g,
        ),
{
    reveal_with_fuel(holds, 3);
}

/// The negation of a condition holds exactly where the condition does not.
pub proof fn law_negated(c: Cond, r: Rec, root: Seq<char>, g: Option<Graph>)
    ensures
        holds(negated(c), r, root, g) == !holds(c, r, root, g),
{
    reveal_with_fuel(holds, 3);
}

/// A conjunction of two conditions holds exactly where both do.
pub proof fn law_and(a: Cond, b: Cond, r: Rec, root: Seq<char>, g: Option<Graph>)
    ensures
        holds(Cond::And(and_parts(a) + and_parts(b)), r, root, g) == (holds(a, r, root, g) && holds(
            b,
            r,
            root,
            g,
        )),
{
    let both = Cond::And(and_parts(a) + and_parts(b));
    let xs = and_parts(a);
    let ys = and_parts(b);
    lemma_and_parts(a, r, root, g);
    lemma_and_parts(b, r, root, g);
    if holds(both, r, root, g) {
        assert forall|i: int| 0 <= i < xs.len() implies holds(#[trigger] xs[i], r, root, g) by {
            assert(holds(both->And_0[i], r, root, g));
        }
        assert forall|i: int| 0 <= i < ys.len() implies holds(#[trigger] ys[i], r, root, g) by {
            assert(holds(both->And_0[xs.len() + i], r, root, g));
        }
    }
    if holds(a, r, root, g) && holds(b, r, root, g) {
        assert forall|i: int| 0 <= i < both->And_0.len() implies holds(
            #[trigger] both->And_0[i],
            r,
            root,
            g,
        ) by {
            if i < xs.len() {
                assert(holds(xs[i], r, root, g));
            } else {
                assert(holds(ys[i - xs.len()], r, root, g));
            }
        }
    }
}

/// A condition holds exactly where all the parts of its conjunction do.
proof fn lemma_and_parts(c: Cond, r: Rec, root: Seq<char>, g: Option<Graph>)
    ensures
        holds(c, r, root, g) == forall|i: int|
            0 <= i < and_parts(c).len() ==> holds(#[trigger] and_parts(c)[i], r, root, g),
{
    match c {
        Cond::And(cs) => {
            if holds(c, r, root, g) {
                assert forall|i: int| 0 <= i < cs.len() implies holds(
                    #[trigger] and_parts(c)[i],
                    r,
                    root,
                    g,
                ) by {
                    assert(holds(c->And_0[i], r, root, g));
                }
            }
            if forall|i: int|
                0 <= i < and_parts(c).len() ==> holds(#[trigger] and_parts(c)[i], r, root, g) {
                assert forall|i: int| 0 <= i < cs.len() implies holds(
                    #[trigger] c->And_0[i],
                    r,
                    root,
                    g,
                ) by {
                    assert(holds(and_parts(c)[i], r, root, g));
                }
            }
        },
        _ => {
            assert(and_parts(c)[0] == c);
        },
    }
}

/// A disjunction of two conditions holds exactly where one of them does.
pub proof fn law_or(a: Cond, b: Cond, r: Rec, root: Seq<char>, g: Option<Graph>)
    ensures
        holds(Cond::Or(or_parts(a) + or_parts(b)), r, root, g) == (holds(a, r, root, g) || holds(
            b,
            r,
            root,
            g,
        )),
{
    let either = Cond::Or(or_parts(a) + or_parts(b));
    let xs = or_parts(a);
    let ys = or_parts(b);
    lemma_or_parts(a, r, root, g);
    lemma_or_parts(b, r, root, g);
    if holds(either, r, root, g) {
        let i = choose|i: int|
            0 <= i < either->Or_0.len() && holds(#[trigger] either->Or_0[i], r, root, g);
        if i < xs.len() {
            assert(holds(xs[i], r, root, g));
        } else {
            assert(holds(ys[i - xs.len()], r, root, g));
        }
    }
    if holds(a, r, root, g) {
        let i = choose|i: int| 0 <= i < xs.len() && holds(#[trigger] xs[i], r, root, g);
        assert(holds(either->Or_0[i], r, root, g));
    }
    if holds(b, r, root, g) {
        let i = choose|i: int| 0 <= i < ys.len() && holds(#[trigger] ys[i], r, root, g);
        assert(holds(either->Or_0[xs.len() + i], r, root, g));
    }
}

/// A condition holds exactly where one of the parts of its disjunction does.
proof fn lemma_or_parts(c: Cond, r: Rec, root: Seq<char>, g: Option<Graph>)
    ensures
        holds(c, r, root, g) == exists|i: int|
            0 <= i < or_parts(c).len() && holds(#[trigger] or_parts(c)[i], r, root, g),
{
    match c {
        Cond::Or(cs) => {
            if holds(c, r, root, g) {
                let i = choose|i: int|
                    0 <= i < c->Or_0.len() && holds(#[trigger] c->Or_0[i], r, root, g);
                assert(holds(or_parts(c)[i], r, root, g));
            }
            if exists|i: int|
                0 <= i < or_parts(c).len() && holds(#[trigger] or_parts(c)[i], r, root, g) {
                let i = choose|i: int|
                    0 <= i < or_parts(c).len() && holds(#[trigger] or_parts(c)[i], r, root, g);
                assert(holds(c->Or_0[i], r, root, g));
            }
        },
        _ => {
            assert(or_parts(c)[0] == c);
        },
    }
}

/// A field is one of some values exactly if it equals one of them: a list stands for
/// the alternatives of `=`.
pub proof fn law_in_list(
    field: Seq<char>,
    values: Seq<Seq<char>>,
    r: Rec,
    root: Seq<char>,
    g: Option<Graph>,
)
    ensures
        holds(any_of(equalities(field, values)), r, root, g) <==> (exists|i: int|
            0 <= i < values.len() && holds(
                binary_cond(field, BinaryOp::Equals, #[trigger] values[i]),
                r,
                root,
                g,
            )),
{
    let cs = equalities(field, values);
    let c = any_of(cs);
    assert forall|i: int| 0 <= i < values.len() implies #[trigger] cs[i] == binary_cond(
        field,
        BinaryOp::Equals,
        values[i],
    ) by {}
    if holds(c, r, root, g) {
        let i = if cs.len() == 1 {
            0
        } else {
            choose|i: int| 0 <= i < c->Or_0.len() && holds(#[trigger] c->Or_0[i], r, root, g)
        };
        assert(holds(cs[i], r, root, g));
        assert(holds(binary_cond(field, BinaryOp::Equals, values[i]), r, root, g));
    }
    if exists|i: int|
        0 <= i < values.len() && holds(
            binary_cond(field, BinaryOp::Equals, #[trigger] values[i]),
            r,
            root,
            g,
        ) {
        let i = choose|i: int|
            0 <= i < values.len() && holds(
                binary_cond(field, BinaryOp::Equals, #[trigger] values[i]),
                r,
                root,
                g,
            );
        assert(holds(cs[i], r, root, g));
        if cs.len() != 1 {
            assert(holds(c->Or_0[i], r, root, g));
        }
    }
}

/// What a condition for a text or a number means.
proof fn lemma_text_or_number(
    text: Pred,
    number: Pred,
    other: Pred,
    r: Rec,
    root: Seq<char>,
    g: Option<Graph>,
)
    ensures
        ({
            let both = Cond::And(seq![Cond::Predicate(number), not_cond(Cond::Predicate(other))]);
            holds(Cond::Or(seq![Cond::Predicate(text), both]), r, root, g) == (pred_holds(
                text,
                r,
                root,
                g,
            ) || (pred_holds(number, r, root, g) && !pred_holds(other, r, root, g)))
        }),
{
    reveal_with_fuel(holds, 4);
    let a = Cond::Predicate(text);
    let b = Cond::Predicate(number);
    let n = not_cond(Cond::Predicate(other));
    let two = seq![b, n];
    let both = Cond::And(two);
    let all = seq![a, both];
    let c = Cond::Or(all);
    assert(holds(a, r, root, g) == pred_holds(text, r, root, g));
    assert(holds(b, r, root, g) == pred_holds(number, r, root, g));
    assert(holds(n, r, root, g) == !pred_holds(other, r, root, g));
    assert(two[0] == b && two[1] == n);
    assert(holds(both, r, root, g) == (holds(b, r, root, g) && holds(n, r, root, g))) by {
        if holds(both, r, root, g) {
            assert(holds(both->And_0[0], r, root, g) && holds(both->And_0[1], r, root, g));
        }
    }
    assert(all[0] == a && all[1] == both);
    if holds(a, r, root, g) {
        assert(holds(c->Or_0[0], r, root, g));
    }
    if holds(both, r, root, g) {
        assert(holds(c->Or_0[1], r, root, g));
    }
}

/// A field that holds a text equals what is written in a condition exactly if it is that
/// text, and contains it exactly if the text stands in it, whatever it reads as.
pub proof fn law_text_is_meant(
    field: Seq<char>,
    text: Seq<char>,
    written: Seq<char>,
    r: Rec,
    root: Seq<char>,
    g: Option<Graph>,
)
    requires
        looked_up(r, field, root, g) == Some(Val::Text(text)),
    ensures
        holds(binary_cond(field, BinaryOp::Equals, written), r, root, g) <==> text == written,
        holds(binary_cond(field, BinaryOp::Contains, written), r, root, g) <==> has(text, written),
{
    let number = scalar(written);
    let form = shown(number);
    lemma_text_or_number(
        Pred::Equals { field, value: Val::Text(written) },
        Pred::Equals { field, value: number },
        Pred::Equals { field, value: Val::Text(form) },
        r,
        root,
        g,
    );
    lemma_text_or_number(
        Pred::Contains { field, value: Val::Text(written) },
        Pred::Contains { field, value: number },
        Pred::Contains { field, value: Val::Text(form) },
        r,
        root,
        g,
    );
}

/// A field that holds a number equals what is written in a condition exactly if that reads
/// as the number.
pub proof fn law_number_is_meant(
    field: Seq<char>,
    v: Val,
    written: Seq<char>,
    r: Rec,
    root: Seq<char>,
    g: Option<Graph>,
)
    requires
        looked_up(r, field, root, g) == Some(v),
        v is Int || v is Float,
    ensures
        holds(binary_cond(field, BinaryOp::Equals, written), r, root, g) <==> equal_vals(
            v,
            scalar(written),
        ),
{
    let number = scalar(written);
    lemma_text_or_number(
        Pred::Equals { field, value: Val::Text(written) },
        Pred::Equals { field, value: number },
        Pred::Equals { field, value: Val::Text(shown(number)) },
        r,
        root,
        g,
    );
}

/// A field is none of some values exactly if it is not one of them.
pub proof fn law_not_in_list(
    field: Seq<char>,
    values: Seq<Seq<char>>,
    r: Rec,
    root: Seq<char>,
    g: Option<Graph>,
)
    ensures
        holds(Cond::Not(Box::new(any_of(equalities(field, values)))), r, root, g) == !holds(
            any_of(equalities(field, values)),
            r,
            root,
            g,
        ),
{
    reveal_with_fuel(holds, 2);
}

/// A condition that does not look at links holds without a graph exactly where it
/// holds with one.
pub proof fn law_graph_unused(c: Cond, r: Rec, root: Seq<char>, g: Option<Graph>)
    requires
        !uses_links(c),
    ensures
        holds(c, r, root, g) == holds(c, r, root, None),
    decreases c,
{
    match c {
        Cond::And(cs) => {
            assert forall|i: int| 0 <= i < cs.len() implies holds(#[trigger] cs[i], r, root, g)
                == holds(cs[i], r, root, None) by {
                assert(!uses_links(c->And_0[i]));
                law_graph_unused(c->And_0[i], r, root, g);
            }
            if holds(c, r, root, g) {
                assert forall|i: int| 0 <= i < cs.len() implies holds(
                    #[trigger] c->And_0[i],
                    r,
                    root,
                    None,
                ) by {
                    assert(holds(cs[i], r, root, g));
                }
            }
            if holds(c, r, root, None) {
                assert forall|i: int| 0 <= i < cs.len() implies holds(
                    #[trigger] c->And_0[i],
                    r,
                    root,
                    g,
                ) by {
                    assert(holds(cs[i], r, root, None));
                }
            }
        },
        Cond::Or(cs) => {
            assert forall|i: int| 0 <= i < cs.len() implies holds(#[trigger] cs[i], r, root, g)
                == holds(cs[i], r, root, None) by {
                assert(!uses_links(c->Or_0[i]));
                law_graph_unused(c->Or_0[i], r, root, g);
            }
            if holds(c, r, root, g) {
                let i = choose|i: int|
                    0 <= i < c->Or_0.len() && holds(#[trigger] c->Or_0[i], r, root, g);
                assert(holds(cs[i], r, root, g));
                assert(holds(c->Or_0[i], r, root, None));
            }
            if holds(c, r, root, None) {
                let i = choose|i: int|
                    0 <= i < c->Or_0.len() && holds(#[trigger] c->Or_0[i], r, root, None);
                assert(holds(cs[i], r, root, None));
                assert(holds(c->Or_0[i], r, root, g));
            }
        },
        Cond::Not(inner) => {
            law_graph_unused(*inner, r, root, g);
        },
        _ => {},
    }
}

/// A note links to another exactly if the other is linked from it.
pub proof fn law_links_to_is_linked_from(a: Rec, b: Rec, root: Seq<char>, g: Graph)
    ensures
        holds(Cond::LinksTo(LinkCond::Target(note_name(b.path))), a, root, Some(g)) == holds(
            Cond::LinkedFrom(LinkCond::Target(note_name(a.path))),
            b,
            root,
            Some(g),
        ),
{
    crate::links::laws::law_backlinks(g, note_name(a.path), note_name(b.path));
}

// ── Comparisons ────────────────────────────────────────────────────────────

/// Whether a record meets a comparison of a field with a value.
pub open spec fn compares(
    r: Rec,
    field: Seq<char>,
    op: CompareOp,
    value: Val,
    root: Seq<char>,
    g: Option<Graph>,
) -> bool {
    holds(Cond::Predicate(Pred::Compare { field, op, value }), r, root, g)
}

/// Integers are compared as integers.
pub proof fn law_integers_are_compared(
    r: Rec,
    field: Seq<char>,
    n: i64,
    m: i64,
    root: Seq<char>,
    g: Option<Graph>,
)
    requires
        looked_up(r, field, root, g) == Some(Val::Int(n)),
    ensures
        compares(r, field, CompareOp::Lt, Val::Int(m), root, g) <==> n < m,
        compares(r, field, CompareOp::Le, Val::Int(m), root, g) <==> n <= m,
        compares(r, field, CompareOp::Gt, Val::Int(m), root, g) <==> n > m,
        compares(r, field, CompareOp::Ge, Val::Int(m), root, g) <==> n >= m,
        compares(r, field, CompareOp::Ne, Val::Int(m), root, g) <==> n != m,
{
}

/// Texts are compared by their first differing characters.
pub proof fn law_texts_are_compared(
    r: Rec,
    field: Seq<char>,
    s: Seq<char>,
    t: Seq<char>,
    root: Seq<char>,
    g: Option<Graph>,
)
    requires
        looked_up(r, field, root, g) == Some(Val::Text(s)),
    ensures
        compares(r, field, CompareOp::Lt, Val::Text(t), root, g) <==> text_order(s, t)
            == Order::Less,
        compares(r, field, CompareOp::Gt, Val::Text(t), root, g) <==> text_order(t, s)
            == Order::Less,
        compares(r, field, CompareOp::Le, Val::Text(t), root, g) <==> s == t || text_order(s, t)
            == Order::Less,
        compares(r, field, CompareOp::Ge, Val::Text(t), root, g) <==> s == t || text_order(t, s)
            == Order::Less,
        compares(r, field, CompareOp::Ne, Val::Text(t), root, g) <==> s != t,
{
    lemma_text_order(s, t);
    lemma_text_order(t, s);
}

/// Numbers with a fraction are compared by their places in the order of the numbers.
pub proof fn law_numbers_are_compared(
    r: Rec,
    field: Seq<char>,
    a: (u64, Seq<char>),
    b: (u64, Seq<char>),
    root: Seq<char>,
    g: Option<Graph>,
)
    requires
        looked_up(r, field, root, g) == Some(Val::Float(a)),
        place(a.0) is Some,
        place(b.0) is Some,
    ensures
        compares(r, field, CompareOp::Lt, Val::Float(b), root, g) <==> place(a.0)->0 < place(b.0)->0,
        compares(r, field, CompareOp::Le, Val::Float(b), root, g) <==> place(a.0)->0 <= place(
            b.0,
        )->0,
        compares(r, field, CompareOp::Gt, Val::Float(b), root, g) <==> place(a.0)->0 > place(b.0)->0,
        compares(r, field, CompareOp::Ge, Val::Float(b), root, g) <==> place(a.0)->0 >= place(
            b.0,
        )->0,
        compares(r, field, CompareOp::Ne, Val::Float(b), root, g) <==> place(a.0)->0 != place(
            b.0,
        )->0,
{
}

/// `false` comes before `true`.
pub proof fn law_booleans_are_compared(
    r: Rec,
    field: Seq<char>,
    a: bool,
    b: bool,
    root: Seq<char>,
    g: Option<Graph>,
)
    requires
        looked_up(r, field, root, g) == Some(Val::Bool(a)),
    ensures
        compares(r, field, CompareOp::Lt, Val::Bool(b), root, g) <==> !a && b,
        compares(r, field, CompareOp::Le, Val::Bool(b), root, g) <==> !a || b,
        compares(r, field, CompareOp::Gt, Val::Bool(b), root, g) <==> a && !b,
        compares(r, field, CompareOp::Ge, Val::Bool(b), root, g) <==> a || !b,
        compares(r, field, CompareOp::Ne, Val::Bool(b), root, g) <==> a != b,
{
}

/// What holds of comparisons whatever the values: a field without a value meets none, of `<`
/// and `>=` exactly one holds of any other, and so of `>` and `<=`, and `!=` is `<` or `>`.
pub proof fn law_comparisons_complement(
    r: Rec,
    field: Seq<char>,
    value: Val,
    root: Seq<char>,
    g: Option<Graph>,
)
    ensures
        looked_up(r, field, root, g) is None ==> forall|op: CompareOp|
            !#[trigger] compares(r, field, op, value, root, g),
        looked_up(r, field, root, g) is Some ==> {
            let lt = compares(r, field, CompareOp::Lt, value, root, g);
            let le = compares(r, field, CompareOp::Le, value, root, g);
            let gt = compares(r, field, CompareOp::Gt, value, root, g);
            let ge = compares(r, field, CompareOp::Ge, value, root, g);
            let ne = compares(r, field, CompareOp::Ne, value, root, g);
            &&& lt == !ge
            &&& gt == !le
            &&& ne == (lt || gt)
            &&& !(lt && gt)
        },
{
}

/// Null comes before every other value.
pub proof fn law_null_comes_first(
    r: Rec,
    field: Seq<char>,
    value: Val,
    root: Seq<char>,
    g: Option<Graph>,
)
    requires
        looked_up(r, field, root, g) == Some(Val::Null),
    ensures
        compares(r, field, CompareOp::Lt, value, root, g) <==> !(value is Null),
        !compares(r, field, CompareOp::Gt, value, root, g),
{
}

/// Values of kinds that have no common order are neither less nor greater.
pub proof fn law_kinds_have_no_order(
    r: Rec,
    field: Seq<char>,
    t: Seq<char>,
    n: i64,
    b: bool,
    root: Seq<char>,
    g: Option<Graph>,
)
    ensures
        looked_up(r, field, root, g) == Some(Val::Text(t)) ==> !compares(
            r,
            field,
            CompareOp::Lt,
            Val::Int(n),
            root,
            g,
        ) && !compares(r, field, CompareOp::Gt, Val::Int(n), root, g) && !compares(
            r,
            field,
            CompareOp::Ne,
            Val::Int(n),
            root,
            g,
        ),
        looked_up(r, field, root, g) == Some(Val::Int(n)) ==> !compares(
            r,
            field,
            CompareOp::Ne,
            Val::Text(t),
            root,
            g,
        ) && compares(r, field, CompareOp::Le, Val::Text(t), root, g) && compares(
            r,
            field,
            CompareOp::Ge,
            Val::Text(t),
            root,
            g,
        ),
        looked_up(r, field, root, g) == Some(Val::Bool(b)) ==> !compares(
            r,
            field,
            CompareOp::Ne,
            Val::Text(t),
            root,
            g,
        ),
{
}

// ── Other conditions on fields ─────────────────────────────────────────────

/// Whether a record meets the condition that a field is a value.
pub open spec fn equals(
    r: Rec,
    field: Seq<char>,
    value: Val,
    root: Seq<char>,
    g: Option<Graph>,
) -> bool {
    holds(Cond::Predicate(Pred::Equals { field, value }), r, root, g)
}

/// A field is an integer exactly if it holds it or the text that it is written as, is a text
/// exactly if it holds that text, and is a boolean exactly if it holds that boolean.
pub proof fn law_values_are_equal(
    r: Rec,
    field: Seq<char>,
    n: i64,
    t: Seq<char>,
    b: bool,
    root: Seq<char>,
    g: Option<Graph>,
)
    ensures
        equals(r, field, Val::Int(n), root, g) <==> looked_up(r, field, root, g) == Some(
            Val::Int(n),
        ) || looked_up(r, field, root, g) == Some(Val::Text(signed_decimal(n as int))),
        equals(r, field, Val::Text(t), root, g) <==> looked_up(r, field, root, g) == Some(
            Val::Text(t),
        ),
        equals(r, field, Val::Bool(b), root, g) <==> looked_up(r, field, root, g) == Some(
            Val::Bool(b),
        ),
        equals(r, field, Val::Null, root, g) <==> looked_up(r, field, root, g) == Some(Val::Null),
{
}

/// A field is a list exactly if it holds one of as many items, each equal to that at its
/// place.
pub proof fn law_lists_are_equal(x: Seq<Val>, y: Seq<Val>)
    ensures
        equal_vals(Val::List(x), Val::List(y)) <==> x.len() == y.len() && forall|i: int|
            0 <= i < x.len() ==> equal_vals(#[trigger] x[i], y[i]),
{
}

/// A field that holds a list contains a text exactly if the text is one of its items, and an
/// integer exactly if the integer or the text that it is written as is. One that holds a
/// text contains a text exactly if it is a part of it. No other field contains anything.
pub proof fn law_contains(
    r: Rec,
    field: Seq<char>,
    t: Seq<char>,
    n: i64,
    root: Seq<char>,
    g: Option<Graph>,
)
    ensures
        ({
            let holds_text = holds(
                Cond::Predicate(Pred::Contains { field, value: Val::Text(t) }),
                r,
                root,
                g,
            );
            let holds_number = holds(
                Cond::Predicate(Pred::Contains { field, value: Val::Int(n) }),
                r,
                root,
                g,
            );
            match looked_up(r, field, root, g) {
                Some(Val::List(items)) => {
                    &&& holds_text <==> items.contains(Val::Text(t))
                    &&& holds_number <==> items.contains(Val::Int(n)) || items.contains(
                        Val::Text(signed_decimal(n as int)),
                    )
                },
                Some(Val::Text(s)) => holds_text <==> exists|i: int|
                    0 <= i <= s.len() - t.len() && #[trigger] s.subrange(i, i + t.len()) == t,
                _ => !holds_text && !holds_number,
            }
        }),
{
    match looked_up(r, field, root, g) {
        Some(Val::List(items)) => {
            let text = Val::Text(t);
            let number = Val::Int(n);
            let written = Val::Text(signed_decimal(n as int));
            assert forall|i: int| 0 <= i < items.len() implies is_asked(#[trigger] items[i], text)
                == (items[i] == text) && is_asked(items[i], number) == (items[i] == number
                || items[i] == written) by {}
            if items.contains(text) {
                let i = choose|i: int| 0 <= i < items.len() && items[i] == text;
                assert(is_asked(items[i], text));
            }
            if items.contains(number) {
                let i = choose|i: int| 0 <= i < items.len() && items[i] == number;
                assert(is_asked(items[i], number));
            }
            if items.contains(written) {
                let i = choose|i: int| 0 <= i < items.len() && items[i] == written;
                assert(is_asked(items[i], number));
            }
            if has_item(items, text) {
                let i = choose|i: int| 0 <= i < items.len() && is_asked(#[trigger] items[i], text);
                assert(items[i] == text);
            }
            if has_item(items, number) {
                let i = choose|i: int|
                    0 <= i < items.len() && is_asked(#[trigger] items[i], number);
                assert(items[i] == number || items[i] == written);
            }
        },
        Some(Val::Text(s)) => {
            law_parts_of_texts(s, t);
        },
        _ => {},
    }
}

/// A field exists exactly if it has a value that is not null.
pub proof fn law_exists(r: Rec, field: Seq<char>, root: Seq<char>, g: Option<Graph>)
    ensures
        holds(Cond::Predicate(Pred::Exists { field }), r, root, g) <==> match looked_up(
            r,
            field,
            root,
            g,
        ) {
            Some(v) => v != Val::Null,
            None => false,
        },
{
}

/// A field starts or ends with a text exactly if it holds a text whose first or last part it
/// is, and matches a pattern exactly if it holds a text that the pattern is found in.
pub proof fn law_texts_are_searched(
    r: Rec,
    field: Seq<char>,
    value: Seq<char>,
    root: Seq<char>,
    g: Option<Graph>,
)
    ensures
        holds(Cond::Predicate(Pred::StartsWith { field, value }), r, root, g) <==> match looked_up(
            r,
            field,
            root,
            g,
        ) {
            Some(Val::Text(s)) => value.len() <= s.len() && s.take(value.len() as int) == value,
            _ => false,
        },
        holds(Cond::Predicate(Pred::EndsWith { field, value }), r, root, g) <==> match looked_up(
            r,
            field,
            root,
            g,
        ) {
            Some(Val::Text(s)) => value.len() <= s.len() && s.skip(s.len() - value.len()) == value,
            _ => false,
        },
        regex_valid(value) ==> (holds(
            Cond::Predicate(Pred::Matches { field, regex: value }),
            r,
            root,
            g,
        ) <==> match looked_up(r, field, root, g) {
            Some(Val::Text(s)) => regex_matches(value, s),
            _ => false,
        }),
{
    if let Some(Val::Text(s)) = looked_up(r, field, root, g) {
        law_parts_of_texts(s, value);
    }
}

// ── Conditions on several things ───────────────────────────────────────────

/// All of some conditions hold exactly if each does, one of them exactly if some one does,
/// and a condition is negated exactly if it does not hold.
pub proof fn law_conditions_are_joined(
    cs: Seq<Cond>,
    c: Cond,
    r: Rec,
    root: Seq<char>,
    g: Option<Graph>,
)
    ensures
        holds(Cond::And(cs), r, root, g) <==> forall|i: int|
            0 <= i < cs.len() ==> holds(#[trigger] cs[i], r, root, g),
        holds(Cond::Or(cs), r, root, g) <==> exists|i: int|
            0 <= i < cs.len() && holds(#[trigger] cs[i], r, root, g),
        holds(Cond::Not(Box::new(c)), r, root, g) <==> !holds(c, r, root, g),
{
    lemma_and_parts(Cond::And(cs), r, root, g);
    lemma_or_parts(Cond::Or(cs), r, root, g);
    let all = and_parts(Cond::And(cs));
    assert(all == cs);
    if holds(Cond::And(cs), r, root, g) {
        assert forall|i: int| 0 <= i < cs.len() implies holds(#[trigger] cs[i], r, root, g) by {
            assert(holds(all[i], r, root, g));
        }
    }
    if forall|i: int| 0 <= i < cs.len() ==> holds(#[trigger] cs[i], r, root, g) {
        assert forall|i: int| 0 <= i < all.len() implies holds(#[trigger] all[i], r, root, g) by {
            assert(holds(cs[i], r, root, g));
        }
    }
    let any = or_parts(Cond::Or(cs));
    assert(any == cs);
    if holds(Cond::Or(cs), r, root, g) {
        let i = choose|i: int| 0 <= i < any.len() && holds(#[trigger] any[i], r, root, g);
        assert(holds(cs[i], r, root, g));
    }
    if exists|i: int| 0 <= i < cs.len() && holds(#[trigger] cs[i], r, root, g) {
        let i = choose|i: int| 0 <= i < cs.len() && holds(#[trigger] cs[i], r, root, g);
        assert(holds(any[i], r, root, g));
    }
}

/// A note links to another exactly if the graph has an edge from it to the other, is linked
/// from another exactly if there is one the other way, and neither where there is no graph.
pub proof fn law_links_are_edges(r: Rec, name: Seq<char>, root: Seq<char>, g: Graph)
    ensures
        holds(Cond::LinksTo(LinkCond::Target(name)), r, root, Some(g)) <==> g.edges.contains(
            (note_name(r.path), name),
        ),
        holds(Cond::LinkedFrom(LinkCond::Target(name)), r, root, Some(g)) <==> g.edges.contains(
            (name, note_name(r.path)),
        ),
        !holds(Cond::LinksTo(LinkCond::Target(name)), r, root, None),
        !holds(Cond::LinkedFrom(LinkCond::Target(name)), r, root, None),
{
    law_edge_is_source(g, note_name(r.path), name);
    law_edge_is_source(g, name, note_name(r.path));
}

/// A note links to one that meets a condition exactly if the graph has an edge from it to the
/// name of a note that meets it, and is linked from one exactly if there is one the other
/// way.
pub proof fn law_links_meet_conditions(r: Rec, c: Cond, root: Seq<char>, g: Graph)
    ensures
        holds(Cond::LinksTo(LinkCond::Where(Box::new(c))), r, root, Some(g)) <==> exists|
            name: Seq<char>,
        |
            #![trigger record_named(g.records, name)]
            g.edges.contains((note_name(r.path), name)) && record_named(g.records, name) is Some
                && holds(c, record_named(g.records, name)->0, root, Some(g)),
        holds(Cond::LinkedFrom(LinkCond::Where(Box::new(c))), r, root, Some(g)) <==> exists|
            name: Seq<char>,
        |
            #![trigger record_named(g.records, name)]
            g.edges.contains((name, note_name(r.path))) && record_named(g.records, name) is Some
                && holds(c, record_named(g.records, name)->0, root, Some(g)),
{
    let me = note_name(r.path);
    let to = Cond::LinksTo(LinkCond::Where(Box::new(c)));
    let from = Cond::LinkedFrom(LinkCond::Where(Box::new(c)));
    let out = targets(g.edges, me);
    let back = sources(g.edges, me);
    if holds(to, r, root, Some(g)) {
        let i = choose|i: int|
            0 <= i < out.len() && (match record_named(g.records, #[trigger] out[i]) {
                Some(other) => holds(c, other, root, Some(g)),
                None => false,
            });
        assert(out.contains(out[i]));
        law_edge_is_source(g, me, out[i]);
        assert(record_named(g.records, out[i]) is Some);
    }
    if holds(from, r, root, Some(g)) {
        let i = choose|i: int|
            0 <= i < back.len() && (match record_named(g.records, #[trigger] back[i]) {
                Some(other) => holds(c, other, root, Some(g)),
                None => false,
            });
        assert(back.contains(back[i]));
        law_edge_is_source(g, back[i], me);
        assert(record_named(g.records, back[i]) is Some);
    }
    assert forall|name: Seq<char>|
        #![trigger record_named(g.records, name)]
        g.edges.contains((me, name)) && record_named(g.records, name) is Some && holds(
            c,
            record_named(g.records, name)->0,
            root,
            Some(g),
        ) implies holds(to, r, root, Some(g)) by {
        law_edge_is_source(g, me, name);
        let i = choose|i: int| 0 <= i < out.len() && out[i] == name;
        assert(record_named(g.records, out[i]) is Some);
    }
    assert forall|name: Seq<char>|
        #![trigger record_named(g.records, name)]
        g.edges.contains((name, me)) && record_named(g.records, name) is Some && holds(
            c,
            record_named(g.records, name)->0,
            root,
            Some(g),
        ) implies holds(from, r, root, Some(g)) by {
        law_edge_is_source(g, name, me);
        let i = choose|i: int| 0 <= i < back.len() && back[i] == name;
        assert(record_named(g.records, back[i]) is Some);
    }
}

} // verus!
