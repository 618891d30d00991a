//! What values become in YAML.

use crate::frontmatter::{value_of, values_of};
use crate::record::Val;
use crate::yaml::{
    built, document_of, entry_contents, held, held_items, mapping_contents, paired, stack_of,
    stacked, yaml_float_text, yaml_parsed, Doc, Step,
};
use vstd::prelude::*;

verus! {

/// Whether a value is null, a boolean, an integer, a text, or a list of such.
pub open spec fn is_listed(v: Val) -> bool
    decreases v,
{
    match v {
        Val::Null | Val::Bool(_) | Val::Int(_) | Val::Text(_) => true,
        Val::List(items) => items.len() <= usize::MAX && forall|i: int|
            0 <= i < items.len() ==> is_listed(#[trigger] items[i]),
        _ => false,
    }
}

/// The document of such a value.
pub open spec fn document(v: Val) -> Doc
    decreases v,
{
    match v {
        Val::Bool(b) => Doc::Bool(b),
        Val::Int(n) => Doc::Int(n),
        Val::Text(s) => Doc::Text(s),
        Val::List(items) => Doc::List(
            Seq::new(
                items.len(),
                |i: int|
                    if 0 <= i < items.len() {
                        document(items[i])
                    } else {
                        Doc::Null
                    },
            ),
        ),
        _ => Doc::Null,
    }
}

/// The documents of some values.
spec fn documents(items: Seq<Val>) -> Seq<Doc> {
    Seq::new(items.len(), |i: int| document(items[i]))
}

/// What a value holds builds its document on top of what there is.
proof fn lemma_held(s: Seq<Step>, v: Val)
    requires
        is_listed(v),
    ensures
        stack_of(s + held(v)) == stack_of(s).push(document(v)),
    decreases v,
{
    match v {
        Val::List(items) => {
            let n = items.len() as usize;
            let inner = held_items(items);
            lemma_held_items(s, items);
            let all = s + held(v);
            assert(all.drop_last() =~= s + inner);
            assert(all.last() == Step::List(n));
            let before = stack_of(s);
            let stack = before + documents(items);
            assert(stack.take(before.len() as int) =~= before);
            assert(stack.skip(before.len() as int) =~= documents(items));
            assert(document(v) == Doc::List(documents(items))) by {
                assert(document(v)->List_0 =~= documents(items));
            }
        },
        _ => {
            let all = s + held(v);
            assert(all.drop_last() =~= s);
        },
    }
}

/// What values hold builds their documents, one behind the other.
proof fn lemma_held_items(s: Seq<Step>, items: Seq<Val>)
    requires
        forall|i: int| 0 <= i < items.len() ==> is_listed(#[trigger] items[i]),
    ensures
        stack_of(s + held_items(items)) == stack_of(s) + documents(items),
    decreases items,
{
    if items.len() == 0 {
        assert(s + held_items(items) =~= s);
        assert(stack_of(s) + documents(items) =~= stack_of(s));
    } else {
        let init = items.drop_last();
        assert forall|i: int| 0 <= i < init.len() implies is_listed(#[trigger] init[i]) by {
            assert(init[i] == items[i]);
        }
        lemma_held_items(s, init);
        let t = s + held_items(init);
        assert(items.last() == items[items.len() - 1]);
        lemma_held(t, items.last());
        assert(s + held_items(items) =~= t + held(items.last()));
        assert((stack_of(s) + documents(init)).push(document(items.last())) =~= stack_of(s)
            + documents(items));
    }
}

/// The document of a value stands for the value.
proof fn lemma_document(v: Val)
    requires
        is_listed(v),
    ensures
        value_of(document(v)) == v,
    decreases v,
{
    if let Val::List(items) = v {
        let docs = documents(items);
        assert(document(v)->List_0 =~= docs);
        assert forall|i: int| 0 <= i < items.len() implies value_of(#[trigger] docs[i]) == items[i] by {
            lemma_document(items[i]);
        }
        reveal_with_fuel(value_of, 2);
        reveal_with_fuel(values_of, 2);
        assert(values_of(docs) =~= items);
        assert(value_of(Doc::List(docs)) == Val::List(values_of(docs)));
    }
}

/// What is handed over for a value to be written stands for that value: where a text is read as
/// what was handed over, it is read as the value.
pub proof fn law_values_are_handed_over(v: Val, text: Seq<char>)
    requires
        is_listed(v),
    ensures
        value_of(built(held(v))) == v,
        yaml_parsed(text) == Ok::<Seq<Step>, Seq<char>>(held(v)) ==> document_of(text) is Ok
            && value_of(document_of(text)->Ok_0) == v,
{
    let none = Seq::<Step>::empty();
    lemma_held(none, v);
    assert(none + held(v) =~= held(v));
    lemma_document(v);
}

/// The entries of a mapping are handed over as their keys, each with what its value holds behind
/// it, and are built as pairs of both.
pub proof fn law_entries_are_handed_over(
    m: Seq<(Seq<char>, Seq<Step>)>,
    key: Seq<char>,
    x: Seq<Step>,
    stack: Seq<Doc>,
    k: Doc,
    v: Doc,
)
    ensures
        entry_contents(m.push((key, x))) == entry_contents(m).push(Step::Text(key)) + x,
        mapping_contents(m).last() == Step::Mapping(m.len() as usize),
        mapping_contents(m).drop_last() == entry_contents(m),
        stacked(stack.push(k).push(v), Step::Mapping(1)) == stack.push(Doc::Mapping(seq![(k, v)])),
{
    assert(m.push((key, x)).drop_last() =~= m);
    assert(mapping_contents(m).drop_last() =~= entry_contents(m));
    let s = stack.push(k).push(v);
    let at = stack.len() as int;
    assert(s.take(at) =~= stack);
    assert(s.skip(at) =~= seq![k, v]);
    assert(paired(seq![k, v]) =~= seq![(k, v)]);
    assert(s.len() / 2 >= 1);
}

/// A floating-point number is written so that it does not read as an integer: with a point, or
/// as one of the names that YAML has for those that are not finite.
pub proof fn law_numbers_are_written(f: (u64, Seq<char>))
    ensures
        f.1 == "inf"@ ==> yaml_float_text(f) == ".inf"@,
        f.1 == "-inf"@ ==> yaml_float_text(f) == "-.inf"@,
        f.1 == "NaN"@ ==> yaml_float_text(f) == ".nan"@,
        f.1.contains('.') ==> yaml_float_text(f) == f.1,
        !f.1.contains('.') && f.1 != "inf"@ && f.1 != "-inf"@ && f.1 != "NaN"@ ==> yaml_float_text(
            f,
        ) == f.1 + ".0"@,
{
    reveal_strlit("inf");
    reveal_strlit("-inf");
    reveal_strlit("NaN");
    assert("inf"@.len() == 3 && "-inf"@.len() == 4 && "NaN"@.len() == 3);
    assert("inf"@[0] == 'i' && "NaN"@[0] == 'N');
    assert(!"inf"@.contains('.')) by {
        assert("inf"@[1] == 'n' && "inf"@[2] == 'f');
    }
    assert(!"-inf"@.contains('.')) by {
        assert("-inf"@[0] == '-' && "-inf"@[1] == 'i' && "-inf"@[2] == 'n' && "-inf"@[3] == 'f');
    }
    assert(!"NaN"@.contains('.')) by {
        assert("NaN"@[1] == 'a' && "NaN"@[2] == 'N');
    }
}

} // verus!
