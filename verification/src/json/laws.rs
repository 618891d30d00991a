//! What documents and tables made of values hold.

use crate::json::{
    built, cell_text, cell_texts, fields_of_json, held, held_items, json_of, json_of_entries,
    json_of_items, object_names, stack_of, table_of, value_of_json, values_of_json,
    with_member_names, JStep, Js,
};
use crate::record::{field, key_at, law_entry_is_set, lemma_key_at, Val};
use crate::text::laws::law_joined;
use crate::text::{decimal, is_text_set, joined, lemma_with_text, signed_decimal};
use vstd::prelude::*;

verus! {

/// A value makes the document of its kind: a list an array of what its items make, and a
/// mapping an object of what its values make under the same keys.
pub proof fn law_documents_of_values(
    s: Seq<char>,
    n: i64,
    f: (u64, Seq<char>),
    b: bool,
    items: Seq<Val>,
    m: Seq<(Seq<char>, Val)>,
    i: int,
)
    ensures
        json_of(Val::Null) == Js::Null,
        json_of(Val::Text(s)) == Js::Text(s),
        json_of(Val::Int(n)) == Js::Int(n),
        json_of(Val::Float(f)) == Js::Float(f),
        json_of(Val::Bool(b)) == Js::Bool(b),
        json_of(Val::List(items)) is Array,
        json_of(Val::List(items))->Array_0.len() == items.len(),
        0 <= i < items.len() ==> json_of(Val::List(items))->Array_0[i] == json_of(items[i]),
        json_of(Val::Mapping(m)) is Object,
        json_of(Val::Mapping(m))->Object_0.len() == m.len(),
        0 <= i < m.len() ==> json_of(Val::Mapping(m))->Object_0[i] == (m[i].0, json_of(m[i].1)),
{
    reveal_with_fuel(json_of, 2);
    reveal_with_fuel(json_of_items, 2);
    reveal_with_fuel(json_of_entries, 2);
}

/// What a value makes stands for that value again: here for scalars, and item by item for
/// arrays. Of the entries of an object, the last one of a key counts.
pub proof fn law_values_of_documents(
    s: Seq<char>,
    n: i64,
    f: (u64, Seq<char>),
    b: bool,
    items: Seq<Js>,
    m: Seq<(Seq<char>, Js)>,
    key: Seq<char>,
    x: Js,
    other: Seq<char>,
    i: int,
)
    ensures
        value_of_json(Js::Null) == Val::Null,
        value_of_json(Js::Text(s)) == Val::Text(s),
        value_of_json(Js::Int(n)) == Val::Int(n),
        value_of_json(Js::Float(f)) == Val::Float(f),
        value_of_json(Js::Bool(b)) == Val::Bool(b),
        value_of_json(Js::Array(items)) is List,
        value_of_json(Js::Array(items))->List_0.len() == items.len(),
        0 <= i < items.len() ==> value_of_json(Js::Array(items))->List_0[i] == value_of_json(
            items[i],
        ),
        value_of_json(Js::Object(m.push((key, x)))) is Mapping,
        field(value_of_json(Js::Object(m.push((key, x))))->Mapping_0, key) == Some(
            value_of_json(x),
        ),
        other != key ==> field(value_of_json(Js::Object(m.push((key, x))))->Mapping_0, other)
            == field(value_of_json(Js::Object(m))->Mapping_0, other),
        value_of_json(Js::Object(Seq::empty())) == Val::Mapping(Seq::empty()),
{
    reveal_with_fuel(value_of_json, 2);
    reveal_with_fuel(values_of_json, 2);
    reveal_with_fuel(fields_of_json, 2);
    let w = m.push((key, x));
    assert(w.drop_last() =~= m);
    assert(value_of_json(Js::Object(w)) == Val::Mapping(fields_of_json(w)));
    assert(value_of_json(Js::Object(m)) == Val::Mapping(fields_of_json(m)));
    law_entry_is_set(fields_of_json(m), key, value_of_json(x), other);
    assert(fields_of_json(Seq::<(Seq<char>, Js)>::empty()) =~= Seq::empty());
}

/// A document in a cell of a table is a text as it is, a number in decimal, a boolean by its
/// name, null as nothing, and an array as its items with a comma and a blank between each two.
pub proof fn law_cells_of_tables(items: Seq<Js>, x: Js, s: Seq<char>, n: i64, large: u64)
    ensures
        cell_text(Js::Null) == Seq::<char>::empty(),
        cell_text(Js::Text(s)) == s,
        cell_text(Js::Int(n)) == signed_decimal(n as int),
        cell_text(Js::Large(large)) == decimal(large as nat),
        cell_text(Js::Bool(true)) == "true"@,
        cell_text(Js::Bool(false)) == "false"@,
        cell_text(Js::Array(Seq::empty())) == Seq::<char>::empty(),
        cell_text(Js::Array(seq![x])) == cell_text(x),
        items.len() > 0 ==> cell_text(Js::Array(items.push(x))) == cell_text(Js::Array(items))
            + ", "@ + cell_text(x),
{
    reveal_with_fuel(cell_text, 2);
    reveal_with_fuel(cell_texts, 2);
    assert(cell_texts(Seq::<Js>::empty()) =~= Seq::empty());
    assert(cell_texts(seq![x]) =~= seq![cell_text(x)]);
    assert(cell_texts(items.push(x)) =~= cell_texts(items).push(cell_text(x)));
    law_joined(cell_texts(items), cell_text(x), ", "@);
    assert(cell_text(Js::Array(seq![x])) == joined(cell_texts(seq![x]), ", "@));
    assert(cell_text(Js::Array(items.push(x))) == joined(cell_texts(items.push(x)), ", "@));
}

/// The keys of entries, put among ascending names, ascend with them.
proof fn lemma_member_names(names: Seq<Seq<char>>, m: Seq<(Seq<char>, Js)>, x: Seq<char>)
    requires
        is_text_set(names),
    ensures
        is_text_set(with_member_names(names, m)),
        with_member_names(names, m).contains(x) <==> names.contains(x) || has_member(m, x),
    decreases m.len(),
{
    if m.len() > 0 {
        let init = m.drop_last();
        lemma_member_names(names, init, x);
        lemma_with_text(with_member_names(names, init), m.last().0);
        if has_member(m, x) {
            let k = choose|k: int| 0 <= k < m.len() && (#[trigger] m[k]).0 == x;
            if k < init.len() {
                assert(init[k].0 == x);
            }
        }
        if has_member(init, x) {
            let k = choose|k: int| 0 <= k < init.len() && (#[trigger] init[k]).0 == x;
            assert(m[k].0 == x);
        }
        assert(m[m.len() - 1] == m.last());
    }
}

/// Whether an object has a key.
pub open spec fn has_member(m: Seq<(Seq<char>, Js)>, key: Seq<char>) -> bool {
    exists|k: int| 0 <= k < m.len() && (#[trigger] m[k]).0 == key
}

/// The names of objects ascend, and are the keys that one of them has.
proof fn lemma_object_names(items: Seq<Js>, x: Seq<char>)
    ensures
        is_text_set(object_names(items)),
        object_names(items).contains(x) <==> exists|i: int|
            0 <= i < items.len() && has_member((#[trigger] items[i])->Object_0, x),
    decreases items.len(),
{
    if items.len() > 0 {
        let init = items.drop_last();
        lemma_object_names(init, x);
        lemma_member_names(object_names(init), items.last()->Object_0, x);
        if exists|i: int| 0 <= i < items.len() && has_member((#[trigger] items[i])->Object_0, x) {
            let i = choose|i: int|
                0 <= i < items.len() && has_member((#[trigger] items[i])->Object_0, x);
            if i < init.len() {
                assert(has_member(init[i]->Object_0, x));
            }
        }
        if exists|i: int| 0 <= i < init.len() && has_member((#[trigger] init[i])->Object_0, x) {
            let i = choose|i: int|
                0 <= i < init.len() && has_member((#[trigger] init[i])->Object_0, x);
            assert(has_member(items[i]->Object_0, x));
        }
        assert(items[items.len() - 1] == items.last());
    }
}

/// An array of objects makes a table with a column per key that one of them has, ascending, and
/// a row per object, with the text of what it has under the key, or none.
pub proof fn law_tables_of_objects(items: Seq<Js>, key: Seq<char>, i: int, j: int, k: int)
    requires
        items.len() > 0,
        forall|i: int| 0 <= i < items.len() ==> (#[trigger] items[i]) is Object,
        0 <= i < items.len(),
    ensures
        ({
            let t = table_of(Js::Array(items));
            &&& t is Some
            &&& is_text_set((t->0).0)
            &&& (t->0).0.contains(key) <==> exists|i: int|
                0 <= i < items.len() && has_member((#[trigger] items[i])->Object_0, key)
            &&& (t->0).1.len() == items.len()
            &&& (t->0).1[i].len() == (t->0).0.len()
            &&& 0 <= j < (t->0).0.len() && !has_member(items[i]->Object_0, (t->0).0[j]) ==> (
            t->0).1[i][j] == Seq::<char>::empty()
            &&& 0 <= j < (t->0).0.len() && 0 <= k < items[i]->Object_0.len()
                && items[i]->Object_0[k].0 == (t->0).0[j] && (forall|q: int|
                0 <= q < k ==> (#[trigger] items[i]->Object_0[q]).0 != (t->0).0[j]) ==> (
            t->0).1[i][j] == cell_text(items[i]->Object_0[k].1)
        }),
        table_of(items[i]) == table_of(Js::Array(seq![items[i]])),
{
    lemma_object_names(items, key);
    let header = object_names(items);
    let m = items[i]->Object_0;
    if 0 <= j < header.len() {
        lemma_key_at(m, header[j], 0);
        if let Some(at) = key_at(m, header[j], 0) {
            assert(m[at].0 == header[j]);
        }
    }
}

/// An array of scalars makes a table of one column, an empty array an empty one, and a scalar
/// none.
pub proof fn law_tables_of_scalars(items: Seq<Js>, i: int, s: Seq<char>, n: i64)
    requires
        forall|i: int|
            0 <= i < items.len() ==> !((#[trigger] items[i]) is Object) && !(items[i] is Array),
        0 <= i < items.len(),
    ensures
        ({
            let t = table_of(Js::Array(items));
            &&& t is Some
            &&& (t->0).0 == seq!["value"@]
            &&& (t->0).1.len() == items.len()
            &&& (t->0).1[i] == seq![cell_text(items[i])]
        }),
        table_of(Js::Array(Seq::empty())) == Some(
            (Seq::<Seq<char>>::empty(), Seq::<Seq<Seq<char>>>::empty()),
        ),
        table_of(Js::Text(s)) is None && table_of(Js::Int(n)) is None && table_of(Js::Null) is None,
{
    assert(!(items[0] is Object));
}

/// What is handed over for a document to be written is, for a scalar, that scalar, and for an
/// array what its items are, one behind the other, and how many they are.
pub proof fn law_documents_are_handed_over(s: Seq<char>, n: i64, b: bool, items: Seq<Js>, x: Js)
    ensures
        held(Js::Null) == seq![JStep::Null],
        held(Js::Bool(b)) == seq![JStep::Bool(b)],
        held(Js::Int(n)) == seq![JStep::Int(n)],
        held(Js::Text(s)) == seq![JStep::Text(s)],
        held(Js::Array(items)) == held_items(items).push(JStep::Array(items.len() as usize)),
        held_items(items.push(x)) == held_items(items) + held(x),
        held_items(Seq::empty()) == Seq::<JStep>::empty(),
        built(seq![JStep::Bool(b)]) == Js::Bool(b),
        built(seq![JStep::Int(n)]) == Js::Int(n),
        built(seq![JStep::Text(s)]) == Js::Text(s),
        built(seq![JStep::Null]) == Js::Null,
{
    reveal_with_fuel(held, 2);
    reveal_with_fuel(held_items, 2);
    assert(items.push(x).drop_last() =~= items);
    reveal_with_fuel(stack_of, 2);
    assert(seq![JStep::Bool(b)].drop_last() =~= Seq::empty());
    assert(seq![JStep::Int(n)].drop_last() =~= Seq::empty());
    assert(seq![JStep::Text(s)].drop_last() =~= Seq::empty());
    assert(seq![JStep::Null].drop_last() =~= Seq::empty());
}

} // verus!
