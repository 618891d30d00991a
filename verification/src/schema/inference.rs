//! What the values of a field suggest.

use crate::mutation::updates::is_bare_word;
use crate::record::{kind, shown, Val};
use crate::schema::laws::law_integer_is_read_back;
use crate::schema::{dominant_kind, inferred_rule, integer_or_text, kind_count, scalar_texts};
use crate::text::{is_text_set, lemma_text_set, signed_decimal, text_set};
use vstd::prelude::*;

verus! {

/// The kind that values suggest is one that occurs most often among those that are not null.
pub proof fn law_most_frequent_kind(vs: Seq<Val>, v: Val, k: Seq<char>)
    ensures
        kind_count(vs, "bool"@) <= kind_count(vs, dominant_kind(vs)),
        kind_count(vs, "float"@) <= kind_count(vs, dominant_kind(vs)),
        kind_count(vs, "integer"@) <= kind_count(vs, dominant_kind(vs)),
        kind_count(vs, "list"@) <= kind_count(vs, dominant_kind(vs)),
        kind_count(vs, "map"@) <= kind_count(vs, dominant_kind(vs)),
        kind_count(vs, "string"@) <= kind_count(vs, dominant_kind(vs)),
        kind_count(Seq::empty(), k) == 0,
        kind(v) == k ==> kind_count(vs.push(v), k) == kind_count(vs, k) + 1,
        kind(v) != k ==> kind_count(vs.push(v), k) == kind_count(vs, k),
        inferred_rule(vs).field_type == dominant_kind(vs),
{
    assert(vs.push(v).drop_last() =~= vs);
}

/// Values suggest a list of those that are allowed where at most ten different scalars are
/// shown, and fewer than half as many as there are: then it is all of them, ascending, each
/// once. Else it is empty.
pub proof fn law_values_are_suggested(vs: Seq<Val>, v: Val, x: Seq<char>, j: int)
    ensures
        scalar_texts(Seq::empty()) == Seq::<Seq<char>>::empty(),
        v is Null || v is List || v is Mapping ==> scalar_texts(vs.push(v)) == scalar_texts(vs),
        v is Text || v is Int || v is Float || v is Bool ==> scalar_texts(vs.push(v))
            == scalar_texts(vs).push(shown(v)),
        ({
            let texts = scalar_texts(vs);
            let unique = text_set(texts);
            let out = inferred_rule(vs).enum_values;
            &&& is_text_set(unique)
            &&& unique.contains(x) <==> texts.contains(x)
            &&& unique.len() <= 10 && 2 * unique.len() + 2 <= texts.len() ==> out.len()
                == unique.len() && (0 <= j < unique.len() ==> out[j] == integer_or_text(unique[j]))
            &&& unique.len() > 10 || 2 * unique.len() >= texts.len() ==> out.len() == 0
        }),
{
    assert(vs.push(v).drop_last() =~= vs);
    lemma_text_set(scalar_texts(vs));
}

/// A text that is an integer is allowed as the integer, and a word as the text.
pub proof fn law_suggestions_keep_integers(n: i64, w: Seq<char>)
    requires
        is_bare_word(w),
    ensures
        integer_or_text(signed_decimal(n as int)) == Val::Int(n),
        integer_or_text(w) == Val::Text(w),
{
    law_integer_is_read_back(n);
    assert(!('0' <= w[0] <= '9'));
}

/// What is inferred of values has no bounds and no defaults.
pub proof fn law_nothing_else_is_suggested(vs: Seq<Val>)
    ensures
        inferred_rule(vs).min is None && inferred_rule(vs).max is None,
        inferred_rule(vs).default is None && inferred_rule(vs).default_expr is None,
{
}

} // verus!
