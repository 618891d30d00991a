//! What searching and indexing promise, document by document.

use crate::fts::{fate, fated, first_hits, tagged, word_end, words, written, Fate, Hit};
use crate::record::{key_at, lemma_key_at};
use crate::text::laws::{all_white, lemma_trimmed_start_white};
use crate::text::is_white;
use vstd::prelude::*;

verus! {

/// The words of a text are what white space separates: behind white space, a word ends where the
/// next white space starts, and the others follow.
pub proof fn law_words(a: Seq<char>, w: Seq<char>, rest: Seq<char>)
    requires
        all_white(a),
        w.len() > 0,
        forall|i: int| 0 <= i < w.len() ==> !is_white(#[trigger] w[i]),
        rest.len() > 0 ==> is_white(rest[0]),
    ensures
        words(a) == Seq::<Seq<char>>::empty(),
        words(a + w + rest) == seq![w] + words(rest),
{
    let none = Seq::<char>::empty();
    lemma_trimmed_start_white(a, none);
    assert(a + none =~= a);
    let t = w + rest;
    lemma_trimmed_start_white(a, t);
    assert(a + w + rest =~= a + t);
    lemma_word_end(t, 0, w.len() as int);
    assert(t.take(w.len() as int) =~= w);
    assert(t.skip(w.len() as int) =~= rest);
}

/// A word ends where white space starts.
proof fn lemma_word_end(s: Seq<char>, from: int, to: int)
    requires
        0 <= from <= to <= s.len(),
        forall|k: int| from <= k < to ==> !is_white(#[trigger] s[k]),
        to < s.len() ==> is_white(s[to]),
    ensures
        word_end(s, from) == to,
    decreases to - from,
{
    if from < to {
        lemma_word_end(s, from + 1, to);
    }
}

/// Of the rows that are found those are hits that have all the tags that are asked for, in their
/// order, and the first of them where there are more than asked for.
pub proof fn law_rows_with_tags_are_hits(
    rows: Seq<Hit>,
    row: Hit,
    required: Seq<Seq<char>>,
    limit: usize,
)
    ensures
        tagged(Seq::empty(), required) == Seq::<Hit>::empty(),
        (forall|i: int| 0 <= i < required.len() ==> row.tags.contains(#[trigger] required[i]))
            ==> tagged(rows.push(row), required) == tagged(rows, required).push(row),
        !(forall|i: int| 0 <= i < required.len() ==> row.tags.contains(#[trigger] required[i]))
            ==> tagged(rows.push(row), required) == tagged(rows, required),
        rows.len() <= limit ==> first_hits(rows, limit) == rows,
        rows.len() > limit ==> first_hits(rows, limit) == rows.take(limit as int),
{
    assert(rows.push(row).drop_last() =~= rows);
}

/// A note that is no document is passed over; a document that the index does not have is added;
/// one that it has is updated exactly if its time is another. Documents that are added or
/// updated are written, and each of the four is counted.
pub proof fn law_fates(
    existing: Seq<(Seq<char>, i64)>,
    docs: Seq<Option<(Seq<char>, i64)>>,
    id: Seq<char>,
    time: i64,
    old: i64,
    f: Fate,
)
    ensures
        fate(existing, None) == Fate::Skipped,
        (forall|k: int| 0 <= k < existing.len() ==> (#[trigger] existing[k]).0 != id) ==> fate(
            existing,
            Some((id, time)),
        ) == Fate::Added,
        crate::fts::rows_differ(existing) && existing.contains((id, old)) && old == time ==> fate(
            existing,
            Some((id, time)),
        ) == Fate::Unchanged,
        crate::fts::rows_differ(existing) && existing.contains((id, old)) && old != time ==> fate(
            existing,
            Some((id, time)),
        ) == Fate::Updated,
        fated(existing, Seq::empty(), f) == 0,
        fated(existing, docs.push(Some((id, time))), f) == fated(existing, docs, f) + if fate(
            existing,
            Some((id, time)),
        ) == f {
            1nat
        } else {
            0nat
        },
        written(existing, docs.push(Some((id, time)))) == if fate(existing, Some((id, time))) is Added
            || fate(existing, Some((id, time))) is Updated {
            written(existing, docs).push(docs.len() as int)
        } else {
            written(existing, docs)
        },
{
    assert(docs.push(Some((id, time))).drop_last() =~= docs);
    lemma_key_at(existing, id, 0);
    if crate::fts::rows_differ(existing) && existing.contains((id, old)) {
        let k = choose|k: int| 0 <= k < existing.len() && existing[k] == (id, old);
        assert(existing[k].0 == id);
        let i = key_at(existing, id, 0)->0;
        assert(existing[i].0 == id);
    }
}

} // verus!
