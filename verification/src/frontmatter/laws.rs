//! What loading notes promises.

use crate::frontmatter::{
    closing, document_fields, extracted, note_of, opening_len, parsed_fields, plain_fields,
    strict_split, value_of, values_of, without_mark,
};
use crate::record::{
    ascending, field, law_entry_is_set, lemma_with_entry_ascending, Rec, Val,
};
use crate::tree::FileView;
use crate::error::Failure;
use crate::text::{find_at, lacks, lemma_find_at, occurs_at, starts, trimmed};
use crate::yaml::{document_of, Doc};
use vstd::prelude::*;

verus! {

/// A note without frontmatter is loaded with no fields, never passed over.
pub proof fn law_bare_note(f: FileView)
    requires
        f.content is Ok,
        extracted(f.content->Ok_0) is None,
    ensures
        note_of(f, true) == Ok::<Rec, Failure>(
            Rec {
                path: f.path,
                fields: seq![],
                content: Some(f.content->Ok_0),
                modified: f.modified,
                created: f.created,
            },
        ),
{
}

/// The entries of a mapping ascend.
proof fn lemma_plain_fields(m: Seq<(Doc, Doc)>)
    ensures
        ascending(plain_fields(m)),
    decreases m.len(),
{
    if m.len() > 0 {
        lemma_plain_fields(m.drop_last());
        match m.last().0 {
            Doc::Text(k) => {
                lemma_with_entry_ascending(
                    plain_fields(m.drop_last()),
                    k,
                    crate::frontmatter::value_of(m.last().1),
                );
            },
            _ => {},
        }
    }
}

/// The fields of a frontmatter ascend by name, so that each is there once.
pub proof fn law_fields_ascend(text: Seq<char>)
    requires
        parsed_fields(text) is Ok,
    ensures
        ascending(parsed_fields(text)->Ok_0),
{
    if trimmed(text).len() > 0 {
        match document_of(text) {
            Ok(Doc::Mapping(m)) => {
                lemma_plain_fields(m);
            },
            _ => {},
        }
    }
}

/// Whether a text can stand between fences: no line of it starts with one.
pub open spec fn is_fenceable(x: Seq<char>) -> bool {
    lacks(x, "\n---"@) && !starts(x, "---"@)
}

/// What stands between two fences is read back as it was written, and the body
/// follows the closing fence.
pub proof fn law_fences_hold(x: Seq<char>, body: Seq<char>)
    requires
        is_fenceable(x),
    ensures
        extracted("---\n"@ + x + "\n---\n"@ + body) == Some((x, (x.len() + 9) as int)),
        ("---\n"@ + x + "\n---\n"@ + body).skip((x.len() + 9) as int) == body,
{
    reveal_strlit("---");
    reveal_strlit("---\n");
    reveal_strlit("---\r\n");
    reveal_strlit("\n---");
    reveal_strlit("\n---\n");
    reveal_strlit("\n---\r\n");
    reveal_strlit("\u{feff}");
    let c = "---\n"@ + x + "\n---\n"@ + body;
    let n = x.len() as int;
    assert(c[0] == '-');
    assert(without_mark(c) == c) by {
        if starts(c, "\u{feff}"@) {
            assert(c.subrange(0, 1)[0] == '\u{feff}');
        }
    }
    assert(occurs_at(c, "---\n"@, 0)) by {
        assert(c.subrange(0, 4) =~= "---\n"@);
    }
    assert(opening_len(c) == 4);
    let rest = c.skip(4);
    assert(rest =~= x + "\n---\n"@ + body);
    assert(rest[n] == '\n' && rest[n + 1] == '-' && rest[n + 4] == '\n');
    lemma_find_at(x, "\n---"@, 0);
    assert forall|k: int| 0 <= k < n implies !(k + 4 <= rest.len() && #[trigger] rest[k] == '\n' && rest[k + 1]
        == '-' && rest[k + 2] == '-' && rest[k + 3] == '-') by {
        if k + 4 <= rest.len() && rest[k] == '\n' && rest[k + 1] == '-' && rest[k + 2] == '-'
            && rest[k + 3] == '-' {
            if k + 4 <= n {
                assert(x[k] == rest[k] && x[k + 1] == rest[k + 1] && x[k + 2] == rest[k + 2] && x[k
                    + 3] == rest[k + 3]);
                assert(x.subrange(k, k + 4) =~= "\n---"@);
                assert(occurs_at(x, "\n---"@, k));
            } else {
                assert(n == k + 1 || n == k + 2 || n == k + 3);
            }
        }
    }
    lemma_first_place(rest, "\n---\n"@, n);
    lemma_first_place(rest, "\n---"@, n);
    lemma_find_at(rest, "\n---\r\n"@, 0);
    assert(occurs_at(rest, "\n---\n"@, n)) by {
        assert(rest.subrange(n, n + 5) =~= "\n---\n"@);
    }
    assert(occurs_at(rest, "\n---"@, n)) by {
        assert(rest.subrange(n, n + 4) =~= "\n---"@);
    }
    match find_at(rest, "\n---\r\n"@, 0) {
        Some(k) => {
            let sub = rest.subrange(k, k + 6);
            assert(sub == "\n---\r\n"@);
            assert(sub[0] == '\n' && sub[1] == '-' && sub[2] == '-' && sub[3] == '-' && sub[4] == '\r');
            assert(k != n);
            assert(k > n);
        },
        None => {},
    }
    assert(!starts(rest, "---\n"@) && !starts(rest, "---\r\n"@) && rest != "---"@) by {
        if starts(rest, "---\n"@) || starts(rest, "---\r\n"@) || rest == "---"@ {
            assert(rest[0] == '-' && rest[1] == '-' && rest[2] == '-') by {
                if starts(rest, "---\n"@) {
                    let sub = rest.subrange(0, 4);
                    assert(sub[0] == '-' && sub[1] == '-' && sub[2] == '-');
                } else if starts(rest, "---\r\n"@) {
                    let sub = rest.subrange(0, 5);
                    assert(sub[0] == '-' && sub[1] == '-' && sub[2] == '-');
                }
            }
            if n < 3 {
                assert(rest[n] == '\n');
            } else {
                assert(x[0] == rest[0] && x[1] == rest[1] && x[2] == rest[2]);
                assert(x.subrange(0, 3) =~= "---"@);
            }
        }
    }
    assert(rest.take(n) =~= x);
    assert(closing(rest) == Some((n, n + 5)));
    assert(c.skip(n + 9) =~= body);
}

/// A pattern that starts like a closing fence is first found where the first closing
/// fence stands.
proof fn lemma_first_place(rest: Seq<char>, pattern: Seq<char>, n: int)
    requires
        0 <= n,
        pattern.len() >= 4,
        pattern[0] == '\n' && pattern[1] == '-' && pattern[2] == '-' && pattern[3] == '-',
        forall|k: int|
            0 <= k < n ==> !(k + 4 <= rest.len() && #[trigger] rest[k] == '\n' && rest[k + 1] == '-'
                && rest[k + 2] == '-' && rest[k + 3] == '-'),
    ensures
        occurs_at(rest, pattern, n) ==> find_at(rest, pattern, 0) == Some(n),
{
    lemma_find_at(rest, pattern, 0);
    if occurs_at(rest, pattern, n) {
        match find_at(rest, pattern, 0) {
            Some(k) => {
                if k < n {
                    let sub = rest.subrange(k, k + pattern.len());
                    assert(sub == pattern);
                    assert(sub[0] == rest[k] && sub[1] == rest[k + 1] && sub[2] == rest[k + 2]
                        && sub[3] == rest[k + 3]);
                }
            },
            None => {},
        }
    }
}

// ── What documents stand for ───────────────────────────────────────────────

/// A document stands for the value of its kind: a list for those that its items stand for. A
/// tag is passed over.
pub proof fn law_documents_are_values(
    s: Seq<char>,
    n: i64,
    f: (u64, Seq<char>),
    b: bool,
    items: Seq<Doc>,
    d: Doc,
    i: int,
)
    ensures
        value_of(Doc::Null) == Val::Null,
        value_of(Doc::Bool(b)) == Val::Bool(b),
        value_of(Doc::Int(n)) == Val::Int(n),
        value_of(Doc::Float(f)) == Val::Float(f),
        value_of(Doc::Text(s)) == Val::Text(s),
        value_of(Doc::Tagged(Box::new(d))) == value_of(d),
        value_of(Doc::List(items)) is List,
        value_of(Doc::List(items))->List_0.len() == items.len(),
        0 <= i < items.len() ==> value_of(Doc::List(items))->List_0[i] == value_of(items[i]),
{
    reveal_with_fuel(value_of, 2);
    reveal_with_fuel(values_of, 2);
}

/// The fields of a frontmatter are the entries of its mapping: of equal keys the last counts.
/// An entry whose key is no text is passed over, and nothing has no fields.
pub proof fn law_entries_are_fields(
    m: Seq<(Doc, Doc)>,
    key: Seq<char>,
    d: Doc,
    other: Seq<char>,
    n: i64,
)
    ensures
        document_fields(Doc::Null) == Ok::<Seq<(Seq<char>, Val)>, Failure>(seq![]),
        document_fields(Doc::Mapping(Seq::empty())) == Ok::<Seq<(Seq<char>, Val)>, Failure>(seq![]),
        document_fields(Doc::Mapping(m)) is Ok,
        ({
            let fields = document_fields(Doc::Mapping(m.push((Doc::Text(key), d))));
            &&& fields is Ok
            &&& field(fields->Ok_0, key) == Some(value_of(d))
            &&& other != key ==> field(fields->Ok_0, other) == field(
                document_fields(Doc::Mapping(m))->Ok_0,
                other,
            )
        }),
        document_fields(Doc::Mapping(m.push((Doc::Int(n), d)))) == document_fields(Doc::Mapping(m)),
        document_fields(Doc::Text(key)) is Err && document_fields(Doc::Int(n)) is Err,
{
    let w = m.push((Doc::Text(key), d));
    assert(w.drop_last() =~= m);
    assert(m.push((Doc::Int(n), d)).drop_last() =~= m);
    law_entry_is_set(plain_fields(m), key, value_of(d), other);
    assert(plain_fields(Seq::<(Doc, Doc)>::empty()) =~= Seq::empty());
}

/// A note whose text is between fences is loaded with the fields of it, its path and its times,
/// and its text where that is asked for; a file that cannot be read is a failure.
pub proof fn law_notes_are_loaded(
    f: FileView,
    x: Seq<char>,
    body: Seq<char>,
    fields: Seq<(Seq<char>, Val)>,
    with_content: bool,
)
    requires
        is_fenceable(x),
    ensures
        f.content == Ok::<Seq<char>, Seq<char>>("---\n"@ + x + "\n---\n"@ + body)
            && parsed_fields(x) == Ok::<Seq<(Seq<char>, Val)>, Failure>(fields) ==> note_of(
            f,
            with_content,
        ) == Ok::<Rec, Failure>(
            Rec {
                path: f.path,
                fields,
                content: if with_content {
                    Some("---\n"@ + x + "\n---\n"@ + body)
                } else {
                    None
                },
                modified: f.modified,
                created: f.created,
            },
        ),
        f.content is Err ==> note_of(f, with_content) == Err::<Rec, Failure>(
            Failure::Io(f.content->Err_0),
        ),
{
    law_fences_hold(x, body);
}

/// A note between fences on lines of their own is split into what stands between them and what
/// follows; a text that starts otherwise is not.
pub proof fn law_notes_are_split(x: Seq<char>, body: Seq<char>)
    requires
        is_fenceable(x),
    ensures
        strict_split("---\n"@ + x + "\n---\n"@ + body) == Some((x, body)),
        strict_split(x) is None,
{
    reveal_strlit("---");
    reveal_strlit("---\n");
    reveal_strlit("\n---");
    reveal_strlit("\n---\n");
    let c = "---\n"@ + x + "\n---\n"@ + body;
    let n = x.len() as int;
    assert(c.subrange(0, 4) =~= "---\n"@);
    let rest = c.skip(4);
    assert(rest =~= x + "\n---\n"@ + body);
    assert(rest[n] == '\n' && rest[n + 1] == '-' && rest[n + 4] == '\n');
    lemma_find_at(x, "\n---"@, 0);
    assert forall|k: int| 0 <= k < n implies !(k + 4 <= rest.len() && #[trigger] rest[k] == '\n'
        && rest[k + 1] == '-' && rest[k + 2] == '-' && rest[k + 3] == '-') by {
        if k + 4 <= rest.len() && rest[k] == '\n' && rest[k + 1] == '-' && rest[k + 2] == '-'
            && rest[k + 3] == '-' {
            if k + 4 <= n {
                assert(x[k] == rest[k] && x[k + 1] == rest[k + 1] && x[k + 2] == rest[k + 2] && x[k
                    + 3] == rest[k + 3]);
                assert(x.subrange(k, k + 4) =~= "\n---"@);
                assert(occurs_at(x, "\n---"@, k));
            } else {
                assert(n == k + 1 || n == k + 2 || n == k + 3);
            }
        }
    }
    lemma_first_place(rest, "\n---\n"@, n);
    assert(rest.subrange(n, n + 5) =~= "\n---\n"@);
    assert(rest.take(n) =~= x);
    assert(rest.skip(n + 5) =~= body);
    if starts(x, "---\n"@) {
        let sub = x.subrange(0, 4);
        assert(sub[0] == '-' && sub[1] == '-' && sub[2] == '-');
        assert(x.subrange(0, 3) =~= "---"@);
    }
}

/// A byte order mark before a note is passed over.
pub proof fn law_marks_are_passed_over(c: Seq<char>)
    requires
        c.len() > 0 ==> c[0] != '\u{feff}',
    ensures
        extracted(c) is None ==> extracted(seq!['\u{feff}'] + c) is None,
        extracted(c) is Some ==> extracted(seq!['\u{feff}'] + c) == Some(
            ((extracted(c)->0).0, (extracted(c)->0).1 + 1),
        ),
{
    reveal_strlit("\u{feff}");
    let m = seq!['\u{feff}'] + c;
    assert(m.subrange(0, 1) =~= "\u{feff}"@);
    assert(m.skip(1) =~= c);
    if starts(c, "\u{feff}"@) {
        assert(c.subrange(0, 1)[0] == '\u{feff}');
    }
}

} // verus!
