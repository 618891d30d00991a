//! What reading conditions promises.

use crate::dsl::{
    all_of, and_at, and_rest, any_of, atom_at, bad_regex, bad_regex_in, binary_at, binary_cond,
    closing_quote, contains_cond, ends_word, equalities, equals_cond, field_end, is_blank,
    is_field_char, is_own_form, keyword_at, not_at, not_cond, or_at, or_rest, parsed, predicate_at,
    regex_at, regex_end, regex_valid, scalar, skip, tail_at, unescaped, value_at, values_at,
    word_end, BinaryOp,
};
use crate::error::Failure;
use crate::filter::holds;
use crate::filter::laws::{
    law_conditions_are_joined, law_integers_are_compared, law_text_is_meant, law_values_are_equal,
};
use crate::links::Graph;
use crate::query::{CompareOp, Cond, Pred};
use crate::record::{looked_up, Rec, Val};
use crate::schema::laws::law_integer_is_read_back;
use crate::text::laws::{law_joined, law_parts_of_texts, law_trimmed};
use crate::text::{is_white, joined, occurs_at, signed_decimal};
use vstd::prelude::*;

verus! {

// ── Words ──────────────────────────────────────────────────────────────────

/// Whether a character can stand in a plain word: a letter or a digit, one of a few signs, or
/// a character of one of the later scripts.
pub open spec fn is_plain_char(c: char) -> bool {
    ||| 'a' <= c <= 'z'
    ||| 'A' <= c <= 'Z'
    ||| '0' <= c <= '9'
    ||| c == '_' || c == '-' || c == '.' || c == '/'
    ||| c > '\u{3000}'
}

/// Whether a text is a plain word.
pub open spec fn is_plain_word(w: Seq<char>) -> bool {
    w.len() > 0 && forall|i: int| 0 <= i < w.len() ==> is_plain_char(#[trigger] w[i])
}

/// Whether a text is a plain word that can name a field.
pub open spec fn is_field_word(w: Seq<char>) -> bool {
    is_plain_word(w) && w != "NOT"@
}

/// Whether a text is made of blanks.
pub open spec fn are_blanks(b: Seq<char>) -> bool {
    forall|i: int| 0 <= i < b.len() ==> (#[trigger] b[i]) == ' ' || b[i] == '\t'
}

/// Whether a word that ends at a position ends there for good.
pub open spec fn stops(s: Seq<char>, e: int) -> bool {
    e == s.len() || (0 <= e < s.len() && (s[e] == ' ' || s[e] == '\t' || s[e] == ')' || s[e]
        == ','))
}

/// The parts of a text that stands somewhere stand there one behind the other.
proof fn lemma_parts(s: Seq<char>, x: Seq<char>, y: Seq<char>, i: int)
    requires
        occurs_at(s, x + y, i),
    ensures
        occurs_at(s, x, i),
        occurs_at(s, y, i + x.len()),
{
    let all = s.subrange(i, i + (x + y).len());
    assert(s.subrange(i, i + x.len()) =~= all.subrange(0, x.len() as int));
    assert((x + y).subrange(0, x.len() as int) =~= x);
    assert(s.subrange(i + x.len(), i + x.len() + y.len()) =~= all.subrange(
        x.len() as int,
        (x + y).len() as int,
    ));
    assert((x + y).subrange(x.len() as int, (x + y).len() as int) =~= y);
}

/// Texts that stand one behind the other stand there as one.
proof fn lemma_whole(s: Seq<char>)
    ensures
        occurs_at(s, s, 0),
{
    assert(s.subrange(0, s.len() as int) =~= s);
}

/// The characters of a text that stands somewhere.
proof fn lemma_char(s: Seq<char>, x: Seq<char>, i: int, k: int)
    requires
        occurs_at(s, x, i),
        0 <= k < x.len(),
    ensures
        s[i + k] == x[k],
{
    assert(s.subrange(i, i + x.len())[k] == s[i + k]);
}

/// A word does not stand where one of its characters does not.
proof fn lemma_differs(s: Seq<char>, x: Seq<char>, i: int, k: int)
    requires
        0 <= k < x.len(),
        0 <= i + k < s.len(),
        s[i + k] != x[k],
    ensures
        !occurs_at(s, x, i),
{
    if occurs_at(s, x, i) {
        lemma_char(s, x, i, k);
    }
}

/// Blanks are skipped.
proof fn lemma_skip(s: Seq<char>, b: Seq<char>, i: int)
    requires
        occurs_at(s, b, i),
        are_blanks(b),
        i + b.len() == s.len() || !is_blank(s[i + b.len()]),
    ensures
        skip(s, i) == i + b.len(),
    decreases b.len(),
{
    if b.len() > 0 {
        lemma_char(s, b, i, 0);
        let rest = b.skip(1);
        assert(b =~= seq![b[0]] + rest);
        lemma_parts(s, seq![b[0]], rest, i);
        assert forall|k: int| 0 <= k < rest.len() implies (#[trigger] rest[k]) == ' ' || rest[k]
            == '\t' by {
            assert(rest[k] == b[k + 1]);
        }
        lemma_skip(s, rest, i + 1);
    }
}

/// A plain word ends as the name of a field where no plain character follows.
proof fn lemma_field_end(s: Seq<char>, f: Seq<char>, i: int)
    requires
        occurs_at(s, f, i),
        forall|k: int| 0 <= k < f.len() ==> is_plain_char(#[trigger] f[k]),
        i + f.len() == s.len() || !is_field_char(s[i + f.len()]),
    ensures
        field_end(s, i) == i + f.len(),
    decreases f.len(),
{
    if f.len() > 0 {
        lemma_char(s, f, i, 0);
        let rest = f.skip(1);
        assert(f =~= seq![f[0]] + rest);
        lemma_parts(s, seq![f[0]], rest, i);
        assert forall|k: int| 0 <= k < rest.len() implies is_plain_char(#[trigger] rest[k]) by {
            assert(rest[k] == f[k + 1]);
        }
        assert(is_plain_char(f[0]));
        lemma_field_end(s, rest, i + 1);
    }
}

/// A plain word ends as a value where it stops.
proof fn lemma_word_end(s: Seq<char>, w: Seq<char>, i: int)
    requires
        occurs_at(s, w, i),
        forall|k: int| 0 <= k < w.len() ==> is_plain_char(#[trigger] w[k]),
        stops(s, i + w.len()),
    ensures
        word_end(s, i) == i + w.len(),
    decreases w.len(),
{
    reveal_strlit("&&");
    reveal_strlit("||");
    if w.len() > 0 {
        lemma_char(s, w, i, 0);
        let rest = w.skip(1);
        assert(w =~= seq![w[0]] + rest);
        lemma_parts(s, seq![w[0]], rest, i);
        assert forall|k: int| 0 <= k < rest.len() implies is_plain_char(#[trigger] rest[k]) by {
            assert(rest[k] == w[k + 1]);
        }
        assert(is_plain_char(w[0]));
        lemma_differs(s, "&&"@, i, 0);
        lemma_differs(s, "||"@, i, 0);
        assert(!ends_word(s, i));
        lemma_word_end(s, rest, i + 1);
    } else {
        assert(ends_word(s, i));
    }
}

// ── Operators ──────────────────────────────────────────────────────────────

/// How an operator is written.
pub open spec fn op_text(op: BinaryOp) -> Seq<char> {
    match op {
        BinaryOp::Equals => "="@,
        BinaryOp::Compare(CompareOp::Ne) => "!="@,
        BinaryOp::Compare(CompareOp::Lt) => "<"@,
        BinaryOp::Compare(CompareOp::Le) => "<="@,
        BinaryOp::Compare(CompareOp::Gt) => ">"@,
        BinaryOp::Compare(CompareOp::Ge) => ">="@,
        BinaryOp::Contains => "contains"@,
        BinaryOp::NotContains => "!contains"@,
        BinaryOp::StartsWith => "startswith"@,
        BinaryOp::NotStartsWith => "!startswith"@,
        BinaryOp::EndsWith => "endswith"@,
        BinaryOp::NotEndsWith => "!endswith"@,
    }
}

/// Whether an operator is a sign, not a word.
pub open spec fn is_sign(op: BinaryOp) -> bool {
    op is Equals || op is Compare
}

/// Whether no word that stands behind a field stands at a position.
spec fn no_tail_word(s: Seq<char>, i: int) -> bool {
    &&& !keyword_at(s, "NOT"@, i)
    &&& !keyword_at(s, "IN"@, i)
    &&& !keyword_at(s, "IS"@, i)
    &&& !keyword_at(s, "exists"@, i)
    &&& !keyword_at(s, "!exists"@, i)
    &&& !keyword_at(s, "missing"@, i)
    &&& !keyword_at(s, "!missing"@, i)
    &&& !keyword_at(s, "matches"@, i)
    &&& !keyword_at(s, "!matches"@, i)
}

/// A sign is read as the operator that it is.
proof fn lemma_sign(s: Seq<char>, op: BinaryOp, i: int)
    requires
        is_sign(op),
        occurs_at(s, op_text(op), i),
        i + op_text(op).len() < s.len(),
        s[i + op_text(op).len()] != '=',
    ensures
        no_tail_word(s, i),
        binary_at(s, i) == Some((op, i + op_text(op).len())),
        !is_blank(s[i]),
        !is_field_char(s[i]),
{
    reveal_strlit("=");
    reveal_strlit("!=");
    reveal_strlit("<");
    reveal_strlit("<=");
    reveal_strlit(">");
    reveal_strlit(">=");
    reveal_strlit("NOT");
    reveal_strlit("IN");
    reveal_strlit("IS");
    reveal_strlit("exists");
    reveal_strlit("!exists");
    reveal_strlit("missing");
    reveal_strlit("!missing");
    reveal_strlit("matches");
    reveal_strlit("!matches");
    reveal_strlit("contains");
    reveal_strlit("!contains");
    reveal_strlit("startswith");
    reveal_strlit("!startswith");
    reveal_strlit("endswith");
    reveal_strlit("!endswith");
    let o = op_text(op);
    lemma_char(s, o, i, 0);
    if o.len() > 1 {
        lemma_char(s, o, i, 1);
    }
    assert(i + 1 < s.len());
    assert(s[i] == '=' || s[i] == '!' || s[i] == '<' || s[i] == '>');
    assert(s[i] == '!' ==> s[i + 1] == '=');
    lemma_differs(s, "NOT"@, i, 0);
    lemma_differs(s, "IN"@, i, 0);
    lemma_differs(s, "IS"@, i, 0);
    lemma_differs(s, "exists"@, i, 0);
    lemma_differs(s, "missing"@, i, 0);
    lemma_differs(s, "matches"@, i, 0);
    lemma_differs(s, "contains"@, i, 0);
    lemma_differs(s, "startswith"@, i, 0);
    lemma_differs(s, "endswith"@, i, 0);
    if s[i] == '!' {
        lemma_differs(s, "!exists"@, i, 1);
        lemma_differs(s, "!missing"@, i, 1);
        lemma_differs(s, "!matches"@, i, 1);
        lemma_differs(s, "!contains"@, i, 1);
        lemma_differs(s, "!startswith"@, i, 1);
        lemma_differs(s, "!endswith"@, i, 1);
    } else {
        lemma_differs(s, "!exists"@, i, 0);
        lemma_differs(s, "!missing"@, i, 0);
        lemma_differs(s, "!matches"@, i, 0);
        lemma_differs(s, "!contains"@, i, 0);
        lemma_differs(s, "!startswith"@, i, 0);
        lemma_differs(s, "!endswith"@, i, 0);
        lemma_differs(s, "!="@, i, 0);
    }
    if op == BinaryOp::Compare(CompareOp::Le) {
    } else if s[i] == '<' {
        lemma_differs(s, "<="@, i, 1);
        lemma_differs(s, ">="@, i, 0);
        lemma_differs(s, "="@, i, 0);
    } else {
        lemma_differs(s, "<="@, i, 0);
        lemma_differs(s, "<"@, i, 0);
    }
    if op == BinaryOp::Compare(CompareOp::Ge) {
    } else if s[i] == '>' {
        lemma_differs(s, ">="@, i, 1);
        lemma_differs(s, "="@, i, 0);
    } else {
        lemma_differs(s, ">="@, i, 0);
        lemma_differs(s, ">"@, i, 0);
    }
}

/// A word is read as the operator that it is.
proof fn lemma_op_word(s: Seq<char>, op: BinaryOp, i: int)
    requires
        !is_sign(op),
        occurs_at(s, op_text(op), i),
        i + op_text(op).len() < s.len(),
        is_blank(s[i + op_text(op).len()]),
    ensures
        no_tail_word(s, i),
        binary_at(s, i) == Some((op, i + op_text(op).len())),
        !is_blank(s[i]),
{
    reveal_strlit("NOT");
    reveal_strlit("IN");
    reveal_strlit("IS");
    reveal_strlit("exists");
    reveal_strlit("!exists");
    reveal_strlit("missing");
    reveal_strlit("!missing");
    reveal_strlit("matches");
    reveal_strlit("!matches");
    reveal_strlit("contains");
    reveal_strlit("!contains");
    reveal_strlit("startswith");
    reveal_strlit("!startswith");
    reveal_strlit("endswith");
    reveal_strlit("!endswith");
    let o = op_text(op);
    lemma_char(s, o, i, 0);
    lemma_char(s, o, i, 1);
    lemma_char(s, o, i, 2);
    assert(keyword_at(s, o, i));
    lemma_differs(s, "NOT"@, i, 0);
    lemma_differs(s, "IN"@, i, 0);
    lemma_differs(s, "IS"@, i, 0);
    lemma_differs(s, "missing"@, i, 0);
    lemma_differs(s, "matches"@, i, 0);
    if s[i] == '!' {
        lemma_differs(s, "exists"@, i, 0);
        lemma_differs(s, "contains"@, i, 0);
        lemma_differs(s, "startswith"@, i, 0);
        lemma_differs(s, "endswith"@, i, 0);
        lemma_differs(s, "!missing"@, i, 1);
        lemma_differs(s, "!matches"@, i, 1);
        lemma_differs(s, "!exists"@, i, 2);
        if op is NotContains {
        } else {
            lemma_differs(s, "!contains"@, i, 1);
            if op is NotEndsWith {
                lemma_differs(s, "!startswith"@, i, 1);
            }
        }
    } else {
        lemma_differs(s, "!exists"@, i, 0);
        lemma_differs(s, "!missing"@, i, 0);
        lemma_differs(s, "!matches"@, i, 0);
        lemma_differs(s, "!contains"@, i, 0);
        lemma_differs(s, "!startswith"@, i, 0);
        lemma_differs(s, "!endswith"@, i, 0);
        lemma_differs(s, "exists"@, i, 1);
        if op is Contains {
        } else {
            lemma_differs(s, "contains"@, i, 0);
            if op is EndsWith {
                lemma_differs(s, "startswith"@, i, 0);
            }
        }
    }
}

// ── Clauses ────────────────────────────────────────────────────────────────

/// A clause: a field, an operator and a value, with blanks between them.
pub struct Clause {
    pub field: Seq<char>,
    pub before: Seq<char>,
    pub op: BinaryOp,
    pub behind: Seq<char>,
    pub value: Seq<char>,
}

/// Whether a clause is made of plain words, with blanks around an operator that is a word.
pub open spec fn is_clause(c: Clause) -> bool {
    &&& is_field_word(c.field)
    &&& is_plain_word(c.value)
    &&& are_blanks(c.before)
    &&& are_blanks(c.behind)
    &&& is_sign(c.op) || (c.before.len() > 0 && c.behind.len() > 0)
}

/// The text of a clause.
pub open spec fn clause_text(c: Clause) -> Seq<char> {
    c.field + (c.before + (op_text(c.op) + (c.behind + c.value)))
}

/// A clause stands for the condition of its field, operator and value.
proof fn lemma_clause(s: Seq<char>, c: Clause, i: int)
    requires
        is_clause(c),
        occurs_at(s, clause_text(c), i),
        stops(s, i + clause_text(c).len()),
    ensures
        predicate_at(s, i) == Some(
            (binary_cond(c.field, c.op, c.value), i + clause_text(c).len()),
        ),
{
    let o = op_text(c.op);
    let p = i + c.field.len();
    let q = p + c.before.len();
    let t = q + o.len();
    let u = t + c.behind.len();
    let e = u + c.value.len();
    lemma_parts(s, c.field, c.before + (o + (c.behind + c.value)), i);
    lemma_parts(s, c.before, o + (c.behind + c.value), p);
    lemma_parts(s, o, c.behind + c.value, q);
    lemma_parts(s, c.behind, c.value, t);
    assert(e == i + clause_text(c).len());
    lemma_char(s, c.value, u, 0);
    assert(is_plain_char(c.value[0]));
    assert(t < s.len() && s[t] != '=') by {
        if c.behind.len() > 0 {
            lemma_char(s, c.behind, t, 0);
            assert(c.behind[0] == ' ' || c.behind[0] == '\t');
        }
    }
    if is_sign(c.op) {
        lemma_sign(s, c.op, q);
    } else {
        lemma_char(s, c.behind, t, 0);
        assert(c.behind[0] == ' ' || c.behind[0] == '\t');
        lemma_op_word(s, c.op, q);
    }
    if c.before.len() > 0 {
        lemma_char(s, c.before, p, 0);
        assert(c.before[0] == ' ' || c.before[0] == '\t');
    }
    assert(!is_field_char(s[p]));
    lemma_field_end(s, c.field, i);
    lemma_skip(s, c.before, p);
    lemma_skip(s, c.behind, t);
    lemma_word_end(s, c.value, u);
    assert(s.subrange(i, p) =~= c.field);
    assert(s.subrange(u, e) =~= c.value);
    assert(value_at(s, u) == Some((c.value, e)));
    assert(binary_at(s, q) == Some((c.op, t)));
    assert(tail_at(s, c.field, q) == Some((binary_cond(c.field, c.op, c.value), e)));
}

/// Whether a text is read as a condition.
#[verifier::opaque]
pub open spec fn reads(text: Seq<char>, c: Cond) -> bool {
    parsed(text) == Ok::<Cond, Failure>(c)
}

/// Whether a condition that may be negated is read at a position, and ends at another.
#[verifier::opaque]
spec fn not_reads(s: Seq<char>, i: int, c: Cond, e: int) -> bool {
    not_at(s, i) == Some((c, e))
}

/// Whether a condition in brackets or on a field is read at a position, and ends at another.
#[verifier::opaque]
spec fn atom_reads(s: Seq<char>, i: int, c: Cond, e: int) -> bool {
    atom_at(s, i) == Some((c, e))
}

/// Whether conditions joined by `&&` are read at a position, and end at another.
#[verifier::opaque]
spec fn and_reads(s: Seq<char>, i: int, c: Cond, e: int) -> bool {
    and_at(s, i) == Some((c, e))
}

/// Whether conditions joined by `||` are read at a position, and end at another.
#[verifier::opaque]
spec fn or_reads(s: Seq<char>, i: int, c: Cond, e: int) -> bool {
    or_at(s, i) == Some((c, e))
}

/// A field that does not name the negation is not read as one.
proof fn lemma_no_negation(s: Seq<char>, f: Seq<char>, i: int)
    requires
        is_field_word(f),
        occurs_at(s, f, i),
        i + f.len() == s.len() || !is_plain_char(s[i + f.len()]),
    ensures
        !keyword_at(s, "NOT"@, i),
        s[i] != '(',
        !is_blank(s[i]),
        0 <= i < s.len(),
{
    reveal_strlit("NOT");
    lemma_char(s, f, i, 0);
    assert(is_plain_char(f[0]));
    if keyword_at(s, "NOT"@, i) {
        lemma_char(s, "NOT"@, i, 0);
        lemma_char(s, "NOT"@, i, 1);
        lemma_char(s, "NOT"@, i, 2);
        if f.len() > 3 {
            lemma_char(s, f, i, 3);
            assert(is_plain_char(f[3]));
        } else if f.len() == 3 {
            lemma_char(s, f, i, 1);
            lemma_char(s, f, i, 2);
            assert(f =~= "NOT"@);
        } else {
            assert(is_plain_char(s[i + f.len()]));
        }
    }
}

/// A clause behind blanks is read as a condition that may be negated.
proof fn lemma_clause_read(s: Seq<char>, c: Clause, from: int, i: int)
    requires
        is_clause(c),
        occurs_at(s, clause_text(c), i),
        stops(s, i + clause_text(c).len()),
        0 <= from <= i,
        skip(s, from) == i,
    ensures
        not_reads(s, from, binary_cond(c.field, c.op, c.value), i + clause_text(c).len()),
{
    reveal(not_reads);
    let o = op_text(c.op);
    lemma_clause(s, c, i);
    lemma_parts(s, c.field, c.before + (o + (c.behind + c.value)), i);
    let p = i + c.field.len();
    lemma_parts(s, c.before, o + (c.behind + c.value), p);
    lemma_parts(s, o, c.behind + c.value, p + c.before.len());
    assert(!is_plain_char(s[p])) by {
        if c.before.len() > 0 {
            lemma_char(s, c.before, p, 0);
            assert(c.before[0] == ' ' || c.before[0] == '\t');
        } else {
            reveal_strlit("=");
            reveal_strlit("!=");
            reveal_strlit("<");
            reveal_strlit("<=");
            reveal_strlit(">");
            reveal_strlit(">=");
            lemma_char(s, o, p, 0);
        }
    }
    lemma_no_negation(s, c.field, i);
    assert(atom_at(s, from) == predicate_at(s, i));
    assert(not_at(s, from) == atom_at(s, from));
}

/// The condition that a clause stands for names no pattern.
proof fn lemma_no_pattern(field: Seq<char>, op: BinaryOp, value: Seq<char>)
    ensures
        bad_regex(binary_cond(field, op, value)) is None,
{
    reveal_with_fuel(bad_regex, 3);
    let form = Val::Text(crate::record::shown(scalar(value)));
    let text = Val::Text(value);
    let number = scalar(value);
    lemma_no_pattern_in(
        Pred::Equals { field, value: text },
        Pred::Equals { field, value: number },
        Pred::Equals { field, value: form },
    );
    lemma_no_pattern_in(
        Pred::Contains { field, value: text },
        Pred::Contains { field, value: number },
        Pred::Contains { field, value: form },
    );
    assert(bad_regex(contains_cond(field, value)) is None);
    assert(bad_regex(not_cond(contains_cond(field, value))) is None);
}

/// A condition for a text or a number names no pattern.
proof fn lemma_no_pattern_in(a: Pred, b: Pred, d: Pred)
    requires
        !(a is Matches),
        !(b is Matches),
        !(d is Matches),
    ensures
        bad_regex(
            Cond::Or(
                seq![
                    Cond::Predicate(a),
                    Cond::And(seq![Cond::Predicate(b), not_cond(Cond::Predicate(d))]),
                ],
            ),
        ) is None,
{
    let x = Cond::Predicate(a);
    let y = Cond::Predicate(b);
    let z = Cond::Predicate(d);
    let n = not_cond(z);
    let both = seq![y, n];
    let all = seq![x, Cond::And(both)];
    assert(bad_regex(x) is None && bad_regex(y) is None && bad_regex(z) is None);
    assert(bad_regex(n) is None);
    lemma_no_pattern_in_two(y, n);
    assert(bad_regex(Cond::And(both)) is None);
    lemma_no_pattern_in_two(x, Cond::And(both));
}

/// Two conditions that name no pattern name none together.
proof fn lemma_no_pattern_in_two(a: Cond, b: Cond)
    requires
        bad_regex(a) is None,
        bad_regex(b) is None,
    ensures
        bad_regex_in(seq![a, b]) is None,
        bad_regex(Cond::And(seq![a, b])) is None,
        bad_regex(Cond::Or(seq![a, b])) is None,
{
    let two = seq![a, b];
    let one = two.drop_last();
    assert(one =~= seq![a]);
    assert(one.drop_last() =~= Seq::<Cond>::empty());
    assert(bad_regex_in(one.drop_last()) is None);
    assert(bad_regex_in(one) == bad_regex(a));
    assert(bad_regex_in(two) is None);
}

/// A text that is read from its start to its end stands for what was read.
proof fn lemma_parsed(s: Seq<char>, c: Cond)
    requires
        s.len() > 0,
        !is_white(s[0]),
        !is_white(s.last()),
        or_reads(s, 0, c, s.len() as int),
        bad_regex(c) is None,
    ensures
        reads(s, c),
{
    reveal(reads);
    reveal(or_reads);
    let none = Seq::<char>::empty();
    law_trimmed(none, s, none);
    assert(none + s + none =~= s);
    assert(skip(s, s.len() as int) == s.len());
}

/// What is read up to the end of a text ends all that it is part of.
proof fn lemma_read_alone(s: Seq<char>, i: int, c: Cond)
    requires
        0 <= i < s.len(),
        not_reads(s, i, c, s.len() as int),
    ensures
        and_reads(s, i, c, s.len() as int),
        or_reads(s, i, c, s.len() as int),
{
    reveal(not_reads);
    reveal(and_reads);
    reveal(or_reads);
    reveal_strlit("&&");
    reveal_strlit("||");
    let n = s.len() as int;
    assert(skip(s, n) == n);
    assert(!occurs_at(s, "&&"@, n));
    assert(!occurs_at(s, "||"@, n));
    assert(and_rest(s, seq![c], n) == Some((seq![c], n)));
    assert(all_of(seq![c]) == c);
    assert(or_rest(s, seq![c], n) == Some((seq![c], n)));
    assert(any_of(seq![c]) == c);
}

/// The characters at the ends of a clause are no white space.
proof fn lemma_clause_ends(c: Clause)
    requires
        is_clause(c),
    ensures
        clause_text(c).len() > 0,
        !is_white(clause_text(c)[0]),
        !is_white(clause_text(c).last()),
        is_plain_char(clause_text(c)[0]),
        is_plain_char(clause_text(c).last()),
{
    let s = clause_text(c);
    assert(s[0] == c.field[0]);
    assert(s.last() == c.value.last());
    assert(is_plain_char(c.field[0]));
    assert(is_plain_char(c.value[c.value.len() - 1]));
}

/// A field, an operator and a value are read as the condition that the operator makes of the
/// field and the value, whatever blanks stand between them.
pub proof fn law_clauses_are_read(c: Clause)
    requires
        is_clause(c),
    ensures
        reads(clause_text(c), binary_cond(c.field, c.op, c.value)),
{
    let s = clause_text(c);
    lemma_whole(s);
    lemma_clause_ends(c);
    assert(s[0] == c.field[0] && is_plain_char(c.field[0]));
    assert(skip(s, 0) == 0);
    lemma_clause_read(s, c, 0, 0);
    lemma_read_alone(s, 0, binary_cond(c.field, c.op, c.value));
    lemma_no_pattern(c.field, c.op, c.value);
    lemma_parsed(s, binary_cond(c.field, c.op, c.value));
}

/// The text of a comparison is read as that comparison: of the field with what the value
/// reads as, by the operator that is written.
pub proof fn law_comparisons_are_read(f: Seq<char>, w: Seq<char>)
    requires
        is_field_word(f),
        is_plain_word(w),
    ensures
        reads(f + " < "@ + w, Cond::Predicate(Pred::Compare { field: f, op: CompareOp::Lt, value: scalar(w) })),
        reads(f + " <= "@ + w, Cond::Predicate(Pred::Compare { field: f, op: CompareOp::Le, value: scalar(w) })),
        reads(f + " > "@ + w, Cond::Predicate(Pred::Compare { field: f, op: CompareOp::Gt, value: scalar(w) })),
        reads(f + " >= "@ + w, Cond::Predicate(Pred::Compare { field: f, op: CompareOp::Ge, value: scalar(w) })),
        reads(f + " != "@ + w, Cond::Predicate(Pred::Compare { field: f, op: CompareOp::Ne, value: scalar(w) })),
        reads(f + " = "@ + w, equals_cond(f, w)),
{
    assert(reads(f + " < "@ + w, binary_cond(f, BinaryOp::Compare(CompareOp::Lt), w))) by {
        reveal_strlit(" < ");
        reveal_strlit("<");
        assert(" < "@ =~= seq![' '] + "<"@ + seq![' ']);
        lemma_spaced(f, BinaryOp::Compare(CompareOp::Lt), w);
    }
    assert(reads(f + " <= "@ + w, binary_cond(f, BinaryOp::Compare(CompareOp::Le), w))) by {
        reveal_strlit(" <= ");
        reveal_strlit("<=");
        assert(" <= "@ =~= seq![' '] + "<="@ + seq![' ']);
        lemma_spaced(f, BinaryOp::Compare(CompareOp::Le), w);
    }
    assert(reads(f + " > "@ + w, binary_cond(f, BinaryOp::Compare(CompareOp::Gt), w))) by {
        reveal_strlit(" > ");
        reveal_strlit(">");
        assert(" > "@ =~= seq![' '] + ">"@ + seq![' ']);
        lemma_spaced(f, BinaryOp::Compare(CompareOp::Gt), w);
    }
    assert(reads(f + " >= "@ + w, binary_cond(f, BinaryOp::Compare(CompareOp::Ge), w))) by {
        reveal_strlit(" >= ");
        reveal_strlit(">=");
        assert(" >= "@ =~= seq![' '] + ">="@ + seq![' ']);
        lemma_spaced(f, BinaryOp::Compare(CompareOp::Ge), w);
    }
    assert(reads(f + " != "@ + w, binary_cond(f, BinaryOp::Compare(CompareOp::Ne), w))) by {
        reveal_strlit(" != ");
        reveal_strlit("!=");
        assert(" != "@ =~= seq![' '] + "!="@ + seq![' ']);
        lemma_spaced(f, BinaryOp::Compare(CompareOp::Ne), w);
    }
    assert(reads(f + " = "@ + w, binary_cond(f, BinaryOp::Equals, w))) by {
        reveal_strlit(" = ");
        reveal_strlit("=");
        assert(" = "@ =~= seq![' '] + "="@ + seq![' ']);
        lemma_spaced(f, BinaryOp::Equals, w);
    }
}

/// The words between a field and a value are read as what they say.
pub proof fn law_words_are_read(f: Seq<char>, w: Seq<char>)
    requires
        is_field_word(f),
        is_plain_word(w),
    ensures
        reads(f + " contains "@ + w, contains_cond(f, w)),
        reads(f + " !contains "@ + w, Cond::Not(Box::new(contains_cond(f, w)))),
        reads(f + " startswith "@ + w, Cond::Predicate(Pred::StartsWith { field: f, value: w })),
        reads(f + " !startswith "@ + w, Cond::Not(Box::new(Cond::Predicate(Pred::StartsWith { field: f, value: w })))),
        reads(f + " endswith "@ + w, Cond::Predicate(Pred::EndsWith { field: f, value: w })),
        reads(f + " !endswith "@ + w, Cond::Not(Box::new(Cond::Predicate(Pred::EndsWith { field: f, value: w })))),
{
    assert(reads(f + " contains "@ + w, binary_cond(f, BinaryOp::Contains, w))) by {
        reveal_strlit(" contains ");
        reveal_strlit("contains");
        assert(" contains "@ =~= seq![' '] + "contains"@ + seq![' ']);
        lemma_spaced(f, BinaryOp::Contains, w);
    }
    assert(reads(f + " !contains "@ + w, binary_cond(f, BinaryOp::NotContains, w))) by {
        reveal_strlit(" !contains ");
        reveal_strlit("!contains");
        assert(" !contains "@ =~= seq![' '] + "!contains"@ + seq![' ']);
        lemma_spaced(f, BinaryOp::NotContains, w);
    }
    assert(reads(f + " startswith "@ + w, binary_cond(f, BinaryOp::StartsWith, w))) by {
        reveal_strlit(" startswith ");
        reveal_strlit("startswith");
        assert(" startswith "@ =~= seq![' '] + "startswith"@ + seq![' ']);
        lemma_spaced(f, BinaryOp::StartsWith, w);
    }
    assert(reads(f + " !startswith "@ + w, binary_cond(f, BinaryOp::NotStartsWith, w))) by {
        reveal_strlit(" !startswith ");
        reveal_strlit("!startswith");
        assert(" !startswith "@ =~= seq![' '] + "!startswith"@ + seq![' ']);
        lemma_spaced(f, BinaryOp::NotStartsWith, w);
    }
    assert(reads(f + " endswith "@ + w, binary_cond(f, BinaryOp::EndsWith, w))) by {
        reveal_strlit(" endswith ");
        reveal_strlit("endswith");
        assert(" endswith "@ =~= seq![' '] + "endswith"@ + seq![' ']);
        lemma_spaced(f, BinaryOp::EndsWith, w);
    }
    assert(reads(f + " !endswith "@ + w, binary_cond(f, BinaryOp::NotEndsWith, w))) by {
        reveal_strlit(" !endswith ");
        reveal_strlit("!endswith");
        assert(" !endswith "@ =~= seq![' '] + "!endswith"@ + seq![' ']);
        lemma_spaced(f, BinaryOp::NotEndsWith, w);
    }
}

/// A clause with one blank before and one behind its operator.
proof fn lemma_spaced(f: Seq<char>, op: BinaryOp, w: Seq<char>)
    requires
        is_field_word(f),
        is_plain_word(w),
    ensures
        reads(f + (seq![' '] + op_text(op) + seq![' ']) + w, binary_cond(f, op, w)),
{
    let b = seq![' '];
    let c = Clause { field: f, before: b, op, behind: b, value: w };
    law_clauses_are_read(c);
    assert(clause_text(c) =~= f + (b + op_text(op) + b) + w);
}

/// What is written as an integer is written reads as that integer.
pub proof fn law_integers_are_read(n: i64)
    ensures
        scalar(signed_decimal(n as int)) == Val::Int(n),
        is_own_form(signed_decimal(n as int)),
{
    law_integer_is_read_back(n);
}

// ── Conditions joined ──────────────────────────────────────────────────────

/// The condition that a clause stands for.
pub open spec fn clause_cond(c: Clause) -> Cond {
    binary_cond(c.field, c.op, c.value)
}

/// What is read behind one blank.
proof fn lemma_behind_blank(s: Seq<char>, c: Clause, i: int)
    requires
        is_clause(c),
        occurs_at(s, seq![' '] + clause_text(c), i),
        stops(s, i + 1 + clause_text(c).len()),
    ensures
        not_reads(s, i, clause_cond(c), i + 1 + clause_text(c).len()),
{
    let t = clause_text(c);
    lemma_parts(s, seq![' '], t, i);
    lemma_clause_ends(c);
    lemma_char(s, t, i + 1, 0);
    lemma_skip(s, seq![' '], i);
    lemma_clause_read(s, c, i, i + 1);
}

/// What is read without blanks before it.
proof fn lemma_at_once(s: Seq<char>, c: Clause, i: int)
    requires
        is_clause(c),
        occurs_at(s, clause_text(c), i),
        stops(s, i + clause_text(c).len()),
    ensures
        not_reads(s, i, clause_cond(c), i + clause_text(c).len()),
        clause_text(c).len() > 0,
        i + clause_text(c).len() <= s.len(),
        s[i] != '(' && !is_blank(s[i]),
{
    let t = clause_text(c);
    lemma_clause_ends(c);
    lemma_char(s, t, i, 0);
    assert(skip(s, i) == i);
    lemma_clause_read(s, c, i, i);
}

/// A joint of two signs behind one blank is found.
proof fn lemma_joint(s: Seq<char>, sign: Seq<char>, other: Seq<char>, i: int)
    requires
        occurs_at(s, seq![' '] + sign, i),
        sign == "&&"@ && other == "||"@ || sign == "||"@ && other == "&&"@,
    ensures
        skip(s, i) == i + 1,
        occurs_at(s, sign, i + 1),
        !occurs_at(s, other, i + 1),
        i + 3 <= s.len(),
        s[i] == ' ',
{
    reveal_strlit("&&");
    reveal_strlit("||");
    lemma_parts(s, seq![' '], sign, i);
    lemma_char(s, seq![' '], i, 0);
    lemma_char(s, sign, i + 1, 0);
    lemma_skip(s, seq![' '], i);
    lemma_differs(s, other, i + 1, 0);
}

/// Nothing joins a condition with what stands behind a bracket that closes, or at the end.
proof fn lemma_no_joint(s: Seq<char>, i: int)
    requires
        i == s.len() || (0 <= i < s.len() && s[i] == ')'),
    ensures
        skip(s, i) == i,
        !occurs_at(s, "&&"@, i),
        !occurs_at(s, "||"@, i),
{
    reveal_strlit("&&");
    reveal_strlit("||");
    if i < s.len() {
        lemma_differs(s, "&&"@, i, 0);
        lemma_differs(s, "||"@, i, 0);
    }
}

/// Two conditions joined by `&&`, with nothing that joins more.
proof fn lemma_and_two(s: Seq<char>, i: int, a: Cond, j: int, b: Cond, e: int)
    requires
        0 <= i < j,
        not_reads(s, i, a, j),
        occurs_at(s, seq![' '] + "&&"@, j),
        not_reads(s, j + 3, b, e),
        j + 3 < e <= s.len(),
        !occurs_at(s, "&&"@, skip(s, e)),
    ensures
        and_reads(s, i, Cond::And(seq![a, b]), e),
{
    reveal(not_reads);
    reveal(and_reads);
    lemma_joint(s, "&&"@, "||"@, j);
    let done = seq![a];
    assert(done.push(b) =~= seq![a, b]);
    assert(and_rest(s, seq![a, b], e) == Some((seq![a, b], e)));
    assert(and_rest(s, done, j) == and_rest(s, done.push(b), e));
}

/// One condition with nothing behind it that `&&` joins.
proof fn lemma_and_one(s: Seq<char>, i: int, a: Cond, j: int)
    requires
        0 <= i < j <= s.len(),
        not_reads(s, i, a, j),
        !occurs_at(s, "&&"@, skip(s, j)),
    ensures
        and_reads(s, i, a, j),
{
    reveal(not_reads);
    reveal(and_reads);
    assert(and_rest(s, seq![a], j) == Some((seq![a], j)));
    assert(all_of(seq![a]) == a);
}

/// Where nothing joins more by `||`, what was read is all.
proof fn lemma_or_stops(s: Seq<char>, done: Seq<Cond>, e: int)
    requires
        0 <= e,
        !occurs_at(s, "||"@, skip(s, e)),
    ensures
        or_rest(s, done, e) == Some((done, e)),
{
}

/// One more condition that `||` joins.
proof fn lemma_or_goes_on(s: Seq<char>, done: Seq<Cond>, j: int, b: Cond, e: int)
    requires
        0 <= j,
        skip(s, j) == j + 1,
        occurs_at(s, "||"@, j + 1),
        and_reads(s, j + 3, b, e),
        j < e <= s.len(),
    ensures
        or_rest(s, done, j) == or_rest(s, done.push(b), e),
{
    reveal(and_reads);
}

/// Two conditions joined by `||`, with nothing that joins more.
proof fn lemma_or_two(s: Seq<char>, i: int, a: Cond, j: int, b: Cond, e: int)
    requires
        0 <= i < j,
        and_reads(s, i, a, j),
        occurs_at(s, seq![' '] + "||"@, j),
        and_reads(s, j + 3, b, e),
        j + 3 < e <= s.len(),
        !occurs_at(s, "||"@, skip(s, e)),
    ensures
        or_reads(s, i, Cond::Or(seq![a, b]), e),
{
    lemma_joint(s, "||"@, "&&"@, j);
    let done = seq![a];
    assert(done.push(b) =~= seq![a, b]);
    lemma_or_stops(s, seq![a, b], e);
    lemma_or_goes_on(s, done, j, b, e);
    assert(or_rest(s, seq![a], j) == Some((seq![a, b], e)));
    lemma_or_all(s, i, a, j, seq![a, b], e);
}

/// What `||` joins is read as one condition.
proof fn lemma_or_all(s: Seq<char>, i: int, a: Cond, j: int, cs: Seq<Cond>, e: int)
    requires
        0 <= i < j <= s.len(),
        and_reads(s, i, a, j),
        or_rest(s, seq![a], j) == Some((cs, e)),
    ensures
        or_reads(s, i, any_of(cs), e),
{
    reveal(and_reads);
    reveal(or_reads);
}

/// One condition with nothing behind it that `||` joins.
proof fn lemma_or_one(s: Seq<char>, i: int, a: Cond, j: int)
    requires
        0 <= i < j <= s.len(),
        and_reads(s, i, a, j),
        !occurs_at(s, "||"@, skip(s, j)),
    ensures
        or_reads(s, i, a, j),
{
    reveal(and_reads);
    reveal(or_reads);
    assert(or_rest(s, seq![a], j) == Some((seq![a], j)));
    assert(any_of(seq![a]) == a);
}

/// Two clauses with `&&` between them are read as both.
pub proof fn law_joints_are_read(a: Clause, b: Clause)
    requires
        is_clause(a),
        is_clause(b),
    ensures
        reads(clause_text(a) + " && "@ + clause_text(b), Cond::And(seq![clause_cond(a), clause_cond(b)])),
{
    let x = clause_text(a);
    let y = clause_text(b);
    lemma_clause_ends(a);
    lemma_clause_ends(b);
    lemma_no_pattern(a.field, a.op, a.value);
    lemma_no_pattern(b.field, b.op, b.value);
    lemma_no_pattern_in_two(clause_cond(a), clause_cond(b));
    reveal_strlit(" && ");
    reveal_strlit("&&");
    let s = x + " && "@ + y;
    let n = s.len() as int;
    let j = x.len() as int;
    let both = seq![' '] + "&&"@;
    assert(s =~= x + (both + (seq![' '] + y)));
    lemma_whole(s);
    lemma_parts(s, x, both + (seq![' '] + y), 0);
    lemma_parts(s, both, seq![' '] + y, j);
    lemma_char(s, both, j, 0);
    lemma_at_once(s, a, 0);
    lemma_behind_blank(s, b, j + 3);
    lemma_no_joint(s, n);
    lemma_and_two(s, 0, clause_cond(a), j, clause_cond(b), n);
    lemma_or_one(s, 0, Cond::And(seq![clause_cond(a), clause_cond(b)]), n);
    assert(s[0] == x[0] && s.last() == y.last());
    lemma_parsed(s, Cond::And(seq![clause_cond(a), clause_cond(b)]));
}

/// Two clauses with `||` between them are read as one of them.
pub proof fn law_alternatives_are_read(a: Clause, b: Clause)
    requires
        is_clause(a),
        is_clause(b),
    ensures
        reads(clause_text(a) + " || "@ + clause_text(b), Cond::Or(seq![clause_cond(a), clause_cond(b)])),
{
    let x = clause_text(a);
    let y = clause_text(b);
    lemma_clause_ends(a);
    lemma_clause_ends(b);
    lemma_no_pattern(a.field, a.op, a.value);
    lemma_no_pattern(b.field, b.op, b.value);
    lemma_no_pattern_in_two(clause_cond(a), clause_cond(b));
    reveal_strlit(" || ");
    reveal_strlit("||");
    let s = x + " || "@ + y;
    let n = s.len() as int;
    let j = x.len() as int;
    let either = seq![' '] + "||"@;
    assert(s =~= x + (either + (seq![' '] + y)));
    lemma_whole(s);
    lemma_parts(s, x, either + (seq![' '] + y), 0);
    lemma_parts(s, either, seq![' '] + y, j);
    lemma_char(s, either, j, 0);
    lemma_at_once(s, a, 0);
    lemma_behind_blank(s, b, j + 3);
    lemma_no_joint(s, n);
    lemma_joint(s, "||"@, "&&"@, j);
    lemma_and_one(s, 0, clause_cond(a), j);
    lemma_and_one(s, j + 3, clause_cond(b), n);
    lemma_or_two(s, 0, clause_cond(a), j, clause_cond(b), n);
    assert(s[0] == x[0] && s.last() == y.last());
    lemma_parsed(s, Cond::Or(seq![clause_cond(a), clause_cond(b)]));
}

/// `&&` binds tighter than a `||` before it.
#[verifier::rlimit(60)]
pub proof fn law_and_binds_tighter(a: Clause, b: Clause, c: Clause)
    requires
        is_clause(a),
        is_clause(b),
        is_clause(c),
    ensures
        reads(clause_text(a) + " || "@ + clause_text(b) + " && "@ + clause_text(c), Cond::Or(
                seq![clause_cond(a), Cond::And(seq![clause_cond(b), clause_cond(c)])],
            )),
{
    let x = clause_text(a);
    let y = clause_text(b);
    let z = clause_text(c);
    lemma_clause_ends(a);
    lemma_clause_ends(b);
    lemma_clause_ends(c);
    lemma_no_pattern(a.field, a.op, a.value);
    lemma_no_pattern(b.field, b.op, b.value);
    lemma_no_pattern(c.field, c.op, c.value);
    lemma_no_pattern_in_two(clause_cond(a), clause_cond(b));
    lemma_no_pattern_in_two(clause_cond(b), clause_cond(c));
    let ab = Cond::And(seq![clause_cond(a), clause_cond(b)]);
    let bc = Cond::And(seq![clause_cond(b), clause_cond(c)]);
    lemma_no_pattern_in_two(clause_cond(a), bc);
    lemma_no_pattern_in_two(ab, clause_cond(c));
    reveal_strlit(" || ");
    reveal_strlit(" && ");
    reveal_strlit("||");
    reveal_strlit("&&");
    let s = x + " || "@ + y + " && "@ + z;
    let n = s.len() as int;
    let j = x.len() as int;
    let k = j + 4 + y.len();
    let either = seq![' '] + "||"@;
    let both = seq![' '] + "&&"@;
    let last = seq![' '] + z;
    let mid = seq![' '] + y;
    assert(s =~= x + (either + (mid + (both + last))));
    lemma_whole(s);
    lemma_parts(s, x, either + (mid + (both + last)), 0);
    lemma_parts(s, either, mid + (both + last), j);
    lemma_parts(s, mid, both + last, j + 3);
    lemma_parts(s, both, last, k);
    lemma_char(s, either, j, 0);
    lemma_char(s, both, k, 0);
    lemma_at_once(s, a, 0);
    lemma_behind_blank(s, b, j + 3);
    lemma_behind_blank(s, c, k + 3);
    lemma_no_joint(s, n);
    lemma_joint(s, "||"@, "&&"@, j);
    lemma_and_one(s, 0, clause_cond(a), j);
    lemma_and_two(s, j + 3, clause_cond(b), k, clause_cond(c), n);
    lemma_or_two(s, 0, clause_cond(a), j, bc, n);
    assert(s[0] == x[0] && s.last() == z.last());
    lemma_parsed(s, Cond::Or(seq![clause_cond(a), bc]));
}

/// `&&` binds tighter than a `||` behind it.
#[verifier::rlimit(60)]
pub proof fn law_and_before_or(a: Clause, b: Clause, c: Clause)
    requires
        is_clause(a),
        is_clause(b),
        is_clause(c),
    ensures
        reads(clause_text(a) + " && "@ + clause_text(b) + " || "@ + clause_text(c), Cond::Or(
                seq![Cond::And(seq![clause_cond(a), clause_cond(b)]), clause_cond(c)],
            )),
{
    let x = clause_text(a);
    let y = clause_text(b);
    let z = clause_text(c);
    lemma_clause_ends(a);
    lemma_clause_ends(b);
    lemma_clause_ends(c);
    lemma_no_pattern(a.field, a.op, a.value);
    lemma_no_pattern(b.field, b.op, b.value);
    lemma_no_pattern(c.field, c.op, c.value);
    lemma_no_pattern_in_two(clause_cond(a), clause_cond(b));
    lemma_no_pattern_in_two(clause_cond(b), clause_cond(c));
    let ab = Cond::And(seq![clause_cond(a), clause_cond(b)]);
    let bc = Cond::And(seq![clause_cond(b), clause_cond(c)]);
    lemma_no_pattern_in_two(clause_cond(a), bc);
    lemma_no_pattern_in_two(ab, clause_cond(c));
    reveal_strlit(" || ");
    reveal_strlit(" && ");
    reveal_strlit("||");
    reveal_strlit("&&");
    let s = x + " && "@ + y + " || "@ + z;
    let n = s.len() as int;
    let j = x.len() as int;
    let k = j + 4 + y.len();
    let either = seq![' '] + "||"@;
    let both = seq![' '] + "&&"@;
    let last = seq![' '] + z;
    let mid = seq![' '] + y;
    assert(s =~= x + (both + (mid + (either + last))));
    lemma_whole(s);
    lemma_parts(s, x, both + (mid + (either + last)), 0);
    lemma_parts(s, both, mid + (either + last), j);
    lemma_parts(s, mid, either + last, j + 3);
    lemma_parts(s, either, last, k);
    lemma_char(s, both, j, 0);
    lemma_char(s, either, k, 0);
    lemma_at_once(s, a, 0);
    lemma_behind_blank(s, b, j + 3);
    lemma_behind_blank(s, c, k + 3);
    lemma_no_joint(s, n);
    lemma_joint(s, "||"@, "&&"@, k);
    lemma_and_two(s, 0, clause_cond(a), j, clause_cond(b), k);
    lemma_and_one(s, k + 3, clause_cond(c), n);
    lemma_or_two(s, 0, ab, k, clause_cond(c), n);
    assert(s[0] == x[0] && s.last() == z.last());
    lemma_parsed(s, Cond::Or(seq![ab, clause_cond(c)]));
}

/// `NOT` before a clause is read as its negation.
pub proof fn law_negations_are_read(a: Clause)
    requires
        is_clause(a),
    ensures
        reads("NOT "@ + clause_text(a), Cond::Not(Box::new(clause_cond(a)))),
{
    reveal_strlit("NOT ");
    reveal_strlit("NOT");
    let x = clause_text(a);
    let s = "NOT "@ + x;
    let n = s.len() as int;
    lemma_clause_ends(a);
    lemma_no_pattern(a.field, a.op, a.value);
    assert(s =~= "NOT"@ + (seq![' '] + x));
    lemma_whole(s);
    lemma_parts(s, "NOT"@, seq![' '] + x, 0);
    lemma_char(s, seq![' '] + x, 3, 0);
    lemma_char(s, "NOT"@, 0, 0);
    lemma_behind_blank(s, a, 3);
    assert(keyword_at(s, "NOT"@, 0));
    assert(skip(s, 0) == 0);
    lemma_negation(s, 0, clause_cond(a), n);
    lemma_read_alone(s, 0, not_cond(clause_cond(a)));
    assert(s.last() == x.last());
    assert(bad_regex(not_cond(clause_cond(a))) is None);
    lemma_parsed(s, not_cond(clause_cond(a)));
}

/// A disjunction in brackets is one part of a conjunction.
#[verifier::rlimit(60)]
pub proof fn law_brackets_are_read(a: Clause, b: Clause, c: Clause)
    requires
        is_clause(a),
        is_clause(b),
        is_clause(c),
    ensures
        reads("("@ + clause_text(a) + " || "@ + clause_text(b) + ") && "@ + clause_text(c), Cond::And(
                seq![Cond::Or(seq![clause_cond(a), clause_cond(b)]), clause_cond(c)],
            )),
{
    let x = clause_text(a);
    let y = clause_text(b);
    let z = clause_text(c);
    let ab = Cond::Or(seq![clause_cond(a), clause_cond(b)]);
    lemma_clause_ends(a);
    lemma_clause_ends(b);
    lemma_clause_ends(c);
    lemma_no_pattern(a.field, a.op, a.value);
    lemma_no_pattern(b.field, b.op, b.value);
    lemma_no_pattern(c.field, c.op, c.value);
    lemma_no_pattern_in_two(clause_cond(a), clause_cond(b));
    lemma_no_pattern_in_two(ab, clause_cond(c));
    let inner = x + (seq![' '] + "||"@ + (seq![' '] + y));
    reveal_strlit("(");
    reveal_strlit(" || ");
    reveal_strlit(") && ");
    reveal_strlit("||");
    reveal_strlit("&&");
    reveal_strlit("NOT");
    let s = "("@ + x + " || "@ + y + ") && "@ + z;
    let n = s.len() as int;
    let open = seq!['('];
    let close = seq![')'];
    let both = seq![' '] + "&&"@;
    let last = seq![' '] + z;
    assert(s =~= open + (inner + (close + (both + last))));
    lemma_whole(s);
    lemma_parts(s, open, inner + (close + (both + last)), 0);
    lemma_parts(s, inner, close + (both + last), 1);
    let k = 1 + inner.len() as int;
    lemma_parts(s, close, both + last, k);
    lemma_parts(s, both, last, k + 1);
    lemma_char(s, open, 0, 0);
    lemma_char(s, close, k, 0);
    lemma_char(s, both, k + 1, 0);
    assert(skip(s, 0) == 0);
    lemma_in_brackets(s, a, b, 0, 0);
    lemma_differs(s, "NOT"@, 0, 0);
    lemma_no_negation_read(s, 0, 0, ab, k + 1);
    lemma_behind_blank(s, c, k + 4);
    lemma_no_joint(s, n);
    lemma_and_two(s, 0, ab, k + 1, clause_cond(c), n);
    lemma_or_one(s, 0, Cond::And(seq![ab, clause_cond(c)]), n);
    assert(s.last() == z.last());
    lemma_parsed(s, Cond::And(seq![ab, clause_cond(c)]));
}

/// A negation before brackets negates all that they hold.
#[verifier::rlimit(60)]
pub proof fn law_negated_brackets_are_read(a: Clause, b: Clause)
    requires
        is_clause(a),
        is_clause(b),
    ensures
        reads("NOT ("@ + clause_text(a) + " || "@ + clause_text(b) + ")"@, Cond::Not(Box::new(Cond::Or(seq![clause_cond(a), clause_cond(b)])))),
{
    let x = clause_text(a);
    let y = clause_text(b);
    let ab = Cond::Or(seq![clause_cond(a), clause_cond(b)]);
    lemma_clause_ends(a);
    lemma_clause_ends(b);
    lemma_no_pattern(a.field, a.op, a.value);
    lemma_no_pattern(b.field, b.op, b.value);
    lemma_no_pattern_in_two(clause_cond(a), clause_cond(b));
    let inner = x + (seq![' '] + "||"@ + (seq![' '] + y));
    reveal_strlit("NOT (");
    reveal_strlit(" || ");
    reveal_strlit(")");
    reveal_strlit("||");
    reveal_strlit("&&");
    reveal_strlit("NOT");
    let s = "NOT ("@ + x + " || "@ + y + ")"@;
    let n = s.len() as int;
    let open = seq!['('];
    let close = seq![')'];
    assert(s =~= "NOT"@ + (seq![' '] + (open + (inner + close))));
    lemma_whole(s);
    lemma_parts(s, "NOT"@, seq![' '] + (open + (inner + close)), 0);
    lemma_parts(s, seq![' '], open + (inner + close), 3);
    lemma_parts(s, open, inner + close, 4);
    lemma_parts(s, inner, close, 5);
    lemma_char(s, "NOT"@, 0, 0);
    lemma_char(s, seq![' '], 3, 0);
    lemma_char(s, open, 4, 0);
    lemma_char(s, close, 5 + inner.len() as int, 0);
    lemma_skip(s, seq![' '], 3);
    lemma_in_brackets(s, a, b, 3, 4);
    lemma_differs(s, "NOT"@, 4, 0);
    lemma_no_negation_read(s, 3, 4, ab, n);
    assert(keyword_at(s, "NOT"@, 0));
    assert(skip(s, 0) == 0);
    lemma_negation(s, 0, ab, n);
    lemma_read_alone(s, 0, not_cond(ab));
    assert(bad_regex(not_cond(ab)) is None);
    lemma_parsed(s, not_cond(ab));
}

/// A disjunction of two clauses in brackets.
proof fn lemma_in_brackets(s: Seq<char>, a: Clause, b: Clause, from: int, i: int)
    requires
        is_clause(a),
        is_clause(b),
        0 <= from <= i < s.len(),
        skip(s, from) == i,
        s[i] == '(',
        occurs_at(s, clause_text(a) + (seq![' '] + "||"@ + (seq![' '] + clause_text(b))), i + 1),
        ({
            let k = i + 5 + clause_text(a).len() + clause_text(b).len();
            0 <= k < s.len() && s[k] == ')'
        }),
    ensures
        atom_reads(
            s,
            from,
            Cond::Or(seq![clause_cond(a), clause_cond(b)]),
            i + 6 + clause_text(a).len() + clause_text(b).len(),
        ),
{
    reveal_strlit("||");
    let x = clause_text(a);
    let y = clause_text(b);
    let either = seq![' '] + "||"@;
    let j = i + 1 + x.len();
    let k = j + 4 + y.len();
    lemma_clause_ends(a);
    lemma_clause_ends(b);
    lemma_parts(s, x, either + (seq![' '] + y), i + 1);
    lemma_parts(s, either, seq![' '] + y, j);
    lemma_char(s, either, j, 0);
    lemma_at_once(s, a, i + 1);
    lemma_behind_blank(s, b, j + 3);
    lemma_no_joint(s, k);
    lemma_joint(s, "||"@, "&&"@, j);
    lemma_and_one(s, i + 1, clause_cond(a), j);
    lemma_and_one(s, j + 3, clause_cond(b), k);
    lemma_or_two(s, i + 1, clause_cond(a), j, clause_cond(b), k);
    lemma_bracket(s, from, i, Cond::Or(seq![clause_cond(a), clause_cond(b)]), k);
}

/// What stands in brackets is read as one condition.
proof fn lemma_bracket(s: Seq<char>, from: int, i: int, c: Cond, k: int)
    requires
        0 <= from <= i < k < s.len(),
        skip(s, from) == i,
        s[i] == '(',
        or_reads(s, i + 1, c, k),
        s[k] == ')',
    ensures
        atom_reads(s, from, c, k + 1),
{
    reveal(or_reads);
    reveal(atom_reads);
    assert(skip(s, k) == k);
}

/// What is read where no negation stands is read as it is.
proof fn lemma_no_negation_read(s: Seq<char>, from: int, i: int, c: Cond, e: int)
    requires
        0 <= from <= i < s.len(),
        skip(s, from) == i,
        !keyword_at(s, "NOT"@, i),
        atom_reads(s, from, c, e),
    ensures
        not_reads(s, from, c, e),
{
    reveal(atom_reads);
    reveal(not_reads);
}

/// What is read behind a negation is negated.
proof fn lemma_negation(s: Seq<char>, i: int, c: Cond, e: int)
    requires
        0 <= i < s.len(),
        skip(s, i) == i,
        keyword_at(s, "NOT"@, i),
        not_reads(s, i + 3, c, e),
    ensures
        not_reads(s, i, not_cond(c), e),
{
    reveal(not_reads);
}

// ── Other conditions on fields ─────────────────────────────────────────────

/// Whether what stands behind a field is read at a position, and ends at another.
#[verifier::opaque]
spec fn tail_reads(s: Seq<char>, f: Seq<char>, i: int, c: Cond, e: int) -> bool {
    tail_at(s, f, i) == Some((c, e))
}

/// A field with one blank and what stands behind a field after it is read as what that says.
proof fn lemma_tail_read(f: Seq<char>, t: Seq<char>, c: Cond)
    requires
        is_field_word(f),
        t.len() > 0,
        !is_blank(t[0]),
        !is_white(t.last()),
        tail_reads(
            f + (seq![' '] + t),
            f,
            f.len() as int + 1,
            c,
            f.len() as int + 1 + t.len(),
        ),
        bad_regex(c) is None,
    ensures
        reads(f + (seq![' '] + t), c),
{
    let s = f + (seq![' '] + t);
    let n = s.len() as int;
    lemma_whole(s);
    lemma_parts(s, f, seq![' '] + t, 0);
    lemma_parts(s, seq![' '], t, f.len() as int);
    lemma_char(s, seq![' '], f.len() as int, 0);
    lemma_char(s, t, f.len() as int + 1, 0);
    lemma_char(s, f, 0, 0);
    assert(is_plain_char(f[0]));
    lemma_field_end(s, f, 0);
    lemma_skip(s, seq![' '], f.len() as int);
    lemma_no_negation(s, f, 0);
    assert(s.subrange(0, f.len() as int) =~= f);
    assert(skip(s, 0) == 0);
    lemma_predicate_read(s, f, c);
    lemma_read_alone(s, 0, c);
    assert(s.last() == t.last());
    lemma_parsed(s, c);
}

/// A condition on a field that is all of a text.
proof fn lemma_predicate_read(s: Seq<char>, f: Seq<char>, c: Cond)
    requires
        0 < f.len() < s.len(),
        skip(s, 0) == 0,
        s[0] != '(',
        !keyword_at(s, "NOT"@, 0),
        field_end(s, 0) == f.len(),
        s.subrange(0, f.len() as int) == f,
        skip(s, f.len() as int) == f.len() + 1,
        tail_reads(s, f, f.len() as int + 1, c, s.len() as int),
    ensures
        not_reads(s, 0, c, s.len() as int),
{
    assert(predicate_at(s, 0) == Some((c, s.len() as int))) by {
        reveal(tail_reads);
    }
    lemma_predicate_is_all(s, c);
}

/// A condition on a field that is read from the start to the end of a text.
proof fn lemma_predicate_is_all(s: Seq<char>, c: Cond)
    requires
        s.len() > 0,
        skip(s, 0) == 0,
        s[0] != '(',
        !keyword_at(s, "NOT"@, 0),
        predicate_at(s, 0) == Some((c, s.len() as int)),
    ensures
        not_reads(s, 0, c, s.len() as int),
{
    reveal(not_reads);
    assert(atom_at(s, 0) == predicate_at(s, 0));
}

/// Whether a word stands at the end of a text.
proof fn lemma_last_word(f: Seq<char>, t: Seq<char>, word: Seq<char>)
    requires
        t == word,
    ensures
        keyword_at(f + (seq![' '] + t), word, f.len() as int + 1),
{
    let s = f + (seq![' '] + t);
    lemma_whole(s);
    lemma_parts(s, f, seq![' '] + t, 0);
    lemma_parts(s, seq![' '], t, f.len() as int);
}

/// A field is there or missing as the word behind it says.
pub proof fn law_presence_is_read(f: Seq<char>)
    requires
        is_field_word(f),
    ensures
        reads(f + (seq![' '] + "exists"@), Cond::Predicate(Pred::Exists { field: f })),
        reads(f + (seq![' '] + "!exists"@), Cond::Predicate(Pred::Missing { field: f })),
        reads(f + (seq![' '] + "missing"@), Cond::Predicate(Pred::Missing { field: f })),
        reads(f + (seq![' '] + "!missing"@), Cond::Predicate(Pred::Exists { field: f })),
{
    lemma_presence(f, "exists"@, Cond::Predicate(Pred::Exists { field: f }));
    lemma_presence(f, "!exists"@, Cond::Predicate(Pred::Missing { field: f }));
    lemma_presence(f, "missing"@, Cond::Predicate(Pred::Missing { field: f }));
    lemma_presence(f, "!missing"@, Cond::Predicate(Pred::Exists { field: f }));
}

/// A word for the presence of a field.
proof fn lemma_presence(f: Seq<char>, t: Seq<char>, c: Cond)
    requires
        is_field_word(f),
        ({
            ||| t == "exists"@ && c == Cond::Predicate(Pred::Exists { field: f })
            ||| t == "!exists"@ && c == Cond::Predicate(Pred::Missing { field: f })
            ||| t == "missing"@ && c == Cond::Predicate(Pred::Missing { field: f })
            ||| t == "!missing"@ && c == Cond::Predicate(Pred::Exists { field: f })
        }),
    ensures
        reads(f + (seq![' '] + t), c),
{
    reveal_strlit("NOT");
    reveal_strlit("IN");
    reveal_strlit("IS");
    reveal_strlit("exists");
    reveal_strlit("!exists");
    reveal_strlit("missing");
    reveal_strlit("!missing");
    let s = f + (seq![' '] + t);
    let i = f.len() as int + 1;
    lemma_whole(s);
    lemma_parts(s, f, seq![' '] + t, 0);
    lemma_parts(s, seq![' '], t, f.len() as int);
    lemma_char(s, t, i, 0);
    lemma_char(s, t, i, 1);
    lemma_last_word(f, t, t);
    lemma_differs(s, "NOT"@, i, 0);
    lemma_differs(s, "IN"@, i, 0);
    lemma_differs(s, "IS"@, i, 0);
    if t == "!exists"@ {
        lemma_differs(s, "exists"@, i, 0);
    } else if t == "missing"@ {
        lemma_differs(s, "exists"@, i, 0);
        lemma_differs(s, "!exists"@, i, 0);
    } else if t == "!missing"@ {
        lemma_differs(s, "exists"@, i, 0);
        lemma_differs(s, "!exists"@, i, 1);
        lemma_differs(s, "missing"@, i, 0);
    }
    assert(tail_reads(s, f, i, c, i + t.len())) by {
        reveal(tail_reads);
    }
    assert(bad_regex(c) is None);
    lemma_tail_read(f, t, c);
}

/// `IS NULL` is read as that a field is missing, and `IS NOT NULL` as that it is there.
pub proof fn law_null_is_read(f: Seq<char>)
    requires
        is_field_word(f),
    ensures
        reads(f + (seq![' '] + "IS NULL"@), Cond::Predicate(Pred::Missing { field: f })),
        reads(f + (seq![' '] + "IS NOT NULL"@), Cond::Predicate(Pred::Exists { field: f })),
{
    assert(reads(f + (seq![' '] + "IS NULL"@), Cond::Predicate(Pred::Missing { field: f }))) by {
        reveal_strlit("IS NULL");
        reveal_strlit("NOT");
        reveal_strlit("IN");
        reveal_strlit("IS");
        reveal_strlit("NULL");
        let t = "IS NULL"@;
        let s = f + (seq![' '] + t);
        let i = f.len() as int + 1;
        let b = seq![' '];
        assert(t =~= "IS"@ + (b + "NULL"@));
        lemma_whole(s);
        lemma_parts(s, f, seq![' '] + t, 0);
        lemma_parts(s, b, t, f.len() as int);
        lemma_parts(s, "IS"@, b + "NULL"@, i);
        lemma_parts(s, b, "NULL"@, i + 2);
        lemma_char(s, "IS"@, i, 0);
        lemma_char(s, "IS"@, i, 1);
        lemma_char(s, b, i + 2, 0);
        lemma_char(s, "NULL"@, i + 3, 0);
        lemma_differs(s, "NOT"@, i, 0);
        lemma_differs(s, "IN"@, i, 1);
        lemma_skip(s, b, i + 2);
        assert(keyword_at(s, "IS"@, i));
        assert(keyword_at(s, "NULL"@, i + 3));
        assert(tail_reads(
            s,
            f,
            i,
            Cond::Predicate(Pred::Missing { field: f }),
            i + t.len(),
        )) by {
            reveal(tail_reads);
        }
        lemma_tail_read(f, t, Cond::Predicate(Pred::Missing { field: f }));
    }
    assert(reads(f + (seq![' '] + "IS NOT NULL"@), Cond::Predicate(Pred::Exists { field: f }))) by {
        reveal_strlit("IS NOT NULL");
        reveal_strlit("NOT");
        reveal_strlit("IN");
        reveal_strlit("IS");
        reveal_strlit("NULL");
        let t = "IS NOT NULL"@;
        let s = f + (seq![' '] + t);
        let i = f.len() as int + 1;
        let b = seq![' '];
        assert(t =~= "IS"@ + (b + ("NOT"@ + (b + "NULL"@))));
        lemma_whole(s);
        lemma_parts(s, f, seq![' '] + t, 0);
        lemma_parts(s, b, t, f.len() as int);
        lemma_parts(s, "IS"@, b + ("NOT"@ + (b + "NULL"@)), i);
        lemma_parts(s, b, "NOT"@ + (b + "NULL"@), i + 2);
        lemma_parts(s, "NOT"@, b + "NULL"@, i + 3);
        lemma_parts(s, b, "NULL"@, i + 6);
        lemma_char(s, "IS"@, i, 0);
        lemma_char(s, "IS"@, i, 1);
        lemma_char(s, b, i + 2, 0);
        lemma_char(s, "NOT"@, i + 3, 0);
        lemma_char(s, "NOT"@, i + 3, 1);
        lemma_char(s, b, i + 6, 0);
        lemma_char(s, "NULL"@, i + 7, 0);
        lemma_differs(s, "NOT"@, i, 0);
        lemma_differs(s, "IN"@, i, 1);
        lemma_differs(s, "NULL"@, i + 3, 1);
        lemma_skip(s, b, i + 2);
        lemma_skip(s, b, i + 6);
        assert(keyword_at(s, "IS"@, i));
        assert(keyword_at(s, "NOT"@, i + 3));
        assert(keyword_at(s, "NULL"@, i + 7));
        assert(tail_reads(
            s,
            f,
            i,
            Cond::Predicate(Pred::Exists { field: f }),
            i + t.len(),
        )) by {
            reveal(tail_reads);
        }
        lemma_tail_read(f, t, Cond::Predicate(Pred::Exists { field: f }));
    }
}

/// Whether texts are plain words.
pub open spec fn are_plain_words(vs: Seq<Seq<char>>) -> bool {
    vs.len() > 0 && forall|i: int| 0 <= i < vs.len() ==> is_plain_word(#[trigger] vs[i])
}

/// The values of a list up to the bracket that closes it.
proof fn lemma_values(s: Seq<char>, b: Seq<char>, vs: Seq<Seq<char>>, i: int)
    requires
        are_blanks(b),
        are_plain_words(vs),
        occurs_at(s, b + (joined(vs, ", "@) + seq![')']), i),
    ensures
        values_at(s, i) == Some((vs, i + b.len() + joined(vs, ", "@).len() + 1)),
    decreases vs.len(),
{
    reveal_strlit(", ");
    let v = vs[0];
    let all = joined(vs, ", "@);
    let close = seq![')'];
    assert(is_plain_word(v));
    assert(is_plain_char(v[0]));
    lemma_parts(s, b, all + close, i);
    let k = i + b.len();
    if vs.len() == 1 {
        assert(all == v);
        lemma_parts(s, v, close, k);
        lemma_char(s, v, k, 0);
        lemma_char(s, close, k + v.len(), 0);
        lemma_skip(s, b, i);
        lemma_word_end(s, v, k);
        assert(s.subrange(k, k + v.len()) =~= v);
        assert(skip(s, k + v.len()) == k + v.len());
        assert(vs =~= seq![v]);
    } else {
        let rest = vs.skip(1);
        assert(vs =~= seq![v] + rest);
        law_joined(rest, v, ", "@);
        let more = joined(rest, ", "@);
        let one = seq![' '];
        assert(all + close =~= v + (seq![','] + (one + (more + close))));
        lemma_parts(s, v, seq![','] + (one + (more + close)), k);
        lemma_parts(s, seq![','], one + (more + close), k + v.len());
        lemma_char(s, v, k, 0);
        lemma_char(s, seq![','], k + v.len(), 0);
        lemma_skip(s, b, i);
        lemma_word_end(s, v, k);
        assert(s.subrange(k, k + v.len()) =~= v);
        assert(skip(s, k + v.len()) == k + v.len());
        assert forall|x: int| 0 <= x < rest.len() implies is_plain_word(#[trigger] rest[x]) by {
            assert(rest[x] == vs[x + 1]);
        }
        lemma_values(s, one, rest, k + v.len() + 1);
    }
}

/// Equalities name no pattern.
proof fn lemma_no_pattern_in_equalities(f: Seq<char>, vs: Seq<Seq<char>>)
    ensures
        bad_regex_in(equalities(f, vs)) is None,
    decreases vs.len(),
{
    let cs = equalities(f, vs);
    if vs.len() > 0 {
        let init = vs.drop_last();
        lemma_no_pattern_in_equalities(f, init);
        assert(cs.drop_last() =~= equalities(f, init));
        lemma_no_pattern(f, BinaryOp::Equals, vs.last());
        assert(cs.last() == binary_cond(f, BinaryOp::Equals, vs.last()));
    } else {
        assert(cs.len() == 0);
    }
}

/// A list names no pattern.
proof fn lemma_no_pattern_in_list(f: Seq<char>, vs: Seq<Seq<char>>)
    ensures
        bad_regex(any_of(equalities(f, vs))) is None,
{
    lemma_no_pattern_in_equalities(f, vs);
    if vs.len() == 1 {
        lemma_no_pattern(f, BinaryOp::Equals, vs[0]);
    }
}

/// A field and a list of plain words in brackets are read as the alternatives that the field
/// is one of them.
#[verifier::rlimit(60)]
#[verifier::spinoff_prover]
pub proof fn law_lists_are_read(f: Seq<char>, vs: Seq<Seq<char>>)
    requires
        is_field_word(f),
        are_plain_words(vs),
    ensures
        reads(
            f + (seq![' '] + ("IN ("@ + (joined(vs, ", "@) + seq![')']))),
            any_of(equalities(f, vs)),
        ),
{
    let c = any_of(equalities(f, vs));
    let list = joined(vs, ", "@) + seq![')'];
    let none = Seq::<char>::empty();
    lemma_no_pattern_in_list(f, vs);
    reveal_strlit("IN (");
    reveal_strlit("NOT");
    reveal_strlit("IN");
    let t = "IN ("@ + list;
    let s = f + (seq![' '] + t);
    let i = f.len() as int + 1;
    let b = seq![' '];
    let open = seq!['('];
    assert(t =~= "IN"@ + (b + (open + (none + list))));
    lemma_whole(s);
    lemma_parts(s, f, seq![' '] + t, 0);
    lemma_parts(s, b, t, f.len() as int);
    lemma_parts(s, "IN"@, b + (open + (none + list)), i);
    lemma_parts(s, b, open + (none + list), i + 2);
    lemma_parts(s, open, none + list, i + 3);
    lemma_char(s, "IN"@, i, 0);
    lemma_char(s, b, i + 2, 0);
    lemma_char(s, open, i + 3, 0);
    lemma_differs(s, "NOT"@, i, 0);
    lemma_skip(s, b, i + 2);
    lemma_values(s, none, vs, i + 4);
    assert(keyword_at(s, "IN"@, i));
    assert(t.last() == ')' && t[0] == 'I');
    lemma_list_is_tail(s, f, vs, i, i + t.len());
    lemma_tail_read(f, t, c);
}

/// A list behind a field.
proof fn lemma_list_is_tail(s: Seq<char>, f: Seq<char>, vs: Seq<Seq<char>>, i: int, e: int)
    requires
        0 <= i,
        i + 3 < s.len(),
        !keyword_at(s, "NOT"@, i),
        keyword_at(s, "IN"@, i),
        skip(s, i + 2) == i + 3,
        s[i + 3] == '(',
        values_at(s, i + 4) == Some((vs, e)),
    ensures
        tail_reads(s, f, i, any_of(equalities(f, vs)), e),
{
    reveal(tail_reads);
}

/// A field with `NOT` and a list of plain words in brackets are read as that the field is none
/// of them.
#[verifier::rlimit(60)]
#[verifier::spinoff_prover]
pub proof fn law_excluded_lists_are_read(f: Seq<char>, vs: Seq<Seq<char>>)
    requires
        is_field_word(f),
        are_plain_words(vs),
    ensures
        reads(
            f + (seq![' '] + ("NOT IN ("@ + (joined(vs, ", "@) + seq![')']))),
            Cond::Not(Box::new(any_of(equalities(f, vs)))),
        ),
{
    let c = any_of(equalities(f, vs));
    let list = joined(vs, ", "@) + seq![')'];
    let none = Seq::<char>::empty();
    lemma_no_pattern_in_list(f, vs);
    reveal_strlit("NOT IN (");
    reveal_strlit("NOT");
    reveal_strlit("IN");
    let t = "NOT IN ("@ + list;
    let s = f + (seq![' '] + t);
    let i = f.len() as int + 1;
    let b = seq![' '];
    let open = seq!['('];
    assert(t =~= "NOT"@ + (b + ("IN"@ + (b + (open + (none + list))))));
    lemma_whole(s);
    lemma_parts(s, f, seq![' '] + t, 0);
    lemma_parts(s, b, t, f.len() as int);
    lemma_parts(s, "NOT"@, b + ("IN"@ + (b + (open + (none + list)))), i);
    lemma_parts(s, b, "IN"@ + (b + (open + (none + list))), i + 3);
    lemma_parts(s, "IN"@, b + (open + (none + list)), i + 4);
    lemma_parts(s, b, open + (none + list), i + 6);
    lemma_parts(s, open, none + list, i + 7);
    lemma_char(s, "NOT"@, i, 0);
    lemma_char(s, b, i + 3, 0);
    lemma_char(s, "IN"@, i + 4, 0);
    lemma_char(s, b, i + 6, 0);
    lemma_char(s, open, i + 7, 0);
    lemma_skip(s, b, i + 3);
    lemma_skip(s, b, i + 6);
    lemma_values(s, none, vs, i + 8);
    assert(keyword_at(s, "NOT"@, i));
    assert(keyword_at(s, "IN"@, i + 4));
    assert(bad_regex(not_cond(c)) is None);
    assert(t.last() == ')' && t[0] == 'N');
    lemma_excluded_is_tail(s, f, vs, i, i + t.len());
    lemma_tail_read(f, t, not_cond(c));
}

/// A negated list behind a field.
proof fn lemma_excluded_is_tail(s: Seq<char>, f: Seq<char>, vs: Seq<Seq<char>>, i: int, e: int)
    requires
        0 <= i,
        i + 7 < s.len(),
        keyword_at(s, "NOT"@, i),
        skip(s, i + 3) == i + 4,
        keyword_at(s, "IN"@, i + 4),
        skip(s, i + 6) == i + 7,
        s[i + 7] == '(',
        values_at(s, i + 8) == Some((vs, e)),
    ensures
        tail_reads(s, f, i, not_cond(any_of(equalities(f, vs))), e),
{
    reveal(tail_reads);
}

/// Whether a text can stand in quotes as it is.
pub open spec fn is_quotable(t: Seq<char>) -> bool {
    forall|i: int| 0 <= i < t.len() ==> (#[trigger] t[i]) != '"' && t[i] != '\\'
}

/// A text in quotes ends at the quote that closes it.
proof fn lemma_closing(s: Seq<char>, t: Seq<char>, i: int)
    requires
        is_quotable(t),
        occurs_at(s, t + seq!['"'], i),
    ensures
        closing_quote(s, '"', i) == Some(i + t.len()),
    decreases t.len(),
{
    lemma_char(s, t + seq!['"'], i, 0);
    if t.len() > 0 {
        let rest = t.skip(1);
        assert(t[0] != '"' && t[0] != '\\');
        assert(t + seq!['"'] =~= seq![t[0]] + (rest + seq!['"']));
        lemma_parts(s, seq![t[0]], rest + seq!['"'], i);
        assert forall|k: int| 0 <= k < rest.len() implies (#[trigger] rest[k]) != '"' && rest[k]
            != '\\' by {
            assert(rest[k] == t[k + 1]);
        }
        lemma_closing(s, rest, i + 1);
    }
}

/// A text without escapes stays as it is.
proof fn lemma_no_escapes(t: Seq<char>)
    requires
        is_quotable(t),
    ensures
        unescaped(t) == t,
    decreases t.len(),
{
    if t.len() > 0 {
        let rest = t.skip(1);
        assert(t[0] != '\\');
        assert forall|k: int| 0 <= k < rest.len() implies (#[trigger] rest[k]) != '"' && rest[k]
            != '\\' by {
            assert(rest[k] == t[k + 1]);
        }
        lemma_no_escapes(rest);
        assert(t =~= seq![t[0]] + rest);
    }
}

/// A text in quotes is read as it stands between them, blanks and signs included.
pub proof fn law_quotes_are_read(f: Seq<char>, op: BinaryOp, t: Seq<char>)
    requires
        is_field_word(f),
        is_sign(op),
        is_quotable(t),
    ensures
        reads(
            f + (seq![' '] + (op_text(op) + (seq![' '] + (seq!['"'] + (t + seq!['"']))))),
            binary_cond(f, op, t),
        ),
{
    let o = op_text(op);
    let b = seq![' '];
    let q = seq!['"'];
    let tail = o + (b + (q + (t + q)));
    let s = f + (b + tail);
    let i = f.len() as int + 1;
    let c = binary_cond(f, op, t);
    lemma_whole(s);
    lemma_parts(s, f, b + tail, 0);
    lemma_parts(s, b, tail, f.len() as int);
    lemma_parts(s, o, b + (q + (t + q)), i);
    let j = i + o.len();
    lemma_parts(s, b, q + (t + q), j);
    lemma_parts(s, q, t + q, j + 1);
    lemma_parts(s, t, q, j + 2);
    lemma_char(s, b, j, 0);
    lemma_char(s, q, j + 1, 0);
    lemma_sign(s, op, i);
    lemma_skip(s, b, j);
    lemma_closing(s, t, j + 2);
    lemma_no_escapes(t);
    assert(s.subrange(j + 2, j + 2 + t.len()) =~= t);
    assert(value_at(s, j + 1) == Some((t, j + 3 + t.len())));
    assert(o.len() > 0) by {
        reveal_strlit("=");
        reveal_strlit("!=");
        reveal_strlit("<");
        reveal_strlit("<=");
        reveal_strlit(">");
        reveal_strlit(">=");
    }
    lemma_char(s, tail, i, 0);
    lemma_no_pattern(f, op, t);
    assert(tail_reads(s, f, i, c, i + tail.len())) by {
        reveal(tail_reads);
    }
    assert(tail.last() == '"');
    lemma_tail_read(f, tail, c);
}

/// A plain word that is a pattern is read as that a field matches it.
pub proof fn law_patterns_are_read(f: Seq<char>, w: Seq<char>)
    requires
        is_field_word(f),
        is_plain_word(w),
        regex_valid(w),
    ensures
        reads(
            f + (seq![' '] + ("matches "@ + w)),
            Cond::Predicate(Pred::Matches { field: f, regex: w }),
        ),
        reads(
            f + (seq![' '] + ("!matches "@ + w)),
            Cond::Not(Box::new(Cond::Predicate(Pred::Matches { field: f, regex: w }))),
        ),
{
    let c = Cond::Predicate(Pred::Matches { field: f, regex: w });
    lemma_pattern(f, w, "matches"@, c);
    lemma_pattern(f, w, "!matches"@, not_cond(c));
    reveal_strlit("matches ");
    reveal_strlit("!matches ");
    reveal_strlit("matches");
    reveal_strlit("!matches");
    assert("matches "@ + w =~= "matches"@ + (seq![' '] + w));
    assert("!matches "@ + w =~= "!matches"@ + (seq![' '] + w));
}

/// A word for a pattern.
proof fn lemma_pattern(f: Seq<char>, w: Seq<char>, m: Seq<char>, c: Cond)
    requires
        is_field_word(f),
        is_plain_word(w),
        regex_valid(w),
        ({
            let p = Cond::Predicate(Pred::Matches { field: f, regex: w });
            m == "matches"@ && c == p || m == "!matches"@ && c == not_cond(p)
        }),
    ensures
        reads(f + (seq![' '] + (m + (seq![' '] + w))), c),
{
    reveal_strlit("NOT");
    reveal_strlit("IN");
    reveal_strlit("IS");
    reveal_strlit("exists");
    reveal_strlit("!exists");
    reveal_strlit("missing");
    reveal_strlit("!missing");
    reveal_strlit("matches");
    reveal_strlit("!matches");
    let b = seq![' '];
    let t = m + (b + w);
    let s = f + (b + t);
    let i = f.len() as int + 1;
    let j = i + m.len();
    lemma_whole(s);
    lemma_parts(s, f, b + t, 0);
    lemma_parts(s, b, t, f.len() as int);
    lemma_parts(s, m, b + w, i);
    lemma_parts(s, b, w, j);
    lemma_char(s, m, i, 0);
    lemma_char(s, m, i, 1);
    lemma_char(s, m, i, 2);
    lemma_char(s, b, j, 0);
    lemma_char(s, w, j + 1, 0);
    assert(is_plain_char(w[0]));
    lemma_differs(s, "NOT"@, i, 0);
    lemma_differs(s, "IN"@, i, 0);
    lemma_differs(s, "IS"@, i, 0);
    lemma_differs(s, "exists"@, i, 0);
    if m == "matches"@ {
        lemma_differs(s, "!exists"@, i, 0);
        lemma_differs(s, "!missing"@, i, 0);
        lemma_differs(s, "missing"@, i, 1);
    } else {
        lemma_differs(s, "!exists"@, i, 1);
        lemma_differs(s, "missing"@, i, 0);
        lemma_differs(s, "!missing"@, i, 2);
        lemma_differs(s, "matches"@, i, 0);
    }
    assert(keyword_at(s, m, i));
    lemma_skip(s, b, j);
    lemma_regex_end(s, w, j + 1);
    assert(s.subrange(j + 1, j + 1 + w.len()) =~= w);
    assert(regex_at(s, j + 1) == Some((w, j + 1 + w.len())));
    assert(tail_reads(s, f, i, c, i + t.len())) by {
        reveal(tail_reads);
    }
    assert(bad_regex(c) is None) by {
        reveal_with_fuel(bad_regex, 3);
    }
    assert(t.last() == w.last());
    assert(is_plain_char(w[w.len() - 1]));
    assert(t[0] == m[0]);
    lemma_tail_read(f, t, c);
}

/// A plain word ends as a pattern at the end of the text.
proof fn lemma_regex_end(s: Seq<char>, w: Seq<char>, i: int)
    requires
        occurs_at(s, w, i),
        forall|k: int| 0 <= k < w.len() ==> is_plain_char(#[trigger] w[k]),
        i + w.len() == s.len(),
    ensures
        regex_end(s, i, 0) == i + w.len(),
    decreases w.len(),
{
    if w.len() > 0 {
        lemma_char(s, w, i, 0);
        let rest = w.skip(1);
        assert(w =~= seq![w[0]] + rest);
        lemma_parts(s, seq![w[0]], rest, i);
        assert forall|k: int| 0 <= k < rest.len() implies is_plain_char(#[trigger] rest[k]) by {
            assert(rest[k] == w[k + 1]);
        }
        assert(is_plain_char(w[0]));
        lemma_regex_end(s, rest, i + 1);
    }
}

/// White space is no condition.
pub proof fn law_nothing_is_refused(b: Seq<char>)
    requires
        crate::text::laws::all_white(b),
    ensures
        parsed(b) is Err,
{
    let none = Seq::<char>::empty();
    law_trimmed(b, none, none);
    assert(b + none + none =~= b);
}

// ── What the text of a condition asks of a note ────────────────────────────

/// The digits of an integer are a plain word.
proof fn lemma_decimal_is_plain(n: nat)
    ensures
        is_plain_word(crate::text::decimal(n)),
    decreases n,
{
    let d = crate::text::decimal(n);
    if n >= 10 {
        lemma_decimal_is_plain(n / 10);
        let p = crate::text::decimal(n / 10);
        assert forall|i: int| 0 <= i < d.len() implies is_plain_char(#[trigger] d[i]) by {
            if i < p.len() {
                assert(d[i] == p[i]);
            }
        }
    }
}

/// An integer is written as a plain word.
proof fn lemma_integer_is_plain(n: int)
    ensures
        is_plain_word(signed_decimal(n)),
{
    let d = crate::text::decimal(if n < 0 {
        (-n) as nat
    } else {
        n as nat
    });
    lemma_decimal_is_plain(if n < 0 {
        (-n) as nat
    } else {
        n as nat
    });
    let w = signed_decimal(n);
    assert forall|i: int| 0 <= i < w.len() implies is_plain_char(#[trigger] w[i]) by {
        if n < 0 && i > 0 {
            assert(w[i] == d[i - 1]);
        }
    }
}

/// Whether the text of a condition is read, and a note meets the condition.
pub open spec fn is_met(text: Seq<char>, r: Rec, root: Seq<char>, g: Option<Graph>) -> bool {
    parsed(text) is Ok && holds(parsed(text)->Ok_0, r, root, g)
}

/// What is read as a condition is met where the condition is.
proof fn lemma_is_met(text: Seq<char>, c: Cond, r: Rec, root: Seq<char>, g: Option<Graph>)
    requires
        reads(text, c),
    ensures
        is_met(text, r, root, g) == holds(c, r, root, g),
{
    reveal(reads);
}

/// A note whose field holds an integer meets a comparison with an integer exactly if the one
/// stands to the other as the sign between them says.
pub proof fn law_comparisons_are_met(
    r: Rec,
    f: Seq<char>,
    n: i64,
    m: i64,
    root: Seq<char>,
    g: Option<Graph>,
)
    requires
        is_field_word(f),
        looked_up(r, f, root, g) == Some(Val::Int(n)),
    ensures
        is_met(f + " < "@ + signed_decimal(m as int), r, root, g) <==> n < m,
        is_met(f + " <= "@ + signed_decimal(m as int), r, root, g) <==> n <= m,
        is_met(f + " > "@ + signed_decimal(m as int), r, root, g) <==> n > m,
        is_met(f + " >= "@ + signed_decimal(m as int), r, root, g) <==> n >= m,
        is_met(f + " != "@ + signed_decimal(m as int), r, root, g) <==> n != m,
        is_met(f + " = "@ + signed_decimal(m as int), r, root, g) <==> n == m,
{
    let w = signed_decimal(m as int);
    lemma_integer_is_plain(m as int);
    law_comparisons_are_read(f, w);
    law_integers_are_read(m);
    law_integers_are_compared(r, f, n, m, root, g);
    law_values_are_equal(r, f, m, w, true, root, g);
    let v = Val::Int(m);
    lemma_is_met(
        f + " < "@ + w,
        Cond::Predicate(Pred::Compare { field: f, op: CompareOp::Lt, value: v }),
        r,
        root,
        g,
    );
    lemma_is_met(
        f + " <= "@ + w,
        Cond::Predicate(Pred::Compare { field: f, op: CompareOp::Le, value: v }),
        r,
        root,
        g,
    );
    lemma_is_met(
        f + " > "@ + w,
        Cond::Predicate(Pred::Compare { field: f, op: CompareOp::Gt, value: v }),
        r,
        root,
        g,
    );
    lemma_is_met(
        f + " >= "@ + w,
        Cond::Predicate(Pred::Compare { field: f, op: CompareOp::Ge, value: v }),
        r,
        root,
        g,
    );
    lemma_is_met(
        f + " != "@ + w,
        Cond::Predicate(Pred::Compare { field: f, op: CompareOp::Ne, value: v }),
        r,
        root,
        g,
    );
    lemma_is_met(f + " = "@ + w, equals_cond(f, w), r, root, g);
}

/// A note whose field holds a text meets `=` with a plain word exactly if it is that word, and
/// `contains` exactly if the word is a part of it.
pub proof fn law_texts_are_met(
    r: Rec,
    f: Seq<char>,
    t: Seq<char>,
    w: Seq<char>,
    root: Seq<char>,
    g: Option<Graph>,
)
    requires
        is_field_word(f),
        is_plain_word(w),
        looked_up(r, f, root, g) == Some(Val::Text(t)),
    ensures
        is_met(f + " = "@ + w, r, root, g) <==> t == w,
        is_met(f + " contains "@ + w, r, root, g) <==> exists|i: int|
            0 <= i <= t.len() - w.len() && #[trigger] t.subrange(i, i + w.len()) == w,
        is_met(f + " !contains "@ + w, r, root, g) <==> !is_met(f + " contains "@ + w, r, root, g),
{
    law_comparisons_are_read(f, w);
    law_words_are_read(f, w);
    law_text_is_meant(f, t, w, r, root, g);
    law_parts_of_texts(t, w);
    lemma_is_met(f + " = "@ + w, equals_cond(f, w), r, root, g);
    lemma_is_met(f + " contains "@ + w, contains_cond(f, w), r, root, g);
    lemma_is_met(f + " !contains "@ + w, Cond::Not(Box::new(contains_cond(f, w))), r, root, g);
    law_conditions_are_joined(Seq::empty(), contains_cond(f, w), r, root, g);
}

} // verus!
