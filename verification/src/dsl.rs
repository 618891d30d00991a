//! The language of conditions.
//!
//! ```text
//! expr     := and_expr ("||" and_expr)*
//! and_expr := not_expr ("&&" not_expr)*
//! not_expr := "NOT" not_expr | atom
//! atom     := "(" expr ")" | predicate
//!
//! field IN (a, b, c)              field NOT IN (a, b, c)
//! field IS NULL | IS NOT NULL     field exists | !exists | missing | !missing
//! field matches REGEX             field !matches REGEX
//! field <op> value                where op is = != < > <= >= contains !contains
//!                                 startswith !startswith endswith !endswith
//! ```
//!
//! A value is a word or a text in quotes. One that reads as a number is the number, and
//! the text as it is written. `&&` binds tighter than `||`.

use crate::error::{Failure, VaultdbError};
use crate::query::{
    cond, conds, lemma_cond, lemma_conds_push, CompareOp, Cond, Expr, Pred, Predicate,
};
use crate::record::{shown, val, Val, Value};
use crate::text::{
    cat3, from_chars, has_at, integer_of, occurs_at, parse_integer, same_text, slice, to_chars,
    trim, trimmed,
};
use crate::yaml::{float_reading, read_float};
use vstd::prelude::*;

pub mod laws;

verus! {

/// Whether `regex::Regex::new` takes a pattern.
pub uninterp spec fn regex_valid(pattern: Seq<char>) -> bool;

/// Calls `regex::Regex::new`. Claims that whether it takes the pattern depends on
/// the pattern alone.
#[verifier::external_body]
pub(crate) fn regex_compiles(pattern: &str) -> (r: bool)
    ensures
        r == regex_valid(pattern@),
{
    regex::Regex::new(pattern).is_ok()
}

// ── Characters and words ───────────────────────────────────────────────────

/// Whether a character separates words.
pub open spec fn is_blank(c: char) -> bool {
    c == ' ' || c == '\t' || c == '\n' || c == '\r'
}

/// The first position at or after `i` that holds no blank.
pub open spec fn skip(s: Seq<char>, i: int) -> int
    decreases s.len() - i,
{
    if 0 <= i < s.len() && is_blank(s[i]) {
        skip(s, i + 1)
    } else {
        i
    }
}

/// Whether a character can stand in the name of a field.
pub open spec fn is_field_char(c: char) -> bool {
    !is_blank(c) && c != '(' && c != ')' && c != ',' && c != '=' && c != '!' && c != '<' && c != '>'
        && c != '"' && c != '\'' && c != '&' && c != '|'
}

/// The end of the name of a field that starts at `i`.
pub open spec fn field_end(s: Seq<char>, i: int) -> int
    decreases s.len() - i,
{
    if 0 <= i < s.len() && is_field_char(s[i]) {
        field_end(s, i + 1)
    } else {
        i
    }
}

/// Whether a word value ends at `i`: at a blank, a bracket, a comma, or a sign
/// that joins conditions.
pub open spec fn ends_word(s: Seq<char>, i: int) -> bool {
    ||| i < 0 || i >= s.len()
    ||| is_blank(s[i])
    ||| s[i] == '(' || s[i] == ')' || s[i] == ','
    ||| occurs_at(s, "&&"@, i) || occurs_at(s, "||"@, i)
}

/// The end of a word value that starts at `i`.
pub open spec fn word_end(s: Seq<char>, i: int) -> int
    decreases s.len() - i,
{
    if ends_word(s, i) {
        i
    } else {
        word_end(s, i + 1)
    }
}

/// The end of a bare regular expression: at a blank, or at a bracket that closes
/// none of its own. `open` counts those that it has open.
pub open spec fn regex_end(s: Seq<char>, i: int, open: nat) -> int
    decreases s.len() - i,
{
    if i < 0 || i >= s.len() || is_blank(s[i]) || (s[i] == ')' && open == 0) {
        i
    } else if s[i] == '(' {
        regex_end(s, i + 1, open + 1)
    } else if s[i] == ')' {
        regex_end(s, i + 1, (open - 1) as nat)
    } else {
        regex_end(s, i + 1, open)
    }
}

/// Whether a keyword stands at `i`: a blank, a bracket or the end follows it.
pub open spec fn keyword_at(s: Seq<char>, word: Seq<char>, i: int) -> bool {
    &&& occurs_at(s, word, i)
    &&& i + word.len() == s.len() || is_blank(s[i + word.len()]) || s[i + word.len()] == '(' || s[i
        + word.len()] == ')'
}

/// The position of the quote that closes a text in quotes.
pub open spec fn closing_quote(s: Seq<char>, quote: char, i: int) -> Option<int>
    decreases s.len() - i + 1,
{
    if i < 0 || i >= s.len() {
        None
    } else if s[i] == quote {
        Some(i)
    } else if s[i] == '\\' {
        closing_quote(s, quote, i + 2)
    } else {
        closing_quote(s, quote, i + 1)
    }
}

/// What a character behind a backslash stands for.
pub open spec fn escape(c: char) -> Seq<char> {
    if c == 'n' {
        seq!['\n']
    } else if c == 't' {
        seq!['\t']
    } else if c == '"' || c == '\'' || c == '\\' {
        seq![c]
    } else {
        seq!['\\', c]
    }
}

/// A text with its escapes replaced.
pub open spec fn unescaped(s: Seq<char>) -> Seq<char>
    decreases s.len(),
{
    if s.len() == 0 {
        seq![]
    } else if s[0] != '\\' {
        seq![s[0]] + unescaped(s.skip(1))
    } else if s.len() == 1 {
        s
    } else {
        escape(s[1]) + unescaped(s.skip(2))
    }
}

// ── Values ─────────────────────────────────────────────────────────────────

/// A text in quotes at `i`, and where it ends.
pub open spec fn quoted_at(s: Seq<char>, i: int) -> Option<(Seq<char>, int)> {
    if 0 <= i < s.len() && (s[i] == '"' || s[i] == '\'') {
        match closing_quote(s, s[i], i + 1) {
            Some(j) => Some((unescaped(s.subrange(i + 1, j)), j + 1)),
            None => None,
        }
    } else {
        None
    }
}

/// Whether a text in quotes starts at `i`.
pub open spec fn quote_at(s: Seq<char>, i: int) -> bool {
    0 <= i < s.len() && (s[i] == '"' || s[i] == '\'')
}

/// A value at `i`, and where it ends.
pub open spec fn value_at(s: Seq<char>, i: int) -> Option<(Seq<char>, int)> {
    if quote_at(s, i) {
        quoted_at(s, i)
    } else if word_end(s, i) > i {
        Some((s.subrange(i, word_end(s, i)), word_end(s, i)))
    } else {
        None
    }
}

/// A regular expression at `i`, and where it ends.
pub open spec fn regex_at(s: Seq<char>, i: int) -> Option<(Seq<char>, int)> {
    if quote_at(s, i) {
        quoted_at(s, i)
    } else if regex_end(s, i, 0) > i {
        Some((s.subrange(i, regex_end(s, i, 0)), regex_end(s, i, 0)))
    } else {
        None
    }
}

/// The values of a list behind its opening bracket, and where the list ends.
pub open spec fn values_at(s: Seq<char>, i: int) -> Option<(Seq<Seq<char>>, int)>
    decreases s.len() - i,
{
    match value_at(s, skip(s, i)) {
        Some((v, j)) => {
            let k = skip(s, j);
            if 0 <= k < s.len() && s[k] == ')' {
                Some((seq![v], k + 1))
            } else if 0 <= k < s.len() && s[k] == ',' && k >= i {
                match values_at(s, k + 1) {
                    Some((vs, e)) => Some((seq![v] + vs, e)),
                    None => None,
                }
            } else {
                None
            }
        },
        None => None,
    }
}

/// A scalar as the number it reads as, or as the text it is.
pub open spec fn scalar(s: Seq<char>) -> Val {
    match integer_of(s) {
        Some(n) => Val::Int(n as i64),
        None => match float_reading(s) {
            Some(f) => Val::Float(f),
            None => Val::Text(s),
        },
    }
}

// ── Conditions on a field ──────────────────────────────────────────────────

/// The operators between a field and a value.
pub enum BinaryOp {
    Equals,
    Compare(CompareOp),
    Contains,
    NotContains,
    StartsWith,
    NotStartsWith,
    EndsWith,
    NotEndsWith,
}

/// The operator at `i`, and where it ends.
pub open spec fn binary_at(s: Seq<char>, i: int) -> Option<(BinaryOp, int)> {
    if keyword_at(s, "contains"@, i) {
        Some((BinaryOp::Contains, i + 8))
    } else if keyword_at(s, "!contains"@, i) {
        Some((BinaryOp::NotContains, i + 9))
    } else if keyword_at(s, "startswith"@, i) {
        Some((BinaryOp::StartsWith, i + 10))
    } else if keyword_at(s, "!startswith"@, i) {
        Some((BinaryOp::NotStartsWith, i + 11))
    } else if keyword_at(s, "endswith"@, i) {
        Some((BinaryOp::EndsWith, i + 8))
    } else if keyword_at(s, "!endswith"@, i) {
        Some((BinaryOp::NotEndsWith, i + 9))
    } else if occurs_at(s, "!="@, i) {
        Some((BinaryOp::Compare(CompareOp::Ne), i + 2))
    } else if occurs_at(s, "<="@, i) {
        Some((BinaryOp::Compare(CompareOp::Le), i + 2))
    } else if occurs_at(s, ">="@, i) {
        Some((BinaryOp::Compare(CompareOp::Ge), i + 2))
    } else if occurs_at(s, "="@, i) {
        Some((BinaryOp::Equals, i + 1))
    } else if occurs_at(s, "<"@, i) {
        Some((BinaryOp::Compare(CompareOp::Lt), i + 1))
    } else if occurs_at(s, ">"@, i) {
        Some((BinaryOp::Compare(CompareOp::Gt), i + 1))
    } else {
        None
    }
}

/// The negation of a condition.
pub open spec fn not_cond(c: Cond) -> Cond {
    Cond::Not(Box::new(c))
}

/// Whether a text is written as what it reads as is shown.
pub open spec fn is_own_form(text: Seq<char>) -> bool {
    shown(scalar(text)) == text
}

/// The condition that a field is a value. One that is written otherwise than the number it
/// reads as is shown stands for the number, and for the text as it is written; it does not
/// stand for the text of the number.
pub open spec fn equals_cond(field: Seq<char>, value: Seq<char>) -> Cond {
    let number = Cond::Predicate(Pred::Equals { field, value: scalar(value) });
    let other = Cond::Predicate(Pred::Equals { field, value: Val::Text(shown(scalar(value))) });
    let text = Cond::Predicate(Pred::Equals { field, value: Val::Text(value) });
    if is_own_form(value) {
        number
    } else {
        Cond::Or(seq![text, Cond::And(seq![number, not_cond(other)])])
    }
}

/// The condition that a field holds a value. One that is written otherwise than the number
/// it reads as is shown stands for the text as it is written, and for the number in a list
/// that does not hold the text of the number.
pub open spec fn contains_cond(field: Seq<char>, value: Seq<char>) -> Cond {
    let number = Cond::Predicate(Pred::Contains { field, value: scalar(value) });
    let other = Cond::Predicate(Pred::Contains { field, value: Val::Text(shown(scalar(value))) });
    let text = Cond::Predicate(Pred::Contains { field, value: Val::Text(value) });
    if is_own_form(value) {
        number
    } else {
        Cond::Or(seq![text, Cond::And(seq![number, not_cond(other)])])
    }
}

/// The condition that an operator makes of a field and a value.
pub open spec fn binary_cond(field: Seq<char>, op: BinaryOp, value: Seq<char>) -> Cond {
    match op {
        BinaryOp::Equals => equals_cond(field, value),
        BinaryOp::Compare(op) => Cond::Predicate(Pred::Compare { field, op, value: scalar(value) }),
        BinaryOp::Contains => contains_cond(field, value),
        BinaryOp::NotContains => not_cond(contains_cond(field, value)),
        BinaryOp::StartsWith => Cond::Predicate(Pred::StartsWith { field, value }),
        BinaryOp::NotStartsWith => not_cond(Cond::Predicate(Pred::StartsWith { field, value })),
        BinaryOp::EndsWith => Cond::Predicate(Pred::EndsWith { field, value }),
        BinaryOp::NotEndsWith => not_cond(Cond::Predicate(Pred::EndsWith { field, value })),
    }
}

/// The conditions that a field equals one of some values.
pub open spec fn equalities(field: Seq<char>, values: Seq<Seq<char>>) -> Seq<Cond> {
    Seq::new(values.len(), |i: int| binary_cond(field, BinaryOp::Equals, values[i]))
}

/// One of some conditions holds; a single one stands for itself.
pub open spec fn any_of(cs: Seq<Cond>) -> Cond {
    if cs.len() == 1 {
        cs[0]
    } else {
        Cond::Or(cs)
    }
}

/// All of some conditions hold; a single one stands for itself.
pub open spec fn all_of(cs: Seq<Cond>) -> Cond {
    if cs.len() == 1 {
        cs[0]
    } else {
        Cond::And(cs)
    }
}

/// What stands behind a field at `i`: a list, a regular expression, a value or
/// nothing, with the operator before it.
pub open spec fn tail_at(s: Seq<char>, field: Seq<char>, i: int) -> Option<(Cond, int)> {
    let after_not = skip(s, i + 3);
    let after_is = skip(s, i + 2);
    if keyword_at(s, "NOT"@, i) && keyword_at(s, "IN"@, after_not) {
        match list_at(s, field, after_not + 2) {
            Some((c, j)) => Some((not_cond(c), j)),
            None => None,
        }
    } else if keyword_at(s, "IN"@, i) {
        list_at(s, field, i + 2)
    } else if keyword_at(s, "IS"@, i) {
        if keyword_at(s, "NULL"@, after_is) {
            Some((Cond::Predicate(Pred::Missing { field }), after_is + 4))
        } else if keyword_at(s, "NOT"@, after_is) && keyword_at(s, "NULL"@, skip(s, after_is + 3)) {
            Some((Cond::Predicate(Pred::Exists { field }), skip(s, after_is + 3) + 4))
        } else {
            None
        }
    } else if keyword_at(s, "exists"@, i) {
        Some((Cond::Predicate(Pred::Exists { field }), i + 6))
    } else if keyword_at(s, "!exists"@, i) {
        Some((Cond::Predicate(Pred::Missing { field }), i + 7))
    } else if keyword_at(s, "missing"@, i) {
        Some((Cond::Predicate(Pred::Missing { field }), i + 7))
    } else if keyword_at(s, "!missing"@, i) {
        Some((Cond::Predicate(Pred::Exists { field }), i + 8))
    } else if keyword_at(s, "matches"@, i) {
        match regex_at(s, skip(s, i + 7)) {
            Some((regex, j)) => Some((Cond::Predicate(Pred::Matches { field, regex }), j)),
            None => None,
        }
    } else if keyword_at(s, "!matches"@, i) {
        match regex_at(s, skip(s, i + 8)) {
            Some((regex, j)) => Some(
                (not_cond(Cond::Predicate(Pred::Matches { field, regex })), j),
            ),
            None => None,
        }
    } else {
        match binary_at(s, i) {
            Some((op, j)) => match value_at(s, skip(s, j)) {
                Some((v, e)) => Some((binary_cond(field, op, v), e)),
                None => None,
            },
            None => None,
        }
    }
}

/// The list that a field must be one of, at `i`.
pub open spec fn list_at(s: Seq<char>, field: Seq<char>, i: int) -> Option<(Cond, int)> {
    let k = skip(s, i);
    if 0 <= k < s.len() && s[k] == '(' {
        match values_at(s, k + 1) {
            Some((vs, j)) => Some((any_of(equalities(field, vs)), j)),
            None => None,
        }
    } else {
        None
    }
}

/// A condition on a field at `i`, and where it ends.
pub open spec fn predicate_at(s: Seq<char>, i: int) -> Option<(Cond, int)> {
    let j = field_end(s, i);
    if j > i {
        tail_at(s, s.subrange(i, j), skip(s, j))
    } else {
        None
    }
}

// ── Combined conditions ────────────────────────────────────────────────────

/// A condition in brackets or on a field, at or after `i`, and where it ends.
pub open spec fn atom_at(s: Seq<char>, i: int) -> Option<(Cond, int)>
    decreases s.len() - i, 1nat,
{
    let k = skip(s, i);
    if i < 0 || k < i || k >= s.len() {
        None
    } else if s[k] == '(' {
        match or_at(s, k + 1) {
            Some((c, j)) => {
                let e = skip(s, j);
                if 0 <= e < s.len() && s[e] == ')' {
                    Some((c, e + 1))
                } else {
                    None
                }
            },
            None => None,
        }
    } else {
        predicate_at(s, k)
    }
}

/// A condition that may be negated, and where it ends.
pub open spec fn not_at(s: Seq<char>, i: int) -> Option<(Cond, int)>
    decreases s.len() - i, 2nat,
{
    let k = skip(s, i);
    if i < 0 || k < i || k >= s.len() {
        None
    } else if keyword_at(s, "NOT"@, k) {
        proof {
            reveal_strlit("NOT");
        }
        match not_at(s, k + 3) {
            Some((c, j)) => Some((not_cond(c), j)),
            None => None,
        }
    } else {
        atom_at(s, i)
    }
}

/// Conditions joined by `&&` behind those of `done`, and where they end.
pub open spec fn and_rest(s: Seq<char>, done: Seq<Cond>, i: int) -> Option<(Seq<Cond>, int)>
    decreases s.len() - i, 3nat,
{
    let k = skip(s, i);
    if i < 0 || k < i || !occurs_at(s, "&&"@, k) {
        Some((done, i))
    } else {
        proof {
            reveal_strlit("&&");
        }
        match not_at(s, k + 2) {
            Some((c, j)) => if i < j <= s.len() {
                and_rest(s, done.push(c), j)
            } else {
                None
            },
            None => None,
        }
    }
}

/// Conditions joined by `&&`, and where they end.
pub open spec fn and_at(s: Seq<char>, i: int) -> Option<(Cond, int)>
    decreases s.len() - i, 4nat,
{
    match not_at(s, i) {
        Some((c, j)) => if i < j <= s.len() {
            match and_rest(s, seq![c], j) {
                Some((cs, e)) => Some((all_of(cs), e)),
                None => None,
            }
        } else {
            None
        },
        None => None,
    }
}

/// Conditions joined by `||` behind those of `done`, and where they end.
pub open spec fn or_rest(s: Seq<char>, done: Seq<Cond>, i: int) -> Option<(Seq<Cond>, int)>
    decreases s.len() - i, 5nat,
{
    let k = skip(s, i);
    if i < 0 || k < i || !occurs_at(s, "||"@, k) {
        Some((done, i))
    } else {
        proof {
            reveal_strlit("||");
        }
        match and_at(s, k + 2) {
            Some((c, j)) => if i < j <= s.len() {
                or_rest(s, done.push(c), j)
            } else {
                None
            },
            None => None,
        }
    }
}

/// Conditions joined by `||`, and where they end.
pub open spec fn or_at(s: Seq<char>, i: int) -> Option<(Cond, int)>
    decreases s.len() - i, 6nat,
{
    match and_at(s, i) {
        Some((c, j)) => if i < j <= s.len() {
            match or_rest(s, seq![c], j) {
                Some((cs, e)) => Some((any_of(cs), e)),
                None => None,
            }
        } else {
            None
        },
        None => None,
    }
}

/// The condition that a whole text stands for.
pub open spec fn condition_of(s: Seq<char>) -> Option<Cond> {
    match or_at(s, 0) {
        Some((c, j)) => if skip(s, j) == s.len() {
            Some(c)
        } else {
            None
        },
        None => None,
    }
}

// ── Reading ────────────────────────────────────────────────────────────────

/// Tells whether a character separates words.
fn blank(c: char) -> (r: bool)
    ensures
        r == is_blank(c),
{
    c == ' ' || c == '\t' || c == '\n' || c == '\r'
}

/// Skips blanks.
fn skip_blanks(s: &Vec<char>, i: usize) -> (r: usize)
    requires
        i <= s.len(),
    ensures
        r == skip(s@, i as int),
        i <= r <= s.len(),
{
    let mut k: usize = i;
    while k < s.len() && blank(s[k])
        invariant
            i <= k <= s.len(),
            skip(s@, i as int) == skip(s@, k as int),
        decreases s.len() - k,
    {
        k += 1;
    }
    k
}

/// Finds the end of the name of a field.
fn end_of_field(s: &Vec<char>, i: usize) -> (r: usize)
    requires
        i <= s.len(),
    ensures
        r == field_end(s@, i as int),
        i <= r <= s.len(),
{
    let mut k: usize = i;
    while k < s.len() && !blank(s[k]) && s[k] != '(' && s[k] != ')' && s[k] != ',' && s[k] != '='
        && s[k] != '!' && s[k] != '<' && s[k] != '>' && s[k] != '"' && s[k] != '\'' && s[k] != '&'
        && s[k] != '|'
        invariant
            i <= k <= s.len(),
            field_end(s@, i as int) == field_end(s@, k as int),
        decreases s.len() - k,
    {
        k += 1;
    }
    k
}

/// Tells whether a literal stands at a position.
fn literal(s: &Vec<char>, word: &str, i: usize) -> (r: bool)
    ensures
        r == occurs_at(s@, word@, i as int),
{
    has_at(s, &to_chars(word), i)
}

/// Tells whether a keyword stands at a position.
fn keyword(s: &Vec<char>, word: &str, i: usize) -> (r: bool)
    ensures
        r == keyword_at(s@, word@, i as int),
        r ==> i + word@.len() <= s.len(),
{
    let w: Vec<char> = to_chars(word);
    if !has_at(s, &w, i) {
        return false;
    }
    assert(i + w.len() <= s.len());
    let e: usize = i + w.len();
    e == s.len() || blank(s[e]) || s[e] == '(' || s[e] == ')'
}

/// Finds the end of a word value.
fn end_of_word(s: &Vec<char>, i: usize) -> (r: usize)
    requires
        i <= s.len(),
    ensures
        r == word_end(s@, i as int),
        i <= r <= s.len(),
{
    let mut k: usize = i;
    while k < s.len() && !blank(s[k]) && s[k] != '(' && s[k] != ')' && s[k] != ',' && !literal(
        s,
        "&&",
        k,
    ) && !literal(s, "||", k)
        invariant
            i <= k <= s.len(),
            word_end(s@, i as int) == word_end(s@, k as int),
        decreases s.len() - k,
    {
        k += 1;
    }
    k
}

/// Finds the end of a bare regular expression.
fn end_of_regex(s: &Vec<char>, i: usize) -> (r: usize)
    requires
        i <= s.len(),
    ensures
        r == regex_end(s@, i as int, 0),
        i <= r <= s.len(),
{
    let mut k: usize = i;
    let mut open: usize = 0;
    while k < s.len() && !blank(s[k]) && !(s[k] == ')' && open == 0)
        invariant
            i <= k <= s.len(),
            open <= k - i,
            regex_end(s@, i as int, 0) == regex_end(s@, k as int, open as nat),
        decreases s.len() - k,
    {
        if s[k] == '(' {
            open += 1;
        } else if s[k] == ')' {
            open -= 1;
        }
        k += 1;
    }
    k
}

/// Replaces the escapes of a text.
pub fn unescape(s: &Vec<char>) -> (r: Vec<char>)
    ensures
        r@ == unescaped(s@),
{
    let mut out: Vec<char> = Vec::new();
    let mut i: usize = 0;
    assert(s@.skip(0) =~= s@);
    assert(out@ + unescaped(s@.skip(0)) =~= unescaped(s@));
    while i < s.len()
        invariant
            i <= s.len(),
            out@ + unescaped(s@.skip(i as int)) == unescaped(s@),
        decreases s.len() - i,
    {
        let ghost rest = s@.skip(i as int);
        let ghost before = out@;
        if s[i] != '\\' {
            assert(rest.skip(1) =~= s@.skip(i + 1));
            out.push(s[i]);
            i += 1;
        } else if i + 1 == s.len() {
            out.push('\\');
            i += 1;
            assert(s@.skip(i as int) =~= seq![]);
            assert(rest =~= seq!['\\']);
        } else {
            assert(rest.skip(2) =~= s@.skip(i + 2));
            let c: char = s[i + 1];
            if c == 'n' {
                out.push('\n');
            } else if c == 't' {
                out.push('\t');
            } else {
                if c != '"' && c != '\'' && c != '\\' {
                    out.push('\\');
                }
                out.push(c);
            }
            assert(out@ =~= before + escape(c));
            i += 2;
        }
        assert(out@ + unescaped(s@.skip(i as int)) =~= before + unescaped(rest));
    }
    assert(s@.skip(i as int) =~= seq![]);
    assert(out@ =~= unescaped(s@));
    out
}

/// Reads a text in quotes.
fn read_quoted(s: &Vec<char>, i: usize) -> (r: Option<(Vec<char>, usize)>)
    requires
        quote_at(s@, i as int),
    ensures
        match r {
            Some((v, j)) => quoted_at(s@, i as int) == Some((v@, j as int)) && i < j <= s.len(),
            None => quoted_at(s@, i as int) is None,
        },
{
    assert(i < s.len());
    let quote: char = s[i];
    let mut k: usize = i + 1;
    while k < s.len() && s[k] != quote
        invariant
            i < s.len(),
            quote == s@[i as int],
            i + 1 <= k <= s.len(),
            closing_quote(s@, quote, i + 1) == closing_quote(s@, quote, k as int),
        decreases s.len() - k,
    {
        if s[k] == '\\' {
            if k + 1 == s.len() {
                assert(closing_quote(s@, quote, k + 2) is None);
                assert(closing_quote(s@, quote, k + 1) is None);
                k += 1;
            } else {
                k += 2;
            }
        } else {
            k += 1;
        }
    }
    if k >= s.len() {
        return None;
    }
    let raw: Vec<char> = slice(s, i + 1, k);
    Some((unescape(&raw), k + 1))
}

/// Reads a value.
fn read_value(s: &Vec<char>, i: usize) -> (r: Option<(Vec<char>, usize)>)
    requires
        i <= s.len(),
    ensures
        match r {
            Some((v, j)) => value_at(s@, i as int) == Some((v@, j as int)) && i < j <= s.len(),
            None => value_at(s@, i as int) is None,
        },
{
    if i < s.len() && (s[i] == '"' || s[i] == '\'') {
        read_quoted(s, i)
    } else {
        let e: usize = end_of_word(s, i);
        if e > i {
            Some((slice(s, i, e), e))
        } else {
            None
        }
    }
}

/// Reads a regular expression.
fn read_regex(s: &Vec<char>, i: usize) -> (r: Option<(Vec<char>, usize)>)
    requires
        i <= s.len(),
    ensures
        match r {
            Some((v, j)) => regex_at(s@, i as int) == Some((v@, j as int)) && i < j <= s.len(),
            None => regex_at(s@, i as int) is None,
        },
{
    if i < s.len() && (s[i] == '"' || s[i] == '\'') {
        read_quoted(s, i)
    } else {
        let e: usize = end_of_regex(s, i);
        if e > i {
            Some((slice(s, i, e), e))
        } else {
            None
        }
    }
}

/// Reads the equalities of a list behind its opening bracket.
fn read_list(s: &Vec<char>, field: &Vec<char>, i: usize) -> (r: Option<(Vec<Expr>, usize)>)
    requires
        i <= s.len(),
    ensures
        match r {
            Some((es, j)) => match values_at(s@, i as int) {
                Some((vs, e)) => conds(es@) == equalities(field@, vs) && j == e && i < j <= s.len(),
                None => false,
            },
            None => values_at(s@, i as int) is None,
        },
    decreases s.len() - i,
{
    match read_value(s, skip_blanks(s, i)) {
        Some((v, j)) => {
            let e: Expr = lower_binary(
                from_chars(field),
                BinaryOp::Equals,
                from_chars(&v).as_str(),
            );
            let k: usize = skip_blanks(s, j);
            if k < s.len() && s[k] == ')' {
                let mut es: Vec<Expr> = Vec::new();
                es.push(e);
                assert(conds(es@) =~= equalities(field@, seq![v@]));
                Some((es, k + 1))
            } else if k < s.len() && s[k] == ',' {
                match read_list(s, field, k + 1) {
                    Some((rest, end)) => {
                        let mut es: Vec<Expr> = rest;
                        let ghost tail = values_at(s@, k + 1).unwrap().0;
                        let ghost before = es@;
                        es.insert(0, e);
                        assert(conds(es@) =~= seq![cond(e)] + conds(before));
                        assert(seq![cond(e)] + equalities(field@, tail) =~= equalities(
                            field@,
                            seq![v@] + tail,
                        ));
                        assert(conds(es@) =~= equalities(field@, seq![v@] + tail));
                        Some((es, end))
                    },
                    None => None,
                }
            } else {
                None
            }
        },
        None => None,
    }
}

/// Reads a scalar as the number it reads as, or as the text it is.
pub fn parse_scalar(text: &str) -> (v: Value)
    ensures
        val(v) == scalar(text@),
{
    match parse_integer(text) {
        Some(n) => Value::Integer(n),
        None => match read_float(text) {
            Some(f) => Value::Float(f),
            None => Value::String(text.to_owned()),
        },
    }
}

impl Value {
    /// Reads a scalar as the number it reads as, or as the text it is.
    pub fn parse_scalar(text: &str) -> (v: Value)
        ensures
            val(v) == scalar(text@),
    {
        parse_scalar(text)
    }
}

/// One of some conditions holds; a single one stands for itself.
fn union(es: Vec<Expr>) -> (e: Expr)
    ensures
        cond(e) == any_of(conds(es@)),
{
    let mut es: Vec<Expr> = es;
    if es.len() == 1 {
        let e: Option<Expr> = es.pop();
        match e {
            Some(e) => e,
            None => Expr::Or(es),
        }
    } else {
        proof {
            lemma_cond(es);
        }
        Expr::Or(es)
    }
}

/// All of some conditions hold; a single one stands for itself.
fn intersection(es: Vec<Expr>) -> (e: Expr)
    ensures
        cond(e) == all_of(conds(es@)),
{
    let mut es: Vec<Expr> = es;
    if es.len() == 1 {
        let e: Option<Expr> = es.pop();
        match e {
            Some(e) => e,
            None => Expr::And(es),
        }
    } else {
        proof {
            lemma_cond(es);
        }
        Expr::And(es)
    }
}

/// Negates a condition.
fn negate(e: Expr) -> (r: Expr)
    ensures
        cond(r) == not_cond(cond(e)),
{
    Expr::Not(Box::new(e))
}

/// Reads the list that a field must be one of.
fn read_in(s: &Vec<char>, field: &Vec<char>, i: usize) -> (r: Option<(Expr, usize)>)
    requires
        i <= s.len(),
    ensures
        match r {
            Some((e, j)) => list_at(s@, field@, i as int) == Some((cond(e), j as int)) && i < j
                <= s.len(),
            None => list_at(s@, field@, i as int) is None,
        },
{
    let k: usize = skip_blanks(s, i);
    if k < s.len() && s[k] == '(' {
        match read_list(s, field, k + 1) {
            Some((es, j)) => Some((union(es), j)),
            None => None,
        }
    } else {
        None
    }
}

/// Reads the operator between a field and a value.
fn read_binary_op(s: &Vec<char>, i: usize) -> (r: Option<(BinaryOp, usize)>)
    requires
        i <= s.len(),
    ensures
        match r {
            Some((op, j)) => binary_at(s@, i as int) == Some((op, j as int)) && i < j <= s.len(),
            None => binary_at(s@, i as int) is None,
        },
{
    proof {
        reveal_strlit("contains");
        reveal_strlit("!contains");
        reveal_strlit("startswith");
        reveal_strlit("!startswith");
        reveal_strlit("endswith");
        reveal_strlit("!endswith");
        reveal_strlit("!=");
        reveal_strlit("<=");
        reveal_strlit(">=");
        reveal_strlit("=");
        reveal_strlit("<");
        reveal_strlit(">");
    }
    if keyword(s, "contains", i) {
        Some((BinaryOp::Contains, i + 8))
    } else if keyword(s, "!contains", i) {
        Some((BinaryOp::NotContains, i + 9))
    } else if keyword(s, "startswith", i) {
        Some((BinaryOp::StartsWith, i + 10))
    } else if keyword(s, "!startswith", i) {
        Some((BinaryOp::NotStartsWith, i + 11))
    } else if keyword(s, "endswith", i) {
        Some((BinaryOp::EndsWith, i + 8))
    } else if keyword(s, "!endswith", i) {
        Some((BinaryOp::NotEndsWith, i + 9))
    } else if literal(s, "!=", i) {
        Some((BinaryOp::Compare(CompareOp::Ne), i + 2))
    } else if literal(s, "<=", i) {
        Some((BinaryOp::Compare(CompareOp::Le), i + 2))
    } else if literal(s, ">=", i) {
        Some((BinaryOp::Compare(CompareOp::Ge), i + 2))
    } else if literal(s, "=", i) {
        Some((BinaryOp::Equals, i + 1))
    } else if literal(s, "<", i) {
        Some((BinaryOp::Compare(CompareOp::Lt), i + 1))
    } else if literal(s, ">", i) {
        Some((BinaryOp::Compare(CompareOp::Gt), i + 1))
    } else {
        None
    }
}

/// Makes the condition that holds of a text, and of a number where another text is not
/// meant.
fn text_or_number(text: Predicate, number: Predicate, other: Predicate) -> (e: Expr)
    ensures
        cond(e) == Cond::Or(
            seq![
                Cond::Predicate(text@),
                Cond::And(seq![Cond::Predicate(number@), not_cond(Cond::Predicate(other@))]),
            ],
        ),
{
    let mut both: Vec<Expr> = Vec::new();
    both.push(Expr::Predicate(number));
    both.push(negate(Expr::Predicate(other)));
    proof {
        lemma_cond(both);
        assert(conds(both@) =~= seq![Cond::Predicate(number@), not_cond(Cond::Predicate(other@))]);
    }
    let mut either: Vec<Expr> = Vec::new();
    either.push(Expr::Predicate(text));
    either.push(Expr::And(both));
    proof {
        lemma_cond(either);
        assert(conds(either@) =~= seq![Cond::Predicate(text@), cond(Expr::And(both))]);
    }
    Expr::Or(either)
}

/// Makes the condition that a field is a value.
fn lower_equals(field: String, value: &str) -> (e: Expr)
    ensures
        cond(e) == equals_cond(field@, value@),
{
    let number: Value = parse_scalar(value);
    let form: String = number.display_value();
    if same_text(form.as_str(), value) {
        Expr::Predicate(Predicate::Equals { field, value: number })
    } else {
        text_or_number(
            Predicate::Equals { field: field.clone(), value: Value::String(value.to_owned()) },
            Predicate::Equals { field: field.clone(), value: number },
            Predicate::Equals { field, value: Value::String(form) },
        )
    }
}

/// Makes the condition that a field holds a value.
fn lower_contains(field: String, value: &str) -> (e: Expr)
    ensures
        cond(e) == contains_cond(field@, value@),
{
    let number: Value = parse_scalar(value);
    let form: String = number.display_value();
    if same_text(form.as_str(), value) {
        Expr::Predicate(Predicate::Contains { field, value: number })
    } else {
        text_or_number(
            Predicate::Contains { field: field.clone(), value: Value::String(value.to_owned()) },
            Predicate::Contains { field: field.clone(), value: number },
            Predicate::Contains { field, value: Value::String(form) },
        )
    }
}

/// Makes the condition of a field, an operator and a value.
fn lower_binary(field: String, op: BinaryOp, value: &str) -> (e: Expr)
    ensures
        cond(e) == binary_cond(field@, op, value@),
{
    match op {
        BinaryOp::Equals => lower_equals(field, value),
        BinaryOp::Compare(op) => Expr::Predicate(
            Predicate::Compare { field, op, value: parse_scalar(value) },
        ),
        BinaryOp::Contains => lower_contains(field, value),
        BinaryOp::NotContains => negate(lower_contains(field, value)),
        BinaryOp::StartsWith => Expr::Predicate(
            Predicate::StartsWith { field, value: value.to_owned() },
        ),
        BinaryOp::NotStartsWith => negate(
            Expr::Predicate(Predicate::StartsWith { field, value: value.to_owned() }),
        ),
        BinaryOp::EndsWith => Expr::Predicate(
            Predicate::EndsWith { field, value: value.to_owned() },
        ),
        BinaryOp::NotEndsWith => negate(
            Expr::Predicate(Predicate::EndsWith { field, value: value.to_owned() }),
        ),
    }
}

/// Reads what stands behind a field.
fn read_tail(s: &Vec<char>, field: &Vec<char>, i: usize) -> (r: Option<(Expr, usize)>)
    requires
        i <= s.len(),
    ensures
        match r {
            Some((e, j)) => tail_at(s@, field@, i as int) == Some((cond(e), j as int)) && i < j
                <= s.len(),
            None => tail_at(s@, field@, i as int) is None,
        },
{
    proof {
        reveal_strlit("NOT");
        reveal_strlit("IN");
        reveal_strlit("IS");
        reveal_strlit("NULL");
        reveal_strlit("exists");
        reveal_strlit("!exists");
        reveal_strlit("missing");
        reveal_strlit("!missing");
        reveal_strlit("matches");
        reveal_strlit("!matches");
    }
    let name: String = from_chars(field);
    if keyword(s, "NOT", i) {
        let k: usize = skip_blanks(s, i + 3);
        if keyword(s, "IN", k) {
            return match read_in(s, field, k + 2) {
                Some((e, j)) => Some((negate(e), j)),
                None => None,
            };
        }
    }
    if keyword(s, "IN", i) {
        return read_in(s, field, i + 2);
    }
    if keyword(s, "IS", i) {
        let k: usize = skip_blanks(s, i + 2);
        if keyword(s, "NULL", k) {
            return Some((Expr::Predicate(Predicate::Missing { field: name }), k + 4));
        }
        if keyword(s, "NOT", k) {
            let n: usize = skip_blanks(s, k + 3);
            if keyword(s, "NULL", n) {
                return Some((Expr::Predicate(Predicate::Exists { field: name }), n + 4));
            }
        }
        return None;
    }
    if keyword(s, "exists", i) {
        return Some((Expr::Predicate(Predicate::Exists { field: name }), i + 6));
    }
    if keyword(s, "!exists", i) {
        return Some((Expr::Predicate(Predicate::Missing { field: name }), i + 7));
    }
    if keyword(s, "missing", i) {
        return Some((Expr::Predicate(Predicate::Missing { field: name }), i + 7));
    }
    if keyword(s, "!missing", i) {
        return Some((Expr::Predicate(Predicate::Exists { field: name }), i + 8));
    }
    if keyword(s, "matches", i) {
        return match read_regex(s, skip_blanks(s, i + 7)) {
            Some((p, j)) => Some(
                (Expr::Predicate(Predicate::Matches { field: name, regex: from_chars(&p) }), j),
            ),
            None => None,
        };
    }
    if keyword(s, "!matches", i) {
        return match read_regex(s, skip_blanks(s, i + 8)) {
            Some((p, j)) => Some(
                (
                    negate(
                        Expr::Predicate(
                            Predicate::Matches { field: name, regex: from_chars(&p) },
                        ),
                    ),
                    j,
                ),
            ),
            None => None,
        };
    }
    match read_binary_op(s, i) {
        Some((op, j)) => match read_value(s, skip_blanks(s, j)) {
            Some((v, e)) => Some((lower_binary(name, op, from_chars(&v).as_str()), e)),
            None => None,
        },
        None => None,
    }
}

/// Reads a condition on a field.
fn read_predicate(s: &Vec<char>, i: usize) -> (r: Option<(Expr, usize)>)
    requires
        i <= s.len(),
    ensures
        match r {
            Some((e, j)) => predicate_at(s@, i as int) == Some((cond(e), j as int)) && i < j
                <= s.len(),
            None => predicate_at(s@, i as int) is None,
        },
{
    let j: usize = end_of_field(s, i);
    if j > i {
        let field: Vec<char> = slice(s, i, j);
        read_tail(s, &field, skip_blanks(s, j))
    } else {
        None
    }
}

/// Reads a condition in brackets or on a field.
fn read_atom(s: &Vec<char>, i: usize) -> (r: Option<(Expr, usize)>)
    requires
        i <= s.len(),
    ensures
        match r {
            Some((e, j)) => atom_at(s@, i as int) == Some((cond(e), j as int)) && i < j <= s.len(),
            None => atom_at(s@, i as int) is None,
        },
    decreases s.len() - i, 1nat,
{
    let k: usize = skip_blanks(s, i);
    if k >= s.len() {
        return None;
    }
    if s[k] == '(' {
        match read_or(s, k + 1) {
            Some((c, j)) => {
                let e: usize = skip_blanks(s, j);
                if e < s.len() && s[e] == ')' {
                    Some((c, e + 1))
                } else {
                    None
                }
            },
            None => None,
        }
    } else {
        read_predicate(s, k)
    }
}

/// Reads a condition that may be negated.
fn read_not(s: &Vec<char>, i: usize) -> (r: Option<(Expr, usize)>)
    requires
        i <= s.len(),
    ensures
        match r {
            Some((e, j)) => not_at(s@, i as int) == Some((cond(e), j as int)) && i < j <= s.len(),
            None => not_at(s@, i as int) is None,
        },
    decreases s.len() - i, 2nat,
{
    proof {
        reveal_strlit("NOT");
    }
    let k: usize = skip_blanks(s, i);
    if k >= s.len() {
        return None;
    }
    if keyword(s, "NOT", k) {
        match read_not(s, k + 3) {
            Some((c, j)) => Some((negate(c), j)),
            None => None,
        }
    } else {
        read_atom(s, i)
    }
}

/// Reads conditions joined by `&&`.
fn read_and(s: &Vec<char>, i: usize) -> (r: Option<(Expr, usize)>)
    requires
        i <= s.len(),
    ensures
        match r {
            Some((e, j)) => and_at(s@, i as int) == Some((cond(e), j as int)) && i < j <= s.len(),
            None => and_at(s@, i as int) is None,
        },
    decreases s.len() - i, 4nat,
{
    let mut es: Vec<Expr> = Vec::new();
    let mut at: usize = i;
    match read_not(s, i) {
        Some((c, j)) => {
            es.push(c);
            at = j;
        },
        None => {
            return None;
        },
    }
    let ghost first = conds(es@);
    let ghost from = at as int;
    assert(conds(es@) =~= seq![not_at(s@, i as int).unwrap().0]);
    proof {
        reveal_strlit("&&");
    }
    loop
        invariant
            i < from <= at <= s.len(),
            not_at(s@, i as int) is Some,
            not_at(s@, i as int).unwrap().1 == from,
            first == seq![not_at(s@, i as int).unwrap().0],
            and_rest(s@, first, from) == and_rest(s@, conds(es@), at as int),
            "&&"@.len() == 2,
        decreases s.len() - at,
    {
        let k: usize = skip_blanks(s, at);
        if !literal(s, "&&", k) {
            return Some((intersection(es), at));
        }
        match read_not(s, k + 2) {
            Some((c, j)) => {
                proof {
                    lemma_conds_push(es@, c);
                }
                es.push(c);
                at = j;
            },
            None => {
                return None;
            },
        }
    }
}

/// Reads conditions joined by `||`.
fn read_or(s: &Vec<char>, i: usize) -> (r: Option<(Expr, usize)>)
    requires
        i <= s.len(),
    ensures
        match r {
            Some((e, j)) => or_at(s@, i as int) == Some((cond(e), j as int)) && i < j <= s.len(),
            None => or_at(s@, i as int) is None,
        },
    decreases s.len() - i, 6nat,
{
    let mut es: Vec<Expr> = Vec::new();
    let mut at: usize = i;
    match read_and(s, i) {
        Some((c, j)) => {
            es.push(c);
            at = j;
        },
        None => {
            return None;
        },
    }
    let ghost first = conds(es@);
    let ghost from = at as int;
    assert(conds(es@) =~= seq![and_at(s@, i as int).unwrap().0]);
    proof {
        reveal_strlit("||");
    }
    loop
        invariant
            i < from <= at <= s.len(),
            and_at(s@, i as int) is Some,
            and_at(s@, i as int).unwrap().1 == from,
            first == seq![and_at(s@, i as int).unwrap().0],
            or_rest(s@, first, from) == or_rest(s@, conds(es@), at as int),
            "||"@.len() == 2,
        decreases s.len() - at,
    {
        let k: usize = skip_blanks(s, at);
        if !literal(s, "||", k) {
            return Some((union(es), at));
        }
        match read_and(s, k + 2) {
            Some((c, j)) => {
                proof {
                    lemma_conds_push(es@, c);
                }
                es.push(c);
                at = j;
            },
            None => {
                return None;
            },
        }
    }
}

/// The first regular expression of a condition that is none.
pub open spec fn bad_regex(c: Cond) -> Option<Seq<char>>
    decreases c,
{
    match c {
        Cond::Predicate(Pred::Matches { field, regex }) => if regex_valid(regex) {
            None
        } else {
            Some(regex)
        },
        Cond::And(cs) => bad_regex_in(cs),
        Cond::Or(cs) => bad_regex_in(cs),
        Cond::Not(c) => bad_regex(*c),
        _ => None,
    }
}

/// The first regular expression of some conditions that is none.
pub open spec fn bad_regex_in(cs: Seq<Cond>) -> Option<Seq<char>>
    decreases cs,
{
    if cs.len() == 0 {
        None
    } else {
        match bad_regex_in(cs.drop_last()) {
            Some(p) => Some(p),
            None => bad_regex(cs.last()),
        }
    }
}

/// The outcome of reading a condition: none of an empty text, of one that breaks
/// the grammar, or of one with a regular expression that is none.
pub open spec fn parsed(input: Seq<char>) -> Result<Cond, Failure> {
    let t = trimmed(input);
    if t.len() == 0 {
        Err(Failure::InvalidWhereExpr("where expression is empty"@))
    } else {
        match condition_of(t) {
            None => Err(Failure::InvalidWhereExpr("cannot parse '"@ + t + "'"@)),
            Some(c) => match bad_regex(c) {
                Some(pattern) => Err(
                    Failure::RegexError { pattern, reason: "invalid regex syntax"@ },
                ),
                None => Ok(c),
            },
        }
    }
}

/// What a condition that was read, or the failure, is.
pub open spec fn expr_view(r: Result<Expr, VaultdbError>) -> Result<Cond, Failure> {
    match r {
        Ok(e) => Ok(cond(e)),
        Err(e) => Err(e@),
    }
}

/// Finds the first regular expression of a condition that is none.
fn find_bad_regex(e: &Expr) -> (r: Option<String>)
    ensures
        match r {
            Some(p) => bad_regex(cond(*e)) == Some(p@),
            None => bad_regex(cond(*e)) is None,
        },
    decreases e, 0nat,
{
    match e {
        Expr::Predicate(Predicate::Matches { field, regex }) => if regex_compiles(regex.as_str()) {
            None
        } else {
            Some(regex.clone())
        },
        Expr::And(es) => {
            proof {
                lemma_cond(*es);
            }
            find_bad_regex_in(es)
        },
        Expr::Or(es) => {
            proof {
                lemma_cond(*es);
            }
            find_bad_regex_in(es)
        },
        Expr::Not(e) => find_bad_regex(&**e),
        _ => None,
    }
}

/// Finds the first regular expression of some conditions that is none.
fn find_bad_regex_in(es: &Vec<Expr>) -> (r: Option<String>)
    ensures
        match r {
            Some(p) => bad_regex_in(conds(es@)) == Some(p@),
            None => bad_regex_in(conds(es@)) is None,
        },
    decreases es, 1nat,
{
    let ghost all = conds(es@);
    let mut i: usize = 0;
    assert(all.take(0) =~= seq![]);
    while i < es.len()
        invariant
            all == conds(es@),
            i <= es.len(),
            bad_regex_in(all.take(i as int)) is None,
        decreases es.len() - i,
    {
        proof {
            broadcast use vstd::std_specs::vec::axiom_vec_index_decreases;

            assert(decreases_to!(*es => es[i as int]));
            assert(all.take(i + 1).drop_last() =~= all.take(i as int));
        }
        match find_bad_regex(&es[i]) {
            Some(p) => {
                proof {
                    lemma_bad_regex_prefix(all, i + 1);
                }
                return Some(p);
            },
            None => {},
        }
        i += 1;
    }
    assert(all.take(i as int) =~= all);
    None
}

/// What is found in the first conditions is found in all of them.
proof fn lemma_bad_regex_prefix(cs: Seq<Cond>, k: int)
    requires
        0 <= k <= cs.len(),
        bad_regex_in(cs.take(k)) is Some,
    ensures
        bad_regex_in(cs) == bad_regex_in(cs.take(k)),
    decreases cs.len() - k,
{
    if k == cs.len() {
        assert(cs.take(k) =~= cs);
    } else {
        assert(cs.take(k + 1).drop_last() =~= cs.take(k));
        lemma_bad_regex_prefix(cs, k + 1);
    }
}

/// Reads a condition.
pub fn parse(input: &str) -> (r: Result<Expr, VaultdbError>)
    ensures
        expr_view(r) == parsed(input@),
{
    let t: Vec<char> = trim(&to_chars(input));
    if t.len() == 0 {
        return Err(VaultdbError::InvalidWhereExpr("where expression is empty".to_owned()));
    }
    match read_or(&t, 0) {
        Some((e, j)) => {
            if skip_blanks(&t, j) == t.len() {
                return match find_bad_regex(&e) {
                    Some(pattern) => Err(
                        VaultdbError::RegexError {
                            pattern,
                            reason: "invalid regex syntax".to_owned(),
                        },
                    ),
                    None => Ok(e),
                };
            }
        },
        None => {},
    }
    Err(VaultdbError::InvalidWhereExpr(cat3("cannot parse '", from_chars(&t).as_str(), "'")))
}

impl Expr {
    /// Reads a condition.
    pub fn parse(input: &str) -> (r: Result<Expr, VaultdbError>)
        ensures
            expr_view(r) == parsed(input@),
    {
        parse(input)
    }
}

} // verus!
