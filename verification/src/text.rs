//! Texts as sequences of characters.
//!
//! The executable functions work on `Vec<char>`; the specifications speak of the
//! sequences behind them.

use vstd::prelude::*;

pub mod laws;

verus! {

/// What `String::push` does, as its documentation says: it appends the character.
pub assume_specification[ std::string::String::push ](s: &mut std::string::String, c: char)
    ensures
        final(s)@ == old(s)@.push(c),
;

/// What `char::from_u32` gives, as its documentation says: the character with a number,
/// or nothing for a number that no character has.
pub assume_specification[ char::from_u32 ](i: u32) -> (r: Option<char>)
    ensures
        match r {
            Some(c) => (i < 0xd800 || 0xe000 <= i <= 0x10ffff) && c == i as char,
            None => 0xd800 <= i < 0xe000 || i > 0x10ffff,
        },
;

/// The characters of a text.
pub fn to_chars(s: &str) -> (r: Vec<char>)
    ensures
        r@ == s@,
{
    let mut out: Vec<char> = Vec::new();
    for c in it: s.chars()
        invariant
            out@ == it.seq().take(it.index()),
            it.seq() == s@,
    {
        out.push(c);
        assert(out@ =~= it.seq().take(it.index() + 1));
    }
    assert(out@ =~= s@);
    out
}

/// The text made of the given characters.
pub fn from_chars(v: &Vec<char>) -> (r: String)
    ensures
        r@ == v@,
{
    let mut s: String = String::new();
    let mut i: usize = 0;
    while i < v.len()
        invariant
            i <= v.len(),
            s@ == v@.take(i as int),
        decreases v.len() - i,
    {
        s.push(v[i]);
        i += 1;
        assert(s@ =~= v@.take(i as int));
    }
    assert(s@ =~= v@);
    s
}

/// Whether a character has the Unicode property White_Space.
pub open spec fn is_white(c: char) -> bool {
    ||| '\u{9}' <= c <= '\u{d}'
    ||| c == ' '
    ||| c == '\u{85}'
    ||| c == '\u{a0}'
    ||| c == '\u{1680}'
    ||| '\u{2000}' <= c <= '\u{200a}'
    ||| c == '\u{2028}'
    ||| c == '\u{2029}'
    ||| c == '\u{202f}'
    ||| c == '\u{205f}'
    ||| c == '\u{3000}'
}

/// Tells whether a character is white space.
pub fn is_whitespace(c: char) -> (r: bool)
    ensures
        r == is_white(c),
{
    ('\u{9}' <= c && c <= '\u{d}') || c == ' ' || c == '\u{85}' || c == '\u{a0}' || c == '\u{1680}' || (
    '\u{2000}' <= c && c <= '\u{200a}') || c == '\u{2028}' || c == '\u{2029}' || c == '\u{202f}' || c
        == '\u{205f}' || c == '\u{3000}'
}

/// A text without the white space at its start.
pub open spec fn trimmed_start(s: Seq<char>) -> Seq<char>
    decreases s.len(),
{
    if s.len() > 0 && is_white(s[0]) {
        trimmed_start(s.drop_first())
    } else {
        s
    }
}

/// A text without the white space at its end.
pub open spec fn trimmed_end(s: Seq<char>) -> Seq<char>
    decreases s.len(),
{
    if s.len() > 0 && is_white(s.last()) {
        trimmed_end(s.drop_last())
    } else {
        s
    }
}

/// A text without the white space at both ends.
pub open spec fn trimmed(s: Seq<char>) -> Seq<char> {
    trimmed_end(trimmed_start(s))
}

/// The part of a text from one position to another.
pub fn slice(s: &Vec<char>, from: usize, to: usize) -> (r: Vec<char>)
    requires
        from <= to <= s.len(),
    ensures
        r@ == s@.subrange(from as int, to as int),
{
    let mut out: Vec<char> = Vec::new();
    let mut i: usize = from;
    while i < to
        invariant
            from <= i <= to <= s.len(),
            out@ == s@.subrange(from as int, i as int),
        decreases to - i,
    {
        out.push(s[i]);
        i += 1;
        assert(out@ =~= s@.subrange(from as int, i as int));
    }
    out
}

/// Where a text starts once its leading white space is dropped.
pub fn start_of_text(s: &Vec<char>) -> (i: usize)
    ensures
        i <= s.len(),
        trimmed_start(s@) == s@.skip(i as int),
        forall|k: int| 0 <= k < i ==> is_white(s@[k]),
        i < s.len() ==> !is_white(s@[i as int]),
{
    let mut i: usize = 0;
    assert(s@.skip(0) =~= s@);
    while i < s.len() && is_whitespace(s[i])
        invariant
            i <= s.len(),
            trimmed_start(s@) == trimmed_start(s@.skip(i as int)),
            forall|k: int| 0 <= k < i ==> is_white(s@[k]),
        decreases s.len() - i,
    {
        assert(s@.skip(i as int).drop_first() =~= s@.skip(i + 1));
        i += 1;
    }
    i
}

/// Drops the white space at the start.
pub fn trim_start(s: &Vec<char>) -> (r: Vec<char>)
    ensures
        r@ == trimmed_start(s@),
{
    let i: usize = start_of_text(s);
    let r: Vec<char> = slice(s, i, s.len());
    assert(r@ =~= s@.skip(i as int));
    r
}

/// Drops the white space at the end.
pub fn trim_end(s: &Vec<char>) -> (r: Vec<char>)
    ensures
        r@ == trimmed_end(s@),
{
    let mut j: usize = s.len();
    assert(s@.take(j as int) =~= s@);
    while j > 0 && is_whitespace(s[j - 1])
        invariant
            j <= s.len(),
            trimmed_end(s@) == trimmed_end(s@.take(j as int)),
        decreases j,
    {
        assert(s@.take(j as int).drop_last() =~= s@.take(j - 1));
        j -= 1;
    }
    let r: Vec<char> = slice(s, 0, j);
    assert(r@ =~= s@.take(j as int));
    r
}

/// Drops the white space at both ends.
pub fn trim(s: &Vec<char>) -> (r: Vec<char>)
    ensures
        r@ == trimmed(s@),
{
    let t: Vec<char> = trim_start(s);
    trim_end(&t)
}

/// Whether two texts hold the same characters.
pub fn same(a: &Vec<char>, b: &Vec<char>) -> (r: bool)
    ensures
        r == (a@ == b@),
{
    if a.len() != b.len() {
        return false;
    }
    let mut i: usize = 0;
    while i < a.len()
        invariant
            a.len() == b.len(),
            i <= a.len(),
            forall|k: int| 0 <= k < i ==> a@[k] == b@[k],
        decreases a.len() - i,
    {
        if a[i] != b[i] {
            return false;
        }
        i += 1;
    }
    assert(a@ =~= b@);
    true
}

/// Whether a text is the given literal.
pub fn is_text(a: &Vec<char>, b: &str) -> (r: bool)
    ensures
        r == (a@ == b@),
{
    let c: Vec<char> = to_chars(b);
    same(a, &c)
}

/// Whether `p` stands in `s` at position `at`.
pub open spec fn occurs_at(s: Seq<char>, p: Seq<char>, at: int) -> bool {
    0 <= at && at + p.len() <= s.len() && s.subrange(at, at + p.len()) == p
}

/// Tells whether `p` stands in `s` at position `at`.
pub fn has_at(s: &Vec<char>, p: &Vec<char>, at: usize) -> (r: bool)
    ensures
        r == occurs_at(s@, p@, at as int),
{
    if at > s.len() || s.len() - at < p.len() {
        return false;
    }
    let mut i: usize = 0;
    while i < p.len()
        invariant
            at <= s.len(),
            p.len() <= s.len() - at,
            i <= p.len(),
            forall|k: int| 0 <= k < i ==> s@[at + k] == p@[k],
        decreases p.len() - i,
    {
        if s[at + i] != p[i] {
            assert(s@.subrange(at as int, at + p@.len())[i as int] != p@[i as int]);
            return false;
        }
        i += 1;
    }
    assert(s@.subrange(at as int, at + p@.len()) =~= p@);
    true
}

/// Whether a text starts with another.
pub open spec fn starts(s: Seq<char>, p: Seq<char>) -> bool {
    occurs_at(s, p, 0)
}

/// Whether a text ends with another.
pub open spec fn ends(s: Seq<char>, p: Seq<char>) -> bool {
    occurs_at(s, p, s.len() - p.len())
}

/// Tells whether a text starts with another.
pub fn starts_with(s: &Vec<char>, p: &str) -> (r: bool)
    ensures
        r == starts(s@, p@),
{
    let q: Vec<char> = to_chars(p);
    has_at(s, &q, 0)
}

/// Tells whether a text ends with another.
pub fn ends_with(s: &Vec<char>, p: &str) -> (r: bool)
    ensures
        r == ends(s@, p@),
{
    let q: Vec<char> = to_chars(p);
    if q.len() > s.len() {
        return false;
    }
    has_at(s, &q, s.len() - q.len())
}

/// The first position at or after `from` where `p` stands in `s`.
pub open spec fn find_at(s: Seq<char>, p: Seq<char>, from: int) -> Option<int>
    decreases s.len() - from + 1,
{
    if from < 0 || from > s.len() {
        None
    } else if occurs_at(s, p, from) {
        Some(from)
    } else {
        find_at(s, p, from + 1)
    }
}

/// Whether `p` stands somewhere in `s`.
pub open spec fn has(s: Seq<char>, p: Seq<char>) -> bool {
    find_at(s, p, 0) is Some
}

/// Whether `p` stands nowhere in `s`.
pub open spec fn lacks(s: Seq<char>, p: Seq<char>) -> bool {
    find_at(s, p, 0) is None
}

/// What `find_at` finds is the first occurrence.
pub proof fn lemma_find_at(s: Seq<char>, p: Seq<char>, from: int)
    requires
        0 <= from,
    ensures
        match find_at(s, p, from) {
            Some(i) => from <= i && occurs_at(s, p, i) && forall|k: int|
                from <= k < i ==> !occurs_at(s, p, k),
            None => forall|k: int| from <= k ==> !occurs_at(s, p, k),
        },
    decreases s.len() - from + 1,
{
    if from <= s.len() && !occurs_at(s, p, from) {
        lemma_find_at(s, p, from + 1);
    }
}

/// Finds the first occurrence of `p` at or after `from`.
pub fn find(s: &Vec<char>, p: &Vec<char>, from: usize) -> (r: Option<usize>)
    requires
        from <= s.len(),
    ensures
        match r {
            Some(i) => find_at(s@, p@, from as int) == Some(i as int) && occurs_at(s@, p@, i as int)
                && from <= i,
            None => find_at(s@, p@, from as int) is None,
        },
{
    let mut i: usize = from;
    loop
        invariant
            from <= i <= s.len(),
            find_at(s@, p@, from as int) == find_at(s@, p@, i as int),
        decreases s.len() - i,
    {
        if has_at(s, p, i) {
            return Some(i);
        }
        if i == s.len() {
            assert(find_at(s@, p@, i + 1) is None);
            return None;
        }
        i += 1;
    }
}

/// Tells whether `p` stands somewhere in `s`.
pub fn contains(s: &Vec<char>, p: &str) -> (r: bool)
    ensures
        r == has(s@, p@),
{
    let q: Vec<char> = to_chars(p);
    match find(s, &q, 0) {
        Some(_) => true,
        None => false,
    }
}

/// The first position of a character at or after `from`.
pub open spec fn char_at(s: Seq<char>, c: char, from: int) -> Option<int>
    decreases s.len() - from,
{
    if from < 0 || from >= s.len() {
        None
    } else if s[from] == c {
        Some(from)
    } else {
        char_at(s, c, from + 1)
    }
}

/// Finds the first occurrence of a character at or after `from`.
pub fn find_char(s: &Vec<char>, c: char, from: usize) -> (r: Option<usize>)
    requires
        from <= s.len(),
    ensures
        match r {
            Some(i) => char_at(s@, c, from as int) == Some(i as int) && from <= i < s.len() && s@[i as int]
                == c,
            None => char_at(s@, c, from as int) is None,
        },
{
    let mut i: usize = from;
    while i < s.len()
        invariant
            from <= i <= s.len(),
            char_at(s@, c, from as int) == char_at(s@, c, i as int),
        decreases s.len() - i,
    {
        if s[i] == c {
            return Some(i);
        }
        i += 1;
    }
    None
}

/// What `char_at` finds is the first occurrence.
pub proof fn lemma_char_at(s: Seq<char>, c: char, from: int)
    requires
        0 <= from,
    ensures
        match char_at(s, c, from) {
            Some(i) => from <= i < s.len() && s[i] == c && forall|k: int| from <= k < i ==> s[k] != c,
            None => forall|k: int| from <= k < s.len() ==> s[k] != c,
        },
    decreases s.len() - from,
{
    if from < s.len() && s[from] != c {
        lemma_char_at(s, c, from + 1);
    }
}

/// Tells whether a character stands in a text.
pub fn contains_char(s: &Vec<char>, c: char) -> (r: bool)
    ensures
        r == s@.contains(c),
{
    let mut i: usize = 0;
    while i < s.len()
        invariant
            i <= s.len(),
            forall|k: int| 0 <= k < i ==> s@[k] != c,
        decreases s.len() - i,
    {
        if s[i] == c {
            return true;
        }
        i += 1;
    }
    false
}

/// Appends one text to another.
pub fn push_all(out: &mut Vec<char>, s: &Vec<char>)
    ensures
        final(out)@ == old(out)@ + s@,
{
    let ghost before = out@;
    let mut i: usize = 0;
    while i < s.len()
        invariant
            i <= s.len(),
            out@ == before + s@.take(i as int),
        decreases s.len() - i,
    {
        out.push(s[i]);
        i += 1;
        assert(out@ =~= before + s@.take(i as int));
    }
    assert(s@.take(i as int) =~= s@);
}

/// Appends a literal to a text.
pub fn push_str(out: &mut Vec<char>, s: &str)
    ensures
        final(out)@ == old(out)@ + s@,
{
    let c: Vec<char> = to_chars(s);
    push_all(out, &c);
}

/// A copy of a text.
pub fn copy(s: &Vec<char>) -> (r: Vec<char>)
    ensures
        r@ == s@,
{
    slice(s, 0, s.len())
}

/// A line as it stands before its line feed: a carriage return at its end
/// belongs to the line ending.
pub open spec fn without_cr(s: Seq<char>) -> Seq<char> {
    if s.len() > 0 && s.last() == '\r' {
        s.drop_last()
    } else {
        s
    }
}

/// The lines of a text, without their line endings.
pub open spec fn lines_of(s: Seq<char>) -> Seq<Seq<char>>
    decreases s.len(),
{
    match char_at(s, '\n', 0) {
        None => if s.len() == 0 {
            seq![]
        } else {
            seq![s]
        },
        Some(i) => if 0 <= i < s.len() {
            seq![without_cr(s.take(i))] + lines_of(s.skip(i + 1))
        } else {
            seq![]
        },
    }
}

/// What is left of a text after its first `k` lines.
pub open spec fn after_lines(s: Seq<char>, k: int) -> Seq<char>
    decreases k,
{
    if k <= 0 {
        s
    } else {
        match char_at(s, '\n', 0) {
            None => seq![],
            Some(i) => after_lines(s.skip(i + 1), k - 1),
        }
    }
}

/// The contents of a list of texts.
pub open spec fn views(v: Seq<Vec<char>>) -> Seq<Seq<char>> {
    Seq::new(v.len(), |i: int| v[i]@)
}

/// `lines_of` unfolded at its first line feed.
pub proof fn lemma_lines_step(s: Seq<char>, i: int)
    requires
        char_at(s, '\n', 0) == Some(i),
    ensures
        0 <= i < s.len(),
        lines_of(s) == seq![without_cr(s.take(i))] + lines_of(s.skip(i + 1)),
{
    lemma_char_at(s, '\n', 0);
}

/// The first line feed at or after `from`, told of the rest of the text.
pub proof fn lemma_char_at_skip(s: Seq<char>, c: char, from: int, k: int)
    requires
        0 <= from <= k,
        from <= s.len(),
    ensures
        char_at(s, c, k) == match char_at(s.skip(from), c, k - from) {
            Some(i) => Some(i + from),
            None => None,
        },
    decreases s.len() - k,
{
    if k < s.len() {
        assert(s.skip(from)[k - from] == s[k]);
        if s[k] != c {
            lemma_char_at_skip(s, c, from, k + 1);
        }
    }
}

/// A list of texts followed by one more.
pub proof fn lemma_views_push(v: Seq<Vec<char>>, x: Vec<char>)
    ensures
        views(v.push(x)) == views(v).push(x@),
{
    assert(views(v.push(x)) =~= views(v).push(x@));
}

/// Splits a text into its lines.
pub fn lines(s: &Vec<char>) -> (r: Vec<Vec<char>>)
    ensures
        views(r@) == lines_of(s@),
{
    let mut out: Vec<Vec<char>> = Vec::new();
    let mut at: usize = 0;
    assert(views(out@) =~= seq![]);
    assert(s@.skip(0) =~= s@);
    assert(views(out@) + lines_of(s@.skip(0)) =~= lines_of(s@));
    while at < s.len()
        invariant
            at <= s.len(),
            views(out@) + lines_of(s@.skip(at as int)) == lines_of(s@),
        decreases s.len() - at,
    {
        let ghost rest = s@.skip(at as int);
        let ghost done = views(out@);
        proof {
            lemma_char_at_skip(s@, '\n', at as int, at as int);
        }
        match find_char(s, '\n', at) {
            None => {
                let last: Vec<char> = slice(s, at, s.len());
                assert(last@ =~= rest);
                proof {
                    lemma_views_push(out@, last);
                }
                out.push(last);
                at = s.len();
                assert(s@.skip(at as int) =~= seq![]);
                assert(lines_of(rest) =~= seq![rest]);
                assert(lines_of(seq![]) =~= seq![]);
                assert(views(out@) + lines_of(s@.skip(at as int)) =~= done + seq![rest]);
            },
            Some(i) => {
                let mut line: Vec<char> = slice(s, at, i);
                assert(line@ =~= rest.take(i - at));
                if line.len() > 0 && line[line.len() - 1] == '\r' {
                    let _ = line.pop();
                    assert(line@ =~= rest.take(i - at).drop_last());
                }
                assert(line@ == without_cr(rest.take(i - at)));
                proof {
                    lemma_lines_step(rest, i - at);
                    lemma_views_push(out@, line);
                    assert(rest.skip(i - at + 1) =~= s@.skip(i + 1));
                }
                out.push(line);
                at = i + 1;
                assert(views(out@) + lines_of(s@.skip(at as int)) =~= done + lines_of(rest));
            },
        }
    }
    assert(s@.skip(at as int) =~= seq![]);
    assert(lines_of(seq![]) =~= seq![]);
    assert(views(out@) =~= lines_of(s@));
    out
}

/// Drops the first `k` lines of a text.
pub fn skip_lines(s: &Vec<char>, k: usize) -> (r: Vec<char>)
    ensures
        r@ == after_lines(s@, k as int),
{
    let mut at: usize = 0;
    let mut left: usize = k;
    assert(s@.skip(0) =~= s@);
    while left > 0
        invariant
            at <= s.len(),
            after_lines(s@.skip(at as int), left as int) == after_lines(s@, k as int),
        decreases left,
    {
        let ghost rest = s@.skip(at as int);
        proof {
            lemma_char_at_skip(s@, '\n', at as int, at as int);
        }
        match find_char(s, '\n', at) {
            None => {
                return Vec::new();
            },
            Some(i) => {
                assert(rest.skip(i - at + 1) =~= s@.skip(i + 1));
                at = i + 1;
                left -= 1;
            },
        }
    }
    let r: Vec<char> = slice(s, at, s.len());
    assert(r@ =~= s@.skip(at as int));
    r
}

/// Texts joined by a separator.
pub open spec fn joined(v: Seq<Seq<char>>, sep: Seq<char>) -> Seq<char>
    decreases v.len(),
{
    if v.len() == 0 {
        seq![]
    } else if v.len() == 1 {
        v[0]
    } else {
        joined(v.drop_last(), sep) + sep + v.last()
    }
}

/// Joins texts with a separator between them.
pub fn join(v: &Vec<Vec<char>>, sep: &str) -> (r: Vec<char>)
    ensures
        r@ == joined(views(v@), sep@),
{
    let mut out: Vec<char> = Vec::new();
    let mut i: usize = 0;
    assert(views(v@).take(0) =~= seq![]);
    while i < v.len()
        invariant
            i <= v.len(),
            out@ == joined(views(v@).take(i as int), sep@),
        decreases v.len() - i,
    {
        let ghost next = views(v@).take(i + 1);
        assert(next.drop_last() =~= views(v@).take(i as int));
        assert(next.last() == v@[i as int]@);
        if i > 0 {
            push_str(&mut out, sep);
        }
        push_all(&mut out, &v[i]);
        assert(out@ =~= joined(next, sep@));
        i += 1;
    }
    assert(views(v@).take(i as int) =~= views(v@));
    out
}

/// Two texts, one after the other.
pub fn cat2(a: &str, b: &str) -> (r: String)
    ensures
        r@ == a@ + b@,
{
    let mut r: String = String::new();
    r.append(a);
    r.append(b);
    assert(r@ =~= a@ + b@);
    r
}

/// Three texts, one after the other.
pub fn cat3(a: &str, b: &str, c: &str) -> (r: String)
    ensures
        r@ == a@ + b@ + c@,
{
    let mut r: String = cat2(a, b);
    r.append(c);
    r
}

/// Four texts, one after the other.
pub fn cat4(a: &str, b: &str, c: &str, d: &str) -> (r: String)
    ensures
        r@ == a@ + b@ + c@ + d@,
{
    let mut r: String = cat3(a, b, c);
    r.append(d);
    r
}

/// Five texts, one after the other.
pub fn cat5(a: &str, b: &str, c: &str, d: &str, e: &str) -> (r: String)
    ensures
        r@ == a@ + b@ + c@ + d@ + e@,
{
    let mut r: String = cat4(a, b, c, d);
    r.append(e);
    r
}

/// The decimal digit of a number below ten.
pub open spec fn digit_of(d: nat) -> char {
    ('0' as u32 + d) as char
}

/// A natural number in decimal.
pub open spec fn decimal(n: nat) -> Seq<char>
    decreases n,
{
    if n < 10 {
        seq![digit_of(n)]
    } else {
        decimal(n / 10).push(digit_of(n % 10))
    }
}

/// The decimal digit of a number below ten.
fn digit(d: u8) -> (c: char)
    requires
        d < 10,
    ensures
        c == digit_of(d as nat),
{
    (48 + d) as char
}

/// Appends a number in decimal.
pub fn push_number(out: &mut Vec<char>, n: u64)
    ensures
        final(out)@ == old(out)@ + decimal(n as nat),
    decreases n,
{
    let ghost before = out@;
    if n >= 10 {
        push_number(out, n / 10);
    }
    out.push(digit((n % 10) as u8));
    assert(out@ =~= before + decimal(n as nat));
}

/// A number in decimal.
pub fn number_text(n: u64) -> (r: String)
    ensures
        r@ == decimal(n as nat),
{
    let mut out: Vec<char> = Vec::new();
    push_number(&mut out, n);
    assert(out@ =~= decimal(n as nat));
    from_chars(&out)
}

/// An ASCII upper case letter in lower case; any other character as it is.
pub open spec fn lower_char(c: char) -> char {
    if 'A' <= c <= 'Z' {
        (c as u32 + 32) as char
    } else {
        c
    }
}

/// A text with its ASCII letters in lower case.
pub open spec fn lowered(s: Seq<char>) -> Seq<char> {
    s.map_values(|c: char| lower_char(c))
}

/// Puts an ASCII letter in lower case.
pub fn to_lower(c: char) -> (r: char)
    ensures
        r == lower_char(c),
{
    if 'A' <= c && c <= 'Z' {
        (c as u8 + 32) as char
    } else {
        c
    }
}

/// Puts the ASCII letters of a text in lower case.
pub fn to_ascii_lowercase(s: &Vec<char>) -> (r: Vec<char>)
    ensures
        r@ == lowered(s@),
{
    let mut out: Vec<char> = Vec::new();
    let mut i: usize = 0;
    while i < s.len()
        invariant
            i <= s.len(),
            out@ == lowered(s@.take(i as int)),
        decreases s.len() - i,
    {
        out.push(to_lower(s[i]));
        i += 1;
        assert(out@ =~= lowered(s@.take(i as int)));
    }
    assert(s@.take(i as int) =~= s@);
    out
}

/// How many bytes a character takes in UTF-8.
pub open spec fn width(c: char) -> nat {
    if c <= '\u{7f}' {
        1
    } else if c <= '\u{7ff}' {
        2
    } else if c <= '\u{ffff}' {
        3
    } else {
        4
    }
}

/// How many bytes the white space at the start of a line takes.
pub open spec fn indent(s: Seq<char>) -> nat
    decreases s.len(),
{
    if s.len() > 0 && is_white(s[0]) {
        width(s[0]) + indent(s.drop_first())
    } else {
        0
    }
}

/// Measures the white space at the start of a line, in bytes.
pub fn indent_len(s: &Vec<char>) -> (r: u128)
    ensures
        r == indent(s@),
{
    let mut i: usize = 0;
    let mut n: u128 = 0;
    assert(s@.skip(0) =~= s@);
    while i < s.len() && is_whitespace(s[i])
        invariant
            i <= s.len(),
            n <= 4 * i,
            indent(s@) == n + indent(s@.skip(i as int)),
        decreases s.len() - i,
    {
        let c: char = s[i];
        assert(s@.skip(i as int).drop_first() =~= s@.skip(i + 1));
        n = n + if c <= '\u{7f}' {
            1
        } else if c <= '\u{7ff}' {
            2
        } else if c <= '\u{ffff}' {
            3
        } else {
            4
        };
        i += 1;
    }
    n
}

/// How many bytes a text takes in UTF-8.
pub open spec fn bytes(s: Seq<char>) -> usize {
    vstd::utf8::encode_utf8(s).len() as usize
}

/// Counts the bytes of a text in UTF-8.
pub fn byte_len(s: &str) -> (r: usize)
    ensures
        r == bytes(s@),
{
    s.len()
}

// ── Order ──────────────────────────────────────────────────────────────────

/// How one thing stands to another in an order.
#[derive(Debug, Clone, Copy, PartialEq, Eq, Structural)]
pub enum Order {
    Less,
    Equal,
    Greater,
}

/// The order of two texts: that of their first differing characters, and the
/// shorter one first where one starts the other.
pub open spec fn text_order(a: Seq<char>, b: Seq<char>) -> Order
    decreases a.len(),
{
    if a.len() == 0 || b.len() == 0 {
        if a.len() < b.len() {
            Order::Less
        } else if a.len() == b.len() {
            Order::Equal
        } else {
            Order::Greater
        }
    } else if a[0] < b[0] {
        Order::Less
    } else if a[0] > b[0] {
        Order::Greater
    } else {
        text_order(a.drop_first(), b.drop_first())
    }
}

/// Whether a text comes before another.
pub open spec fn text_less(a: Seq<char>, b: Seq<char>) -> bool {
    text_order(a, b) == Order::Less
}

/// Two texts are equal in order only if they are the same, and the order of two
/// texts turns around with them.
pub proof fn lemma_text_order(a: Seq<char>, b: Seq<char>)
    ensures
        (text_order(a, b) == Order::Equal) == (a == b),
        (text_order(a, b) == Order::Less) == (text_order(b, a) == Order::Greater),
    decreases a.len(),
{
    if a.len() == 0 || b.len() == 0 {
        if a.len() == b.len() {
            assert(a =~= b);
        }
    } else if a[0] == b[0] {
        lemma_text_order(a.drop_first(), b.drop_first());
        if a.drop_first() == b.drop_first() {
            assert(a =~= seq![a[0]] + a.drop_first());
            assert(b =~= seq![b[0]] + b.drop_first());
        }
    }
}

/// The order of texts is transitive.
pub proof fn lemma_text_less_transitive(a: Seq<char>, b: Seq<char>, c: Seq<char>)
    requires
        text_less(a, b),
        text_less(b, c),
    ensures
        text_less(a, c),
    decreases a.len(),
{
    if a.len() > 0 && b.len() > 0 && c.len() > 0 && a[0] == b[0] && b[0] == c[0] {
        lemma_text_less_transitive(a.drop_first(), b.drop_first(), c.drop_first());
    }
}

/// Orders two texts.
pub fn order_texts(a: &str, b: &str) -> (r: Order)
    ensures
        r == text_order(a@, b@),
{
    let x: Vec<char> = to_chars(a);
    let y: Vec<char> = to_chars(b);
    let mut i: usize = 0;
    assert(x@.skip(0) =~= x@);
    assert(y@.skip(0) =~= y@);
    while i < x.len() && i < y.len()
        invariant
            x@ == a@,
            y@ == b@,
            i <= x.len(),
            i <= y.len(),
            text_order(x@, y@) == text_order(x@.skip(i as int), y@.skip(i as int)),
        decreases x.len() - i,
    {
        if x[i] < y[i] {
            return Order::Less;
        }
        if x[i] > y[i] {
            return Order::Greater;
        }
        assert(x@.skip(i as int).drop_first() =~= x@.skip(i + 1));
        assert(y@.skip(i as int).drop_first() =~= y@.skip(i + 1));
        i += 1;
    }
    if x.len() < y.len() {
        Order::Less
    } else if x.len() == y.len() {
        Order::Equal
    } else {
        Order::Greater
    }
}

/// Tells whether two texts are the same.
pub fn same_text(a: &str, b: &str) -> (r: bool)
    ensures
        r == (a@ == b@),
{
    same(&to_chars(a), &to_chars(b))
}

// ── Integers ───────────────────────────────────────────────────────────────

/// An integer in decimal.
pub open spec fn signed_decimal(n: int) -> Seq<char> {
    if n < 0 {
        seq!['-'] + decimal((-n) as nat)
    } else {
        decimal(n as nat)
    }
}

/// Writes an integer in decimal.
pub fn integer_text(n: i64) -> (r: String)
    ensures
        r@ == signed_decimal(n as int),
{
    let mut out: Vec<char> = Vec::new();
    if n < 0 {
        out.push('-');
        let wide: i128 = n as i128;
        push_number(&mut out, (-wide) as u64);
        assert(out@ =~= signed_decimal(n as int));
    } else {
        push_number(&mut out, n as u64);
        assert(out@ =~= signed_decimal(n as int));
    }
    from_chars(&out)
}

/// Whether a text is made of decimal digits.
pub open spec fn all_digits(s: Seq<char>) -> bool {
    forall|i: int| 0 <= i < s.len() ==> '0' <= #[trigger] s[i] <= '9'
}

/// The number that decimal digits stand for.
pub open spec fn digits_value(s: Seq<char>) -> nat
    decreases s.len(),
{
    if s.len() == 0 {
        0
    } else {
        digits_value(s.drop_last()) * 10 + (s.last() as nat - '0' as nat) as nat
    }
}

/// The integer that a text stands for: a sign or none, then digits, within the
/// 64-bit integers.
pub open spec fn integer_of(s: Seq<char>) -> Option<int> {
    let digits = if s.len() > 0 && (s[0] == '+' || s[0] == '-') {
        s.skip(1)
    } else {
        s
    };
    let n: int = if s.len() > 0 && s[0] == '-' {
        -(digits_value(digits) as int)
    } else {
        digits_value(digits) as int
    };
    if digits.len() > 0 && all_digits(digits) && i64::MIN <= n <= i64::MAX {
        Some(n)
    } else {
        None
    }
}

/// Reads an integer.
pub fn parse_integer(text: &str) -> (r: Option<i64>)
    ensures
        match r {
            Some(n) => integer_of(text@) == Some(n as int),
            None => integer_of(text@) is None,
        },
{
    let s: Vec<char> = to_chars(text);
    let signed: bool = s.len() > 0 && (s[0] == '+' || s[0] == '-');
    let digits: Vec<char> = if signed {
        slice(&s, 1, s.len())
    } else {
        copy(&s)
    };
    assert(signed ==> digits@ =~= s@.skip(1));
    if digits.len() == 0 {
        return None;
    }
    let mut n: u128 = 0;
    let mut i: usize = 0;
    while i < digits.len()
        invariant
            s@ == text@,
            digits@ == if s@.len() > 0 && (s@[0] == '+' || s@[0] == '-') {
                s@.skip(1)
            } else {
                s@
            },
            i <= digits.len(),
            all_digits(digits@.take(i as int)),
            n <= 0x1_0000_0000_0000_0000,
            n < 0x1_0000_0000_0000_0000 ==> n == digits_value(digits@.take(i as int)),
            n == 0x1_0000_0000_0000_0000 ==> digits_value(digits@.take(i as int)) >= n,
        decreases digits.len() - i,
    {
        let c: char = digits[i];
        if c < '0' || c > '9' {
            assert(digits@[i as int] == c);
            return None;
        }
        assert(digits@.take(i + 1).drop_last() =~= digits@.take(i as int));
        let d: u128 = (c as u32 - '0' as u32) as u128;
        n = n * 10 + d;
        if n > 0x1_0000_0000_0000_0000 {
            n = 0x1_0000_0000_0000_0000;
        }
        i += 1;
    }
    assert(digits@.take(i as int) =~= digits@);
    if s.len() > 0 && s[0] == '-' {
        if n > 0x8000_0000_0000_0000 {
            None
        } else {
            Some((-(n as i128)) as i64)
        }
    } else if n > 0x7fff_ffff_ffff_ffff {
        None
    } else {
        Some(n as i64)
    }
}

// ── Splitting ──────────────────────────────────────────────────────────────

/// The parts of a text between the occurrences of a character.
pub open spec fn split_by(s: Seq<char>, c: char) -> Seq<Seq<char>>
    decreases s.len(),
{
    match char_at(s, c, 0) {
        None => seq![s],
        Some(i) => if 0 <= i < s.len() {
            seq![s.take(i)] + split_by(s.skip(i + 1), c)
        } else {
            seq![s]
        },
    }
}

/// Splits a text at a character.
pub fn split(s: &Vec<char>, c: char) -> (r: Vec<Vec<char>>)
    ensures
        views(r@) == split_by(s@, c),
        r.len() >= 1,
{
    let mut out: Vec<Vec<char>> = Vec::new();
    let mut at: usize = 0;
    assert(s@.skip(0) =~= s@);
    assert(views(out@) + split_by(s@.skip(0), c) =~= split_by(s@, c));
    loop
        invariant
            at <= s.len(),
            views(out@) + split_by(s@.skip(at as int), c) == split_by(s@, c),
        decreases s.len() - at,
    {
        let ghost rest = s@.skip(at as int);
        let ghost done = views(out@);
        proof {
            lemma_char_at_skip(s@, c, at as int, at as int);
        }
        match find_char(s, c, at) {
            None => {
                let last: Vec<char> = slice(s, at, s.len());
                assert(last@ =~= rest);
                proof {
                    lemma_views_push(out@, last);
                }
                out.push(last);
                assert(views(out@) =~= done + seq![rest]);
                return out;
            },
            Some(i) => {
                let part: Vec<char> = slice(s, at, i);
                assert(part@ =~= rest.take(i - at));
                proof {
                    lemma_views_push(out@, part);
                    assert(rest.skip(i - at + 1) =~= s@.skip(i + 1));
                }
                out.push(part);
                at = i + 1;
                assert(views(out@) + split_by(s@.skip(at as int), c) =~= done + split_by(rest, c));
            },
        }
    }
}

/// The last position of a character before `to`.
pub open spec fn last_char_at(s: Seq<char>, c: char, to: int) -> Option<int>
    decreases to,
{
    if to <= 0 || to > s.len() {
        None
    } else if s[to - 1] == c {
        Some(to - 1)
    } else {
        last_char_at(s, c, to - 1)
    }
}

/// Finds the last occurrence of a character.
pub fn find_last_char(s: &Vec<char>, c: char) -> (r: Option<usize>)
    ensures
        match r {
            Some(i) => last_char_at(s@, c, s@.len() as int) == Some(i as int) && i < s.len() && s@[i as int]
                == c,
            None => last_char_at(s@, c, s@.len() as int) is None,
        },
{
    let mut j: usize = s.len();
    while j > 0
        invariant
            j <= s.len(),
            last_char_at(s@, c, s@.len() as int) == last_char_at(s@, c, j as int),
        decreases j,
    {
        if s[j - 1] == c {
            return Some(j - 1);
        }
        j -= 1;
    }
    None
}

/// The texts behind strings.
pub open spec fn string_views(v: Seq<String>) -> Seq<Seq<char>> {
    Seq::new(v.len(), |i: int| v[i]@)
}

/// Strings followed by one more.
pub proof fn lemma_string_views_push(v: Seq<String>, x: String)
    ensures
        string_views(v.push(x)) == string_views(v).push(x@),
{
    assert(string_views(v.push(x)) =~= string_views(v).push(x@));
}

/// Copies strings.
pub fn copy_strings(v: &Vec<String>) -> (r: Vec<String>)
    ensures
        string_views(r@) == string_views(v@),
{
    let mut out: Vec<String> = Vec::new();
    let mut i: usize = 0;
    while i < v.len()
        invariant
            i <= v.len(),
            string_views(out@) =~= string_views(v@).take(i as int),
        decreases v.len() - i,
    {
        let t: String = v[i].clone();
        proof {
            lemma_string_views_push(out@, t);
        }
        out.push(t);
        i += 1;
    }
    assert(string_views(out@) =~= string_views(v@));
    out
}

/// Joins strings with a separator between them.
pub fn join_strings(v: &Vec<String>, sep: &str) -> (r: String)
    ensures
        r@ == joined(string_views(v@), sep@),
{
    let mut out: String = String::new();
    let mut i: usize = 0;
    let ghost all = string_views(v@);
    assert(all.take(0) =~= seq![]);
    while i < v.len()
        invariant
            all == string_views(v@),
            i <= v.len(),
            out@ == joined(all.take(i as int), sep@),
        decreases v.len() - i,
    {
        assert(all.take(i + 1).drop_last() =~= all.take(i as int));
        if i > 0 {
            out.append(sep);
        }
        out.append(v[i].as_str());
        i += 1;
        assert(out@ =~= joined(all.take(i as int), sep@));
    }
    assert(all.take(i as int) =~= all);
    out
}

/// Tells whether a text is among strings.
pub fn has_string(v: &Vec<String>, t: &str) -> (r: bool)
    ensures
        r == string_views(v@).contains(t@),
{
    let mut i: usize = 0;
    while i < v.len()
        invariant
            i <= v.len(),
            forall|k: int| 0 <= k < i ==> v@[k]@ != t@,
        decreases v.len() - i,
    {
        if same_text(v[i].as_str(), t) {
            assert(string_views(v@)[i as int] == t@);
            return true;
        }
        i += 1;
    }
    assert(!string_views(v@).contains(t@));
    false
}

/// Texts that ascend, each once.
pub open spec fn is_text_set(s: Seq<Seq<char>>) -> bool {
    forall|i: int, j: int| 0 <= i < j < s.len() ==> text_less(#[trigger] s[i], #[trigger] s[j])
}

/// Ascending texts with one more, unless it is there.
pub open spec fn with_text(s: Seq<Seq<char>>, t: Seq<char>) -> Seq<Seq<char>>
    decreases s.len(),
{
    if s.len() == 0 {
        seq![t]
    } else if s[0] == t {
        s
    } else if text_less(t, s[0]) {
        seq![t] + s
    } else {
        seq![s[0]] + with_text(s.skip(1), t)
    }
}

/// Some texts in ascending order, each once.
pub open spec fn text_set(s: Seq<Seq<char>>) -> Seq<Seq<char>>
    decreases s.len(),
{
    if s.len() == 0 {
        seq![]
    } else {
        with_text(text_set(s.drop_last()), s.last())
    }
}

/// Putting a text among ascending ones keeps them ascending, and adds it alone.
pub proof fn lemma_with_text(s: Seq<Seq<char>>, t: Seq<char>)
    requires
        is_text_set(s),
    ensures
        is_text_set(with_text(s, t)),
        forall|x: Seq<char>| #[trigger]
            with_text(s, t).contains(x) <==> s.contains(x) || x == t,
    decreases s.len(),
{
    let w = with_text(s, t);
    if s.len() == 0 {
        assert(w[0] == t);
    } else {
        lemma_text_order(t, s[0]);
        let rest = s.skip(1);
        assert(s =~= seq![s[0]] + rest);
        if s[0] == t {
            assert(s.contains(t));
        } else if text_less(t, s[0]) {
            assert forall|i: int, j: int| 0 <= i < j < w.len() implies text_less(
                #[trigger] w[i],
                #[trigger] w[j],
            ) by {
                if i == 0 && j > 1 {
                    lemma_text_less_transitive(t, s[0], s[j - 1]);
                }
            }
            assert(w[0] == t);
            assert forall|x: Seq<char>| #[trigger]
                w.contains(x) <==> s.contains(x) || x == t by {
                if s.contains(x) {
                    let k = choose|k: int| 0 <= k < s.len() && s[k] == x;
                    assert(w[k + 1] == x);
                }
            }
        } else {
            let v = with_text(rest, t);
            lemma_with_text(rest, t);
            lemma_text_order(s[0], t);
            assert forall|j: int| 0 <= j < v.len() implies text_less(s[0], #[trigger] v[j]) by {
                assert(v.contains(v[j]));
                if rest.contains(v[j]) {
                    let k = choose|k: int| 0 <= k < rest.len() && rest[k] == v[j];
                    assert(s[k + 1] == v[j]);
                }
            }
            assert(w[0] == s[0]);
            assert forall|x: Seq<char>| #[trigger]
                w.contains(x) <==> s.contains(x) || x == t by {
                if w.contains(x) {
                    let k = choose|k: int| 0 <= k < w.len() && w[k] == x;
                    if k > 0 {
                        assert(v[k - 1] == x);
                        assert(v.contains(x));
                        if rest.contains(x) {
                            let q = choose|q: int| 0 <= q < rest.len() && rest[q] == x;
                            assert(s[q + 1] == x);
                        }
                    }
                }
                if s.contains(x) || x == t {
                    if s.contains(x) {
                        let k = choose|k: int| 0 <= k < s.len() && s[k] == x;
                        if k == 0 {
                            assert(w[0] == x);
                        } else {
                            assert(rest[k - 1] == x);
                            assert(v.contains(x));
                        }
                    } else {
                        assert(v.contains(x));
                    }
                    if v.contains(x) {
                        let q = choose|q: int| 0 <= q < v.len() && v[q] == x;
                        assert(w[q + 1] == x);
                    }
                }
            }
        }
    }
}

/// The set of some texts ascends and holds those texts and no others.
pub proof fn lemma_text_set(s: Seq<Seq<char>>)
    ensures
        is_text_set(text_set(s)),
        forall|x: Seq<char>| #[trigger] text_set(s).contains(x) <==> s.contains(x),
    decreases s.len(),
{
    if s.len() > 0 {
        let rest = s.drop_last();
        lemma_text_set(rest);
        lemma_with_text(text_set(rest), s.last());
        assert forall|x: Seq<char>| #[trigger] text_set(s).contains(x) <==> s.contains(x) by {
            if s.contains(x) {
                let k = choose|k: int| 0 <= k < s.len() && s[k] == x;
                if k < rest.len() {
                    assert(rest[k] == x);
                }
            }
            if rest.contains(x) {
                let k = choose|k: int| 0 <= k < rest.len() && rest[k] == x;
                assert(s[k] == x);
            }
            assert(s[s.len() - 1] == s.last());
        }
    }
}

/// Puts a text among ascending ones, unless it is there.
pub fn insert_text(v: &mut Vec<String>, t: &str)
    ensures
        string_views(final(v)@) == with_text(string_views(old(v)@), t@),
{
    let ghost before = string_views(v@);
    let mut i: usize = 0;
    assert(before.skip(0) =~= before);
    assert(before.take(0) + with_text(before.skip(0), t@) =~= with_text(before, t@));
    while i < v.len()
        invariant
            i <= v.len(),
            string_views(v@) == before,
            before == string_views(old(v)@),
            before.take(i as int) + with_text(before.skip(i as int), t@) == with_text(before, t@),
        decreases v.len() - i,
    {
        let ghost rest = before.skip(i as int);
        assert(rest[0] == before[i as int]);
        proof {
            lemma_text_order(t@, before[i as int]);
        }
        match order_texts(t, v[i].as_str()) {
            Order::Equal => {
                assert(before =~= before.take(i as int) + rest);
                return ;
            },
            Order::Less => {
                let x: String = t.to_owned();
                v.insert(i, x);
                assert(string_views(v@) =~= before.take(i as int) + (seq![t@] + rest));
                return ;
            },
            Order::Greater => {
                proof {
                    assert(rest.skip(1) =~= before.skip(i + 1));
                    assert(before.take(i as int) + (seq![rest[0]] + with_text(rest.skip(1), t@))
                        =~= before.take(i + 1) + with_text(before.skip(i + 1), t@));
                }
                i += 1;
            },
        }
    }
    let x: String = t.to_owned();
    proof {
        lemma_string_views_push(v@, x);
        assert(before.skip(i as int) =~= seq![]);
        assert(before.take(i as int) =~= before);
    }
    v.push(x);
    assert(string_views(v@) =~= before + seq![t@]);
}

/// Puts texts in ascending order, each once.
pub fn sort_texts(v: &Vec<String>) -> (r: Vec<String>)
    ensures
        string_views(r@) == text_set(string_views(v@)),
{
    let ghost all = string_views(v@);
    let mut out: Vec<String> = Vec::new();
    let mut i: usize = 0;
    assert(all.take(0) =~= seq![]);
    assert(string_views(out@) =~= seq![]);
    while i < v.len()
        invariant
            all == string_views(v@),
            i <= v.len(),
            string_views(out@) == text_set(all.take(i as int)),
        decreases v.len() - i,
    {
        assert(all.take(i + 1).drop_last() =~= all.take(i as int));
        insert_text(&mut out, v[i].as_str());
        i += 1;
    }
    assert(all.take(i as int) =~= all);
    out
}

/// A text with each occurrence of a pattern replaced, from left to right. An empty
/// pattern occurs nowhere.
pub open spec fn replaced(s: Seq<char>, p: Seq<char>, q: Seq<char>) -> Seq<char>
    decreases s.len(),
{
    if p.len() == 0 {
        s
    } else {
        match find_at(s, p, 0) {
            Some(i) => if 0 <= i && i + p.len() <= s.len() {
                s.take(i) + q + replaced(s.skip(i + p.len()), p, q)
            } else {
                s
            },
            None => s,
        }
    }
}

/// Where a pattern occurs in the rest of a text, told of the text.
pub proof fn lemma_find_at_skip(s: Seq<char>, p: Seq<char>, from: int, k: int)
    requires
        0 <= from <= k,
        from <= s.len(),
    ensures
        find_at(s, p, k) == match find_at(s.skip(from), p, k - from) {
            Some(i) => Some(i + from),
            None => None,
        },
    decreases s.len() - k + 1,
{
    if k <= s.len() {
        assert(occurs_at(s, p, k) == occurs_at(s.skip(from), p, k - from)) by {
            if k + p.len() <= s.len() {
                assert(s.subrange(k, k + p.len()) =~= s.skip(from).subrange(
                    k - from,
                    k - from + p.len(),
                ));
            }
        }
        lemma_find_at_skip(s, p, from, k + 1);
    }
}

/// Replaces each occurrence of a pattern.
pub fn replace(s: &Vec<char>, p: &Vec<char>, q: &Vec<char>) -> (r: Vec<char>)
    ensures
        r@ == replaced(s@, p@, q@),
{
    if p.len() == 0 {
        return copy(s);
    }
    let mut out: Vec<char> = Vec::new();
    let mut i: usize = 0;
    assert(s@.skip(0) =~= s@);
    assert(out@ + replaced(s@.skip(0), p@, q@) =~= replaced(s@, p@, q@));
    loop
        invariant
            p.len() > 0,
            i <= s.len(),
            out@ + replaced(s@.skip(i as int), p@, q@) == replaced(s@, p@, q@),
        decreases s.len() - i,
    {
        let ghost rest = s@.skip(i as int);
        let ghost before = out@;
        proof {
            lemma_find_at_skip(s@, p@, i as int, i as int);
            lemma_find_at(s@, p@, i as int);
        }
        match find(s, p, i) {
            Some(k) => {
                push_all(&mut out, &slice(s, i, k));
                push_all(&mut out, q);
                proof {
                    assert(s@.subrange(i as int, k as int) =~= rest.take(k - i));
                    assert(rest.skip(k - i + p@.len()) =~= s@.skip(k + p@.len()));
                    assert(out@ + replaced(s@.skip(k + p@.len()), p@, q@) =~= before + (rest.take(
                        k - i,
                    ) + q@ + replaced(rest.skip(k - i + p@.len()), p@, q@)));
                }
                i = k + p.len();
            },
            None => {
                push_all(&mut out, &slice(s, i, s.len()));
                assert(s@.subrange(i as int, s@.len() as int) =~= rest);
                return out;
            },
        }
    }
}

/// Replacing a pattern that does not occur changes nothing.
pub proof fn lemma_replaced_nothing(s: Seq<char>, p: Seq<char>, q: Seq<char>)
    requires
        lacks(s, p),
    ensures
        replaced(s, p, q) == s,
{
}

/// Replacing a pattern by itself changes nothing.
pub proof fn lemma_replaced_same(s: Seq<char>, p: Seq<char>)
    ensures
        replaced(s, p, p) == s,
    decreases s.len(),
{
    if p.len() > 0 {
        lemma_find_at(s, p, 0);
        match find_at(s, p, 0) {
            Some(i) => {
                if 0 <= i && i + p.len() <= s.len() {
                    lemma_replaced_same(s.skip(i + p.len()), p);
                    assert(s.take(i) + p + s.skip(i + p.len()) =~= s);
                }
            },
            None => {},
        }
    }
}

} // verus!
