//! What edits of a note keep, and what can be read back after them.

use crate::record::Val;
use crate::text::{
    after_lines, char_at, find_at, has, indent, joined, lacks, lemma_char_at, lemma_find_at,
    lines_of, occurs_at, starts, trimmed, trimmed_end, trimmed_start, without_cr, is_white,
};
use crate::writer::{
    assembled, block_len, block_set, body_of, continues_field, ended_head, extent, fence_from,
    field_removed, field_set, is_bare, is_block_scalar, is_comment, is_fence, is_silent, keys_lead,
    lead, head_of, is_flow_list, is_item, item_prefix, key_line, lemma_after_lines_end,
    lemma_block_len, lemma_body_is_end, lemma_fence_from, lemma_key_line, lemma_parts_fenced,
    line_ending, opens_block, parts, sets_key, spliced, starts_word, tag_added, tag_line,
    tag_removed, tag_text, value_set, with_body, with_field,
};
use vstd::prelude::*;

verus! {

/// The lines of the frontmatter of a note, both fences included.
pub open spec fn front(content: Seq<char>) -> Seq<Seq<char>> {
    match parts(content) {
        Some((ls, _)) => ls,
        None => seq![],
    }
}

// ── Lines ──────────────────────────────────────────────────────────────────

/// Whether a line stands by itself: it holds no line feed, and no part of it is taken
/// for a line ending.
pub open spec fn is_plain(line: Seq<char>, eol: Seq<char>) -> bool {
    &&& !line.contains('\n')
    &&& eol == "\r\n"@ || !(line.len() > 0 && line.last() == '\r')
}

/// Whether lines make up a frontmatter: the first and the last are fences, no other
/// is, and each stands by itself.
pub open spec fn is_block(ls: Seq<Seq<char>>, eol: Seq<char>) -> bool {
    &&& ls.len() >= 2
    &&& is_fence(ls[0])
    &&& is_fence(ls.last())
    &&& forall|k: int| 1 <= k < ls.len() - 1 ==> !is_fence(#[trigger] ls[k])
    &&& forall|k: int| 0 <= k < ls.len() ==> is_plain(#[trigger] ls[k], eol)
}

/// A line that stands by itself is the first line of a text that starts with it.
proof fn lemma_first_line(x: Seq<char>, eol: Seq<char>, rest: Seq<char>)
    requires
        eol == "\n"@ || eol == "\r\n"@,
        is_plain(x, eol),
    ensures
        lines_of(x + eol + rest) == seq![x] + lines_of(rest),
        after_lines(x + eol + rest, 1) == rest,
{
    reveal_strlit("\n");
    reveal_strlit("\r\n");
    let s = x + eol + rest;
    let i = x.len() + eol.len() - 1;
    lemma_char_at(s, '\n', 0);
    assert(s[i] == '\n');
    assert forall|k: int| 0 <= k < i implies s[k] != '\n' by {
        if k < x.len() {
            assert(s[k] == x[k]);
            assert(x.contains(x[k]));
        }
    }
    assert(char_at(s, '\n', 0) == Some(i as int));
    assert(s.skip(i + 1) =~= rest);
    assert(without_cr(s.take(i)) =~= x);
    assert(after_lines(rest, 0) == rest);
}

/// Lines taken off one by one.
proof fn lemma_after_lines(s: Seq<char>, k: int)
    requires
        0 <= k,
    ensures
        after_lines(s, k + 1) == after_lines(after_lines(s, k), 1),
    decreases k,
{
    reveal_with_fuel(after_lines, 2);
    if k > 0 {
        match char_at(s, '\n', 0) {
            None => {
                assert(after_lines(s, k) == Seq::<char>::empty());
                assert(char_at(Seq::<char>::empty(), '\n', 0) is None);
            },
            Some(i) => {
                lemma_after_lines(s.skip(i + 1), k - 1);
            },
        }
    }
}

/// Lines that stand by themselves are the first lines of a text that starts with them.
proof fn lemma_lines_back(ls: Seq<Seq<char>>, eol: Seq<char>, rest: Seq<char>)
    requires
        eol == "\n"@ || eol == "\r\n"@,
        ls.len() >= 1,
        forall|k: int| 0 <= k < ls.len() ==> is_plain(#[trigger] ls[k], eol),
    ensures
        lines_of(joined(ls, eol) + eol + rest) == ls + lines_of(rest),
        after_lines(joined(ls, eol) + eol + rest, ls.len() as int) == rest,
    decreases ls.len(),
{
    assert(is_plain(ls[ls.len() - 1], eol));
    if ls.len() == 1 {
        lemma_first_line(ls[0], eol, rest);
        assert(seq![ls[0]] =~= ls);
    } else {
        let init = ls.drop_last();
        let tail = ls.last() + eol + rest;
        assert forall|k: int| 0 <= k < init.len() implies is_plain(#[trigger] init[k], eol) by {
            assert(init[k] == ls[k]);
        }
        lemma_lines_back(init, eol, tail);
        lemma_first_line(ls.last(), eol, rest);
        assert(joined(ls, eol) + eol + rest =~= joined(init, eol) + eol + tail);
        assert(init + (seq![ls.last()] + lines_of(rest)) =~= ls + lines_of(rest));
        lemma_after_lines(joined(ls, eol) + eol + rest, init.len() as int);
    }
}

/// A text whose first lines make up a frontmatter is taken apart into them and what
/// follows them.
proof fn lemma_taken_apart(t: Seq<char>, ls: Seq<Seq<char>>, body: Seq<char>)
    requires
        ls.len() >= 2,
        is_fence(ls[0]),
        is_fence(ls.last()),
        forall|k: int| 1 <= k < ls.len() - 1 ==> !is_fence(#[trigger] ls[k]),
        lines_of(t) == ls + lines_of(body),
        after_lines(t, ls.len() as int) == body,
    ensures
        opens_block(t),
        parts(t) == Some((ls, body)),
{
    let n = ls.len() as int;
    let all = lines_of(t);
    assert(all[0] == ls[0]);
    lemma_fence_from(all, 1);
    assert(all[n - 1] == ls[n - 1]);
    assert forall|k: int| 1 <= k < n - 1 implies !is_fence(#[trigger] all[k]) by {
        assert(all[k] == ls[k]);
    }
    assert(fence_from(all, 1) == Some(n - 1));
    assert(all.take(n) =~= ls);
}

/// A note put together from a frontmatter and a body is taken apart into them again.
pub proof fn law_read_back(ls: Seq<Seq<char>>, body: Seq<char>, original: Seq<char>)
    requires
        is_block(ls, line_ending(original)),
    ensures
        opens_block(assembled(ls, body, original)),
        parts(assembled(ls, body, original)) == Some((ls, body)),
{
    lemma_lines_back(ls, line_ending(original), body);
    lemma_taken_apart(assembled(ls, body, original), ls, body);
}

/// The first lines of a text are the lines of the part that they take.
proof fn lemma_head_lines(s: Seq<char>, k: int)
    requires
        1 <= k <= lines_of(s).len(),
    ensures
        ({
            let b = after_lines(s, k);
            let h = s.take(s.len() - b.len());
            &&& b.len() < s.len()
            &&& lines_of(h) == lines_of(s).take(k)
            &&& b.len() > 0 ==> h.last() == '\n'
        }),
    decreases k,
{
    reveal_with_fuel(after_lines, 2);
    lemma_char_at(s, '\n', 0);
    lemma_after_lines_end(s, k);
    let b = after_lines(s, k);
    let h = s.take(s.len() - b.len());
    match char_at(s, '\n', 0) {
        None => {
            assert(h =~= s);
            assert(lines_of(s).take(k) =~= lines_of(s));
        },
        Some(i) => {
            let rest = s.skip(i + 1);
            let first = without_cr(s.take(i));
            assert(lines_of(s) == seq![first] + lines_of(rest));
            if k > 1 {
                lemma_head_lines(rest, k - 1);
                let hr = rest.take(rest.len() - b.len());
                assert(h =~= s.take(i + 1) + hr);
                assert(h.skip(i + 1) =~= hr);
                assert(lines_of(rest).take(k - 1) == lines_of(hr));
            } else {
                assert(b == rest);
                assert(h =~= s.take(i + 1));
                assert(h.skip(i + 1) =~= Seq::<char>::empty());
                assert(lines_of(Seq::<char>::empty()) =~= Seq::<Seq<char>>::empty()) by {
                    lemma_char_at(Seq::<char>::empty(), '\n', 0);
                }
            }
            lemma_char_at(h, '\n', 0);
            assert(h[i] == '\n');
            assert forall|j: int| 0 <= j < i implies h[j] != '\n' by {
                assert(h[j] == s[j]);
            }
            assert(char_at(h, '\n', 0) == Some(i));
            assert(h.take(i) =~= s.take(i));
            assert(lines_of(h) =~= lines_of(s).take(k));
        },
    }
}

/// Where a text ends with a line feed, what is added to it starts a new line.
proof fn lemma_lines_append(h: Seq<char>, x: Seq<char>)
    requires
        h.len() > 0,
        h.last() == '\n',
    ensures
        lines_of(h + x) == lines_of(h) + lines_of(x),
        after_lines(h + x, lines_of(h).len() as int) == x,
    decreases h.len(),
{
    reveal_with_fuel(after_lines, 2);
    lemma_char_at(h, '\n', 0);
    lemma_char_at(h + x, '\n', 0);
    assert(h[h.len() - 1] == '\n');
    let i = char_at(h, '\n', 0)->0;
    let t = h + x;
    assert(t[i] == '\n');
    assert forall|j: int| 0 <= j < i implies t[j] != '\n' by {
        assert(t[j] == h[j]);
    }
    assert(char_at(t, '\n', 0) == Some(i));
    let rest = h.skip(i + 1);
    assert(t.take(i) =~= h.take(i));
    assert(t.skip(i + 1) =~= rest + x);
    let first = without_cr(h.take(i));
    assert(lines_of(h) == seq![first] + lines_of(rest));
    if rest.len() == 0 {
        assert(lines_of(rest) =~= Seq::<Seq<char>>::empty()) by {
            lemma_char_at(rest, '\n', 0);
        }
        assert(rest + x =~= x);
    } else {
        lemma_lines_append(rest, x);
    }
    assert(lines_of(t) =~= lines_of(h) + lines_of(x));
}

/// A line ending behind the last line of a text adds no line.
proof fn lemma_last_line_ended(s: Seq<char>, eol: Seq<char>)
    requires
        s.len() > 0,
        s.last() != '\n',
        eol == "\n"@ || eol == "\r\n"@,
        lines_of(s).len() > 0 ==> is_plain(lines_of(s).last(), eol),
    ensures
        lines_of(s + eol) == lines_of(s),
        (s + eol).last() == '\n',
    decreases s.len(),
{
    reveal_strlit("\n");
    reveal_strlit("\r\n");
    lemma_char_at(s, '\n', 0);
    let e = Seq::<char>::empty();
    match char_at(s, '\n', 0) {
        None => {
            assert(lines_of(s).last() == s);
            lemma_first_line(s, eol, e);
            assert(s + eol + e =~= s + eol);
            assert(lines_of(e) =~= Seq::<Seq<char>>::empty()) by {
                lemma_char_at(e, '\n', 0);
            }
            assert(lines_of(s + eol) =~= lines_of(s));
        },
        Some(i) => {
            let rest = s.skip(i + 1);
            let t = s + eol;
            assert(lines_of(s) == seq![without_cr(s.take(i))] + lines_of(rest));
            assert(lines_of(rest).len() > 0 ==> lines_of(s).last() == lines_of(rest).last());
            assert(rest.last() == s.last());
            lemma_last_line_ended(rest, eol);
            lemma_char_at(t, '\n', 0);
            assert(t[i] == '\n');
            assert forall|j: int| 0 <= j < i implies t[j] != '\n' by {
                assert(t[j] == s[j]);
            }
            assert(char_at(t, '\n', 0) == Some(i));
            assert(t.take(i) =~= s.take(i));
            assert(t.skip(i + 1) =~= rest + eol);
        },
    }
}

/// The lines of a frontmatter are those of the text before the body.
proof fn lemma_head_of(content: Seq<char>)
    requires
        opens_block(content),
        parts(content) is Some,
    ensures
        head_of(content).len() > 0,
        lines_of(head_of(content)) == front(content),
        content == head_of(content) + body_of(content),
        body_of(content).len() > 0 ==> head_of(content).last() == '\n',
{
    lemma_fence_from(lines_of(content), 1);
    let n = front(content).len() as int;
    lemma_head_lines(content, n);
    lemma_body_is_end(content);
}

/// No line of a text holds a line feed, and where the text has no carriage returns
/// before line feeds, none but the last ends with one.
proof fn lemma_lines_plain(s: Seq<char>)
    ensures
        forall|k: int| 0 <= k < lines_of(s).len() ==> !(#[trigger] lines_of(s)[k]).contains('\n'),
        lacks(s, "\r\n"@) ==> forall|k: int|
            0 <= k < lines_of(s).len() - 1 ==> is_plain(#[trigger] lines_of(s)[k], "\n"@),
    decreases s.len(),
{
    reveal_strlit("\n");
    reveal_strlit("\r\n");
    lemma_char_at(s, '\n', 0);
    let all = lines_of(s);
    match char_at(s, '\n', 0) {
        None => {
            assert forall|k: int| 0 <= k < all.len() implies !(#[trigger] all[k]).contains('\n') by {
                assert(all[k] == s);
            }
        },
        Some(i) => {
            let first = without_cr(s.take(i));
            let rest = s.skip(i + 1);
            lemma_lines_plain(rest);
            assert(all == seq![first] + lines_of(rest));
            assert(!first.contains('\n')) by {
                if first.contains('\n') {
                    let j = choose|j: int| 0 <= j < first.len() && first[j] == '\n';
                    assert(s[j] == '\n');
                }
            }
            assert forall|k: int| 0 <= k < all.len() implies !(#[trigger] all[k]).contains('\n') by {
                if k > 0 {
                    assert(all[k] == lines_of(rest)[k - 1]);
                }
            }
            if lacks(s, "\r\n"@) {
                lemma_find_at(s, "\r\n"@, 0);
                lemma_find_at(rest, "\r\n"@, 0);
                assert(lacks(rest, "\r\n"@)) by {
                    if has(rest, "\r\n"@) {
                        let j = find_at(rest, "\r\n"@, 0)->0;
                        assert(occurs_at(s, "\r\n"@, j + i + 1)) by {
                            assert(s.subrange(j + i + 1, j + i + 3) =~= rest.subrange(j, j + 2));
                        }
                    }
                }
                assert(is_plain(first, "\n"@)) by {
                    if i > 0 && s[i - 1] == '\r' {
                        assert(s.subrange(i - 1, i + 1) =~= "\r\n"@);
                        assert(occurs_at(s, "\r\n"@, i - 1));
                    }
                }
                assert forall|k: int| 0 <= k < all.len() - 1 implies is_plain(
                    #[trigger] all[k],
                    "\n"@,
                ) by {
                    if k > 0 {
                        assert(all[k] == lines_of(rest)[k - 1]);
                    }
                }
            }
        },
    }
}

/// The frontmatter of a note is one, where the closing fence stands by itself.
pub proof fn lemma_parts_block(content: Seq<char>)
    requires
        parts(content) is Some,
        is_plain(front(content).last(), line_ending(content)),
    ensures
        is_block(front(content), line_ending(content)),
{
    let eol = line_ending(content);
    let ls = front(content);
    lemma_parts_fenced(content);
    reveal_strlit("---");
    reveal_strlit("\n");
    reveal_strlit("\r\n");
    assert forall|k: int| 0 <= k < ls.len() implies is_plain(#[trigger] ls[k], eol) by {
        if opens_block(content) {
            lemma_head_of(content);
            lemma_lines_plain(head_of(content));
        } else {
            assert(ls[k] == "---"@);
            assert(!"---"@.contains('\n'));
        }
    }
}

// ── The body ───────────────────────────────────────────────────────────────

/// A body that is set is read back, and the frontmatter is kept line by line.
pub proof fn law_body_is_set(content: Seq<char>, body: Seq<char>)
    requires
        parts(content) is Some,
        is_plain(front(content).last(), line_ending(content)),
    ensures
        parts(with_body(content, body)) == Some((front(content), body)),
{
    lemma_parts_fenced(content);
    if opens_block(content) {
        let head = head_of(content);
        lemma_head_of(content);
        if head.last() != '\n' {
            lemma_last_line_ended(head, line_ending(content));
        }
        let ended = ended_head(content);
        assert(ended.len() > 0 && ended.last() == '\n');
        lemma_lines_append(ended, body);
        lemma_taken_apart(ended + body, front(content), body);
    } else {
        lemma_parts_block(content);
        law_read_back(front(content), body, content);
    }
}

/// An edit of the body keeps the frontmatter as it stands, character by character. Only
/// a closing fence at the very end of a note gets a line ending behind it.
pub proof fn law_frontmatter_is_kept(content: Seq<char>, body: Seq<char>)
    requires
        opens_block(content),
        parts(content) is Some,
    ensures
        body_of(content).len() <= content.len(),
        ({
            let head = content.take(content.len() - body_of(content).len());
            &&& head.len() > 0
            &&& head.last() == '\n' ==> with_body(content, body) == head + body && with_body(
                content,
                body_of(content),
            ) == content
            &&& head.last() != '\n' ==> head == content && with_body(content, body) == content
                + line_ending(content) + body
        }),
{
    lemma_head_of(content);
    lemma_body_is_end(content);
    if head_of(content).last() != '\n' {
        assert(head_of(content) + body_of(content) =~= head_of(content));
    }
}

/// Whether the first lines of a text all have the same line ending.
pub open spec fn lines_end(s: Seq<char>, k: int, eol: Seq<char>) -> bool
    decreases k,
{
    if k <= 0 {
        true
    } else {
        match char_at(s, '\n', 0) {
            None => false,
            Some(i) => (eol == "\r\n"@ <==> i > 0 && s[i - 1] == '\r') && lines_end(
                s.skip(i + 1),
                k - 1,
                eol,
            ),
        }
    }
}

/// Texts joined, told from the first one on.
proof fn lemma_joined_first(v: Seq<Seq<char>>, sep: Seq<char>)
    requires
        v.len() >= 2,
    ensures
        joined(v, sep) == v[0] + sep + joined(v.skip(1), sep),
    decreases v.len(),
{
    reveal_with_fuel(joined, 2);
    if v.len() > 2 {
        lemma_joined_first(v.drop_last(), sep);
        assert(v.drop_last().skip(1) =~= v.skip(1).drop_last());
        assert(joined(v, sep) =~= v[0] + sep + joined(v.skip(1), sep));
    } else {
        assert(v.drop_last() =~= seq![v[0]]);
        assert(v.skip(1) =~= seq![v[1]]);
        assert(joined(v, sep) =~= v[0] + sep + v[1]);
    }
}

/// The first lines of a text, put together again with what follows them.
proof fn lemma_put_back(s: Seq<char>, k: int, eol: Seq<char>)
    requires
        eol == "\n"@ || eol == "\r\n"@,
        1 <= k <= lines_of(s).len(),
        lines_end(s, k, eol),
    ensures
        joined(lines_of(s).take(k), eol) + eol + after_lines(s, k) == s,
    decreases k,
{
    reveal_strlit("\n");
    reveal_strlit("\r\n");
    reveal_with_fuel(after_lines, 2);
    lemma_char_at(s, '\n', 0);
    let i = char_at(s, '\n', 0)->0;
    let rest = s.skip(i + 1);
    let first = without_cr(s.take(i));
    let all = lines_of(s);
    assert(all == seq![first] + lines_of(rest));
    assert(first + eol + rest =~= s);
    if k == 1 {
        assert(all.take(1) =~= seq![first]);
    } else {
        lemma_put_back(rest, k - 1, eol);
        let ls = all.take(k);
        lemma_joined_first(ls, eol);
        assert(ls.skip(1) =~= lines_of(rest).take(k - 1));
        assert(joined(ls, eol) + eol + after_lines(s, k) =~= first + eol + (joined(
            lines_of(rest).take(k - 1),
            eol,
        ) + eol + after_lines(rest, k - 1)));
    }
}

/// Whether a note has a frontmatter whose lines all end alike.
pub open spec fn is_even(content: Seq<char>) -> bool {
    &&& opens_block(content)
    &&& parts(content) is Some
    &&& lines_end(content, front(content).len() as int, line_ending(content))
}

/// A note whose lines all end alike is its frontmatter and body put together.
proof fn lemma_even(content: Seq<char>)
    requires
        is_even(content),
    ensures
        assembled(front(content), body_of(content), content) == content,
{
    lemma_fence_from(lines_of(content), 1);
    lemma_put_back(content, front(content).len() as int, line_ending(content));
}

// ── Fields ─────────────────────────────────────────────────────────────────

/// A character that is no white space stays when a text is trimmed.
proof fn lemma_trimmed_keeps(s: Seq<char>, c: char)
    requires
        !is_white(c),
        s.contains(c),
    ensures
        trimmed(s).contains(c),
{
    lemma_trimmed_start_keeps(s, c);
    lemma_trimmed_end_keeps(trimmed_start(s), c);
}

/// A character that is no white space stays when the start is trimmed.
proof fn lemma_trimmed_start_keeps(s: Seq<char>, c: char)
    requires
        !is_white(c),
        s.contains(c),
    ensures
        trimmed_start(s).contains(c),
    decreases s.len(),
{
    if s.len() > 0 && is_white(s[0]) {
        let j = choose|j: int| 0 <= j < s.len() && s[j] == c;
        assert(s.drop_first()[j - 1] == c);
        lemma_trimmed_start_keeps(s.drop_first(), c);
    }
}

/// A character that is no white space stays when the end is trimmed.
proof fn lemma_trimmed_end_keeps(s: Seq<char>, c: char)
    requires
        !is_white(c),
        s.contains(c),
    ensures
        trimmed_end(s).contains(c),
    decreases s.len(),
{
    if s.len() > 0 && is_white(s.last()) {
        let j = choose|j: int| 0 <= j < s.len() && s[j] == c;
        assert(s.drop_last()[j] == c);
        lemma_trimmed_end_keeps(s.drop_last(), c);
    }
}

/// A line with a colon is no fence.
proof fn lemma_colon_no_fence(line: Seq<char>)
    requires
        line.contains(':'),
    ensures
        !is_fence(line),
{
    lemma_trimmed_keeps(line, ':');
    reveal_strlit("---");
    if is_fence(line) {
        let j = choose|j: int| 0 <= j < trimmed(line).len() && trimmed(line)[j] == ':';
        assert("---"@[j] == ':');
    }
}

/// The lines of a field lie between the fences.
pub proof fn lemma_extent(ls: Seq<Seq<char>>, k: int)
    requires
        ls.len() >= 2,
        is_fence(ls.last()),
        1 <= k < ls.len() - 1,
    ensures
        1 <= extent(ls, k),
        k + extent(ls, k) <= ls.len() - 1,
{
    let ind = crate::text::indent(ls[k]);
    lemma_block_len(ls, k + 1, ind, is_bare(ls[k]));
}

/// Lines between the fences replaced by others that are no fences still make up a
/// frontmatter.
proof fn lemma_spliced_block(ls: Seq<Seq<char>>, eol: Seq<char>, from: int, to: int, new: Seq<Seq<char>>)
    requires
        is_block(ls, eol),
        1 <= from <= to <= ls.len() - 1,
        forall|k: int| 0 <= k < new.len() ==> is_plain(#[trigger] new[k], eol) && !is_fence(new[k]),
    ensures
        is_block(spliced(ls, from, to, new), eol),
{
    let r = spliced(ls, from, to, new);
    assert(r[0] == ls[0]);
    assert(r.last() == ls.last());
    assert forall|k: int| 0 <= k < r.len() implies is_plain(#[trigger] r[k], eol) by {
        if k < from {
            assert(r[k] == ls[k]);
        } else if k < from + new.len() {
            assert(r[k] == new[k - from]);
        } else {
            assert(r[k] == ls[k - from - new.len() + to]);
        }
    }
    assert forall|k: int| 1 <= k < r.len() - 1 implies !is_fence(#[trigger] r[k]) by {
        if k < from {
            assert(r[k] == ls[k]);
        } else if k < from + new.len() {
            assert(r[k] == new[k - from]);
        } else {
            assert(r[k] == ls[k - from - new.len() + to]);
        }
    }
}

/// The line that a field of a frontmatter is set on.
pub open spec fn field_line(ls: Seq<Seq<char>>, key: Seq<char>, formatted: Seq<char>) -> Seq<char> {
    keys_lead(ls, 1) + (key + ": "@ + formatted)
}

/// Whether a key can be looked up: it does not start with white space or as a comment.
pub open spec fn is_key(key: Seq<char>) -> bool {
    key.len() > 0 ==> !is_white(key[0]) && key[0] != '#'
}

/// The line that a field is set on sets its key and is no fence.
proof fn lemma_field_line(ls: Seq<Seq<char>>, key: Seq<char>, formatted: Seq<char>)
    ensures
        !is_fence(field_line(ls, key, formatted)),
        sets_key(field_line(ls, key, formatted), key, keys_lead(ls, 1)),
{
    reveal_strlit(": ");
    reveal_strlit(":");
    let line = field_line(ls, key, formatted);
    let n = keys_lead(ls, 1).len() as int;
    assert(line[n + key.len()] == ':');
    assert(line.contains(':'));
    lemma_colon_no_fence(line);
    let p = keys_lead(ls, 1) + key + ":"@;
    assert(line.subrange(0, p.len() as int) =~= p);
    assert(line[p.len() as int] == ' ');
    assert(starts_word(line, p));
}

/// What the keys are indented by is white space.
proof fn lemma_keys_lead_white(ls: Seq<Seq<char>>, from: int)
    ensures
        forall|i: int| 0 <= i < keys_lead(ls, from).len() ==> is_white(#[trigger] keys_lead(ls, from)[i]),
    decreases ls.len() - from,
{
    if 0 <= from < ls.len() {
        if is_fence(ls[from]) || is_silent(ls[from]) {
            lemma_keys_lead_white(ls, from + 1);
            assert(keys_lead(ls, from) == keys_lead(ls, from + 1));
        } else {
            let q = lemma_trimmed_start_at(ls[from]);
            assert(keys_lead(ls, from) =~= ls[from].take(q));
            assert forall|i: int| 0 <= i < q implies is_white(#[trigger] keys_lead(ls, from)[i]) by {
                assert(keys_lead(ls, from)[i] == ls[from][i]);
            }
        }
    }
}

/// White space before a text without any at its start is what the line is led by.
proof fn lemma_lead_of(w: Seq<char>, rest: Seq<char>)
    requires
        forall|i: int| 0 <= i < w.len() ==> is_white(#[trigger] w[i]),
        rest.len() > 0,
        !is_white(rest[0]),
    ensures
        trimmed_start(w + rest) == rest,
        lead(w + rest) == w,
        indent(w + rest) == indent(w),
    decreases w.len(),
{
    let s = w + rest;
    if w.len() > 0 {
        let v = w.drop_first();
        assert forall|i: int| 0 <= i < v.len() implies is_white(#[trigger] v[i]) by {
            assert(v[i] == w[i + 1]);
        }
        lemma_lead_of(v, rest);
        assert(s[0] == w[0]);
        assert(s.drop_first() =~= v + rest);
    } else {
        assert(s =~= rest);
    }
    assert(lead(s) =~= w);
}

/// Where the first line that says something stands before a position, or not.
proof fn lemma_keys_lead_before(ls: Seq<Seq<char>>, new: Seq<Seq<char>>, from: int, a: int)
    requires
        0 <= from <= a,
        a <= ls.len(),
        a <= new.len(),
        forall|k: int| from <= k < a ==> new[k] == #[trigger] ls[k],
    ensures
        keys_lead(ls, from) == keys_lead(new, from) || (keys_lead(ls, from) == keys_lead(ls, a)
            && keys_lead(new, from) == keys_lead(new, a)),
    decreases a - from,
{
    if from < a {
        assert(new[from] == ls[from]);
        lemma_keys_lead_before(ls, new, from + 1, a);
    }
}

/// Setting a field keeps what the keys are indented by.
proof fn lemma_lead_is_kept(ls: Seq<Seq<char>>, key: Seq<char>, formatted: Seq<char>)
    requires
        ls.len() >= 2,
        is_fence(ls.last()),
        key.len() > 0 ==> !is_white(key[0]),
        is_key(key) || key_line(ls, key, 1) is None,
    ensures
        keys_lead(
            spliced(
                ls,
                field_start(ls, key),
                field_end(ls, key),
                seq![field_line(ls, key, formatted)],
            ),
            1,
        ) == keys_lead(ls, 1),
{
    reveal_strlit(": ");
    let a = field_start(ls, key);
    let b = field_end(ls, key);
    let line = field_line(ls, key, formatted);
    let new = spliced(ls, a, b, seq![line]);
    let w = keys_lead(ls, 1);
    let rest = key + ": "@ + formatted;
    lemma_field_range(ls, key);
    lemma_field_line(ls, key, formatted);
    lemma_keys_lead_white(ls, 1);
    assert(rest[0] == if key.len() > 0 {
        key[0]
    } else {
        ':'
    });
    lemma_lead_of(w, rest);
    lemma_trimmed_keeps_first(rest);
    assert(new[a] == line);
    assert forall|k: int| 1 <= k < a implies new[k] == #[trigger] ls[k] by {}
    lemma_keys_lead_before(ls, new, 1, a);
    assert(is_silent(line) == (rest[0] == '#'));
    if rest[0] != '#' {
        assert(keys_lead(new, a) == w);
    } else {
        assert(keys_lead(new, a) == keys_lead(new, a + 1));
        assert(new[a + 1] == ls[a]);
        assert(keys_lead(ls, a) == keys_lead(ls, a + 1));
        assert(keys_lead(new, a + 1) == keys_lead(new, a + 2));
    }
}

/// A text that starts with no white space still starts so once it is trimmed.
proof fn lemma_trimmed_keeps_first(s: Seq<char>)
    requires
        s.len() > 0,
        !is_white(s[0]),
    ensures
        trimmed_end(s).len() > 0,
        trimmed_end(s)[0] == s[0],
    decreases s.len(),
{
    if is_white(s.last()) {
        assert(s.len() > 1);
        lemma_trimmed_keeps_first(s.drop_last());
    }
}

/// Where the field of a key stands, or where it is added.
pub open spec fn field_start(ls: Seq<Seq<char>>, key: Seq<char>) -> int {
    match key_line(ls, key, 1) {
        Some(k) => k,
        None => ls.len() - 1,
    }
}

/// Where the field of a key ends.
pub open spec fn field_end(ls: Seq<Seq<char>>, key: Seq<char>) -> int {
    match key_line(ls, key, 1) {
        Some(k) => k + extent(ls, k),
        None => ls.len() - 1,
    }
}

/// The field of a key lies between the fences.
proof fn lemma_field_range(ls: Seq<Seq<char>>, key: Seq<char>)
    requires
        ls.len() >= 2,
        is_fence(ls.last()),
    ensures
        1 <= field_start(ls, key) <= field_end(ls, key) <= ls.len() - 1,
{
    lemma_key_line(ls, key, 1);
    match key_line(ls, key, 1) {
        Some(k) => {
            assert(k < ls.len() - 1);
            lemma_extent(ls, k);
        },
        None => {},
    }
}

/// A field that is set is read back: the new frontmatter is the old one with one line
/// in place of the field's lines, all other lines and the body are kept, and the line
/// is found where the key is looked up, if it can be.
pub proof fn law_field_is_set(
    content: Seq<char>,
    key: Seq<char>,
    formatted: Seq<char>,
    shown: Seq<char>,
)
    requires
        field_set(content, key, formatted, shown) is Ok,
        is_plain(front(content).last(), line_ending(content)),
        is_plain(field_line(front(content), key, formatted), line_ending(content)),
    ensures
        ({
            let ls = front(content);
            let a = field_start(ls, key);
            let new = spliced(ls, a, field_end(ls, key), seq![field_line(ls, key, formatted)]);
            let t = field_set(content, key, formatted, shown)->Ok_0;
            &&& parts(t.0) == Some((new, body_of(content)))
            &&& is_key(key) ==> key_line(new, key, 1) == Some(a)
            &&& new[a] == field_line(ls, key, formatted)
        }),
{
    let ls = front(content);
    let line = field_line(ls, key, formatted);
    let a = field_start(ls, key);
    let b = field_end(ls, key);
    let new = spliced(ls, a, b, seq![line]);
    lemma_parts_block(content);
    lemma_field_range(ls, key);
    lemma_field_line(ls, key, formatted);
    lemma_spliced_block(ls, line_ending(content), a, b, seq![line]);
    assert(new == with_field(ls, key, seq![line]));
    law_read_back(new, body_of(content), content);
    assert(new[a] == line);
    if is_key(key) {
        lemma_lead_is_kept(ls, key, formatted);
        lemma_found_again(ls, key, formatted);
    }
}

/// A field that was set is found where it was set.
proof fn lemma_found_again(ls: Seq<Seq<char>>, key: Seq<char>, formatted: Seq<char>)
    requires
        ls.len() >= 2,
        is_fence(ls.last()),
        ({
            let a = field_start(ls, key);
            let new = spliced(ls, a, field_end(ls, key), seq![field_line(ls, key, formatted)]);
            keys_lead(new, 1) == keys_lead(ls, 1)
        }),
    ensures
        ({
            let a = field_start(ls, key);
            let new = spliced(ls, a, field_end(ls, key), seq![field_line(ls, key, formatted)]);
            key_line(new, key, 1) == Some(a)
        }),
{
    let a = field_start(ls, key);
    let line = field_line(ls, key, formatted);
    let new = spliced(ls, a, field_end(ls, key), seq![line]);
    lemma_field_range(ls, key);
    lemma_field_line(ls, key, formatted);
    lemma_key_line(ls, key, 1);
    lemma_key_line(new, key, 1);
    assert(new[a] == line);
    assert forall|k: int| 1 <= k < a implies is_fence(#[trigger] new[k]) || !sets_key(
        new[k],
        key,
        keys_lead(new, 1),
    ) by {
        assert(new[k] == ls[k]);
    }
}

/// A field that is removed is gone from the frontmatter; all other lines and the body
/// are kept.
pub proof fn law_field_is_removed(content: Seq<char>, key: Seq<char>)
    requires
        field_removed(parts(content), content, key) is Ok,
        is_plain(front(content).last(), line_ending(content)),
    ensures
        ({
            let ls = front(content);
            let t = field_removed(parts(content), content, key)->Ok_0;
            parts(t.0) == Some(
                (spliced(ls, field_start(ls, key), field_end(ls, key), seq![]), body_of(content)),
            )
        }),
{
    let ls = front(content);
    let a = field_start(ls, key);
    let b = field_end(ls, key);
    lemma_parts_block(content);
    lemma_field_range(ls, key);
    lemma_spliced_block(ls, line_ending(content), a, b, seq![]);
    law_read_back(spliced(ls, a, b, seq![]), body_of(content), content);
}

/// Lines that stand by themselves bring no carriage return before a line feed.
proof fn lemma_joined_lacks(ls: Seq<Seq<char>>, rest: Seq<char>)
    requires
        ls.len() >= 1,
        forall|k: int| 0 <= k < ls.len() ==> is_plain(#[trigger] ls[k], "\n"@),
        lacks(rest, "\r\n"@),
    ensures
        lacks(joined(ls, "\n"@) + "\n"@ + rest, "\r\n"@),
    decreases ls.len(),
{
    reveal_strlit("\n");
    reveal_strlit("\r\n");
    let x = ls[ls.len() - 1];
    let tail = x + "\n"@ + rest;
    assert(lacks(tail, "\r\n"@)) by {
        lemma_find_at(tail, "\r\n"@, 0);
        lemma_find_at(rest, "\r\n"@, 0);
        if has(tail, "\r\n"@) {
            let j = find_at(tail, "\r\n"@, 0)->0;
            let two = tail.subrange(j, j + 2);
            assert(two[0] == '\r' && two[1] == '\n');
            assert(tail[j] == '\r' && tail[j + 1] == '\n');
            if j + 1 < x.len() {
                assert(x[j + 1] == '\n');
                assert(x.contains('\n'));
            } else if j + 1 == x.len() {
                assert(x.last() == '\r');
            } else if j > x.len() {
                assert(rest.subrange(j - x.len() - 1, j - x.len() + 1) =~= two);
                assert(occurs_at(rest, "\r\n"@, j - x.len() - 1));
            }
        }
    }
    if ls.len() > 1 {
        let init = ls.drop_last();
        assert forall|k: int| 0 <= k < init.len() implies is_plain(#[trigger] init[k], "\n"@) by {
            assert(init[k] == ls[k]);
        }
        lemma_joined_lacks(init, tail);
        assert(joined(ls, "\n"@) + "\n"@ + rest =~= joined(init, "\n"@) + "\n"@ + tail);
    } else {
        assert(joined(ls, "\n"@) =~= x);
    }
}

/// An edit keeps the style of line endings.
pub proof fn law_line_ending_is_kept(ls: Seq<Seq<char>>, content: Seq<char>)
    requires
        parts(content) is Some,
        is_block(ls, line_ending(content)),
    ensures
        line_ending(assembled(ls, body_of(content), content)) == line_ending(content),
{
    reveal_strlit("\n");
    reveal_strlit("\r\n");
    let eol = line_ending(content);
    let t = assembled(ls, body_of(content), content);
    law_read_back(ls, body_of(content), content);
    let head = joined(ls, eol) + eol;
    assert(head_of(t) =~= head);
    lemma_find_at(head, "\r\n"@, 0);
    if eol == "\r\n"@ {
        let j = joined(ls, eol).len() as int;
        assert(head.subrange(j, j + 2) =~= "\r\n"@);
        assert(occurs_at(head, "\r\n"@, j));
    } else {
        let e = Seq::<char>::empty();
        lemma_find_at(e, "\r\n"@, 0);
        lemma_joined_lacks(ls, e);
        assert(head + e =~= head);
    }
}

/// Removing a field that was added undoes it: the note is taken apart into the same
/// frontmatter and body as before, and where the lines of the frontmatter all end alike,
/// its text is the same.
pub proof fn law_remove_undoes_set(
    content: Seq<char>,
    key: Seq<char>,
    formatted: Seq<char>,
    shown: Seq<char>,
)
    requires
        field_set(content, key, formatted, shown) is Ok,
        key_line(front(content), key, 1) is None,
        key.len() > 0 ==> !is_white(key[0]),
        is_plain(front(content).last(), line_ending(content)),
        is_plain(field_line(front(content), key, formatted), line_ending(content)),
    ensures
        ({
            let t = field_set(content, key, formatted, shown)->Ok_0;
            let u = field_removed(parts(t.0), t.0, key);
            &&& u is Ok
            &&& parts(u->Ok_0.0) == Some((front(content), body_of(content)))
            &&& is_even(content) ==> u->Ok_0.0 == content
        }),
{
    let ls = front(content);
    let line = field_line(ls, key, formatted);
    let a = ls.len() - 1;
    law_field_is_set(content, key, formatted, shown);
    lemma_parts_fenced(content);
    let t = field_set(content, key, formatted, shown)->Ok_0.0;
    let new = spliced(ls, a, a, seq![line]);
    assert(front(t) == new);
    assert(new.last() == ls.last());
    lemma_parts_block(content);
    lemma_field_line(ls, key, formatted);
    lemma_lead_is_kept(ls, key, formatted);
    lemma_found_again(ls, key, formatted);
    lemma_spliced_block(ls, line_ending(content), a, a, seq![line]);
    law_line_ending_is_kept(new, content);
    assert(t == assembled(new, body_of(content), content));
    lemma_parts_block(t);
    assert(extent(new, a) == 1) by {
        lemma_extent(new, a);
        assert(new.len() == ls.len() + 1);
    }
    law_field_is_removed(t, key);
    assert(spliced(new, a, a + 1, seq![]) =~= ls);
    if is_even(content) {
        lemma_even(content);
    }
}

// ── Tags ───────────────────────────────────────────────────────────────────

/// How many characters are trimmed from the start of a text.
proof fn lemma_trimmed_start_at(s: Seq<char>) -> (q: int)
    ensures
        0 <= q <= s.len(),
        trimmed_start(s) == s.skip(q),
        forall|k: int| 0 <= k < q ==> is_white(#[trigger] s[k]),
        q < s.len() ==> !is_white(s[q]),
    decreases s.len(),
{
    if s.len() > 0 && is_white(s[0]) {
        let r = s.drop_first();
        let q = lemma_trimmed_start_at(r);
        assert(r.skip(q) =~= s.skip(q + 1));
        assert forall|k: int| 0 <= k < q + 1 implies is_white(#[trigger] s[k]) by {
            if k > 0 {
                assert(s[k] == r[k - 1]);
            }
        }
        q + 1
    } else {
        assert(s.skip(0) =~= s);
        0
    }
}

/// A text trimmed at its end is a start of it.
proof fn lemma_trimmed_end_at(s: Seq<char>)
    ensures
        trimmed_end(s).len() <= s.len(),
        trimmed_end(s) == s.take(trimmed_end(s).len() as int),
    decreases s.len(),
{
    if s.len() > 0 && is_white(s.last()) {
        lemma_trimmed_end_at(s.drop_last());
        assert(trimmed_end(s) =~= s.take(trimmed_end(s).len() as int));
    } else {
        assert(s.take(s.len() as int) =~= s);
    }
}

/// What a new list item starts with is white space, a dash and a blank, and it is
/// indented as far as what goes on with the field.
proof fn lemma_item_prefix(ls: Seq<Seq<char>>, from: int, to: int, key_indent: nat)
    requires
        0 <= from,
        to <= ls.len(),
        forall|k: int|
            from <= k < to ==> continues_field(#[trigger] ls[k], key_indent) || is_silent(ls[k]),
        indent(keys_lead(ls, 1)) == key_indent,
    ensures
        item_prefix(ls, from, to).len() >= 2,
        item_prefix(ls, from, to)[item_prefix(ls, from, to).len() - 2] == '-',
        item_prefix(ls, from, to).last() == ' ',
        forall|k: int|
            0 <= k < item_prefix(ls, from, to).len() - 2 ==> is_white(
                #[trigger] item_prefix(ls, from, to)[k],
            ),
        indent(item_prefix(ls, from, to)) >= key_indent,
    decreases to - from,
{
    reveal_strlit("  - ");
    reveal_strlit("- ");
    reveal_strlit("-");
    let r = item_prefix(ls, from, to);
    let w = keys_lead(ls, 1);
    lemma_keys_lead_white(ls, 1);
    if from < to && is_item(ls[from]) {
        let line = ls[from];
        let q = lemma_trimmed_start_at(line);
        lemma_trimmed_end_at(trimmed_start(line));
        let t = trimmed(line);
        if starts(t, "- "@) {
            assert(t.subrange(0, 2)[0] == '-');
        }
        assert(t[0] == '-');
        assert(line[q] == '-');
        lemma_char_at(line, '-', 0);
        let p = char_at(line, '-', 0)->0;
        assert(p == q) by {
            if p < q {
                assert(is_white(line[p]));
            }
        }
        let head = line.take(p);
        assert forall|k: int| 0 <= k < head.len() implies is_white(#[trigger] head[k]) by {
            assert(head[k] == line[k]);
        }
        assert(line =~= head + line.skip(p));
        lemma_lead_of(head, line.skip(p));
        lemma_lead_of(head, "- "@);
        assert forall|k: int| 0 <= k < p implies is_white(#[trigger] r[k]) by {
            assert(r[k] == line[k]);
        }
    } else if from < to {
        lemma_item_prefix(ls, from + 1, to, key_indent);
    } else {
        let v = w + "  "@;
        reveal_strlit("  ");
        assert forall|k: int| 0 <= k < v.len() implies is_white(#[trigger] v[k]) by {
            if k < w.len() {
                assert(v[k] == w[k]);
            }
        }
        assert(r =~= v + "- "@);
        lemma_lead_of(v, "- "@);
        lemma_indent_longer(w, "  "@);
        assert forall|k: int| 0 <= k < r.len() - 2 implies is_white(#[trigger] r[k]) by {
            assert(r[k] == v[k]);
        }
    }
}

/// More white space is indented further.
proof fn lemma_indent_longer(w: Seq<char>, v: Seq<char>)
    requires
        forall|i: int| 0 <= i < w.len() ==> is_white(#[trigger] w[i]),
    ensures
        indent(w + v) >= indent(w),
    decreases w.len(),
{
    if w.len() > 0 {
        let u = w.drop_first();
        assert forall|i: int| 0 <= i < u.len() implies is_white(#[trigger] u[i]) by {
            assert(u[i] == w[i + 1]);
        }
        lemma_indent_longer(u, v);
        assert((w + v).drop_first() =~= u + v);
    }
}

/// The line of a key is indented as the keys are.
proof fn lemma_key_indent(ls: Seq<Seq<char>>, line: Seq<char>, key: Seq<char>)
    requires
        sets_key(line, key, keys_lead(ls, 1)),
        key.len() > 0,
        !is_white(key[0]),
    ensures
        indent(line) == indent(keys_lead(ls, 1)),
{
    let w = keys_lead(ls, 1);
    let p = if starts_word(line, w + key + ":"@) {
        w + key + ":"@
    } else {
        w + key + " :"@
    };
    let rest = line.skip(w.len() as int);
    lemma_keys_lead_white(ls, 1);
    assert(line.subrange(0, p.len() as int) == p);
    assert forall|i: int| 0 <= i < p.len() implies #[trigger] line[i] == p[i] by {
        assert(line.subrange(0, p.len() as int)[i] == line[i]);
    }
    assert(rest[0] == line[w.len() as int]);
    assert(p[w.len() as int] == key[0]);
    assert(line =~= w + rest) by {
        assert forall|i: int| 0 <= i < w.len() implies line[i] == w[i] by {
            assert(p[i] == w[i]);
        }
    }
    lemma_lead_of(w, rest);
}

/// The lines of the `tags` field go on with it, and the new item does so, too.
proof fn lemma_tags_prefix(ls: Seq<Seq<char>>, tag: Seq<char>)
    requires
        ls.len() >= 2,
        is_fence(ls.last()),
        key_line(ls, "tags"@, 1) is Some,
    ensures
        ({
            let k = field_start(ls, "tags"@);
            let prefix = item_prefix(ls, k + 1, field_end(ls, "tags"@));
            &&& !is_fence(prefix + tag)
            &&& continues_field(prefix + tag, indent(ls[k]))
            &&& !is_comment(prefix + tag)
        }),
{
    reveal_strlit("tags");
    let k = field_start(ls, "tags"@);
    let e = field_end(ls, "tags"@);
    lemma_key_line(ls, "tags"@, 1);
    lemma_field_range(ls, "tags"@);
    lemma_key_indent(ls, ls[k], "tags"@);
    lemma_block_len(ls, k + 1, indent(ls[k]), is_bare(ls[k]));
    lemma_item_prefix(ls, k + 1, e, indent(ls[k]));
    let prefix = item_prefix(ls, k + 1, e);
    lemma_item_no_fence(prefix, tag);
    lemma_item_goes_on(prefix, tag, indent(ls[k]));
    lemma_item_is_no_comment(prefix, tag);
}

/// A list item is no fence.
proof fn lemma_item_no_fence(prefix: Seq<char>, tag: Seq<char>)
    requires
        prefix.len() >= 2,
        prefix[prefix.len() - 2] == '-',
        prefix.last() == ' ',
        forall|k: int| 0 <= k < prefix.len() - 2 ==> is_white(#[trigger] prefix[k]),
    ensures
        !is_fence(prefix + tag),
{
    reveal_strlit("---");
    let line = prefix + tag;
    let p = prefix.len() - 2;
    let q = lemma_trimmed_start_at(line);
    assert(line[p] == '-');
    assert(q == p) by {
        if q < p {
            assert(line[q] == prefix[q]);
        } else if q > p {
            assert(is_white(line[p]));
        }
    }
    lemma_trimmed_end_at(trimmed_start(line));
    if is_fence(line) {
        assert(trimmed(line)[1] == line[p + 1]);
        assert("---"@[1] == '-');
    }
}

/// A tag that is added stands on a line of its own behind the others; all other lines
/// and the body are kept.
pub proof fn law_tag_is_added(content: Seq<char>, tag: Seq<char>)
    requires
        tag_added(parts(content), content, tag) is Ok,
        is_plain(front(content).last(), line_ending(content)),
        is_plain(
            item_prefix(
                front(content),
                field_start(front(content), "tags"@) + 1,
                field_end(front(content), "tags"@),
            ) + tag,
            line_ending(content),
        ),
    ensures
        ({
            let ls = front(content);
            let k = field_start(ls, "tags"@);
            let e = field_end(ls, "tags"@);
            let t = tag_added(parts(content), content, tag)->Ok_0;
            parts(t.0) == Some(
                (spliced(ls, e, e, seq![item_prefix(ls, k + 1, e) + tag]), body_of(content)),
            )
        }),
{
    let ls = front(content);
    let k = field_start(ls, "tags"@);
    let e = field_end(ls, "tags"@);
    let line = item_prefix(ls, k + 1, e) + tag;
    lemma_parts_block(content);
    lemma_field_range(ls, "tags"@);
    lemma_tags_prefix(ls, tag);
    lemma_spliced_block(ls, line_ending(content), e, e, seq![line]);
    law_read_back(spliced(ls, e, e, seq![line]), body_of(content), content);
}

/// A tag that is removed takes its line with it, and no other; the body is kept.
pub proof fn law_tag_is_removed(content: Seq<char>, tag: Seq<char>)
    requires
        tag_removed(parts(content), content, tag) is Ok,
        is_plain(front(content).last(), line_ending(content)),
    ensures
        ({
            let ls = front(content);
            let k = field_start(ls, "tags"@);
            let i = tag_line(ls, tag, k + 1, field_end(ls, "tags"@));
            let t = tag_removed(parts(content), content, tag)->Ok_0;
            &&& i is Some
            &&& tag_text(ls[i->0]) == tag
            &&& parts(t.0) == Some((spliced(ls, i->0, i->0 + 1, seq![]), body_of(content)))
        }),
{
    let ls = front(content);
    let k = field_start(ls, "tags"@);
    let e = field_end(ls, "tags"@);
    lemma_parts_block(content);
    lemma_field_range(ls, "tags"@);
    lemma_tag_line(ls, tag, k + 1, e);
    let i = tag_line(ls, tag, k + 1, e)->0;
    lemma_spliced_block(ls, line_ending(content), i, i + 1, seq![]);
    law_read_back(spliced(ls, i, i + 1, seq![]), body_of(content), content);
}

/// What `tag_line` finds is the first line in its range that holds the tag.
proof fn lemma_tag_line(ls: Seq<Seq<char>>, tag: Seq<char>, from: int, to: int)
    requires
        0 <= from,
    ensures
        match tag_line(ls, tag, from, to) {
            Some(i) => from <= i < to && i < ls.len() && tag_text(ls[i]) == tag && forall|k: int|
                from <= k < i ==> tag_text(#[trigger] ls[k]) != tag,
            None => forall|k: int|
                from <= k < to && k < ls.len() ==> tag_text(#[trigger] ls[k]) != tag,
        },
    decreases to - from,
{
    if from < to && from < ls.len() && tag_text(ls[from]) != tag {
        lemma_tag_line(ls, tag, from + 1, to);
    }
}

/// How far a field goes does not depend on lines before it.
proof fn lemma_block_len_shifted(new: Seq<Seq<char>>, ls: Seq<Seq<char>>, from: int, by: int, key_indent: nat, bare: bool)
    requires
        0 <= from <= ls.len(),
        0 <= by,
        new.len() == ls.len() + by,
        forall|k: int| from <= k < ls.len() ==> new[k + by] == #[trigger] ls[k],
    ensures
        block_len(new, from + by, key_indent, bare) == block_len(ls, from, key_indent, bare),
    decreases ls.len() - from,
{
    if from < ls.len() {
        assert(new[from + by] == ls[from]);
        lemma_block_len_shifted(new, ls, from + 1, by, key_indent, bare);
    }
}

/// A line that goes on with a field, put behind the last one, belongs to it.
proof fn lemma_block_len_longer(new: Seq<Seq<char>>, ls: Seq<Seq<char>>, from: int, e: int, key_indent: nat, bare: bool)
    requires
        0 <= from <= e <= ls.len(),
        e < new.len(),
        forall|k: int| from <= k < e ==> new[k] == #[trigger] ls[k],
        continues_field(new[e], key_indent),
        !(bare && is_comment(new[e])),
        block_len(ls, from, key_indent, bare) == e - from,
    ensures
        block_len(new, from, key_indent, bare) == e - from + block_len(new, e, key_indent, bare),
    decreases e - from,
{
    if from < e {
        assert(new[from] == ls[from]);
        lemma_block_len_longer(new, ls, from + 1, e, key_indent, bare);
    }
}

/// Removing a tag that was added undoes it: the note is taken apart into the same
/// frontmatter and body as before, and where the lines of the frontmatter all end alike,
/// its text is the same.
pub proof fn law_tag_removal_undoes(content: Seq<char>, tag: Seq<char>)
    requires
        tag_added(parts(content), content, tag) is Ok,
        is_plain(front(content).last(), line_ending(content)),
        ({
            let ls = front(content);
            let k = field_start(ls, "tags"@);
            let e = field_end(ls, "tags"@);
            let line = item_prefix(ls, k + 1, e) + tag;
            &&& is_plain(line, line_ending(content))
            &&& tag_text(line) == tag
            &&& tag_line(ls, tag, k + 1, field_end(ls, "tags"@)) is None
        }),
    ensures
        ({
            let t = tag_added(parts(content), content, tag)->Ok_0.0;
            let u = tag_removed(parts(t), t, tag);
            &&& u is Ok
            &&& parts(u->Ok_0.0) == Some((front(content), body_of(content)))
            &&& is_even(content) ==> u->Ok_0.0 == content
        }),
{
    let ls = front(content);
    let k = field_start(ls, "tags"@);
    let e = field_end(ls, "tags"@);
    let line = item_prefix(ls, k + 1, e) + tag;
    let new = spliced(ls, e, e, seq![line]);
    let t = tag_added(parts(content), content, tag)->Ok_0.0;
    law_tag_is_added(content, tag);
    lemma_parts_fenced(content);
    lemma_parts_block(content);
    lemma_field_range(ls, "tags"@);
    lemma_tags_prefix(ls, tag);
    lemma_spliced_block(ls, line_ending(content), e, e, seq![line]);
    law_line_ending_is_kept(new, content);
    assert(front(t) == new);
    lemma_parts_fenced(t);
    lemma_parts_block(t);
    lemma_key_line(ls, "tags"@, 1);
    lemma_key_line(new, "tags"@, 1);
    assert(new[k] == ls[k]);
    lemma_key_says_something(ls);
    assert forall|j: int| 1 <= j < k + 1 implies new[j] == #[trigger] ls[j] by {}
    lemma_keys_lead_up_to(ls, new, 1, k);
    assert forall|j: int| 1 <= j < k implies is_fence(#[trigger] new[j]) || !sets_key(
        new[j],
        "tags"@,
        keys_lead(new, 1),
    ) by {
        assert(new[j] == ls[j]);
    }
    assert(key_line(new, "tags"@, 1) == Some(k));
    let ind = indent(ls[k]);
    let bare = is_bare(ls[k]);
    assert(new[e] == line);
    assert forall|j: int| k + 1 <= j < e implies new[j] == #[trigger] ls[j] by {}
    lemma_block_len_longer(new, ls, k + 1, e, ind, bare);
    assert forall|j: int| e <= j < ls.len() implies new[j + 1] == #[trigger] ls[j] by {}
    lemma_block_len_shifted(new, ls, e, 1, ind, bare);
    lemma_block_ends(ls, k + 1, ind, bare);
    assert(extent(new, k) == extent(ls, k) + 1);
    lemma_tag_line(ls, tag, k + 1, e);
    lemma_tag_line(new, tag, k + 1, e + 1);
    assert forall|j: int| k + 1 <= j < e implies tag_text(#[trigger] new[j]) != tag by {
        assert(new[j] == ls[j]);
    }
    assert(tag_text(new[e]) == tag);
    assert(tag_line(new, tag, k + 1, e + 1) == Some(e));
    law_tag_is_removed(t, tag);
    assert(spliced(new, e, e + 1, seq![]) =~= ls);
    if is_even(content) {
        lemma_even(content);
    }
}

/// A field does not go on behind its end.
proof fn lemma_block_ends(ls: Seq<Seq<char>>, from: int, key_indent: nat, bare: bool)
    requires
        0 <= from <= ls.len(),
    ensures
        block_len(ls, from + block_len(ls, from, key_indent, bare), key_indent, bare) == 0,
    decreases ls.len() - from,
{
    if from < ls.len() && block_len(ls, from, key_indent, bare) > 0 {
        lemma_block_ends(ls, from + 1, key_indent, bare);
    }
}

/// The line of the `tags` field says something.
proof fn lemma_key_says_something(ls: Seq<Seq<char>>)
    requires
        ls.len() >= 2,
        is_fence(ls.last()),
        key_line(ls, "tags"@, 1) is Some,
    ensures
        ({
            let k = field_start(ls, "tags"@);
            !is_fence(ls[k]) && !is_silent(ls[k])
        }),
{
    reveal_strlit("tags");
    let key = "tags"@;
    let k = field_start(ls, key);
    let line = ls[k];
    let w = keys_lead(ls, 1);
    lemma_key_line(ls, key, 1);
    lemma_keys_lead_white(ls, 1);
    let p = if starts_word(line, w + key + ":"@) {
        w + key + ":"@
    } else {
        w + key + " :"@
    };
    let rest = line.skip(w.len() as int);
    assert forall|i: int| 0 <= i < p.len() implies #[trigger] line[i] == p[i] by {
        assert(line.subrange(0, p.len() as int)[i] == line[i]);
    }
    assert(p[w.len() as int] == key[0]);
    assert(rest[0] == line[w.len() as int]);
    assert(line =~= w + rest) by {
        assert forall|i: int| 0 <= i < w.len() implies line[i] == w[i] by {
            assert(p[i] == w[i]);
        }
    }
    lemma_lead_of(w, rest);
    lemma_trimmed_keeps_first(rest);
}

/// What the keys are indented by is told by the lines up to the first that says something.
proof fn lemma_keys_lead_up_to(ls: Seq<Seq<char>>, new: Seq<Seq<char>>, from: int, k: int)
    requires
        0 <= from <= k,
        k < ls.len(),
        k < new.len(),
        forall|j: int| from <= j < k + 1 ==> new[j] == #[trigger] ls[j],
        !is_fence(ls[k]) && !is_silent(ls[k]),
    ensures
        keys_lead(new, from) == keys_lead(ls, from),
    decreases k - from,
{
    assert(new[from] == ls[from]);
    if from < k {
        lemma_keys_lead_up_to(ls, new, from + 1, k);
    }
}

/// A list item starts with a dash once it is trimmed.
proof fn lemma_item_is_no_comment(prefix: Seq<char>, tag: Seq<char>)
    requires
        prefix.len() >= 2,
        prefix[prefix.len() - 2] == '-',
        forall|k: int| 0 <= k < prefix.len() - 2 ==> is_white(#[trigger] prefix[k]),
    ensures
        trimmed(prefix + tag).len() > 0,
        trimmed(prefix + tag)[0] == '-',
        !is_comment(prefix + tag),
        indent(prefix + tag) == indent(prefix),
{
    let line = prefix + tag;
    let p = prefix.len() - 2;
    let w = prefix.take(p);
    assert forall|k: int| 0 <= k < w.len() implies is_white(#[trigger] w[k]) by {
        assert(w[k] == prefix[k]);
    }
    assert(line =~= w + line.skip(p));
    assert(prefix =~= w + prefix.skip(p));
    assert(line.skip(p)[0] == '-');
    lemma_lead_of(w, line.skip(p));
    lemma_lead_of(w, prefix.skip(p));
    lemma_trimmed_keeps_first(line.skip(p));
}

/// A list item that is indented no less than the key goes on with its field.
proof fn lemma_item_goes_on(prefix: Seq<char>, tag: Seq<char>, key_indent: nat)
    requires
        prefix.len() >= 2,
        prefix[prefix.len() - 2] == '-',
        prefix.last() == ' ',
        forall|k: int| 0 <= k < prefix.len() - 2 ==> is_white(#[trigger] prefix[k]),
        indent(prefix) >= key_indent,
    ensures
        continues_field(prefix + tag, key_indent),
{
    lemma_item_no_fence(prefix, tag);
    lemma_item_is_no_comment(prefix, tag);
}

// ── Styles that are not rewritten ──────────────────────────────────────────

/// A field that is written in flow style, or as a scalar of several lines, is never
/// rewritten: setting it fails, whatever the value.
pub proof fn law_style_is_refused(content: Seq<char>, key: Seq<char>, text: Seq<char>, shown: Seq<char>, v: Val)
    requires
        key_line(front(content), key, 1) matches Some(k) && (is_flow_list(front(content)[k])
            || is_block_scalar(front(content)[k])),
    ensures
        field_set(content, key, text, shown) is Err,
        block_set(content, key, text, shown) is Err,
        value_set(content, key, v) is Err,
{
}

/// Tags that are written in flow style are never rewritten.
pub proof fn law_flow_tags_are_refused(content: Seq<char>, tag: Seq<char>)
    requires
        key_line(front(content), "tags"@, 1) matches Some(k) && is_flow_list(front(content)[k]),
    ensures
        tag_added(parts(content), content, tag) is Err,
        tag_removed(parts(content), content, tag) is Err,
{
}

} // verus!
