//! Edits of the frontmatter that only touch fields of one line.
//!
//! They differ from the edits of [`crate::writer`] in what they refuse: a text
//! without frontmatter, and a scalar in place of a list or a mapping. A scalar
//! that would read as a number or a boolean is written bare.

use crate::error::{Failure, VaultdbError};
use crate::text::{cat3, from_chars, to_chars, views};
use crate::writer::{
    add_tag_in_parts, assembled, block_of, edit_view, extent, field_extent, field_removed,
    find_key_line, find_keys_lead, has_scalar, has_special, holds_scalar, holds_special, in_quotes,
    invalid_frontmatter, key_line, keys_lead, lead_text, lemma_fence_from, one_line, opens_block,
    parts_view, reassemble, refuse_style, remove_tag_in_parts, scalar_of_line, scalar_text,
    splice_lines, spliced, split_block, starts_block, style_refusal, tag_added, tag_removed,
    unclosed, unclosed_frontmatter, unset_in_parts, wrap_in_quotes, Change, ChangeDescription, Edit,
    Parts,
};
use vstd::prelude::*;

verus! {

/// The frontmatter, both fences included, and the body of a text that has both
/// fences.
pub open spec fn fenced_parts(content: Seq<char>) -> Option<(Seq<Seq<char>>, Seq<char>)> {
    if opens_block(content) {
        block_of(content)
    } else {
        None
    }
}

/// A scalar as it is written to a note.
pub open spec fn plainly_quoted(value: Seq<char>) -> Seq<char> {
    if has_special(value) {
        in_quotes(value)
    } else {
        value
    }
}

/// The refusal to put a scalar in place of a list or a mapping.
pub open spec fn complex_refusal(key: Seq<char>) -> Failure {
    Failure::InvalidFrontmatter {
        file: seq![],
        reason: "field '"@ + key
            + "' is a complex type (list/map). Use --unset first, then re-add."@,
    }
}

/// Setting a field to a scalar: its lines are replaced by one, or a new one goes to the
/// end of the frontmatter.
pub open spec fn line_set(content: Seq<char>, key: Seq<char>, value: Seq<char>) -> Edit {
    match fenced_parts(content) {
        None => Err(unclosed()),
        Some((ls, body)) => {
            let line = keys_lead(ls, 1) + (key + ": "@ + plainly_quoted(value));
            match key_line(ls, key, 1) {
                Some(k) => match style_refusal(ls, key) {
                    Some(e) => Err(e),
                    None => if extent(ls, k) > 1 && !holds_scalar(ls[k]) {
                        Err(complex_refusal(key))
                    } else {
                        Ok(
                            (
                                assembled(
                                    spliced(ls, k, k + extent(ls, k), seq![line]),
                                    body,
                                    content,
                                ),
                                Change::SetField {
                                    field: key,
                                    old_value: scalar_text(ls[k]),
                                    new_value: value,
                                },
                            ),
                        )
                    },
                },
                None => Ok(
                    (
                        assembled(
                            spliced(ls, ls.len() - 1, ls.len() - 1, seq![line]),
                            body,
                            content,
                        ),
                        Change::SetField { field: key, old_value: seq![], new_value: value },
                    ),
                ),
            }
        },
    }
}

/// Takes apart a text that has both fences.
fn split_frontmatter(content: &Vec<char>) -> (r: Option<Parts>)
    ensures
        parts_view(r) == fenced_parts(content@),
        r is Some ==> r->0.lines@.len() >= 2,
{
    if starts_block(content) {
        proof {
            lemma_fence_from(crate::text::lines_of(content@), 1);
        }
        let r: Option<Parts> = split_block(content);
        assert(r is Some ==> r->0@.0.len() == r->0.lines@.len());
        r
    } else {
        None
    }
}

/// Quotes a scalar that holds a character with a meaning in YAML.
pub fn quote_value(value: &str) -> (r: String)
    ensures
        r@ == plainly_quoted(value@),
{
    let v: Vec<char> = to_chars(value);
    if holds_special(&v) {
        from_chars(&wrap_in_quotes(&v))
    } else {
        value.to_owned()
    }
}

/// Sets a field to a scalar.
pub fn set_field(content: &str, key: &str, value: &str) -> (r: Result<
    (String, ChangeDescription),
    VaultdbError,
>)
    ensures
        edit_view(r) == line_set(content@, key@, value@),
{
    let text: Vec<char> = to_chars(content);
    match split_frontmatter(&text) {
        None => Err(unclosed_frontmatter()),
        Some(p) => {
            let quoted: String = quote_value(value);
            let new: Vec<Vec<char>> = one_line(
                lead_text(&find_keys_lead(&p.lines), cat3(key, ": ", quoted.as_str()).as_str()),
            );
            match find_key_line(&p.lines, key) {
                Some(k) => {
                    assert(views(p.lines@)[k as int] == p.lines@[k as int]@);
                    match refuse_style(&p.lines, key) {
                        Some(e) => {
                            return Err(e);
                        },
                        None => {},
                    }
                    let n: usize = field_extent(&p.lines, k);
                    if n > 1 && !has_scalar(&p.lines[k]) {
                        return Err(
                            invalid_frontmatter(
                                cat3(
                                    "field '",
                                    key,
                                    "' is a complex type (list/map). Use --unset first, then re-add.",
                                ),
                            ),
                        );
                    }
                    let old: String = from_chars(&scalar_of_line(&p.lines[k]));
                    let out: Vec<Vec<char>> = splice_lines(&p.lines, k, k + n, &new);
                    Ok(
                        (
                            reassemble(&out, &p.body, &text),
                            ChangeDescription::SetField {
                                field: key.to_owned(),
                                old_value: old,
                                new_value: value.to_owned(),
                            },
                        ),
                    )
                },
                None => {
                    let at: usize = p.lines.len() - 1;
                    let out: Vec<Vec<char>> = splice_lines(&p.lines, at, at, &new);
                    Ok(
                        (
                            reassemble(&out, &p.body, &text),
                            ChangeDescription::SetField {
                                field: key.to_owned(),
                                old_value: String::new(),
                                new_value: value.to_owned(),
                            },
                        ),
                    )
                },
            }
        },
    }
}

/// Removes a field.
pub fn unset_field(content: &str, key: &str) -> (r: Result<
    (String, ChangeDescription),
    VaultdbError,
>)
    ensures
        edit_view(r) == field_removed(fenced_parts(content@), content@, key@),
{
    let text: Vec<char> = to_chars(content);
    unset_in_parts(split_frontmatter(&text), &text, key)
}

/// Adds a tag to the `tags` list.
pub fn add_tag(content: &str, tag: &str) -> (r: Result<(String, ChangeDescription), VaultdbError>)
    ensures
        edit_view(r) == tag_added(fenced_parts(content@), content@, tag@),
{
    let text: Vec<char> = to_chars(content);
    add_tag_in_parts(split_frontmatter(&text), &text, tag)
}

/// Removes a tag from the `tags` list.
pub fn remove_tag(content: &str, tag: &str) -> (r: Result<
    (String, ChangeDescription),
    VaultdbError,
>)
    ensures
        edit_view(r) == tag_removed(fenced_parts(content@), content@, tag@),
{
    let text: Vec<char> = to_chars(content);
    remove_tag_in_parts(split_frontmatter(&text), &text, tag)
}

} // verus!
