//! Edits of a note's text: fields of the frontmatter, tags and body.
//!
//! Each edit takes the whole text of a note and gives the new text with a
//! description of the change. Lines that an edit does not concern are kept as
//! they stand, and so is the style of line endings.

use crate::error::{Failure, VaultdbError};
use crate::float::{drop_sign, is_float_text, reads_as_float, unsigned};
use crate::record::{val, Val, Value};
use crate::text::{
    after_lines, byte_len, bytes, cat2, cat3, cat4, cat5, char_at, contains, contains_char, copy,
    find_char, from_chars, has, has_at, indent, indent_len, is_text, is_white, is_whitespace, join,
    joined, lemma_char_at, lemma_views_push, lines, lines_of, lowered, number_text, decimal,
    push_all, push_str, same, skip_lines, slice, starts, starts_with, to_ascii_lowercase, to_chars,
    trim, trim_end, trim_start, trimmed, trimmed_end, trimmed_start, views,
};
use crate::yaml::{entry_yaml, render_entry, render_value, value_yaml};
use vstd::prelude::*;

pub mod laws;
pub mod notes;

verus! {

/// A single change made to a note.
#[derive(Debug, PartialEq, Eq)]
pub enum ChangeDescription {
    SetField { field: String, old_value: String, new_value: String },
    UnsetField { field: String, old_value: String },
    AddTag { tag: String },
    RemoveTag { tag: String },
    /// The body was replaced; the lengths are in bytes.
    SetBody { old_len: usize, new_len: usize },
    /// Text was added to the end of the body; the length is in bytes.
    AppendBody { added_len: usize },
    /// The body was emptied; the length is in bytes.
    ClearBody { old_len: usize },
}

/// A change with its texts as sequences of characters.
pub enum Change {
    SetField { field: Seq<char>, old_value: Seq<char>, new_value: Seq<char> },
    UnsetField { field: Seq<char>, old_value: Seq<char> },
    AddTag { tag: Seq<char> },
    RemoveTag { tag: Seq<char> },
    SetBody { old_len: usize, new_len: usize },
    AppendBody { added_len: usize },
    ClearBody { old_len: usize },
}

impl View for ChangeDescription {
    type V = Change;

    open spec fn view(&self) -> Change {
        match *self {
            ChangeDescription::SetField { field, old_value, new_value } => Change::SetField {
                field: field@,
                old_value: old_value@,
                new_value: new_value@,
            },
            ChangeDescription::UnsetField { field, old_value } => Change::UnsetField {
                field: field@,
                old_value: old_value@,
            },
            ChangeDescription::AddTag { tag } => Change::AddTag { tag: tag@ },
            ChangeDescription::RemoveTag { tag } => Change::RemoveTag { tag: tag@ },
            ChangeDescription::SetBody { old_len, new_len } => Change::SetBody { old_len, new_len },
            ChangeDescription::AppendBody { added_len } => Change::AppendBody { added_len },
            ChangeDescription::ClearBody { old_len } => Change::ClearBody { old_len },
        }
    }
}

/// How a change is shown.
pub open spec fn change_text(c: Change) -> Seq<char> {
    match c {
        Change::SetField { field, old_value, new_value } => "set "@ + field + " = "@ + new_value
            + " (was: "@ + old_value + ")"@,
        Change::UnsetField { field, old_value } => "unset "@ + field + " (was: "@ + old_value
            + ")"@,
        Change::AddTag { tag } => "add tag: "@ + tag,
        Change::RemoveTag { tag } => "remove tag: "@ + tag,
        Change::SetBody { old_len, new_len } => "set body ("@ + decimal(old_len as nat) + " → "@
            + decimal(new_len as nat) + " bytes)"@,
        Change::AppendBody { added_len } => "append body (+"@ + decimal(added_len as nat)
            + " bytes)"@,
        Change::ClearBody { old_len } => "clear body (was "@ + decimal(old_len as nat) + " bytes)"@,
    }
}

impl ChangeDescription {
    /// The line to show for the change.
    pub fn to_string(&self) -> (r: String)
        ensures
            r@ == change_text(self@),
    {
        match self {
            ChangeDescription::SetField { field, old_value, new_value } => {
                let mut r: String = cat5(
                    "set ",
                    field.as_str(),
                    " = ",
                    new_value.as_str(),
                    " (was: ",
                );
                r.append(old_value.as_str());
                r.append(")");
                r
            },
            ChangeDescription::UnsetField { field, old_value } => cat5(
                "unset ",
                field.as_str(),
                " (was: ",
                old_value.as_str(),
                ")",
            ),
            ChangeDescription::AddTag { tag } => cat2("add tag: ", tag.as_str()),
            ChangeDescription::RemoveTag { tag } => cat2("remove tag: ", tag.as_str()),
            ChangeDescription::SetBody { old_len, new_len } => cat5(
                "set body (",
                number_text(*old_len as u64).as_str(),
                " → ",
                number_text(*new_len as u64).as_str(),
                " bytes)",
            ),
            ChangeDescription::AppendBody { added_len } => cat3(
                "append body (+",
                number_text(*added_len as u64).as_str(),
                " bytes)",
            ),
            ChangeDescription::ClearBody { old_len } => cat3(
                "clear body (was ",
                number_text(*old_len as u64).as_str(),
                " bytes)",
            ),
        }
    }
}

/// What writing one note came to.
#[derive(Debug, PartialEq, Eq)]
pub struct WriteResult {
    pub path: String,
    pub original_content: String,
    pub modified_content: String,
    pub changes: Vec<ChangeDescription>,
}

/// How a write touches the disk.
#[derive(Debug, Clone, Copy, PartialEq, Eq)]
pub struct WriteOptions {
    /// Force the data to stable storage before the write returns.
    pub fsync: bool,
}

impl Default for WriteOptions {
    fn default() -> (r: Self)
        ensures
            !r.fsync,
    {
        WriteOptions { fsync: false }
    }
}

impl WriteOptions {
    /// Writes that survive a loss of power.
    pub fn durable() -> (r: Self)
        ensures
            r.fsync,
    {
        WriteOptions { fsync: true }
    }
}

/// The result of an edit: the new text and the change, or the failure.
pub type Edit = Result<(Seq<char>, Change), Failure>;

/// The result of an edit, with its texts as sequences of characters.
pub open spec fn edit_view(r: Result<(String, ChangeDescription), VaultdbError>) -> Edit {
    match r {
        Ok((text, change)) => Ok((text@, change@)),
        Err(e) => Err(e@),
    }
}

// ── The parts of a note ────────────────────────────────────────────────────

/// Whether a line opens or closes a frontmatter block.
pub open spec fn is_fence(line: Seq<char>) -> bool {
    trimmed(line) == "---"@
}

/// The first fence at or after a line.
pub open spec fn fence_from(ls: Seq<Seq<char>>, from: int) -> Option<int>
    decreases ls.len() - from,
{
    if from < 0 || from >= ls.len() {
        None
    } else if is_fence(ls[from]) {
        Some(from)
    } else {
        fence_from(ls, from + 1)
    }
}

/// Whether a text starts with a fence.
pub open spec fn opens_block(content: Seq<char>) -> bool {
    lines_of(content).len() > 0 && is_fence(lines_of(content)[0])
}

/// The frontmatter of a text that starts with a fence, both fences included, and
/// the body behind it. There is none where no second fence follows.
pub open spec fn block_of(content: Seq<char>) -> Option<(Seq<Seq<char>>, Seq<char>)> {
    match fence_from(lines_of(content), 1) {
        Some(i) => Some((lines_of(content).take(i + 1), after_lines(content, i + 1))),
        None => None,
    }
}

/// The frontmatter and the body of a note. A text that starts with no fence gets
/// an empty frontmatter and is all body.
pub open spec fn parts(content: Seq<char>) -> Option<(Seq<Seq<char>>, Seq<char>)> {
    if opens_block(content) {
        block_of(content)
    } else {
        Some((seq!["---"@, "---"@], content))
    }
}

/// A note taken apart.
pub struct Parts {
    /// The frontmatter, both fences included.
    pub lines: Vec<Vec<char>>,
    pub body: Vec<char>,
}

impl View for Parts {
    type V = (Seq<Seq<char>>, Seq<char>);

    open spec fn view(&self) -> (Seq<Seq<char>>, Seq<char>) {
        (views(self.lines@), self.body@)
    }
}

/// The view of parts that may be missing.
pub open spec fn parts_view(p: Option<Parts>) -> Option<(Seq<Seq<char>>, Seq<char>)> {
    match p {
        Some(p) => Some(p@),
        None => None,
    }
}

/// A frontmatter holds both its fences, and the last line is the closing one.
pub proof fn lemma_parts_fenced(content: Seq<char>)
    ensures
        match parts(content) {
            Some((ls, body)) => ls.len() >= 2 && is_fence(ls.last()) && is_fence(ls[0]) && forall|
                k: int,
            |
                1 <= k < ls.len() - 1 ==> !is_fence(#[trigger] ls[k]),
            None => true,
        },
{
    reveal_strlit("---");
    if opens_block(content) {
        lemma_fence_from(lines_of(content), 1);
    } else {
        assert(trimmed_start("---"@) == "---"@);
    }
}

/// What `fence_from` finds is the first fence.
pub proof fn lemma_fence_from(ls: Seq<Seq<char>>, from: int)
    requires
        0 <= from,
    ensures
        match fence_from(ls, from) {
            Some(i) => from <= i < ls.len() && is_fence(ls[i]) && forall|k: int|
                from <= k < i ==> !is_fence(#[trigger] ls[k]),
            None => forall|k: int| from <= k < ls.len() ==> !is_fence(#[trigger] ls[k]),
        },
    decreases ls.len() - from,
{
    if from < ls.len() && !is_fence(ls[from]) {
        lemma_fence_from(ls, from + 1);
    }
}

/// Tells whether a line is a fence.
pub fn is_fence_line(line: &Vec<char>) -> (r: bool)
    ensures
        r == is_fence(line@),
{
    is_text(&trim(line), "---")
}

/// A copy of some of the lines.
pub fn copy_lines(v: &Vec<Vec<char>>, from: usize, to: usize) -> (r: Vec<Vec<char>>)
    requires
        from <= to <= v.len(),
    ensures
        views(r@) == views(v@).subrange(from as int, to as int),
{
    let mut out: Vec<Vec<char>> = Vec::new();
    let mut i: usize = from;
    assert(views(out@) =~= views(v@).subrange(from as int, from as int));
    while i < to
        invariant
            from <= i <= to <= v.len(),
            views(out@) == views(v@).subrange(from as int, i as int),
        decreases to - i,
    {
        let c: Vec<char> = copy(&v[i]);
        proof {
            lemma_views_push(out@, c);
        }
        out.push(c);
        i += 1;
        assert(views(out@) =~= views(v@).subrange(from as int, i as int));
    }
    out
}

/// Takes apart a text that starts with a fence.
pub fn split_block(content: &Vec<char>) -> (r: Option<Parts>)
    requires
        opens_block(content@),
    ensures
        parts_view(r) == block_of(content@),
{
    let all: Vec<Vec<char>> = lines(content);
    let mut i: usize = 1;
    while i < all.len()
        invariant
            1 <= i,
            views(all@) == lines_of(content@),
            fence_from(lines_of(content@), 1) == fence_from(lines_of(content@), i as int),
        decreases all.len() - i,
    {
        assert(views(all@)[i as int] == all@[i as int]@);
        if is_fence_line(&all[i]) {
            let ls: Vec<Vec<char>> = copy_lines(&all, 0, i + 1);
            let body: Vec<char> = skip_lines(content, i + 1);
            assert(views(all@).subrange(0, i + 1) =~= lines_of(content@).take(i + 1));
            return Some(Parts { lines: ls, body });
        }
        i += 1;
    }
    None
}

/// Tells whether a text starts with a fence.
pub fn starts_block(content: &Vec<char>) -> (r: bool)
    ensures
        r == opens_block(content@),
{
    let all: Vec<Vec<char>> = lines(content);
    assert(all.len() > 0 ==> views(all@)[0] == all@[0]@);
    all.len() > 0 && is_fence_line(&all[0])
}

/// Takes a note apart.
pub fn split_frontmatter(content: &Vec<char>) -> (r: Option<Parts>)
    ensures
        parts_view(r) == parts(content@),
{
    if starts_block(content) {
        split_block(content)
    } else {
        let mut ls: Vec<Vec<char>> = Vec::new();
        ls.push(to_chars("---"));
        ls.push(to_chars("---"));
        assert(views(ls@) =~= seq!["---"@, "---"@]);
        Some(Parts { lines: ls, body: copy(content) })
    }
}

// ── Fields ─────────────────────────────────────────────────────────────────

/// Whether a text starts with a pattern that ends there or before a blank.
pub open spec fn starts_word(t: Seq<char>, p: Seq<char>) -> bool {
    starts(t, p) && (t.len() == p.len() || t[p.len() as int] == ' ' || t[p.len() as int] == '\t')
}

/// The white space at the start of a line.
pub open spec fn lead(line: Seq<char>) -> Seq<char> {
    line.take(line.len() - trimmed_start(line).len())
}

/// Whether a line says nothing by itself: it is empty, or a comment.
pub open spec fn is_silent(line: Seq<char>) -> bool {
    trimmed(line).len() == 0 || trimmed(line)[0] == '#'
}

/// What the keys of a frontmatter are indented by: the white space before the first line
/// at or after `from` that says something. Fences say nothing.
pub open spec fn keys_lead(ls: Seq<Seq<char>>, from: int) -> Seq<char>
    decreases ls.len() - from,
{
    if from < 0 || from >= ls.len() {
        seq![]
    } else if is_fence(ls[from]) || is_silent(ls[from]) {
        keys_lead(ls, from + 1)
    } else {
        lead(ls[from])
    }
}

/// Whether a line sets a key of the frontmatter: `key:` or `key :`, behind what all keys
/// are indented by. A key that is indented further belongs to the field above it.
pub open spec fn sets_key(line: Seq<char>, key: Seq<char>, lead: Seq<char>) -> bool {
    starts_word(line, lead + key + ":"@) || starts_word(line, lead + key + " :"@)
}

/// The first line at or after `from` that sets a key. Fences set none.
pub open spec fn key_line(ls: Seq<Seq<char>>, key: Seq<char>, from: int) -> Option<int>
    decreases ls.len() - from,
{
    if from < 0 || from >= ls.len() {
        None
    } else if !is_fence(ls[from]) && sets_key(ls[from], key, keys_lead(ls, 1)) {
        Some(from)
    } else {
        key_line(ls, key, from + 1)
    }
}

/// What `key_line` finds is the first line that sets the key.
pub proof fn lemma_key_line(ls: Seq<Seq<char>>, key: Seq<char>, from: int)
    requires
        0 <= from,
    ensures
        match key_line(ls, key, from) {
            Some(i) => from <= i < ls.len() && !is_fence(ls[i]) && sets_key(
                ls[i],
                key,
                keys_lead(ls, 1),
            ) && forall|k: int|
                from <= k < i ==> is_fence(#[trigger] ls[k]) || !sets_key(
                    ls[k],
                    key,
                    keys_lead(ls, 1),
                ),
            None => forall|k: int|
                from <= k < ls.len() ==> is_fence(#[trigger] ls[k]) || !sets_key(
                    ls[k],
                    key,
                    keys_lead(ls, 1),
                ),
        },
    decreases ls.len() - from,
{
    if from < ls.len() && (is_fence(ls[from]) || !sets_key(ls[from], key, keys_lead(ls, 1))) {
        lemma_key_line(ls, key, from + 1);
    }
}

/// What stands behind the first colon of a line, without the blanks around it.
pub open spec fn value_part(line: Seq<char>) -> Option<Seq<char>> {
    match char_at(line, ':', 0) {
        Some(p) => Some(trimmed(line.skip(p + 1))),
        None => None,
    }
}

/// Whether a line goes on with the field of a key indented by `key_indent`: an
/// indented line, or a list item at the indentation of the key.
pub open spec fn continues_field(line: Seq<char>, key_indent: nat) -> bool {
    let t = trimmed(line);
    &&& t.len() > 0
    &&& !is_fence(line)
    &&& indent(line) > key_indent || (indent(line) == key_indent && t[0] == '-')
}

/// Whether a line is a comment.
pub open spec fn is_comment(line: Seq<char>) -> bool {
    trimmed(line).len() > 0 && trimmed(line)[0] == '#'
}

/// How many lines from `from` on go on with the field. Lines that say nothing belong to
/// it where it goes on behind them; a comment ends a field whose value is a `bare` scalar.
pub open spec fn block_len(ls: Seq<Seq<char>>, from: int, key_indent: nat, bare: bool) -> nat
    decreases ls.len() - from,
{
    if from < 0 || from >= ls.len() || (bare && is_comment(ls[from])) {
        0
    } else if continues_field(ls[from], key_indent) {
        1 + block_len(ls, from + 1, key_indent, bare)
    } else if is_silent(ls[from]) && block_len(ls, from + 1, key_indent, bare) > 0 {
        1 + block_len(ls, from + 1, key_indent, bare)
    } else {
        0
    }
}

/// Whether the value on a line is a scalar without quotes, a tag or an anchor.
pub open spec fn is_bare(line: Seq<char>) -> bool {
    let v = scalar_text(line);
    v.len() > 0 && !("|>[{\"'&!#"@.contains(v[0]))
}

/// How many lines the field set on line `k` takes: that of its key, and those that go on
/// with it.
pub open spec fn extent(ls: Seq<Seq<char>>, k: int) -> nat {
    1 + block_len(ls, k + 1, indent(ls[k]), is_bare(ls[k]))
}

/// A field ends with the lines of the frontmatter, before the closing fence.
pub proof fn lemma_block_len(ls: Seq<Seq<char>>, from: int, key_indent: nat, bare: bool)
    requires
        0 <= from <= ls.len(),
    ensures
        from + block_len(ls, from, key_indent, bare) <= ls.len(),
        forall|k: int|
            from <= k < from + block_len(ls, from, key_indent, bare) ==> continues_field(
                #[trigger] ls[k],
                key_indent,
            ) || is_silent(ls[k]),
        block_len(ls, from, key_indent, bare) > 0 ==> continues_field(
            ls[from + block_len(ls, from, key_indent, bare) - 1],
            key_indent,
        ),
    decreases ls.len() - from,
{
    if from < ls.len() {
        lemma_block_len(ls, from + 1, key_indent, bare);
    }
}

/// Whether a line holds a list in brackets.
pub open spec fn is_flow_list(line: Seq<char>) -> bool {
    match value_part(line) {
        Some(v) => v.len() > 0 && v[0] == '[' && v.last() == ']',
        None => false,
    }
}

/// A text without the signs and digits at its start.
pub open spec fn without_marks(s: Seq<char>) -> Seq<char>
    decreases s.len(),
{
    if s.len() > 0 && (s[0] == '+' || s[0] == '-' || '0' <= s[0] <= '9') {
        without_marks(s.drop_first())
    } else {
        s
    }
}

/// Whether a value stands for a scalar on the lines below: `|` or `>`, then signs and
/// digits, and perhaps a comment.
pub open spec fn is_block_header(v: Seq<char>) -> bool {
    &&& v.len() > 0
    &&& v[0] == '|' || v[0] == '>'
    &&& ({
        let rest = without_marks(v.drop_first());
        rest.len() == 0 || (is_white(rest[0]) && is_comment(rest))
    })
}

/// Whether a line starts a scalar of several lines.
pub open spec fn is_block_scalar(line: Seq<char>) -> bool {
    match value_part(line) {
        Some(v) => is_block_header(v),
        None => false,
    }
}

/// Whether the value on the line of a key is a scalar, not a list or a mapping.
pub open spec fn holds_scalar(line: Seq<char>) -> bool {
    let v = scalar_text(line);
    v.len() > 0 && v[0] != '[' && v[0] != '{'
}

/// The text behind the colon of a line, or nothing.
pub open spec fn scalar_text(line: Seq<char>) -> Seq<char> {
    match value_part(line) {
        Some(v) => v,
        None => seq![],
    }
}

/// Tells whether a text starts with a pattern that ends there or before a blank.
fn has_word(t: &Vec<char>, p: &Vec<char>) -> (r: bool)
    ensures
        r == starts_word(t@, p@),
{
    has_at(t, p, 0) && (t.len() == p.len() || t[p.len()] == ' ' || t[p.len()] == '\t')
}

/// Finds what the keys of a frontmatter are indented by.
pub fn find_keys_lead(ls: &Vec<Vec<char>>) -> (r: Vec<char>)
    ensures
        r@ == keys_lead(views(ls@), 1),
{
    let mut i: usize = 1;
    while i < ls.len()
        invariant
            1 <= i,
            keys_lead(views(ls@), 1) == keys_lead(views(ls@), i as int),
        decreases ls.len() - i,
    {
        assert(views(ls@)[i as int] == ls@[i as int]@);
        if !is_fence_line(&ls[i]) && !says_nothing(&ls[i]) {
            let line: &Vec<char> = &ls[i];
            let rest: Vec<char> = trim_start(line);
            proof {
                lemma_trimmed_start_len(line@);
            }
            let r: Vec<char> = slice(line, 0, line.len() - rest.len());
            assert(r@ =~= lead(line@));
            return r;
        }
        i += 1;
    }
    Vec::new()
}

/// What is left of a text without white space is no longer than it.
pub proof fn lemma_trimmed_start_len(s: Seq<char>)
    ensures
        trimmed_start(s).len() <= s.len(),
    decreases s.len(),
{
    if s.len() > 0 && is_white(s[0]) {
        lemma_trimmed_start_len(s.drop_first());
    }
}

/// Finds the line that sets a key.
pub fn find_key_line(ls: &Vec<Vec<char>>, key: &str) -> (r: Option<usize>)
    ensures
        match r {
            Some(i) => key_line(views(ls@), key@, 1) == Some(i as int) && 1 <= i < ls.len(),
            None => key_line(views(ls@), key@, 1) is None,
        },
{
    let lead: Vec<char> = find_keys_lead(ls);
    let tight: Vec<char> = lead_text(&lead, cat2(key, ":").as_str());
    let spaced: Vec<char> = lead_text(&lead, cat2(key, " :").as_str());
    assert(tight@ =~= lead@ + key@ + ":"@);
    assert(spaced@ =~= lead@ + key@ + " :"@);
    let mut i: usize = 1;
    while i < ls.len()
        invariant
            1 <= i,
            tight@ == keys_lead(views(ls@), 1) + key@ + ":"@,
            spaced@ == keys_lead(views(ls@), 1) + key@ + " :"@,
            key_line(views(ls@), key@, 1) == key_line(views(ls@), key@, i as int),
        decreases ls.len() - i,
    {
        assert(views(ls@)[i as int] == ls@[i as int]@);
        if !is_fence_line(&ls[i]) && (has_word(&ls[i], &tight) || has_word(&ls[i], &spaced)) {
            return Some(i);
        }
        i += 1;
    }
    None
}

/// Reads what stands behind the first colon of a line.
pub fn value_of_line(line: &Vec<char>) -> (r: Option<Vec<char>>)
    ensures
        match r {
            Some(v) => value_part(line@) == Some(v@),
            None => value_part(line@) is None,
        },
{
    match find_char(line, ':', 0) {
        Some(p) => {
            let tail: Vec<char> = slice(line, p + 1, line.len());
            assert(tail@ =~= line@.skip(p + 1));
            Some(trim(&tail))
        },
        None => None,
    }
}

/// Reads the text behind the colon of a line.
pub fn scalar_of_line(line: &Vec<char>) -> (r: Vec<char>)
    ensures
        r@ == scalar_text(line@),
{
    match value_of_line(line) {
        Some(v) => v,
        None => Vec::new(),
    }
}

/// Tells whether a line goes on with a field.
fn goes_on(line: &Vec<char>, key_indent: u128) -> (r: bool)
    ensures
        r == continues_field(line@, key_indent as nat),
{
    let t: Vec<char> = trim(line);
    let n: u128 = indent_len(line);
    t.len() > 0 && !is_fence_line(line) && (n > key_indent || (n == key_indent && t[0] == '-'))
}

/// Tells whether a line says nothing by itself.
fn says_nothing(line: &Vec<char>) -> (r: bool)
    ensures
        r == is_silent(line@),
{
    let t: Vec<char> = trim(line);
    t.len() == 0 || t[0] == '#'
}

/// Tells whether the value on a line is a scalar without quotes, a tag or an anchor.
fn has_bare_value(line: &Vec<char>) -> (r: bool)
    ensures
        r == is_bare(line@),
{
    let v: Vec<char> = scalar_of_line(line);
    v.len() > 0 && !contains_char(&to_chars("|>[{\"'&!#"), v[0])
}

/// Tells whether a line is a comment.
fn is_comment_line(line: &Vec<char>) -> (r: bool)
    ensures
        r == is_comment(line@),
{
    let t: Vec<char> = trim(line);
    t.len() > 0 && t[0] == '#'
}

/// Counts the lines of the field set on line `k`.
pub fn field_extent(ls: &Vec<Vec<char>>, k: usize) -> (r: usize)
    requires
        k < ls.len(),
    ensures
        r == extent(views(ls@), k as int),
        1 <= r <= ls.len() - k,
{
    let ghost vs = views(ls@);
    assert(vs[k as int] == ls@[k as int]@);
    let key_indent: u128 = indent_len(&ls[k]);
    let bare: bool = has_bare_value(&ls[k]);
    let mut n: usize = 1;
    let mut silent: usize = 0;
    while k + n + silent < ls.len()
        invariant
            vs == views(ls@),
            k < ls.len(),
            1 <= n,
            n + silent <= ls.len() - k,
            key_indent == indent(vs[k as int]),
            bare == is_bare(vs[k as int]),
            block_len(vs, k + n + silent, key_indent as nat, bare) > 0 ==> extent(vs, k as int) == n
                + silent + block_len(vs, k + n + silent, key_indent as nat, bare),
            block_len(vs, k + n + silent, key_indent as nat, bare) == 0 ==> extent(vs, k as int)
                == n,
        decreases ls.len() - k - n - silent,
    {
        assert(vs[k + n + silent] == ls@[k + n + silent]@);
        if bare && is_comment_line(&ls[k + n + silent]) {
            return n;
        }
        if goes_on(&ls[k + n + silent], key_indent) {
            n = n + silent + 1;
            silent = 0;
        } else if says_nothing(&ls[k + n + silent]) {
            silent += 1;
        } else {
            return n;
        }
    }
    n
}

/// Tells whether a line holds a list in brackets.
pub fn is_flow_style_list(line: &Vec<char>) -> (r: bool)
    ensures
        r == is_flow_list(line@),
{
    match value_of_line(line) {
        Some(v) => v.len() > 0 && v[0] == '[' && v[v.len() - 1] == ']',
        None => false,
    }
}

/// Tells whether a line starts a scalar of several lines.
pub fn is_multiline_scalar(line: &Vec<char>) -> (r: bool)
    ensures
        r == is_block_scalar(line@),
{
    match value_of_line(line) {
        Some(v) => {
            if v.len() == 0 || !(v[0] == '|' || v[0] == '>') {
                return false;
            }
            let mut i: usize = 1;
            assert(v@.drop_first() =~= v@.skip(1));
            while i < v.len() && (v[i] == '+' || v[i] == '-' || ('0' <= v[i] && v[i] <= '9'))
                invariant
                    1 <= i <= v.len(),
                    without_marks(v@.drop_first()) == without_marks(v@.skip(i as int)),
                decreases v.len() - i,
            {
                assert(v@.skip(i as int).drop_first() =~= v@.skip(i + 1));
                i += 1;
            }
            let rest: Vec<char> = slice(&v, i, v.len());
            assert(rest@ =~= v@.skip(i as int));
            rest.len() == 0 || (is_whitespace(rest[0]) && is_comment_line(&rest))
        },
        None => false,
    }
}

/// Tells whether the value on the line of a key is a scalar.
pub fn has_scalar(line: &Vec<char>) -> (r: bool)
    ensures
        r == holds_scalar(line@),
{
    let v: Vec<char> = scalar_of_line(line);
    v.len() > 0 && v[0] != '[' && v[0] != '{'
}

// ── Putting a note together ────────────────────────────────────────────────

/// The body of a note.
pub open spec fn body_of(content: Seq<char>) -> Seq<char> {
    match parts(content) {
        Some((_, body)) => body,
        None => seq![],
    }
}

/// The text of a note before its body. A text that starts with no fence has no such
/// part, and stands for it.
pub open spec fn head_of(content: Seq<char>) -> Seq<char> {
    if opens_block(content) {
        content.take(content.len() - body_of(content).len())
    } else {
        content
    }
}

/// The line ending of a note: carriage return and line feed where its frontmatter holds
/// them.
pub open spec fn line_ending(content: Seq<char>) -> Seq<char> {
    if has(head_of(content), "\r\n"@) {
        "\r\n"@
    } else {
        "\n"@
    }
}

/// A note put together from its frontmatter and body, with the line endings of
/// the text it comes from.
pub open spec fn assembled(
    ls: Seq<Seq<char>>,
    body: Seq<char>,
    original: Seq<char>,
) -> Seq<char> {
    joined(ls, line_ending(original)) + line_ending(original) + body
}

/// What is left after some lines is the end of a text.
pub proof fn lemma_after_lines_end(s: Seq<char>, k: int)
    ensures
        after_lines(s, k).len() <= s.len(),
        s == s.take(s.len() - after_lines(s, k).len()) + after_lines(s, k),
    decreases k,
{
    lemma_char_at(s, '\n', 0);
    let rest = after_lines(s, k);
    if k > 0 {
        match char_at(s, '\n', 0) {
            None => {},
            Some(i) => {
                let t = s.skip(i + 1);
                lemma_after_lines_end(t, k - 1);
                assert(s =~= s.take(i + 1) + t);
                assert(s.take(s.len() - rest.len()) =~= s.take(i + 1) + t.take(t.len() - rest.len()));
            },
        }
    }
    assert(s =~= s.take(s.len() - rest.len()) + rest);
}

/// The body is the end of a note.
pub proof fn lemma_body_is_end(content: Seq<char>)
    requires
        opens_block(content),
    ensures
        body_of(content).len() <= content.len(),
        parts(content) is Some ==> content == head_of(content) + body_of(content),
{
    match fence_from(lines_of(content), 1) {
        Some(i) => {
            lemma_after_lines_end(content, i + 1);
        },
        None => {},
    }
}

/// Takes the body off a note.
fn take_head(content: &Vec<char>, body: &Vec<char>) -> (r: Vec<char>)
    requires
        body@ == body_of(content@),
    ensures
        r@ == head_of(content@),
{
    if starts_block(content) {
        proof {
            lemma_body_is_end(content@);
        }
        let r: Vec<char> = slice(content, 0, content.len() - body.len());
        assert(r@ =~= head_of(content@));
        r
    } else {
        copy(content)
    }
}

/// Finds the line ending of a note.
fn find_line_ending(content: &Vec<char>) -> (r: &'static str)
    ensures
        r@ == line_ending(content@),
{
    let body: Vec<char> = match split_frontmatter(content) {
        Some(p) => p.body,
        None => Vec::new(),
    };
    assert(body@ =~= body_of(content@));
    if contains(&take_head(content, &body), "\r\n") {
        "\r\n"
    } else {
        "\n"
    }
}

/// Puts a note together.
pub fn reassemble(ls: &Vec<Vec<char>>, body: &Vec<char>, original: &Vec<char>) -> (r: String)
    ensures
        r@ == assembled(views(ls@), body@, original@),
{
    let eol: &str = find_line_ending(original);
    let mut out: Vec<char> = join(ls, eol);
    push_str(&mut out, eol);
    push_all(&mut out, body);
    from_chars(&out)
}

/// Lines with those from `from` to `to` replaced by others.
pub open spec fn spliced<A>(ls: Seq<A>, from: int, to: int, new: Seq<A>) -> Seq<A> {
    ls.take(from) + new + ls.skip(to)
}

/// Appends lines to lines.
fn append_lines(out: &mut Vec<Vec<char>>, more: &Vec<Vec<char>>, from: usize, to: usize)
    requires
        from <= to <= more.len(),
    ensures
        views(final(out)@) == views(old(out)@) + views(more@).subrange(from as int, to as int),
{
    let ghost before = views(out@);
    let mut i: usize = from;
    assert(views(more@).subrange(from as int, from as int) =~= seq![]);
    assert(views(out@) =~= before + views(more@).subrange(from as int, from as int));
    while i < to
        invariant
            from <= i <= to <= more.len(),
            views(out@) == before + views(more@).subrange(from as int, i as int),
        decreases to - i,
    {
        let c: Vec<char> = copy(&more[i]);
        proof {
            lemma_views_push(out@, c);
        }
        out.push(c);
        i += 1;
        assert(views(out@) =~= before + views(more@).subrange(from as int, i as int));
    }
}

/// Replaces the lines from `from` to `to` by others.
pub fn splice_lines(
    ls: &Vec<Vec<char>>,
    from: usize,
    to: usize,
    new: &Vec<Vec<char>>,
) -> (r: Vec<Vec<char>>)
    requires
        from <= to <= ls.len(),
    ensures
        views(r@) == spliced(views(ls@), from as int, to as int, views(new@)),
{
    let mut out: Vec<Vec<char>> = copy_lines(ls, 0, from);
    append_lines(&mut out, new, 0, new.len());
    append_lines(&mut out, ls, to, ls.len());
    assert(views(out@) =~= spliced(views(ls@), from as int, to as int, views(new@)));
    out
}

/// Lines behind what the keys of a frontmatter are indented by.
pub open spec fn all_led(ls: Seq<Seq<char>>, lead: Seq<char>) -> Seq<Seq<char>> {
    Seq::new(ls.len(), |i: int| lead + ls[i])
}

/// Puts a text behind an indentation.
pub fn lead_text(lead: &Vec<char>, text: &str) -> (r: Vec<char>)
    ensures
        r@ == lead@ + text@,
{
    let mut out: Vec<char> = copy(lead);
    push_str(&mut out, text);
    out
}

/// Puts lines behind an indentation.
fn lead_lines(lead: &Vec<char>, ls: &Vec<Vec<char>>) -> (r: Vec<Vec<char>>)
    ensures
        views(r@) == all_led(views(ls@), lead@),
{
    let ghost all = all_led(views(ls@), lead@);
    let mut out: Vec<Vec<char>> = Vec::new();
    let mut i: usize = 0;
    assert(views(out@) =~= all.take(0));
    while i < ls.len()
        invariant
            all == all_led(views(ls@), lead@),
            i <= ls.len(),
            views(out@) == all.take(i as int),
        decreases ls.len() - i,
    {
        let mut line: Vec<char> = copy(lead);
        push_all(&mut line, &ls[i]);
        proof {
            lemma_views_push(out@, line);
            assert(line@ == all[i as int]);
            assert(views(out@).push(line@) =~= all.take(i + 1));
        }
        out.push(line);
        i += 1;
    }
    assert(all.take(i as int) =~= all);
    out
}

/// A list of one line.
pub fn one_line(line: Vec<char>) -> (r: Vec<Vec<char>>)
    ensures
        views(r@) == seq![line@],
{
    let mut v: Vec<Vec<char>> = Vec::new();
    v.push(line);
    assert(views(v@) =~= seq![line@]);
    v
}

// ── Quoting ────────────────────────────────────────────────────────────────

/// Whether a character has a meaning of its own in YAML.
pub open spec fn is_special(c: char) -> bool {
    ||| c == ':'
    ||| c == '#'
    ||| c == '['
    ||| c == ']'
    ||| c == '{'
    ||| c == '}'
    ||| c == '\''
    ||| c == '"'
    ||| c == '&'
    ||| c == '*'
    ||| c == '!'
    ||| c == '|'
    ||| c == '>'
    ||| c == '%'
    ||| c == '@'
}

/// Whether a character cannot stand in a YAML text as it is, or ends a line of it.
pub open spec fn is_control(c: char) -> bool {
    ||| c < ' ' && c != '\t'
    ||| '\u{7f}' <= c <= '\u{9f}'
    ||| c == '\u{2028}' || c == '\u{2029}'
    ||| c == '\u{feff}' || c == '\u{fffe}' || c == '\u{ffff}'
}

/// Whether a text holds a character that cannot stand in a YAML text as it is.
pub open spec fn has_control(value: Seq<char>) -> bool {
    exists|i: int| 0 <= i < value.len() && is_control(#[trigger] value[i])
}

/// Whether a scalar cannot be written bare: it holds a special character, or
/// starts or ends in a way that YAML reads otherwise.
pub open spec fn has_special(value: Seq<char>) -> bool {
    ||| exists|i: int| 0 <= i < value.len() && is_special(#[trigger] value[i])
    ||| has_control(value)
    ||| value.len() > 0 && (value[0] == ' ' || value[0] == '\t' || value[0] == '-' || value[0] == '?'
        || value[0] == ',' || value[0] == '`')
    ||| value.len() > 0 && (value.last() == ' ' || value.last() == '\t')
}

/// Whether a scalar is written like a number of YAML that is no decimal one.
pub open spec fn is_other_number(value: Seq<char>) -> bool {
    let u = unsigned(value);
    ||| starts(u, "0x"@) || starts(u, "0o"@) || starts(u, "0b"@)
    ||| lowered(u) == ".inf"@ || lowered(u) == ".nan"@
}

/// Whether a scalar written bare would read as a boolean, a null or a number.
pub open spec fn is_ambiguous(value: Seq<char>) -> bool {
    let l = lowered(value);
    ||| value.len() == 0
    ||| l == "true"@ || l == "false"@ || l == "yes"@ || l == "no"@
    ||| l == "on"@ || l == "off"@ || l == "null"@ || l == "~"@
    ||| is_float_text(value) || is_other_number(value)
}

/// A hexadecimal digit.
pub open spec fn hex_digit(d: int) -> char {
    "0123456789abcdef"@[d]
}

/// A character as it stands between double quotes.
pub open spec fn escape(c: char) -> Seq<char> {
    if c == '"' || c == '\\' {
        seq!['\\', c]
    } else if is_control(c) {
        let n = c as int;
        seq![
            '\\',
            'u',
            hex_digit(n / 4096),
            hex_digit(n / 256 % 16),
            hex_digit(n / 16 % 16),
            hex_digit(n % 16),
        ]
    } else {
        seq![c]
    }
}

/// A text as it stands between double quotes.
pub open spec fn escaped(s: Seq<char>) -> Seq<char>
    decreases s.len(),
{
    if s.len() == 0 {
        seq![]
    } else {
        escaped(s.drop_last()) + escape(s.last())
    }
}

/// A scalar in quotes: single ones, or double ones where it holds a single one or
/// something that must be escaped.
pub open spec fn in_quotes(value: Seq<char>) -> Seq<char> {
    if value.contains('\'') || has_control(value) {
        seq!['"'] + escaped(value) + seq!['"']
    } else {
        seq!['\''] + value + seq!['\'']
    }
}

/// A scalar as it is written to a note.
pub open spec fn quoted(value: Seq<char>) -> Seq<char> {
    if has_special(value) || is_ambiguous(value) {
        in_quotes(value)
    } else {
        value
    }
}

/// Tells whether a character cannot stand in a YAML text as it is.
fn needs_escape(c: char) -> (r: bool)
    ensures
        r == is_control(c),
{
    (c < ' ' && c != '\t') || ('\u{7f}' <= c && c <= '\u{9f}') || c == '\u{2028}' || c == '\u{2029}'
        || c == '\u{feff}' || c == '\u{fffe}' || c == '\u{ffff}'
}

/// Tells whether a text holds a character that cannot stand in a YAML text as it is.
fn holds_control(v: &Vec<char>) -> (r: bool)
    ensures
        r == has_control(v@),
{
    let mut i: usize = 0;
    while i < v.len()
        invariant
            i <= v.len(),
            forall|k: int| 0 <= k < i ==> !is_control(#[trigger] v@[k]),
        decreases v.len() - i,
    {
        if needs_escape(v[i]) {
            assert(is_control(v@[i as int]));
            return true;
        }
        i += 1;
    }
    false
}

/// Tells whether a scalar cannot be written bare.
pub fn holds_special(v: &Vec<char>) -> (r: bool)
    ensures
        r == has_special(v@),
{
    let mut i: usize = 0;
    while i < v.len()
        invariant
            i <= v.len(),
            forall|k: int| 0 <= k < i ==> !is_special(#[trigger] v@[k]),
        decreases v.len() - i,
    {
        let c: char = v[i];
        if c == ':' || c == '#' || c == '[' || c == ']' || c == '{' || c == '}' || c == '\'' || c == '"'
            || c == '&' || c == '*' || c == '!' || c == '|' || c == '>' || c == '%' || c == '@' {
            assert(is_special(v@[i as int]));
            return true;
        }
        i += 1;
    }
    if v.len() == 0 {
        return holds_control(v);
    }
    let first: char = v[0];
    let last: char = v[v.len() - 1];
    holds_control(v) || first == ' ' || first == '\t' || first == '-' || first == '?' || first == ','
        || first == '`' || last == ' ' || last == '\t'
}

/// Tells whether a scalar is written like a number of YAML that is no decimal one.
fn reads_as_other_number(v: &Vec<char>) -> (r: bool)
    ensures
        r == is_other_number(v@),
{
    let u: Vec<char> = drop_sign(v);
    let l: Vec<char> = to_ascii_lowercase(&u);
    starts_with(&u, "0x") || starts_with(&u, "0o") || starts_with(&u, "0b") || is_text(&l, ".inf")
        || is_text(&l, ".nan")
}

/// Tells whether a scalar written bare would read as something else than a text.
pub fn is_yaml_type_ambiguous_bare_scalar(v: &Vec<char>) -> (r: bool)
    ensures
        r == is_ambiguous(v@),
{
    let l: Vec<char> = to_ascii_lowercase(v);
    v.len() == 0 || is_text(&l, "true") || is_text(&l, "false") || is_text(&l, "yes") || is_text(&l, "no")
        || is_text(&l, "on") || is_text(&l, "off") || is_text(&l, "null") || is_text(&l, "~")
        || reads_as_float(v) || reads_as_other_number(v)
}

/// Appends a character as it stands between double quotes.
fn push_escaped(out: &mut Vec<char>, c: char)
    ensures
        final(out)@ == old(out)@ + escape(c),
{
    let ghost before = out@;
    if c == '"' || c == '\\' {
        out.push('\\');
        out.push(c);
    } else if needs_escape(c) {
        proof {
            reveal_strlit("0123456789abcdef");
        }
        let digits: Vec<char> = to_chars("0123456789abcdef");
        let n: u32 = c as u32;
        let a: usize = (n / 4096) as usize;
        let b: usize = (n / 256 % 16) as usize;
        let d: usize = (n / 16 % 16) as usize;
        let e: usize = (n % 16) as usize;
        out.push('\\');
        out.push('u');
        out.push(digits[a]);
        out.push(digits[b]);
        out.push(digits[d]);
        out.push(digits[e]);
    } else {
        out.push(c);
    }
    assert(out@ =~= before + escape(c));
}

/// Puts a scalar in quotes.
pub fn wrap_in_quotes(v: &Vec<char>) -> (r: Vec<char>)
    ensures
        r@ == in_quotes(v@),
{
    let mut out: Vec<char> = Vec::new();
    if contains_char(v, '\'') || holds_control(v) {
        out.push('"');
        let mut i: usize = 0;
        assert(out@ =~= seq!['"'] + escaped(v@.take(0)));
        while i < v.len()
            invariant
                i <= v.len(),
                out@ == seq!['"'] + escaped(v@.take(i as int)),
            decreases v.len() - i,
        {
            assert(v@.take(i + 1).drop_last() =~= v@.take(i as int));
            push_escaped(&mut out, v[i]);
            i += 1;
            assert(out@ =~= seq!['"'] + escaped(v@.take(i as int)));
        }
        assert(v@.take(i as int) =~= v@);
        out.push('"');
        assert(out@ =~= in_quotes(v@));
    } else {
        out.push('\'');
        push_all(&mut out, v);
        out.push('\'');
        assert(out@ =~= in_quotes(v@));
    }
    out
}

/// Quotes a scalar where YAML needs it.
pub fn quote_value(value: &str) -> (r: String)
    ensures
        r@ == quoted(value@),
{
    let v: Vec<char> = to_chars(value);
    if holds_special(&v) || is_yaml_type_ambiguous_bare_scalar(&v) {
        from_chars(&wrap_in_quotes(&v))
    } else {
        value.to_owned()
    }
}

// ── Setting a field ────────────────────────────────────────────────────────

/// The refusal to rewrite a list in brackets.
pub open spec fn flow_refusal(key: Seq<char>) -> Failure {
    Failure::InvalidFrontmatter {
        file: seq![],
        reason: "field '"@ + key
            + "' uses flow-style YAML (e.g., [a, b]). Use --unset first, then re-add."@,
    }
}

/// The refusal to rewrite a scalar of several lines.
pub open spec fn multiline_refusal(key: Seq<char>) -> Failure {
    Failure::InvalidFrontmatter {
        file: seq![],
        reason: "field '"@ + key
            + "' uses a multiline scalar (| or >). Use --unset first, then re-add."@,
    }
}

/// The failure for frontmatter that is never closed.
pub open spec fn unclosed() -> Failure {
    Failure::NoFrontmatter("content"@)
}

/// A text without the dashes at its start.
pub open spec fn without_dashes(s: Seq<char>) -> Seq<char>
    decreases s.len(),
{
    if s.len() > 0 && s[0] == '-' {
        without_dashes(s.drop_first())
    } else {
        s
    }
}

/// The text of a list item.
pub open spec fn item_text(line: Seq<char>) -> Seq<char> {
    trimmed(without_dashes(trimmed(line)))
}

/// The texts of the list items on some lines; empty ones are left out.
pub open spec fn item_texts(ls: Seq<Seq<char>>) -> Seq<Seq<char>>
    decreases ls.len(),
{
    if ls.len() == 0 {
        seq![]
    } else if item_text(ls.last()).len() > 0 {
        item_texts(ls.drop_last()).push(item_text(ls.last()))
    } else {
        item_texts(ls.drop_last())
    }
}

/// The value that the field on line `k` had: its scalar, or its items.
pub open spec fn old_value(ls: Seq<Seq<char>>, k: int) -> Seq<char> {
    if extent(ls, k) == 1 || holds_scalar(ls[k]) {
        scalar_text(ls[k])
    } else {
        joined(item_texts(ls.subrange(k + 1, k + extent(ls, k))), ", "@)
    }
}

/// The note with some lines in place of a key's field, or before the closing
/// fence where no line sets the key.
pub open spec fn with_field(
    ls: Seq<Seq<char>>,
    key: Seq<char>,
    new: Seq<Seq<char>>,
) -> Seq<Seq<char>> {
    match key_line(ls, key, 1) {
        Some(k) => spliced(ls, k, k + extent(ls, k), new),
        None => spliced(ls, ls.len() - 1, ls.len() - 1, new),
    }
}

/// Whether the field of a key is written in a style that is not rewritten, and
/// the refusal.
pub open spec fn style_refusal(ls: Seq<Seq<char>>, key: Seq<char>) -> Option<Failure> {
    match key_line(ls, key, 1) {
        Some(k) => if is_flow_list(ls[k]) {
            Some(flow_refusal(key))
        } else if is_block_scalar(ls[k]) {
            Some(multiline_refusal(key))
        } else {
            None
        },
        None => None,
    }
}

/// Setting a field to a scalar: `formatted` is written, `shown` is reported.
pub open spec fn field_set(
    content: Seq<char>,
    key: Seq<char>,
    formatted: Seq<char>,
    shown: Seq<char>,
) -> Edit {
    match parts(content) {
        None => Err(unclosed()),
        Some((ls, body)) => match style_refusal(ls, key) {
            Some(e) => Err(e),
            None => Ok(
                (
                    assembled(
                        with_field(ls, key, seq![keys_lead(ls, 1) + (key + ": "@ + formatted)]),
                        body,
                        content,
                    ),
                    Change::SetField {
                        field: key,
                        old_value: match key_line(ls, key, 1) {
                            Some(k) => old_value(ls, k),
                            None => seq![],
                        },
                        new_value: shown,
                    },
                ),
            ),
        },
    }
}

/// The failure for a field in a style that is not rewritten.
pub fn refuse_style(ls: &Vec<Vec<char>>, key: &str) -> (r: Option<VaultdbError>)
    ensures
        match r {
            Some(e) => style_refusal(views(ls@), key@) == Some(e@),
            None => style_refusal(views(ls@), key@) is None,
        },
{
    match find_key_line(ls, key) {
        Some(k) => {
            assert(views(ls@)[k as int] == ls@[k as int]@);
            if is_flow_style_list(&ls[k]) {
                Some(
                    invalid_frontmatter(
                        cat3(
                            "field '",
                            key,
                            "' uses flow-style YAML (e.g., [a, b]). Use --unset first, then re-add.",
                        ),
                    ),
                )
            } else if is_multiline_scalar(&ls[k]) {
                Some(
                    invalid_frontmatter(
                        cat3(
                            "field '",
                            key,
                            "' uses a multiline scalar (| or >). Use --unset first, then re-add.",
                        ),
                    ),
                )
            } else {
                None
            }
        },
        None => None,
    }
}

/// The failure for frontmatter that cannot be edited, of no file in particular.
pub fn invalid_frontmatter(reason: String) -> (e: VaultdbError)
    ensures
        e@ == (Failure::InvalidFrontmatter { file: seq![], reason: reason@ }),
{
    VaultdbError::InvalidFrontmatter { file: String::new(), reason }
}

/// The failure for frontmatter that is never closed.
pub fn unclosed_frontmatter() -> (e: VaultdbError)
    ensures
        e@ == unclosed(),
{
    VaultdbError::NoFrontmatter("content".to_owned())
}

/// Reads the text of a list item.
fn read_item(line: &Vec<char>) -> (r: Vec<char>)
    ensures
        r@ == item_text(line@),
{
    let t: Vec<char> = trim(line);
    let mut i: usize = 0;
    assert(t@.skip(0) =~= t@);
    while i < t.len() && t[i] == '-'
        invariant
            i <= t.len(),
            without_dashes(t@) == without_dashes(t@.skip(i as int)),
        decreases t.len() - i,
    {
        assert(t@.skip(i as int).drop_first() =~= t@.skip(i + 1));
        i += 1;
    }
    let u: Vec<char> = slice(&t, i, t.len());
    assert(u@ =~= t@.skip(i as int));
    trim(&u)
}

/// Reads the value that the field on line `k` has.
fn read_old_value(ls: &Vec<Vec<char>>, k: usize, n: usize) -> (r: String)
    requires
        k < ls.len(),
        n == extent(views(ls@), k as int),
        1 <= n <= ls.len() - k,
    ensures
        r@ == old_value(views(ls@), k as int),
{
    assert(views(ls@)[k as int] == ls@[k as int]@);
    if n == 1 || has_scalar(&ls[k]) {
        return from_chars(&scalar_of_line(&ls[k]));
    }
    let ghost all = views(ls@).subrange(k + 1, k + n);
    let mut items: Vec<Vec<char>> = Vec::new();
    let mut i: usize = k + 1;
    assert(all.take(0) =~= seq![]);
    assert(views(items@) =~= seq![]);
    while i < k + n
        invariant
            k < ls.len(),
            1 <= n <= ls.len() - k,
            k + 1 <= i <= k + n,
            all == views(ls@).subrange(k + 1, k + n),
            views(items@) == item_texts(all.take(i - (k + 1))),
        decreases k + n - i,
    {
        let ghost before = all.take(i - (k + 1));
        assert(all.take(i - k).drop_last() =~= before);
        assert(all.take(i - k).last() == ls@[i as int]@);
        let t: Vec<char> = read_item(&ls[i]);
        if t.len() > 0 {
            proof {
                lemma_views_push(items@, t);
            }
            items.push(t);
        }
        i += 1;
        assert(views(items@) =~= item_texts(all.take(i - (k + 1))));
    }
    assert(all.take(n - 1) =~= all);
    from_chars(&join(&items, ", "))
}

/// Writes a formatted scalar to a field and reports another text for it.
fn set_field_with_formatted(content: &str, key: &str, formatted: &str, shown: &str) -> (r: Result<
    (String, ChangeDescription),
    VaultdbError,
>)
    ensures
        edit_view(r) == field_set(content@, key@, formatted@, shown@),
{
    let text: Vec<char> = to_chars(content);
    proof {
        lemma_parts_fenced(content@);
    }
    match split_frontmatter(&text) {
        None => Err(unclosed_frontmatter()),
        Some(p) => {
            match refuse_style(&p.lines, key) {
                Some(e) => {
                    return Err(e);
                },
                None => {},
            }
            let new: Vec<Vec<char>> = one_line(
                lead_text(&find_keys_lead(&p.lines), cat3(key, ": ", formatted).as_str()),
            );
            match find_key_line(&p.lines, key) {
                Some(k) => {
                    let n: usize = field_extent(&p.lines, k);
                    let old: String = read_old_value(&p.lines, k, n);
                    let out: Vec<Vec<char>> = splice_lines(&p.lines, k, k + n, &new);
                    Ok(
                        (
                            reassemble(&out, &p.body, &text),
                            ChangeDescription::SetField {
                                field: key.to_owned(),
                                old_value: old,
                                new_value: shown.to_owned(),
                            },
                        ),
                    )
                },
                None => {
                    let at: usize = p.lines.len() - 1;
                    let out: Vec<Vec<char>> = splice_lines(&p.lines, at, at, &new);
                    Ok(
                        (
                            reassemble(&out, &p.body, &text),
                            ChangeDescription::SetField {
                                field: key.to_owned(),
                                old_value: String::new(),
                                new_value: shown.to_owned(),
                            },
                        ),
                    )
                },
            }
        },
    }
}

/// Sets a field to a scalar, quoting it where YAML needs it.
pub fn set_field(content: &str, key: &str, value: &str) -> (r: Result<
    (String, ChangeDescription),
    VaultdbError,
>)
    ensures
        edit_view(r) == field_set(content@, key@, quoted(value@), value@),
{
    let q: String = quote_value(value);
    set_field_with_formatted(content, key, q.as_str(), value)
}

/// Sets a field to a scalar that is written as it stands.
pub fn set_field_preformatted(content: &str, key: &str, yaml_value: &str) -> (r: Result<
    (String, ChangeDescription),
    VaultdbError,
>)
    ensures
        edit_view(r) == field_set(content@, key@, yaml_value@, yaml_value@),
{
    set_field_with_formatted(content, key, yaml_value, yaml_value)
}

/// The value that a field written as a block had: its scalar, or its lines.
pub open spec fn old_block(ls: Seq<Seq<char>>, k: int) -> Seq<char> {
    if extent(ls, k) == 1 || holds_scalar(ls[k]) {
        scalar_text(ls[k])
    } else {
        joined(ls.subrange(k, k + extent(ls, k)), "\n"@)
    }
}

/// Setting a field to a block of lines that `rendered` holds; `summary` is
/// reported.
pub open spec fn block_set(
    content: Seq<char>,
    key: Seq<char>,
    rendered: Seq<char>,
    summary: Seq<char>,
) -> Edit {
    match parts(content) {
        None => Err(unclosed()),
        Some((ls, body)) => match style_refusal(ls, key) {
            Some(e) => Err(e),
            None => Ok(
                (
                    assembled(
                        with_field(ls, key, all_led(lines_of(rendered), keys_lead(ls, 1))),
                        body,
                        content,
                    ),
                    Change::SetField {
                        field: key,
                        old_value: match key_line(ls, key, 1) {
                            Some(k) => old_block(ls, k),
                            None => seq![],
                        },
                        new_value: summary,
                    },
                ),
            ),
        },
    }
}

/// Sets a field to a block of lines, given as rendered YAML.
pub fn set_field_lines(content: &str, key: &str, rendered: &str, summary: &str) -> (r: Result<
    (String, ChangeDescription),
    VaultdbError,
>)
    ensures
        edit_view(r) == block_set(content@, key@, rendered@, summary@),
{
    let text: Vec<char> = to_chars(content);
    proof {
        lemma_parts_fenced(content@);
    }
    match split_frontmatter(&text) {
        None => Err(unclosed_frontmatter()),
        Some(p) => {
            match refuse_style(&p.lines, key) {
                Some(e) => {
                    return Err(e);
                },
                None => {},
            }
            let new: Vec<Vec<char>> = lead_lines(
                &find_keys_lead(&p.lines),
                &lines(&to_chars(rendered)),
            );
            match find_key_line(&p.lines, key) {
                Some(k) => {
                    let n: usize = field_extent(&p.lines, k);
                    assert(views(p.lines@)[k as int] == p.lines@[k as int]@);
                    let old: Vec<char> = if n == 1 || has_scalar(&p.lines[k]) {
                        scalar_of_line(&p.lines[k])
                    } else {
                        join(&copy_lines(&p.lines, k, k + n), "\n")
                    };
                    let out: Vec<Vec<char>> = splice_lines(&p.lines, k, k + n, &new);
                    Ok(
                        (
                            reassemble(&out, &p.body, &text),
                            ChangeDescription::SetField {
                                field: key.to_owned(),
                                old_value: from_chars(&old),
                                new_value: summary.to_owned(),
                            },
                        ),
                    )
                },
                None => {
                    let at: usize = p.lines.len() - 1;
                    let out: Vec<Vec<char>> = splice_lines(&p.lines, at, at, &new);
                    Ok(
                        (
                            reassemble(&out, &p.body, &text),
                            ChangeDescription::SetField {
                                field: key.to_owned(),
                                old_value: String::new(),
                                new_value: summary.to_owned(),
                            },
                        ),
                    )
                },
            }
        },
    }
}

/// Why a scalar is no block.
pub open spec fn no_block(key: Seq<char>) -> Failure {
    Failure::InvalidFrontmatter {
        file: seq![],
        reason: "set_field_block called with a scalar value for '"@ + key
            + "'; use set_field instead"@,
    }
}

/// Setting a field to a list or a mapping, written as a block.
pub open spec fn value_set(content: Seq<char>, key: Seq<char>, v: Val) -> Edit {
    if !(v is List || v is Mapping) {
        Err(no_block(key))
    } else if parts(content) is None {
        Err(unclosed())
    } else {
        match entry_yaml(key, v) {
            Err(e) => Err(
                Failure::InvalidFrontmatter {
                    file: seq![],
                    reason: "rendering '"@ + key + "' as YAML: "@ + e,
                },
            ),
            Ok(rendered) => block_set(
                content,
                key,
                rendered,
                match value_yaml(v) {
                    Ok(t) => trimmed_end(t),
                    Err(_) => seq![],
                },
            ),
        }
    }
}

/// Sets a field to a list or a mapping, written as a block of lines.
///
/// A field that is not there goes to the end of the frontmatter; the lines of one
/// that is there are replaced. A field in flow style or with a multiline scalar is
/// refused.
pub fn set_field_block(content: &str, key: &str, value: &Value) -> (r: Result<
    (String, ChangeDescription),
    VaultdbError,
>)
    ensures
        edit_view(r) == value_set(content@, key@, val(*value)),
{
    match value {
        Value::List(_) | Value::Mapping(_) => {},
        _ => {
            return Err(
                invalid_frontmatter(
                    cat3(
                        "set_field_block called with a scalar value for '",
                        key,
                        "'; use set_field instead",
                    ),
                ),
            );
        },
    }
    if split_frontmatter(&to_chars(content)).is_none() {
        return Err(unclosed_frontmatter());
    }
    match render_entry(key, value) {
        Err(e) => Err(
            invalid_frontmatter(cat4("rendering '", key, "' as YAML: ", e.as_str())),
        ),
        Ok(rendered) => {
            let summary: String = match render_value(value) {
                Ok(t) => from_chars(&trim_end(&to_chars(t.as_str()))),
                Err(_) => String::new(),
            };
            set_field_lines(content, key, rendered.as_str(), summary.as_str())
        },
    }
}

// ── Removing a field ───────────────────────────────────────────────────────

/// Removing a field from the parts of a note.
pub open spec fn field_removed(
    found: Option<(Seq<Seq<char>>, Seq<char>)>,
    content: Seq<char>,
    key: Seq<char>,
) -> Edit {
    match found {
        None => Err(unclosed()),
        Some((ls, body)) => match key_line(ls, key, 1) {
            None => Err(
                Failure::InvalidFrontmatter {
                    file: seq![],
                    reason: "field '"@ + key + "' not found"@,
                },
            ),
            Some(k) => Ok(
                (
                    assembled(spliced(ls, k, k + extent(ls, k), seq![]), body, content),
                    Change::UnsetField { field: key, old_value: scalar_text(ls[k]) },
                ),
            ),
        },
    }
}

/// Removes a field from a note that was taken apart.
pub fn unset_in_parts(found: Option<Parts>, text: &Vec<char>, key: &str) -> (r: Result<
    (String, ChangeDescription),
    VaultdbError,
>)
    ensures
        edit_view(r) == field_removed(parts_view(found), text@, key@),
{
    match found {
        None => Err(unclosed_frontmatter()),
        Some(p) => match find_key_line(&p.lines, key) {
            None => Err(invalid_frontmatter(cat3("field '", key, "' not found"))),
            Some(k) => {
                assert(views(p.lines@)[k as int] == p.lines@[k as int]@);
                let n: usize = field_extent(&p.lines, k);
                let old: String = from_chars(&scalar_of_line(&p.lines[k]));
                let none: Vec<Vec<char>> = Vec::new();
                assert(views(none@) =~= seq![]);
                let out: Vec<Vec<char>> = splice_lines(&p.lines, k, k + n, &none);
                Ok(
                    (
                        reassemble(&out, &p.body, text),
                        ChangeDescription::UnsetField { field: key.to_owned(), old_value: old },
                    ),
                )
            },
        },
    }
}

/// Removes a field from the frontmatter.
pub fn unset_field(content: &str, key: &str) -> (r: Result<
    (String, ChangeDescription),
    VaultdbError,
>)
    ensures
        edit_view(r) == field_removed(parts(content@), content@, key@),
{
    let text: Vec<char> = to_chars(content);
    unset_in_parts(split_frontmatter(&text), &text, key)
}

// ── Tags ───────────────────────────────────────────────────────────────────

/// The failure for a note without a `tags` field.
pub open spec fn no_tags() -> Failure {
    Failure::InvalidFrontmatter { file: seq![], reason: "no 'tags' field found"@ }
}

/// The refusal to edit tags in brackets.
pub open spec fn flow_tags() -> Failure {
    Failure::InvalidFrontmatter {
        file: seq![],
        reason: "tags field uses flow-style YAML (e.g., tags: [a, b]). Convert to block-style first."@,
    }
}

/// Whether a line is a list item.
pub open spec fn is_item(line: Seq<char>) -> bool {
    starts(trimmed(line), "- "@) || trimmed(line) == "-"@
}

/// What a new list item starts with: the indentation and dash of the first item from line
/// `from` up to `to`, or two blanks and a dash behind what the keys are indented by.
pub open spec fn item_prefix(ls: Seq<Seq<char>>, from: int, to: int) -> Seq<char>
    decreases to - from,
{
    if from < 0 || from >= to || from >= ls.len() {
        keys_lead(ls, 1) + "  - "@
    } else if is_item(ls[from]) {
        match char_at(ls[from], '-', 0) {
            Some(p) => ls[from].take(p) + "- "@,
            None => keys_lead(ls, 1) + "  - "@,
        }
    } else {
        item_prefix(ls, from + 1, to)
    }
}

/// The tag on a line.
pub open spec fn tag_text(line: Seq<char>) -> Seq<char> {
    if starts(trimmed(line), "- "@) {
        trimmed(line).skip(2)
    } else {
        trimmed(line)
    }
}

/// The first line from `from` up to `to` that holds a tag.
pub open spec fn tag_line(ls: Seq<Seq<char>>, tag: Seq<char>, from: int, to: int) -> Option<int>
    decreases to - from,
{
    if from < 0 || from >= to || from >= ls.len() {
        None
    } else if tag_text(ls[from]) == tag {
        Some(from)
    } else {
        tag_line(ls, tag, from + 1, to)
    }
}

/// Adding a tag to the parts of a note: a new item behind the last line of `tags`.
pub open spec fn tag_added(
    found: Option<(Seq<Seq<char>>, Seq<char>)>,
    content: Seq<char>,
    tag: Seq<char>,
) -> Edit {
    match found {
        None => Err(unclosed()),
        Some((ls, body)) => match key_line(ls, "tags"@, 1) {
            None => Err(no_tags()),
            Some(k) => if is_flow_list(ls[k]) {
                Err(flow_tags())
            } else {
                Ok(
                    (
                        assembled(
                            spliced(
                                ls,
                                k + extent(ls, k),
                                k + extent(ls, k),
                                seq![item_prefix(ls, k + 1, k + extent(ls, k)) + tag],
                            ),
                            body,
                            content,
                        ),
                        Change::AddTag { tag },
                    ),
                )
            },
        },
    }
}

/// Removing a tag from the parts of a note.
pub open spec fn tag_removed(
    found: Option<(Seq<Seq<char>>, Seq<char>)>,
    content: Seq<char>,
    tag: Seq<char>,
) -> Edit {
    match found {
        None => Err(unclosed()),
        Some((ls, body)) => match key_line(ls, "tags"@, 1) {
            None => Err(no_tags()),
            Some(k) => if is_flow_list(ls[k]) {
                Err(flow_tags())
            } else {
                match tag_line(ls, tag, k + 1, k + extent(ls, k)) {
                    None => Err(
                        Failure::InvalidFrontmatter {
                            file: seq![],
                            reason: "tag '"@ + tag + "' not found in tags list"@,
                        },
                    ),
                    Some(i) => Ok(
                        (
                            assembled(spliced(ls, i, i + 1, seq![]), body, content),
                            Change::RemoveTag { tag },
                        ),
                    ),
                }
            },
        },
    }
}

/// Finds what a new list item starts with.
fn detect_list_indent(ls: &Vec<Vec<char>>, from: usize, to: usize) -> (r: Vec<char>)
    requires
        to <= ls.len(),
    ensures
        r@ == item_prefix(views(ls@), from as int, to as int),
{
    let mut i: usize = from;
    while i < to
        invariant
            to <= ls.len(),
            item_prefix(views(ls@), from as int, to as int) == item_prefix(
                views(ls@),
                i as int,
                to as int,
            ),
        decreases to - i,
    {
        assert(views(ls@)[i as int] == ls@[i as int]@);
        let line: &Vec<char> = &ls[i];
        let t: Vec<char> = trim(line);
        if starts_with(&t, "- ") || is_text(&t, "-") {
            return match find_char(line, '-', 0) {
                Some(p) => {
                    let mut out: Vec<char> = slice(line, 0, p);
                    assert(out@ =~= line@.take(p as int));
                    push_str(&mut out, "- ");
                    out
                },
                None => lead_text(&find_keys_lead(ls), "  - "),
            };
        }
        i += 1;
    }
    lead_text(&find_keys_lead(ls), "  - ")
}

/// Reads the tag on a line.
fn read_tag(line: &Vec<char>) -> (r: Vec<char>)
    ensures
        r@ == tag_text(line@),
{
    let t: Vec<char> = trim(line);
    proof {
        reveal_strlit("- ");
    }
    if starts_with(&t, "- ") {
        let r: Vec<char> = slice(&t, 2, t.len());
        assert(r@ =~= t@.skip(2));
        r
    } else {
        t
    }
}

/// Finds the `tags` line of a note, or the failure.
fn find_tags(ls: &Vec<Vec<char>>) -> (r: Result<usize, VaultdbError>)
    ensures
        match key_line(views(ls@), "tags"@, 1) {
            None => r is Err && r->Err_0@ == no_tags(),
            Some(k) => if is_flow_list(views(ls@)[k]) {
                r is Err && r->Err_0@ == flow_tags()
            } else {
                r == Ok::<usize, VaultdbError>(k as usize) && 1 <= k < ls.len()
            },
        },
{
    match find_key_line(ls, "tags") {
        None => Err(invalid_frontmatter("no 'tags' field found".to_owned())),
        Some(k) => {
            assert(views(ls@)[k as int] == ls@[k as int]@);
            if is_flow_style_list(&ls[k]) {
                Err(
                    invalid_frontmatter(
                        "tags field uses flow-style YAML (e.g., tags: [a, b]). Convert to block-style first.".to_owned(),
                    ),
                )
            } else {
                Ok(k)
            }
        },
    }
}

/// Adds a tag to a note that was taken apart.
pub fn add_tag_in_parts(found: Option<Parts>, text: &Vec<char>, tag: &str) -> (r: Result<
    (String, ChangeDescription),
    VaultdbError,
>)
    ensures
        edit_view(r) == tag_added(parts_view(found), text@, tag@),
{
    match found {
        None => Err(unclosed_frontmatter()),
        Some(p) => match find_tags(&p.lines) {
            Err(e) => Err(e),
            Ok(k) => {
                let n: usize = field_extent(&p.lines, k);
                let mut line: Vec<char> = detect_list_indent(&p.lines, k + 1, k + n);
                push_str(&mut line, tag);
                let new: Vec<Vec<char>> = one_line(line);
                let out: Vec<Vec<char>> = splice_lines(&p.lines, k + n, k + n, &new);
                Ok(
                    (
                        reassemble(&out, &p.body, text),
                        ChangeDescription::AddTag { tag: tag.to_owned() },
                    ),
                )
            },
        },
    }
}

/// Removes a tag from a note that was taken apart.
pub fn remove_tag_in_parts(found: Option<Parts>, text: &Vec<char>, tag: &str) -> (r: Result<
    (String, ChangeDescription),
    VaultdbError,
>)
    ensures
        edit_view(r) == tag_removed(parts_view(found), text@, tag@),
{
    let wanted: Vec<char> = to_chars(tag);
    match found {
        None => Err(unclosed_frontmatter()),
        Some(p) => match find_tags(&p.lines) {
            Err(e) => Err(e),
            Ok(k) => {
                let n: usize = field_extent(&p.lines, k);
                let ghost vs = views(p.lines@);
                let mut i: usize = k + 1;
                while i < k + n
                    invariant
                        vs == views(p.lines@),
                        wanted@ == tag@,
                        k + 1 <= i <= k + n <= p.lines.len(),
                        tag_line(vs, tag@, k + 1, k + n) == tag_line(vs, tag@, i as int, k + n),
                        n == extent(vs, k as int),
                        parts_view(found) == Some((vs, p.body@)),
                        key_line(vs, "tags"@, 1) == Some(k as int),
                        !is_flow_list(vs[k as int]),
                    decreases k + n - i,
                {
                    assert(vs[i as int] == p.lines@[i as int]@);
                    if same(&read_tag(&p.lines[i]), &wanted) {
                        let none: Vec<Vec<char>> = Vec::new();
                        assert(views(none@) =~= seq![]);
                        let out: Vec<Vec<char>> = splice_lines(&p.lines, i, i + 1, &none);
                        return Ok(
                            (
                                reassemble(&out, &p.body, text),
                                ChangeDescription::RemoveTag { tag: tag.to_owned() },
                            ),
                        );
                    }
                    i += 1;
                }
                Err(invalid_frontmatter(cat3("tag '", tag, "' not found in tags list")))
            },
        },
    }
}

/// Adds a tag to the `tags` list.
pub fn add_tag(content: &str, tag: &str) -> (r: Result<(String, ChangeDescription), VaultdbError>)
    ensures
        edit_view(r) == tag_added(parts(content@), content@, tag@),
{
    let text: Vec<char> = to_chars(content);
    add_tag_in_parts(split_frontmatter(&text), &text, tag)
}

/// Removes a tag from the `tags` list.
pub fn remove_tag(content: &str, tag: &str) -> (r: Result<
    (String, ChangeDescription),
    VaultdbError,
>)
    ensures
        edit_view(r) == tag_removed(parts(content@), content@, tag@),
{
    let text: Vec<char> = to_chars(content);
    remove_tag_in_parts(split_frontmatter(&text), &text, tag)
}

// ── The body ───────────────────────────────────────────────────────────────

/// A text without the line feeds and carriage returns at its end.
pub open spec fn without_newlines(s: Seq<char>) -> Seq<char>
    decreases s.len(),
{
    if s.len() > 0 && (s.last() == '\n' || s.last() == '\r') {
        without_newlines(s.drop_last())
    } else {
        s
    }
}

/// A body with text added to its end.
pub open spec fn body_appended(body: Seq<char>, text: Seq<char>, separator: Seq<char>) -> Seq<char> {
    if body.len() == 0 {
        text
    } else {
        without_newlines(body) + separator + text
    }
}

/// The text of a note before its body, with a line ending behind its last line.
pub open spec fn ended_head(content: Seq<char>) -> Seq<char> {
    let head = head_of(content);
    if head.len() > 0 && head.last() == '\n' {
        head
    } else {
        head + line_ending(content)
    }
}

/// The note with another body: the frontmatter is kept as it stands, character by
/// character. A text without one gets an empty one.
pub open spec fn with_body(content: Seq<char>, body: Seq<char>) -> Seq<char> {
    match parts(content) {
        Some((ls, _)) => if opens_block(content) {
            ended_head(content) + body
        } else {
            assembled(ls, body, content)
        },
        None => content,
    }
}

/// An edit of the body: the frontmatter must be closed.
pub open spec fn body_edit(content: Seq<char>, body: Seq<char>, change: Change) -> Edit {
    match parts(content) {
        None => Err(unclosed()),
        Some(_) => Ok((with_body(content, body), change)),
    }
}

/// Gives a note another body.
fn replace_body(content: &Vec<char>, p: &Parts, body: &Vec<char>) -> (r: String)
    requires
        parts(content@) == Some(p@),
    ensures
        r@ == with_body(content@, body@),
{
    if !starts_block(content) {
        return reassemble(&p.lines, body, content);
    }
    let mut out: Vec<char> = take_head(content, &p.body);
    if out.len() == 0 || out[out.len() - 1] != '\n' {
        push_str(&mut out, find_line_ending(content));
    }
    push_all(&mut out, body);
    from_chars(&out)
}

/// Replaces the body.
pub fn set_body(content: &str, new_body: &str) -> (r: Result<
    (String, ChangeDescription),
    VaultdbError,
>)
    ensures
        edit_view(r) == body_edit(
            content@,
            new_body@,
            Change::SetBody { old_len: bytes(body_of(content@)), new_len: bytes(new_body@) },
        ),
{
    let text: Vec<char> = to_chars(content);
    match split_frontmatter(&text) {
        None => Err(unclosed_frontmatter()),
        Some(p) => {
            let old: String = from_chars(&p.body);
            let change: ChangeDescription = ChangeDescription::SetBody {
                old_len: byte_len(old.as_str()),
                new_len: byte_len(new_body),
            };
            Ok((replace_body(&text, &p, &to_chars(new_body)), change))
        },
    }
}

/// Empties the body.
pub fn clear_body(content: &str) -> (r: Result<(String, ChangeDescription), VaultdbError>)
    ensures
        edit_view(r) == body_edit(
            content@,
            seq![],
            Change::ClearBody { old_len: bytes(body_of(content@)) },
        ),
{
    let text: Vec<char> = to_chars(content);
    match split_frontmatter(&text) {
        None => Err(unclosed_frontmatter()),
        Some(p) => {
            let old: String = from_chars(&p.body);
            let change: ChangeDescription = ChangeDescription::ClearBody {
                old_len: byte_len(old.as_str()),
            };
            Ok((replace_body(&text, &p, &Vec::new()), change))
        },
    }
}

/// Adds text to the end of the body, behind a separator. Line endings at the end
/// of the body make room for the separator.
pub fn append_body(content: &str, text: &str, separator: &str) -> (r: Result<
    (String, ChangeDescription),
    VaultdbError,
>)
    ensures
        edit_view(r) == body_edit(
            content@,
            body_appended(body_of(content@), text@, separator@),
            Change::AppendBody { added_len: bytes(text@) },
        ),
{
    let all: Vec<char> = to_chars(content);
    match split_frontmatter(&all) {
        None => Err(unclosed_frontmatter()),
        Some(p) => {
            let mut body: Vec<char> = Vec::new();
            if p.body.len() > 0 {
                let mut j: usize = p.body.len();
                assert(p.body@.take(j as int) =~= p.body@);
                while j > 0 && (p.body[j - 1] == '\n' || p.body[j - 1] == '\r')
                    invariant
                        j <= p.body.len(),
                        without_newlines(p.body@) == without_newlines(p.body@.take(j as int)),
                    decreases j,
                {
                    assert(p.body@.take(j as int).drop_last() =~= p.body@.take(j - 1));
                    j -= 1;
                }
                body = slice(&p.body, 0, j);
                assert(body@ =~= p.body@.take(j as int));
                push_str(&mut body, separator);
            }
            push_str(&mut body, text);
            assert(body@ =~= body_appended(p.body@, text@, separator@));
            Ok(
                (
                    replace_body(&all, &p, &body),
                    ChangeDescription::AppendBody { added_len: byte_len(text) },
                ),
            )
        },
    }
}

} // verus!
