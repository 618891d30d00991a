//! Schemas: what the fields of a folder's notes must look like.

use crate::dsl::{parse_scalar, parsed, scalar};
use crate::error::{message, Failure, VaultdbError};
use crate::filter::{evaluate_expr, holds};
use crate::float::{copy_float, float_order, order_floats, Float};
use crate::path::{below, join_path};
use crate::query::{cond, conds, lemma_cond, Cond, Expr, Pred, Predicate};
use crate::record::{
    copy_value, date_text, entries, equal_vals, equal_values, field, find_key, float_of,
    format_date, key_at, kind, lemma_entries_push, lemma_val_list, lemma_val_mapping, padded, shown,
    val, val_view, vals, recs, Rec, Record, Val, Value,
};
use crate::text::{
    cat2, cat3, cat4, cat5, char_at, contains_char, copy_strings, decimal, find_char, from_chars,
    integer_of, insert_text, is_text, is_text_set, joined, number_text, lemma_string_views_push,
    lemma_with_text, parse_integer, same_text, slice, sort_texts, split, split_by, starts,
    starts_with, string_views, text_set, to_chars, trim, trimmed, with_text, Order,
};
use crate::yaml::float_view;
use vstd::prelude::*;

pub mod checking;
pub mod consistency;
pub mod inference;
pub mod laws;

verus! {

/// The name of the file that holds a vault's schema.
pub const SCHEMA_FILENAME: &'static str = "vaultdb-schema.yaml";

/// Where a vault's schema lies.
pub fn schema_path(vault_root: &str) -> (r: String)
    ensures
        r@ == below(vault_root@, "vaultdb-schema.yaml"@),
{
    join_path(vault_root, "vaultdb-schema.yaml")
}

/// What a field must look like.
#[derive(Debug, PartialEq, Eq)]
pub struct FieldSchema {
    pub field_type: String,
    pub enum_values: Vec<Value>,
    pub min: Option<Float>,
    pub max: Option<Float>,
    /// The value of a new note that does not set the field.
    pub default: Option<Value>,
    /// A keyword for such a value: `today`, `now` or `epoch`.
    pub default_expr: Option<String>,
}

/// What the notes of a folder must look like.
#[derive(Debug, PartialEq, Eq)]
pub struct CollectionSchema {
    pub description: Option<String>,
    pub folder: String,
    /// Conditions that a note of the collection meets.
    pub filter: Vec<String>,
    pub required: Vec<String>,
    /// The fields by name, the names ascending.
    pub fields: Vec<(String, FieldSchema)>,
}

/// The collections of a vault by name, the names ascending.
#[derive(Debug, PartialEq, Eq)]
pub struct VaultSchema {
    pub collections: Vec<(String, CollectionSchema)>,
}

/// What is wrong with a field of a note.
#[derive(Debug, PartialEq, Eq)]
pub struct Violation {
    pub file: String,
    pub field: String,
    pub message: String,
}

/// A field's schema with its texts as sequences of characters.
pub struct FieldRule {
    pub field_type: Seq<char>,
    pub enum_values: Seq<Val>,
    pub min: Option<(u64, Seq<char>)>,
    pub max: Option<(u64, Seq<char>)>,
    pub default: Option<Val>,
    pub default_expr: Option<Seq<char>>,
}

/// A collection's schema with its texts as sequences of characters.
pub struct CollectionRule {
    pub description: Option<Seq<char>>,
    pub folder: Seq<char>,
    pub filter: Seq<Seq<char>>,
    pub required: Seq<Seq<char>>,
    pub fields: Seq<(Seq<char>, FieldRule)>,
}

/// A violation with its texts as sequences of characters.
pub struct Vio {
    pub file: Seq<char>,
    pub field: Seq<char>,
    pub message: Seq<char>,
}

/// What a text that may be missing is.
pub open spec fn text_view(s: Option<String>) -> Option<Seq<char>> {
    match s {
        Some(s) => Some(s@),
        None => None,
    }
}

impl View for FieldSchema {
    type V = FieldRule;

    open spec fn view(&self) -> FieldRule {
        FieldRule {
            field_type: self.field_type@,
            enum_values: vals(self.enum_values@),
            min: float_view(self.min),
            max: float_view(self.max),
            default: val_view(self.default),
            default_expr: text_view(self.default_expr),
        }
    }
}

/// What the schemas of fields are.
pub open spec fn rules(m: Seq<(String, FieldSchema)>) -> Seq<(Seq<char>, FieldRule)> {
    Seq::new(m.len(), |i: int| (m[i].0@, m[i].1@))
}

impl View for CollectionSchema {
    type V = CollectionRule;

    open spec fn view(&self) -> CollectionRule {
        CollectionRule {
            description: text_view(self.description),
            folder: self.folder@,
            filter: string_views(self.filter@),
            required: string_views(self.required@),
            fields: rules(self.fields@),
        }
    }
}

/// What the collections of a schema are.
pub open spec fn collection_views(m: Seq<(String, CollectionSchema)>) -> Seq<
    (Seq<char>, CollectionRule),
> {
    Seq::new(m.len(), |i: int| (m[i].0@, m[i].1@))
}

/// Copies the schema of a field.
fn copy_rule(f: &FieldSchema) -> (r: FieldSchema)
    ensures
        r@ == f@,
{
    let ghost all = vals(f.enum_values@);
    let mut enum_values: Vec<Value> = Vec::new();
    let mut i: usize = 0;
    assert(vals(enum_values@) =~= all.take(0));
    while i < f.enum_values.len()
        invariant
            all == vals(f.enum_values@),
            i <= f.enum_values.len(),
            vals(enum_values@) == all.take(i as int),
        decreases f.enum_values.len() - i,
    {
        let v: Value = copy_value(&f.enum_values[i]);
        let ghost before = vals(enum_values@);
        enum_values.push(v);
        assert(vals(enum_values@) =~= before.push(val(v)));
        i += 1;
        assert(vals(enum_values@) =~= all.take(i as int));
    }
    assert(all.take(i as int) =~= all);
    FieldSchema {
        field_type: f.field_type.clone(),
        enum_values,
        min: match &f.min {
            Some(x) => Some(copy_float(x)),
            None => None,
        },
        max: match &f.max {
            Some(x) => Some(copy_float(x)),
            None => None,
        },
        default: match &f.default {
            Some(v) => Some(copy_value(v)),
            None => None,
        },
        default_expr: match &f.default_expr {
            Some(t) => Some(t.clone()),
            None => None,
        },
    }
}

/// Copies the schema of a collection.
pub fn copy_collection(c: &CollectionSchema) -> (r: CollectionSchema)
    ensures
        r@ == c@,
{
    let ghost all = rules(c.fields@);
    let mut fields: Vec<(String, FieldSchema)> = Vec::new();
    let mut i: usize = 0;
    assert(rules(fields@) =~= all.take(0));
    while i < c.fields.len()
        invariant
            all == rules(c.fields@),
            i <= c.fields.len(),
            rules(fields@) == all.take(i as int),
        decreases c.fields.len() - i,
    {
        let x: (String, FieldSchema) = (c.fields[i].0.clone(), copy_rule(&c.fields[i].1));
        let ghost before = rules(fields@);
        fields.push(x);
        assert(rules(fields@) =~= before.push((x.0@, x.1@)));
        i += 1;
        assert(rules(fields@) =~= all.take(i as int));
    }
    assert(all.take(i as int) =~= all);
    CollectionSchema {
        description: match &c.description {
            Some(t) => Some(t.clone()),
            None => None,
        },
        folder: c.folder.clone(),
        filter: copy_strings(&c.filter),
        required: copy_strings(&c.required),
        fields,
    }
}

impl View for Violation {
    type V = Vio;

    open spec fn view(&self) -> Vio {
        Vio { file: self.file@, field: self.field@, message: self.message@ }
    }
}

/// What violations are.
pub open spec fn vios(v: Seq<Violation>) -> Seq<Vio> {
    Seq::new(v.len(), |i: int| v[i]@)
}

impl Violation {
    /// The line to show for the violation.
    pub fn to_string(&self) -> (r: String)
        ensures
            r@ == self@.file + ": "@ + self@.field + " — "@ + self@.message,
    {
        cat5(self.file.as_str(), ": ", self.field.as_str(), " — ", self.message.as_str())
    }
}

// ── Formats ────────────────────────────────────────────────────────────────

/// The target of a link: what stands before an alias or a section.
pub open spec fn link_target(inner: Seq<char>) -> Seq<char> {
    inner.take(target_end(inner, 0))
}

/// The first position at or after `i` of an alias or a section.
pub open spec fn target_end(inner: Seq<char>, i: int) -> int
    decreases inner.len() - i,
{
    if 0 <= i < inner.len() && inner[i] != '|' && inner[i] != '#' {
        target_end(inner, i + 1)
    } else {
        i
    }
}

/// Whether a text is a link: `[[target]]`, with `#section` and `|alias` or without.
pub open spec fn is_wikilink(s: Seq<char>) -> bool {
    let inner = s.subrange(2, s.len() - 2);
    &&& s.len() > 4
    &&& s[0] == '[' && s[1] == '['
    &&& s[s.len() - 2] == ']' && s[s.len() - 1] == ']'
    &&& !inner.contains('[') && !inner.contains(']')
    &&& trimmed(link_target(inner)).len() > 0
}

/// Whether a text is made of `n` decimal digits.
pub open spec fn is_number(s: Seq<char>, n: nat) -> bool {
    s.len() == n && crate::text::all_digits(s)
}

/// Whether a text is a day: year, month and day, the latter two within what a
/// calendar has. The length of the month is not checked.
pub open spec fn is_date(s: Seq<char>) -> bool {
    let p = split_by(s, '-');
    &&& p.len() == 3
    &&& is_number(p[0], 4) && is_number(p[1], 2) && is_number(p[2], 2)
    &&& 1 <= crate::text::digits_value(p[1]) <= 12
    &&& 1 <= crate::text::digits_value(p[2]) <= 31
}

/// Whether `url::Url::parse` takes a text.
pub uninterp spec fn url_parses(text: Seq<char>) -> bool;

/// How the standard library shows a text for debugging: in quotes, with escapes.
pub uninterp spec fn debug_quoted(text: Seq<char>) -> Seq<char>;

/// Calls `url::Url::parse`. Claims that whether it takes the text depends on the
/// text alone.
#[verifier::external_body]
fn url_parse(text: &str) -> (r: bool)
    ensures
        r == url_parses(text@),
{
    url::Url::parse(text).is_ok()
}

/// Formats a text for debugging. Claims that the result depends on the text alone.
#[verifier::external_body]
pub(crate) fn debug_text(text: &str) -> (r: String)
    ensures
        r@ == debug_quoted(text@),
{
    format!("{:?}", text)
}

/// Tells whether a text is a link.
pub fn is_valid_wikilink(s: &str) -> (r: bool)
    ensures
        r == is_wikilink(s@),
{
    let all: Vec<char> = to_chars(s);
    let n: usize = all.len();
    if n <= 4 || all[0] != '[' || all[1] != '[' || all[n - 2] != ']' || all[n - 1] != ']' {
        return false;
    }
    let inner: Vec<char> = slice(&all, 2, n - 2);
    if contains_char(&inner, '[') || contains_char(&inner, ']') {
        return false;
    }
    let mut i: usize = 0;
    while i < inner.len() && inner[i] != '|' && inner[i] != '#'
        invariant
            i <= inner.len(),
            target_end(inner@, 0) == target_end(inner@, i as int),
        decreases inner.len() - i,
    {
        i += 1;
    }
    let target: Vec<char> = slice(&inner, 0, i);
    assert(target@ =~= link_target(inner@));
    trim(&target).len() > 0
}

/// Tells whether a text is made of `n` digits, and which number they are.
fn read_digits(s: &Vec<char>, n: usize) -> (r: Option<u64>)
    requires
        n <= 4,
    ensures
        match r {
            Some(v) => is_number(s@, n as nat) && v == crate::text::digits_value(s@),
            None => !is_number(s@, n as nat),
        },
{
    if s.len() != n {
        return None;
    }
    match crate::text::parse_integer(from_chars(s).as_str()) {
        Some(v) => {
            if n == 0 || s[0] == '+' || s[0] == '-' {
                if n > 0 {
                    assert(!('0' <= s@[0] <= '9'));
                }
                return None;
            }
            if v < 0 {
                return None;
            }
            Some(v as u64)
        },
        None => {
            if n == 0 {
                assert(crate::text::digits_value(s@) == 0);
                return Some(0);
            }
            proof {
                if crate::text::all_digits(s@) {
                    assert('0' <= s@[0] <= '9');
                    lemma_short_number(s@);
                }
            }
            None
        },
    }
}

/// A number of at most four digits is below ten thousand.
proof fn lemma_short_number(s: Seq<char>)
    requires
        s.len() <= 4,
        crate::text::all_digits(s),
    ensures
        crate::text::digits_value(s) < 10000,
        s.len() <= 3 ==> crate::text::digits_value(s) < 1000,
        s.len() <= 2 ==> crate::text::digits_value(s) < 100,
        s.len() <= 1 ==> crate::text::digits_value(s) < 10,
    decreases s.len(),
{
    if s.len() > 0 {
        assert('0' <= s[s.len() - 1] <= '9');
        let t = s.drop_last();
        assert forall|i: int| 0 <= i < t.len() implies '0' <= #[trigger] t[i] <= '9' by {
            assert('0' <= s[i] <= '9');
        }
        lemma_short_number(t);
    }
}

/// Tells whether a text is a day of the calendar, as year, month and day.
pub fn is_valid_date(s: &str) -> (r: bool)
    ensures
        r == is_date(s@),
{
    let p: Vec<Vec<char>> = split(&to_chars(s), '-');
    if p.len() != 3 {
        return false;
    }
    let ghost vs = split_by(s@, '-');
    assert(vs[0] == p@[0]@ && vs[1] == p@[1]@ && vs[2] == p@[2]@);
    match (read_digits(&p[0], 4), read_digits(&p[1], 2), read_digits(&p[2], 2)) {
        (Some(_), Some(m), Some(d)) => 1 <= m && m <= 12 && 1 <= d && d <= 31,
        _ => false,
    }
}

/// Tells whether a text is an absolute URL.
pub fn is_valid_url(s: &str) -> (r: bool)
    ensures
        r == url_parses(s@),
{
    url_parse(s)
}

/// Whether a text has the format that a type asks of texts.
pub open spec fn has_format(s: Seq<char>, field_type: Seq<char>) -> bool {
    if field_type == "wikilink"@ {
        is_wikilink(s)
    } else if field_type == "date"@ {
        is_date(s)
    } else if field_type == "url"@ {
        url_parses(s)
    } else {
        true
    }
}

/// Tells whether a text has the format that a type asks of texts.
fn check_format(s: &str, field_type: &str) -> (r: bool)
    ensures
        r == has_format(s@, field_type@),
{
    if same_text(field_type, "wikilink") {
        is_valid_wikilink(s)
    } else if same_text(field_type, "date") {
        is_valid_date(s)
    } else if same_text(field_type, "url") {
        is_valid_url(s)
    } else {
        true
    }
}

/// Whether values of a kind can stand in a field of a type. A type that is not
/// known takes any kind.
pub open spec fn kind_fits(actual: Seq<char>, expected: Seq<char>) -> bool {
    if expected == "float"@ || expected == "number"@ {
        actual == "integer"@ || actual == "float"@
    } else if expected == "wikilink"@ || expected == "date"@ || expected == "url"@ {
        actual == "string"@
    } else if expected == "string"@ || expected == "integer"@ || expected == "bool"@ || expected
        == "list"@ || expected == "map"@ {
        actual == expected
    } else {
        true
    }
}

/// Tells whether values of a kind can stand in a field of a type.
pub fn type_matches(actual: &str, expected: &str) -> (r: bool)
    ensures
        r == kind_fits(actual@, expected@),
{
    if same_text(expected, "float") || same_text(expected, "number") {
        same_text(actual, "integer") || same_text(actual, "float")
    } else if same_text(expected, "wikilink") || same_text(expected, "date") || same_text(
        expected,
        "url",
    ) {
        same_text(actual, "string")
    } else if same_text(expected, "string") || same_text(expected, "integer") || same_text(
        expected,
        "bool",
    ) || same_text(expected, "list") || same_text(expected, "map") {
        same_text(actual, expected)
    } else {
        true
    }
}

/// Whether an allowed value is shown as a text. Lists, mappings and null are not
/// compared.
pub open spec fn allows(e: Val, display: Seq<char>) -> bool {
    match e {
        Val::Text(_) => shown(e) == display,
        Val::Int(_) => shown(e) == display,
        Val::Float(_) => shown(e) == display,
        Val::Bool(_) => shown(e) == display,
        _ => false,
    }
}

/// Whether one of some allowed values is shown as a text.
pub open spec fn is_allowed(allowed: Seq<Val>, display: Seq<char>) -> bool {
    exists|i: int| 0 <= i < allowed.len() && allows(#[trigger] allowed[i], display)
}

/// Tells whether one of some allowed values is shown as a text.
fn in_allowed(allowed: &Vec<Value>, display: &str) -> (r: bool)
    ensures
        r == is_allowed(vals(allowed@), display@),
{
    let mut i: usize = 0;
    while i < allowed.len()
        invariant
            i <= allowed.len(),
            forall|k: int| 0 <= k < i ==> !allows(#[trigger] vals(allowed@)[k], display@),
        decreases allowed.len() - i,
    {
        let fits: bool = match &allowed[i] {
            Value::String(_) => true,
            Value::Integer(_) => true,
            Value::Float(_) => true,
            Value::Bool(_) => true,
            _ => false,
        };
        if fits && same_text(allowed[i].display_value().as_str(), display) {
            assert(allows(vals(allowed@)[i as int], display@));
            return true;
        }
        i += 1;
    }
    false
}

// ── Checking a record ──────────────────────────────────────────────────────

/// A text without the zeros at its end.
pub open spec fn without_zeros(s: Seq<char>) -> Seq<char>
    decreases s.len(),
{
    if s.len() > 0 && s.last() == '0' {
        without_zeros(s.drop_last())
    } else {
        s
    }
}

/// How many zeros a text starts with.
pub open spec fn leading_zeros(s: Seq<char>) -> nat
    decreases s.len(),
{
    if s.len() > 0 && s[0] == '0' {
        1 + leading_zeros(s.drop_first())
    } else {
        0
    }
}

/// Digits with a point behind the first, where there are more.
pub open spec fn pointed_digits(s: Seq<char>) -> Seq<char> {
    if s.len() > 1 {
        s.take(1) + "."@ + s.skip(1)
    } else {
        s
    }
}

/// How a floating-point number without its sign is shown in full: with a point, or, from
/// `1e16` on and below `1e-5`, with an exponent.
pub open spec fn full_digits(s: Seq<char>) -> Seq<char> {
    match char_at(s, '.', 0) {
        None => if s.len() > 16 {
            pointed_digits(without_zeros(s)) + "e"@ + decimal((s.len() - 1) as nat)
        } else {
            s + ".0"@
        },
        Some(p) => {
            let fraction = s.skip(p + 1);
            let zeros = leading_zeros(fraction);
            if s.take(p) == "0"@ && zeros >= 5 {
                pointed_digits(fraction.skip(zeros as int)) + "e-"@ + decimal(zeros + 1)
            } else {
                s
            }
        },
    }
}

/// How a floating-point number is shown in full, told from its plain digits.
pub open spec fn full_float(t: Seq<char>) -> Seq<char> {
    if t.contains('n') || t.contains('N') {
        t
    } else if t.len() > 0 && t[0] == '-' {
        "-"@ + full_digits(t.skip(1))
    } else {
        full_digits(t)
    }
}

/// Puts a point behind the first of some digits, where there are more.
fn point_digits(s: &Vec<char>) -> (r: String)
    ensures
        r@ == pointed_digits(s@),
{
    if s.len() > 1 {
        let a: Vec<char> = slice(s, 0, 1);
        let b: Vec<char> = slice(s, 1, s.len());
        assert(a@ =~= s@.take(1));
        assert(b@ =~= s@.skip(1));
        cat3(from_chars(&a).as_str(), ".", from_chars(&b).as_str())
    } else {
        from_chars(s)
    }
}

/// Shows a floating-point number without its sign in full.
fn show_full_digits(s: &Vec<char>) -> (r: String)
    ensures
        r@ == full_digits(s@),
{
    match find_char(s, '.', 0) {
        None => {
            if s.len() > 16 {
                let mut n: usize = s.len();
                assert(s@.take(n as int) =~= s@);
                while n > 0 && s[n - 1] == '0'
                    invariant
                        n <= s.len(),
                        without_zeros(s@) == without_zeros(s@.take(n as int)),
                    decreases n,
                {
                    assert(s@.take(n as int).drop_last() =~= s@.take(n - 1));
                    n -= 1;
                }
                let m: Vec<char> = slice(s, 0, n);
                assert(m@ =~= s@.take(n as int));
                assert(without_zeros(m@) == m@);
                cat3(
                    point_digits(&m).as_str(),
                    "e",
                    number_text((s.len() - 1) as u64).as_str(),
                )
            } else {
                cat2(from_chars(s).as_str(), ".0")
            }
        },
        Some(p) => {
            let whole: Vec<char> = slice(s, 0, p);
            let fraction: Vec<char> = slice(s, p + 1, s.len());
            assert(whole@ =~= s@.take(p as int));
            assert(fraction@ =~= s@.skip(p + 1));
            let mut z: usize = 0;
            assert(fraction@.skip(0) =~= fraction@);
            while z < fraction.len() && fraction[z] == '0'
                invariant
                    z <= fraction.len(),
                    leading_zeros(fraction@) == z + leading_zeros(fraction@.skip(z as int)),
                decreases fraction.len() - z,
            {
                assert(fraction@.skip(z as int).drop_first() =~= fraction@.skip(z + 1));
                z += 1;
            }
            if is_text(&whole, "0") && z >= 5 {
                let m: Vec<char> = slice(&fraction, z, fraction.len());
                assert(m@ =~= fraction@.skip(z as int));
                cat3(point_digits(&m).as_str(), "e-", number_text(z as u64 + 1).as_str())
            } else {
                from_chars(s)
            }
        },
    }
}

/// Shows a floating-point number in full.
fn show_full_float(text: &str) -> (r: String)
    ensures
        r@ == full_float(text@),
{
    let t: Vec<char> = to_chars(text);
    if contains_char(&t, 'n') || contains_char(&t, 'N') {
        text.to_owned()
    } else if t.len() > 0 && t[0] == '-' {
        let u: Vec<char> = slice(&t, 1, t.len());
        assert(u@ =~= t@.skip(1));
        cat2("-", show_full_digits(&u).as_str())
    } else {
        show_full_digits(&t)
    }
}

/// How a value is shown with its kind.
pub open spec fn detailed(v: Val) -> Seq<char>
    decreases v,
{
    match v {
        Val::Null => "Null"@,
        Val::Text(s) => "String("@ + debug_quoted(s) + ")"@,
        Val::Int(_) => "Integer("@ + shown(v) + ")"@,
        Val::Float(f) => "Float("@ + full_float(f.1) + ")"@,
        Val::Bool(_) => "Bool("@ + shown(v) + ")"@,
        Val::List(items) => "List(["@ + joined(detailed_items(items), ", "@) + "])"@,
        Val::Mapping(m) => "Map({"@ + joined(detailed_entries(m), ", "@) + "})"@,
    }
}

/// How the items of a list are shown with their kinds.
pub open spec fn detailed_items(items: Seq<Val>) -> Seq<Seq<char>>
    decreases items,
{
    Seq::new(
        items.len(),
        |i: int|
            if 0 <= i < items.len() {
                detailed(items[i])
            } else {
                seq![]
            },
    )
}

/// How the entries of a mapping are shown with their kinds.
pub open spec fn detailed_entries(m: Seq<(Seq<char>, Val)>) -> Seq<Seq<char>>
    decreases m,
{
    Seq::new(
        m.len(),
        |i: int|
            if 0 <= i < m.len() {
                debug_quoted(m[i].0) + ": "@ + detailed(m[i].1)
            } else {
                seq![]
            },
    )
}

/// Shows a value with its kind.
fn show_detailed(v: &Value) -> (r: String)
    ensures
        r@ == detailed(val(*v)),
    decreases v,
{
    match v {
        Value::Null => "Null".to_owned(),
        Value::String(s) => cat3("String(", debug_text(s.as_str()).as_str(), ")"),
        Value::Integer(_) => cat3("Integer(", v.display_value().as_str(), ")"),
        Value::Float(f) => cat3("Float(", show_full_float(f.text.as_str()).as_str(), ")"),
        Value::Bool(_) => cat3("Bool(", v.display_value().as_str(), ")"),
        Value::List(items) => {
            let mut parts: Vec<String> = Vec::new();
            let mut i: usize = 0;
            let ghost texts = detailed_items(vals(items@));
            assert(string_views(parts@) =~= texts.take(0));
            while i < items.len()
                invariant
                    *v == Value::List(*items),
                    i <= items.len(),
                    texts == detailed_items(vals(items@)),
                    string_views(parts@) == texts.take(i as int),
                decreases items.len() - i,
            {
                proof {
                    broadcast use vstd::std_specs::vec::axiom_vec_index_decreases;

                    assert(decreases_to!(*items => items[i as int]));
                    assert(decreases_to!(*v => v->List_0));
                }
                let t: String = show_detailed(&items[i]);
                proof {
                    lemma_string_views_push(parts@, t);
                }
                parts.push(t);
                i += 1;
                assert(string_views(parts@) =~= texts.take(i as int));
            }
            assert(texts.take(i as int) =~= texts);
            proof {
                lemma_val_list(*items);
            }
            cat3("List([", crate::text::join_strings(&parts, ", ").as_str(), "])")
        },
        Value::Mapping(m) => {
            let mut parts: Vec<String> = Vec::new();
            let mut i: usize = 0;
            let ghost texts = detailed_entries(entries(m@));
            assert(string_views(parts@) =~= texts.take(0));
            while i < m.len()
                invariant
                    *v == Value::Mapping(*m),
                    i <= m.len(),
                    texts == detailed_entries(entries(m@)),
                    string_views(parts@) == texts.take(i as int),
                decreases m.len() - i,
            {
                proof {
                    broadcast use vstd::std_specs::vec::axiom_vec_index_decreases;

                    assert(decreases_to!(*m => m[i as int]));
                    assert(decreases_to!(m[i as int] => m[i as int].1));
                    assert(decreases_to!(*v => v->Mapping_0));
                }
                let t: String = show_detailed(&m[i].1);
                let e: String = cat3(debug_text(m[i].0.as_str()).as_str(), ": ", t.as_str());
                proof {
                    lemma_string_views_push(parts@, e);
                }
                parts.push(e);
                i += 1;
                assert(string_views(parts@) =~= texts.take(i as int));
            }
            assert(texts.take(i as int) =~= texts);
            proof {
                lemma_val_mapping(*m);
            }
            cat3("Map({", crate::text::join_strings(&parts, ", ").as_str(), "})")
        },
    }
}

/// How an allowed value is shown in a message.
pub open spec fn allowed_text(v: Val) -> Seq<char> {
    match v {
        Val::Null => "null"@,
        Val::List(_) => detailed(v),
        Val::Mapping(_) => detailed(v),
        other => shown(other),
    }
}

/// Allowed values as they are shown in a message, in brackets and quotes.
pub open spec fn allowed_list(vs: Seq<Val>) -> Seq<char> {
    "["@ + joined(Seq::new(vs.len(), |i: int| debug_quoted(allowed_text(vs[i]))), ", "@) + "]"@
}

/// Shows an allowed value in a message.
fn value_display(v: &Value) -> (r: String)
    ensures
        r@ == allowed_text(val(*v)),
{
    match v {
        Value::Null => "null".to_owned(),
        Value::List(_) => show_detailed(v),
        Value::Mapping(_) => show_detailed(v),
        other => other.display_value(),
    }
}

/// Shows allowed values in a message.
fn show_allowed(vs: &Vec<Value>) -> (r: String)
    ensures
        r@ == allowed_list(vals(vs@)),
{
    let ghost all = vals(vs@);
    let ghost texts = Seq::new(all.len(), |i: int| debug_quoted(allowed_text(all[i])));
    let mut parts: Vec<String> = Vec::new();
    let mut i: usize = 0;
    assert(string_views(parts@) =~= texts.take(0));
    while i < vs.len()
        invariant
            all == vals(vs@),
            texts == Seq::new(all.len(), |i: int| debug_quoted(allowed_text(all[i]))),
            i <= vs.len(),
            string_views(parts@) == texts.take(i as int),
        decreases vs.len() - i,
    {
        let t: String = debug_text(value_display(&vs[i]).as_str());
        proof {
            lemma_string_views_push(parts@, t);
        }
        parts.push(t);
        i += 1;
        assert(string_views(parts@) =~= texts.take(i as int));
    }
    assert(texts.take(i as int) =~= texts);
    cat3("[", crate::text::join_strings(&parts, ", ").as_str(), "]")
}

/// Whether a number is below another; not where one of them is no number.
pub open spec fn is_below(a: (u64, Seq<char>), b: (u64, Seq<char>)) -> bool {
    float_order(a.0, b.0) == Some(Order::Less)
}

/// Tells whether a number is below another.
fn below_number(a: &Float, b: &Float) -> (r: bool)
    ensures
        r == is_below(a@, b@),
{
    match order_floats(a.bits, b.bits) {
        Some(o) => o == Order::Less,
        None => false,
    }
}

/// The message for a value outside the format of its type.
pub open spec fn format_message(s: Seq<char>, field_type: Seq<char>) -> Seq<char> {
    if field_type == "wikilink"@ {
        "value '"@ + s
            + "' is not a valid wikilink; expected [[name]], [[name|alias]], [[name#section]], or [[name#section|alias]]"@
    } else if field_type == "date"@ {
        "value '"@ + s + "' is not a valid date; expected YYYY-MM-DD"@
    } else {
        "value '"@ + s + "' is not a valid URL"@
    }
}

/// What is wrong with the value of a field, as messages in order: its kind, the
/// allowed values, the range and the format.
pub open spec fn complaints(v: Val, rule: FieldRule) -> Seq<Seq<char>> {
    (if kind_fits(kind(v), rule.field_type) {
        seq![]
    } else {
        seq!["expected type '"@ + rule.field_type + "', got '"@ + kind(v) + "'"@]
    }) + (if rule.enum_values.len() == 0 || is_allowed(rule.enum_values, shown(v)) {
        seq![]
    } else {
        seq![
            "value '"@ + shown(v) + "' not in allowed values: "@ + allowed_list(rule.enum_values),
        ]
    }) + (match (rule.min, float_of(v)) {
        (Some(min), Some(n)) => if is_below(n, min) {
            seq!["value "@ + n.1 + " is below minimum "@ + min.1]
        } else {
            seq![]
        },
        _ => seq![],
    }) + (match (rule.max, float_of(v)) {
        (Some(max), Some(n)) => if is_below(max, n) {
            seq!["value "@ + n.1 + " exceeds maximum "@ + max.1]
        } else {
            seq![]
        },
        _ => seq![],
    }) + (match v {
        Val::Text(s) => if has_format(s, rule.field_type) {
            seq![]
        } else {
            seq![format_message(s, rule.field_type)]
        },
        _ => seq![],
    })
}

/// Messages as violations of a field.
pub open spec fn as_violations(file: Seq<char>, field: Seq<char>, messages: Seq<Seq<char>>) -> Seq<
    Vio,
> {
    Seq::new(messages.len(), |i: int| Vio { file, field, message: messages[i] })
}

/// The violations of the required fields that are missing or null.
pub open spec fn required_violations(
    file: Seq<char>,
    fields: Seq<(Seq<char>, Val)>,
    required: Seq<Seq<char>>,
) -> Seq<Vio>
    decreases required.len(),
{
    if required.len() == 0 {
        seq![]
    } else {
        let before = required_violations(file, fields, required.drop_last());
        let f = field(fields, required.last());
        if f is None || f == Some(Val::Null) {
            before.push(
                Vio {
                    file,
                    field: required.last(),
                    message: "required field is missing or null"@,
                },
            )
        } else {
            before
        }
    }
}

/// The violations of the rules for fields; a field that is absent or null breaks
/// none.
pub open spec fn rule_violations(
    file: Seq<char>,
    fields: Seq<(Seq<char>, Val)>,
    rs: Seq<(Seq<char>, FieldRule)>,
) -> Seq<Vio>
    decreases rs.len(),
{
    if rs.len() == 0 {
        seq![]
    } else {
        let before = rule_violations(file, fields, rs.drop_last());
        match field(fields, rs.last().0) {
            None => before,
            Some(Val::Null) => before,
            Some(v) => before + as_violations(file, rs.last().0, complaints(v, rs.last().1)),
        }
    }
}

/// What is wrong with the fields of a note.
pub open spec fn violations(
    file: Seq<char>,
    fields: Seq<(Seq<char>, Val)>,
    c: CollectionRule,
) -> Seq<Vio> {
    required_violations(file, fields, c.required) + rule_violations(file, fields, c.fields)
}

/// Violations followed by one more.
proof fn lemma_vios_push(v: Seq<Violation>, x: Violation)
    ensures
        vios(v.push(x)) == vios(v).push(x@),
{
    assert(vios(v.push(x)) =~= vios(v).push(x@));
}

/// Lists what is wrong with the value of a field.
fn complain(v: &Value, rule: &FieldSchema) -> (r: Vec<String>)
    ensures
        string_views(r@) == complaints(val(*v), rule@),
{
    let mut out: Vec<String> = Vec::new();
    let actual: &str = v.kind_name();
    let shown_text: String = v.display_value();
    assert(string_views(out@) =~= seq![]);
    if !type_matches(actual, rule.field_type.as_str()) {
        let t: String = cat5(
            "expected type '",
            rule.field_type.as_str(),
            "', got '",
            actual,
            "'",
        );
        proof {
            lemma_string_views_push(out@, t);
        }
        out.push(t);
    }
    if rule.enum_values.len() > 0 && !in_allowed(&rule.enum_values, shown_text.as_str()) {
        let t: String = cat4(
            "value '",
            shown_text.as_str(),
            "' not in allowed values: ",
            show_allowed(&rule.enum_values).as_str(),
        );
        proof {
            lemma_string_views_push(out@, t);
        }
        out.push(t);
    }
    let number: Option<Float> = v.as_float();
    match (&rule.min, &number) {
        (Some(min), Some(n)) => {
            if below_number(n, min) {
                let t: String = cat4(
                    "value ",
                    n.text.as_str(),
                    " is below minimum ",
                    min.text.as_str(),
                );
                proof {
                    lemma_string_views_push(out@, t);
                }
                out.push(t);
            }
        },
        _ => {},
    }
    match (&rule.max, &number) {
        (Some(max), Some(n)) => {
            if below_number(max, n) {
                let t: String = cat4(
                    "value ",
                    n.text.as_str(),
                    " exceeds maximum ",
                    max.text.as_str(),
                );
                proof {
                    lemma_string_views_push(out@, t);
                }
                out.push(t);
            }
        },
        _ => {},
    }
    match v {
        Value::String(s) => {
            if !check_format(s.as_str(), rule.field_type.as_str()) {
                let t: String = if same_text(rule.field_type.as_str(), "wikilink") {
                    cat3(
                        "value '",
                        s.as_str(),
                        "' is not a valid wikilink; expected [[name]], [[name|alias]], [[name#section]], or [[name#section|alias]]",
                    )
                } else if same_text(rule.field_type.as_str(), "date") {
                    cat3("value '", s.as_str(), "' is not a valid date; expected YYYY-MM-DD")
                } else {
                    cat3("value '", s.as_str(), "' is not a valid URL")
                };
                proof {
                    lemma_string_views_push(out@, t);
                }
                out.push(t);
            }
        },
        _ => {},
    }
    assert(string_views(out@) =~= complaints(val(*v), rule@));
    out
}

/// Checks the fields of a note against a schema.
pub fn validate_record(
    filename: &str,
    fields: &Vec<(String, Value)>,
    schema: &CollectionSchema,
) -> (r: Vec<Violation>)
    ensures
        vios(r@) == violations(filename@, entries(fields@), schema@),
{
    let ghost fs = entries(fields@);
    let ghost required = schema@.required;
    let ghost rs = schema@.fields;
    let mut out: Vec<Violation> = Vec::new();
    let mut i: usize = 0;
    assert(required.take(0) =~= seq![]);
    assert(vios(out@) =~= seq![]);
    while i < schema.required.len()
        invariant
            fs == entries(fields@),
            required == string_views(schema.required@),
            i <= schema.required.len(),
            vios(out@) == required_violations(filename@, fs, required.take(i as int)),
        decreases schema.required.len() - i,
    {
        assert(required.take(i + 1).drop_last() =~= required.take(i as int));
        let name: &String = &schema.required[i];
        let missing: bool = match find_key(fields, name.as_str()) {
            Some(k) => match &fields[k].1 {
                Value::Null => true,
                _ => false,
            },
            None => true,
        };
        if missing {
            let v: Violation = Violation {
                file: filename.to_owned(),
                field: name.clone(),
                message: "required field is missing or null".to_owned(),
            };
            proof {
                lemma_vios_push(out@, v);
            }
            out.push(v);
        }
        i += 1;
    }
    assert(required.take(i as int) =~= required);
    let ghost first = vios(out@);
    let mut j: usize = 0;
    assert(rs.take(0) =~= seq![]);
    assert(vios(out@) =~= first + rule_violations(filename@, fs, rs.take(0)));
    while j < schema.fields.len()
        invariant
            fs == entries(fields@),
            rs == rules(schema.fields@),
            j <= schema.fields.len(),
            vios(out@) == first + rule_violations(filename@, fs, rs.take(j as int)),
        decreases schema.fields.len() - j,
    {
        assert(rs.take(j + 1).drop_last() =~= rs.take(j as int));
        assert(rs.take(j + 1).last() == (schema.fields@[j as int].0@, schema.fields@[j as int].1@));
        let name: &String = &schema.fields[j].0;
        let ghost before = vios(out@);
        match find_key(fields, name.as_str()) {
            Some(k) => match &fields[k].1 {
                Value::Null => {},
                v => {
                    let messages: Vec<String> = complain(v, &schema.fields[j].1);
                    let ghost ms = string_views(messages@);
                    let ghost new = as_violations(filename@, name@, ms);
                    let mut m: usize = 0;
                    assert(vios(out@) =~= before + new.take(0));
                    while m < messages.len()
                        invariant
                            ms == string_views(messages@),
                            new == as_violations(filename@, name@, ms),
                            m <= messages.len(),
                            vios(out@) == before + new.take(m as int),
                        decreases messages.len() - m,
                    {
                        let x: Violation = Violation {
                            file: filename.to_owned(),
                            field: name.clone(),
                            message: messages[m].clone(),
                        };
                        proof {
                            lemma_vios_push(out@, x);
                        }
                        out.push(x);
                        m += 1;
                        assert(vios(out@) =~= before + new.take(m as int));
                    }
                    assert(new.take(m as int) =~= new);
                },
            },
            None => {},
        }
        assert(vios(out@) =~= first + rule_violations(filename@, fs, rs.take(j + 1)));
        j += 1;
    }
    assert(rs.take(j as int) =~= rs);
    out
}

// ── Which collections apply ────────────────────────────────────────────────

/// Whether a folder is another or lies above it; the empty one lies above all.
pub open spec fn is_above(ancestor: Seq<char>, child: Seq<char>) -> bool {
    ancestor.len() == 0 || ancestor == child || starts(child, ancestor + "/"@)
}

/// Whether one of two folders is the other or lies above it.
pub open spec fn overlap(a: Seq<char>, b: Seq<char>) -> bool {
    is_above(a, b) || is_above(b, a)
}

/// How deep a folder lies: the number of its slashes.
pub open spec fn depth(folder: Seq<char>) -> nat
    decreases folder.len(),
{
    if folder.len() == 0 {
        0
    } else {
        depth(folder.drop_last()) + if folder.last() == '/' {
            1nat
        } else {
            0nat
        }
    }
}

/// Collections by depth, those of one depth in their order, with one more.
pub open spec fn inserted_by_depth(v: Seq<CollectionRule>, c: CollectionRule) -> Seq<CollectionRule>
    decreases v.len(),
{
    if v.len() == 0 || depth(v.last().folder) <= depth(c.folder) {
        v.push(c)
    } else {
        inserted_by_depth(v.drop_last(), c).push(v.last())
    }
}

/// Collections by depth, those of one depth in their order.
pub open spec fn by_depth(v: Seq<CollectionRule>) -> Seq<CollectionRule>
    decreases v.len(),
{
    if v.len() == 0 {
        seq![]
    } else {
        inserted_by_depth(by_depth(v.drop_last()), v.last())
    }
}

/// Whether a note meets the first `n` filters of a collection, tried in order up
/// to the first that it does not meet.
pub open spec fn meets_filters(
    c: CollectionRule,
    n: int,
    r: Rec,
    root: Seq<char>,
) -> Result<bool, Failure>
    decreases n,
{
    if n <= 0 {
        Ok(true)
    } else {
        match meets_filters(c, n - 1, r, root) {
            Ok(true) => match parsed(c.filter[n - 1]) {
                Ok(e) => Ok(holds(e, r, root, None)),
                Err(e) => Err(
                    Failure::SchemaError(
                        "parsing filter '"@ + c.filter[n - 1] + "' on collection with folder '"@
                            + c.folder + "': "@ + message(e),
                    ),
                ),
            },
            other => other,
        }
    }
}

/// Whether a collection applies to a note of a folder.
pub open spec fn applies(
    c: CollectionRule,
    folder: Seq<char>,
    r: Rec,
    root: Seq<char>,
) -> Result<bool, Failure> {
    if is_above(c.folder, folder) {
        meets_filters(c, c.filter.len() as int, r, root)
    } else {
        Ok(false)
    }
}

/// Those of some collections that apply to a note, in order; the first failure.
pub open spec fn applying(
    cs: Seq<(Seq<char>, CollectionRule)>,
    folder: Seq<char>,
    r: Rec,
    root: Seq<char>,
) -> Result<Seq<CollectionRule>, Failure>
    decreases cs.len(),
{
    if cs.len() == 0 {
        Ok(seq![])
    } else {
        match applying(cs.drop_last(), folder, r, root) {
            Ok(v) => match applies(cs.last().1, folder, r, root) {
                Ok(true) => Ok(v.push(cs.last().1)),
                Ok(false) => Ok(v),
                Err(e) => Err(e),
            },
            Err(e) => Err(e),
        }
    }
}

/// What references to collections are.
pub open spec fn ref_views(v: Seq<&CollectionSchema>) -> Seq<CollectionRule> {
    Seq::new(v.len(), |i: int| v[i]@)
}

/// Tells whether a folder is another or lies above it.
pub fn folder_is_ancestor_or_equal(ancestor: &str, child: &str) -> (r: bool)
    ensures
        r == is_above(ancestor@, child@),
{
    ancestor.is_empty() || same_text(ancestor, child) || starts_with(
        &to_chars(child),
        cat2(ancestor, "/").as_str(),
    )
}

/// Tells whether one of two folders is the other or lies above it.
pub fn folders_overlap(a: &str, b: &str) -> (r: bool)
    ensures
        r == overlap(a@, b@),
{
    folder_is_ancestor_or_equal(a, b) || folder_is_ancestor_or_equal(b, a)
}

/// Counts the slashes of a folder.
fn folder_depth(folder: &str) -> (r: usize)
    ensures
        r == depth(folder@),
{
    let s: Vec<char> = to_chars(folder);
    let mut n: usize = 0;
    let mut i: usize = 0;
    assert(s@.take(0) =~= seq![]);
    while i < s.len()
        invariant
            i <= s.len(),
            n <= i,
            n == depth(s@.take(i as int)),
        decreases s.len() - i,
    {
        assert(s@.take(i + 1).drop_last() =~= s@.take(i as int));
        if s[i] == '/' {
            n += 1;
        }
        i += 1;
    }
    assert(s@.take(i as int) =~= s@);
    n
}

/// Tells whether a note meets the filters of a collection.
fn check_filters(c: &CollectionSchema, r: &Record, root: &str) -> (b: Result<bool, VaultdbError>)
    ensures
        bool_view(b) == meets_filters(c@, c@.filter.len() as int, r@, root@),
{
    let mut i: usize = 0;
    let ghost n = c@.filter.len() as int;
    while i < c.filter.len()
        invariant
            n == c@.filter.len(),
            n == c.filter@.len(),
            i <= c.filter.len(),
            meets_filters(c@, i as int, r@, root@) == Ok::<bool, Failure>(true),
        decreases c.filter.len() - i,
    {
        assert(c@.filter[i as int] == c.filter@[i as int]@);
        match crate::dsl::parse(c.filter[i].as_str()) {
            Ok(e) => {
                if !evaluate_expr(&e, r, root, None) {
                    proof {
                        lemma_filters_stop(c@, i + 1, n, r@, root@);
                    }
                    return Ok(false);
                }
            },
            Err(e) => {
                proof {
                    lemma_filters_stop(c@, i + 1, n, r@, root@);
                }
                let head: String = cat5(
                    "parsing filter '",
                    c.filter[i].as_str(),
                    "' on collection with folder '",
                    c.folder.as_str(),
                    "': ",
                );
                return Err(
                    VaultdbError::SchemaError(cat2(head.as_str(), e.to_string().as_str())),
                );
            },
        }
        i += 1;
    }
    Ok(true)
}

/// Once a filter is not met or cannot be read, the later ones are not tried.
proof fn lemma_filters_stop(c: CollectionRule, k: int, n: int, r: Rec, root: Seq<char>)
    requires
        0 <= k <= n,
        meets_filters(c, k, r, root) != Ok::<bool, Failure>(true),
    ensures
        meets_filters(c, n, r, root) == meets_filters(c, k, r, root),
    decreases n - k,
{
    if k < n {
        lemma_filters_stop(c, k + 1, n, r, root);
    }
}

/// What an answer that may fail is.
pub open spec fn bool_view(r: Result<bool, VaultdbError>) -> Result<bool, Failure> {
    match r {
        Ok(b) => Ok(b),
        Err(e) => Err(e@),
    }
}

/// Puts a collection behind those that lie no deeper.
fn insert_by_depth<'a>(v: &mut Vec<&'a CollectionSchema>, c: &'a CollectionSchema)
    ensures
        ref_views(final(v)@) == inserted_by_depth(ref_views(old(v)@), c@),
{
    let ghost before = v@;
    let d: usize = folder_depth(c.folder.as_str());
    let mut at: usize = v.len();
    let ghost all = ref_views(v@);
    assert(all.take(at as int) =~= all);
    assert(all.skip(at as int) =~= seq![]);
    assert(inserted_by_depth(all.take(at as int), c@) + all.skip(at as int) =~= inserted_by_depth(
        all,
        c@,
    ));
    while at > 0 && folder_depth(v[at - 1].folder.as_str()) > d
        invariant
            v@ == before,
            all == ref_views(before),
            at <= v.len(),
            d == depth(c@.folder),
            inserted_by_depth(all.take(at as int), c@) + all.skip(at as int) == inserted_by_depth(
                all,
                c@,
            ),
        decreases at,
    {
        let ghost t = all.take(at as int);
        assert(t.last() == before[at - 1]@);
        assert(t.drop_last() =~= all.take(at - 1));
        assert(inserted_by_depth(t.drop_last(), c@).push(t.last()) + all.skip(at as int)
            =~= inserted_by_depth(all.take(at - 1), c@) + all.skip(at - 1));
        at -= 1;
    }
    if at > 0 {
        assert(all.take(at as int).last() == before[at - 1]@);
    }
    v.insert(at, c);
    assert(ref_views(v@) =~= all.take(at as int).push(c@) + all.skip(at as int));
}

impl VaultSchema {
    /// The collections of a folder and of those below it.
    pub fn collections_for_folder(&self, folder: &str) -> (r: Vec<&(String, CollectionSchema)>)
        ensures
            pair_views(r@) == in_folder(collection_views(self.collections@), folder@),
    {
        let prefix: String = cat2(folder, "/");
        let ghost all = collection_views(self.collections@);
        let mut out: Vec<&(String, CollectionSchema)> = Vec::new();
        let mut i: usize = 0;
        assert(all.take(0) =~= seq![]);
        assert(pair_views(out@) =~= seq![]);
        while i < self.collections.len()
            invariant
                prefix@ == folder@ + "/"@,
                all == collection_views(self.collections@),
                i <= self.collections.len(),
                pair_views(out@) == in_folder(all.take(i as int), folder@),
            decreases self.collections.len() - i,
        {
            assert(all.take(i + 1).drop_last() =~= all.take(i as int));
            let c: &(String, CollectionSchema) = &self.collections[i];
            if same_text(c.1.folder.as_str(), folder) || starts_with(
                &to_chars(c.1.folder.as_str()),
                prefix.as_str(),
            ) {
                let ghost before = out@;
                out.push(c);
                assert(pair_views(out@) =~= pair_views(before).push((c.0@, c.1@)));
            }
            i += 1;
        }
        assert(all.take(i as int) =~= all);
        out
    }

    /// The first collection whose folder is the given one.
    pub fn collection_for_folder(&self, folder: &str) -> (r: Option<&CollectionSchema>)
        ensures
            match r {
                Some(c) => of_folder(collection_views(self.collections@), folder@, 0) == Some(c@),
                None => of_folder(collection_views(self.collections@), folder@, 0) is None,
            },
    {
        let ghost all = collection_views(self.collections@);
        let mut i: usize = 0;
        while i < self.collections.len()
            invariant
                all == collection_views(self.collections@),
                i <= self.collections.len(),
                of_folder(all, folder@, 0) == of_folder(all, folder@, i as int),
            decreases self.collections.len() - i,
        {
            if same_text(self.collections[i].1.folder.as_str(), folder) {
                return Some(&self.collections[i].1);
            }
            i += 1;
        }
        None
    }

    /// The collections that apply to a note of a folder, the shallowest folder
    /// first. A filter that cannot be read is a failure.
    pub fn applicable_collections(&self, record_folder: &str, projected: &Record, vault_root: &str)
        -> (r: Result<Vec<&CollectionSchema>, VaultdbError>)
        ensures
            match applying(
                collection_views(self.collections@),
                record_folder@,
                projected@,
                vault_root@,
            ) {
                Ok(v) => r is Ok && ref_views(r->Ok_0@) == by_depth(v),
                Err(e) => r is Err && r->Err_0@ == e,
            },
    {
        let ghost all = collection_views(self.collections@);
        let mut out: Vec<&CollectionSchema> = Vec::new();
        let mut i: usize = 0;
        let ghost mut found: Seq<CollectionRule> = seq![];
        assert(all.take(0) =~= seq![]);
        assert(ref_views(out@) =~= seq![]);
        while i < self.collections.len()
            invariant
                all == collection_views(self.collections@),
                i <= self.collections.len(),
                applying(all.take(i as int), record_folder@, projected@, vault_root@) == Ok::<
                    Seq<CollectionRule>,
                    Failure,
                >(found),
                ref_views(out@) == by_depth(found),
            decreases self.collections.len() - i,
        {
            assert(all.take(i + 1).drop_last() =~= all.take(i as int));
            let c: &CollectionSchema = &self.collections[i].1;
            assert(all.take(i + 1).last().1 == c@);
            if folder_is_ancestor_or_equal(c.folder.as_str(), record_folder) {
                match check_filters(c, projected, vault_root) {
                    Ok(true) => {
                        insert_by_depth(&mut out, c);
                        proof {
                            let more = found.push(c@);
                            assert(more.drop_last() =~= found);
                            found = more;
                        }
                    },
                    Ok(false) => {},
                    Err(e) => {
                        proof {
                            lemma_applying_stops(
                                all,
                                i + 1,
                                record_folder@,
                                projected@,
                                vault_root@,
                            );
                        }
                        return Err(e);
                    },
                }
            }
            i += 1;
        }
        assert(all.take(i as int) =~= all);
        Ok(out)
    }
}

/// The first failure stands.
proof fn lemma_applying_stops(
    cs: Seq<(Seq<char>, CollectionRule)>,
    k: int,
    folder: Seq<char>,
    r: Rec,
    root: Seq<char>,
)
    requires
        0 <= k <= cs.len(),
        applying(cs.take(k), folder, r, root) is Err,
    ensures
        applying(cs, folder, r, root) == applying(cs.take(k), folder, r, root),
    decreases cs.len() - k,
{
    if k == cs.len() {
        assert(cs.take(k) =~= cs);
    } else {
        assert(cs.take(k + 1).drop_last() =~= cs.take(k));
        lemma_applying_stops(cs, k + 1, folder, r, root);
    }
}

/// What references to named collections are.
pub open spec fn pair_views(v: Seq<&(String, CollectionSchema)>) -> Seq<
    (Seq<char>, CollectionRule),
> {
    Seq::new(v.len(), |i: int| (v[i].0@, v[i].1@))
}

/// Those of some collections whose folder is the given one or lies below it.
pub open spec fn in_folder(cs: Seq<(Seq<char>, CollectionRule)>, folder: Seq<char>) -> Seq<
    (Seq<char>, CollectionRule),
>
    decreases cs.len(),
{
    if cs.len() == 0 {
        seq![]
    } else if cs.last().1.folder == folder || starts(cs.last().1.folder, folder + "/"@) {
        in_folder(cs.drop_last(), folder).push(cs.last())
    } else {
        in_folder(cs.drop_last(), folder)
    }
}

/// The first of some collections at or after `i` whose folder is the given one.
pub open spec fn of_folder(
    cs: Seq<(Seq<char>, CollectionRule)>,
    folder: Seq<char>,
    i: int,
) -> Option<CollectionRule>
    decreases cs.len() - i,
{
    if i < 0 || i >= cs.len() {
        None
    } else if cs[i].1.folder == folder {
        Some(cs[i].1)
    } else {
        of_folder(cs, folder, i + 1)
    }
}

// ── Defaults ───────────────────────────────────────────────────────────────

/// The time of day in seconds as a text.
pub open spec fn stamp_text(secs: u64) -> Seq<char> {
    crate::record::time_text(secs) + ":"@ + padded((secs % 60) as nat, 2)
}

/// The value that a keyword for a default stands for at a time.
pub open spec fn resolved(expr: Seq<char>, now: u64) -> Result<Val, Failure> {
    if expr == "today"@ {
        Ok(Val::Text(date_text(now)))
    } else if expr == "now"@ {
        Ok(Val::Text(stamp_text(now)))
    } else if expr == "epoch"@ {
        Ok(Val::Int(now as i64))
    } else {
        Err(
            Failure::SchemaError(
                "unknown default_expr '"@ + expr
                    + "' (expected one of [\"today\", \"now\", \"epoch\"])"@,
            ),
        )
    }
}

/// What a value that may fail is.
pub open spec fn value_view(r: Result<Value, VaultdbError>) -> Result<Val, Failure> {
    match r {
        Ok(v) => Ok(val(v)),
        Err(e) => Err(e@),
    }
}

/// A time in seconds as an integer value.
fn seconds_value(secs: u64) -> (v: Value)
    ensures
        val(v) == Val::Int(secs as i64),
{
    Value::Integer(secs as i64)
}

/// Finds the value that a keyword for a default stands for at a time, given in
/// seconds since 1970.
pub fn resolve_default_expr(expr: &str, now: u64) -> (r: Result<Value, VaultdbError>)
    ensures
        value_view(r) == resolved(expr@, now),
{
    if same_text(expr, "today") {
        Ok(Value::String(format_date(now)))
    } else if same_text(expr, "now") {
        Ok(Value::String(crate::record::format_stamp(now)))
    } else if same_text(expr, "epoch") {
        Ok(seconds_value(now))
    } else {
        Err(
            VaultdbError::SchemaError(
                cat3(
                    "unknown default_expr '",
                    expr,
                    "' (expected one of [\"today\", \"now\", \"epoch\"])",
                ),
            ),
        )
    }
}

/// What messages about a field of a collection start with.
pub open spec fn field_head(col: Seq<char>, name: Seq<char>) -> Seq<char> {
    "collection '"@ + col + "', field '"@ + name + "': "@
}

/// What is wrong with the default of a field.
pub open spec fn default_problem(col: Seq<char>, name: Seq<char>, rule: FieldRule) -> Option<
    Seq<char>,
> {
    let head = field_head(col, name);
    if rule.default is Some && rule.default_expr is Some {
        Some(head + "`default` and `default_expr` are mutually exclusive"@)
    } else {
        match rule.default_expr {
            Some(e) => if e == "today"@ || e == "now"@ || e == "epoch"@ {
                None
            } else {
                Some(
                    head + "default_expr '"@ + e
                        + "' is not recognised (expected one of [\"today\", \"now\", \"epoch\"])"@,
                )
            },
            None => match rule.default {
                Some(v) => if !kind_fits(kind(v), rule.field_type) {
                    Some(
                        head + "default has type '"@ + kind(v) + "', incompatible with field type '"@
                            + rule.field_type + "'"@,
                    )
                } else if v is Text && !has_format(v->Text_0, rule.field_type) {
                    Some(
                        head + "default '"@ + v->Text_0 + "' is not a valid "@ + rule.field_type,
                    )
                } else if rule.enum_values.len() > 0 && !is_allowed(rule.enum_values, shown(v)) {
                    Some(head + "default '"@ + shown(v) + "' is not in `enum` values"@)
                } else {
                    None
                },
                None => None,
            },
        }
    }
}

/// The first of two problems.
pub open spec fn first_problem(a: Option<Seq<char>>, b: Option<Seq<char>>) -> Option<Seq<char>> {
    if a is Some {
        a
    } else {
        b
    }
}

/// The first problem with the defaults of some fields.
pub open spec fn defaults_problem(col: Seq<char>, rs: Seq<(Seq<char>, FieldRule)>) -> Option<
    Seq<char>,
>
    decreases rs.len(),
{
    if rs.len() == 0 {
        None
    } else {
        first_problem(
            defaults_problem(col, rs.drop_last()),
            default_problem(col, rs.last().0, rs.last().1),
        )
    }
}

/// The first problem with the defaults of some collections.
pub open spec fn schema_defaults_problem(cs: Seq<(Seq<char>, CollectionRule)>) -> Option<Seq<char>>
    decreases cs.len(),
{
    if cs.len() == 0 {
        None
    } else {
        first_problem(
            schema_defaults_problem(cs.drop_last()),
            defaults_problem(cs.last().0, cs.last().1.fields),
        )
    }
}

/// The outcome of a check: a problem is a failure of the schema.
pub open spec fn checked(problem: Option<Seq<char>>) -> Result<(), Failure> {
    match problem {
        Some(p) => Err(Failure::SchemaError(p)),
        None => Ok(()),
    }
}

/// What the outcome of a check is.
pub open spec fn check_view(r: Result<(), VaultdbError>) -> Result<(), Failure> {
    match r {
        Ok(()) => Ok(()),
        Err(e) => Err(e@),
    }
}

/// Finds what is wrong with the default of a field.
fn validate_field_defaults(col: &str, name: &str, rule: &FieldSchema) -> (r: Option<String>)
    ensures
        text_view(r) == default_problem(col@, name@, rule@),
{
    let head: String = cat5("collection '", col, "', field '", name, "': ");
    let h: &str = head.as_str();
    if rule.default.is_some() && rule.default_expr.is_some() {
        return Some(cat2(h, "`default` and `default_expr` are mutually exclusive"));
    }
    match &rule.default_expr {
        Some(e) => {
            if same_text(e.as_str(), "today") || same_text(e.as_str(), "now") || same_text(
                e.as_str(),
                "epoch",
            ) {
                return None;
            }
            return Some(
                cat4(
                    h,
                    "default_expr '",
                    e.as_str(),
                    "' is not recognised (expected one of [\"today\", \"now\", \"epoch\"])",
                ),
            );
        },
        None => {},
    }
    match &rule.default {
        Some(v) => {
            let actual: &str = v.kind_name();
            if !type_matches(actual, rule.field_type.as_str()) {
                let mut t: String = cat4(
                    h,
                    "default has type '",
                    actual,
                    "', incompatible with field type '",
                );
                t.append(rule.field_type.as_str());
                t.append("'");
                return Some(t);
            }
            match v {
                Value::String(s) => {
                    if !check_format(s.as_str(), rule.field_type.as_str()) {
                        return Some(
                            cat5(
                                h,
                                "default '",
                                s.as_str(),
                                "' is not a valid ",
                                rule.field_type.as_str(),
                            ),
                        );
                    }
                },
                _ => {},
            }
            let display: String = v.display_value();
            if rule.enum_values.len() > 0 && !in_allowed(&rule.enum_values, display.as_str()) {
                return Some(
                    cat4(h, "default '", display.as_str(), "' is not in `enum` values"),
                );
            }
            None
        },
        None => None,
    }
}

/// The first problem with the defaults of the first fields is that of all.
proof fn lemma_defaults_prefix(col: Seq<char>, rs: Seq<(Seq<char>, FieldRule)>, k: int)
    requires
        0 <= k <= rs.len(),
        defaults_problem(col, rs.take(k)) is Some,
    ensures
        defaults_problem(col, rs) == defaults_problem(col, rs.take(k)),
    decreases rs.len() - k,
{
    if k == rs.len() {
        assert(rs.take(k) =~= rs);
    } else {
        assert(rs.take(k + 1).drop_last() =~= rs.take(k));
        lemma_defaults_prefix(col, rs, k + 1);
    }
}

/// The first problem with the defaults of the first collections is that of all.
proof fn lemma_schema_defaults_prefix(cs: Seq<(Seq<char>, CollectionRule)>, k: int)
    requires
        0 <= k <= cs.len(),
        schema_defaults_problem(cs.take(k)) is Some,
    ensures
        schema_defaults_problem(cs) == schema_defaults_problem(cs.take(k)),
    decreases cs.len() - k,
{
    if k == cs.len() {
        assert(cs.take(k) =~= cs);
    } else {
        assert(cs.take(k + 1).drop_last() =~= cs.take(k));
        lemma_schema_defaults_prefix(cs, k + 1);
    }
}

/// Finds the first problem with the defaults of a collection.
fn validate_collection_defaults(col: &str, fields: &Vec<(String, FieldSchema)>) -> (r: Option<
    String,
>)
    ensures
        text_view(r) == defaults_problem(col@, rules(fields@)),
{
    let ghost all = rules(fields@);
    let mut i: usize = 0;
    assert(all.take(0) =~= seq![]);
    while i < fields.len()
        invariant
            all == rules(fields@),
            i <= fields.len(),
            defaults_problem(col@, all.take(i as int)) is None,
        decreases fields.len() - i,
    {
        assert(all.take(i + 1).drop_last() =~= all.take(i as int));
        match validate_field_defaults(col, fields[i].0.as_str(), &fields[i].1) {
            Some(p) => {
                proof {
                    lemma_defaults_prefix(col@, all, i + 1);
                }
                return Some(p);
            },
            None => {},
        }
        i += 1;
    }
    assert(all.take(i as int) =~= all);
    None
}

/// Checks the defaults of all fields.
pub fn validate_schema_defaults(schema: &VaultSchema) -> (r: Result<(), VaultdbError>)
    ensures
        check_view(r) == checked(schema_defaults_problem(collection_views(schema.collections@))),
{
    let ghost all = collection_views(schema.collections@);
    let mut i: usize = 0;
    assert(all.take(0) =~= seq![]);
    while i < schema.collections.len()
        invariant
            all == collection_views(schema.collections@),
            i <= schema.collections.len(),
            schema_defaults_problem(all.take(i as int)) is None,
        decreases schema.collections.len() - i,
    {
        assert(all.take(i + 1).drop_last() =~= all.take(i as int));
        match validate_collection_defaults(
            schema.collections[i].0.as_str(),
            &schema.collections[i].1.fields,
        ) {
            Some(p) => {
                proof {
                    lemma_schema_defaults_prefix(all, i + 1);
                }
                return Err(VaultdbError::SchemaError(p));
            },
            None => {},
        }
        i += 1;
    }
    assert(all.take(i as int) =~= all);
    Ok(())
}

// ── Consistency ────────────────────────────────────────────────────────────

/// The field and the value that alternatives stand for where they are a value as it is
/// written and the value that it reads as.
#[verifier::opaque]
pub open spec fn written_value(cs: Seq<Cond>) -> Option<(Seq<char>, Val)> {
    if cs.len() == 2 {
        match (cs[0], cs[1]) {
            (
                Cond::Predicate(Pred::Equals { field, value: Val::Text(t) }),
                Cond::And(ns),
            ) => if ns.len() > 0 {
                match ns[0] {
                    Cond::Predicate(Pred::Equals { field: other, value }) => if other == field
                        && value == scalar(t) {
                        Some((field, value))
                    } else {
                        None
                    },
                    _ => None,
                }
            } else {
                None
            },
            _ => None,
        }
    } else {
        None
    }
}

/// The equalities that a condition forces on fields: those that stand alone or
/// in a conjunction, in whatever form their values are written.
pub open spec fn forced(c: Cond) -> Seq<(Seq<char>, Val)>
    decreases c,
{
    match c {
        Cond::Predicate(Pred::Equals { field, value }) => seq![(field, value)],
        Cond::And(cs) => forced_by_all(cs),
        Cond::Or(cs) => match written_value(cs) {
            Some(x) => seq![x],
            None => seq![],
        },
        _ => seq![],
    }
}

/// The equalities that several conditions force on fields.
pub open spec fn forced_by_all(cs: Seq<Cond>) -> Seq<(Seq<char>, Val)>
    decreases cs,
{
    if cs.len() == 0 {
        seq![]
    } else {
        forced_by_all(cs.drop_last()) + forced(cs.last())
    }
}

/// The equalities that the filters of a collection force on fields; the first
/// filter that cannot be read is a problem.
pub open spec fn forced_by_filters(filters: Seq<Seq<char>>) -> Result<
    Seq<(Seq<char>, Val)>,
    Seq<char>,
>
    decreases filters.len(),
{
    if filters.len() == 0 {
        Ok(seq![])
    } else {
        match forced_by_filters(filters.drop_last()) {
            Ok(v) => match parsed(filters.last()) {
                Ok(c) => Ok(v + forced(c)),
                Err(e) => Err("parsing filter '"@ + filters.last() + "': "@ + message(e)),
            },
            Err(p) => Err(p),
        }
    }
}

/// Whether two lists of equalities force different values on one field.
pub open spec fn contradict(a: Seq<(Seq<char>, Val)>, b: Seq<(Seq<char>, Val)>) -> bool {
    exists|i: int, j: int|
        0 <= i < a.len() && 0 <= j < b.len() && (#[trigger] a[i]).0 == (#[trigger] b[j]).0
            && !equal_vals(a[i].1, b[j].1)
}

/// Whether the filters of two collections exclude each other.
pub open spec fn excluded(a: Seq<Seq<char>>, b: Seq<Seq<char>>) -> Result<bool, Seq<char>> {
    match forced_by_filters(a) {
        Ok(x) => match forced_by_filters(b) {
            Ok(y) => Ok(contradict(x, y)),
            Err(p) => Err(p),
        },
        Err(p) => Err(p),
    }
}

/// The larger of two numbers; what is no number gives way to the other.
pub open spec fn larger_number(a: (u64, Seq<char>), b: (u64, Seq<char>)) -> (u64, Seq<char>) {
    if is_below(a, b) || crate::float::place(a.0) is None {
        b
    } else {
        a
    }
}

/// The smaller of two numbers; what is no number gives way to the other.
pub open spec fn smaller_number(a: (u64, Seq<char>), b: (u64, Seq<char>)) -> (u64, Seq<char>) {
    if is_below(b, a) || crate::float::place(a.0) is None {
        b
    } else {
        a
    }
}

/// The lower bound that two lower bounds make.
pub open spec fn joint_min(
    a: Option<(u64, Seq<char>)>,
    b: Option<(u64, Seq<char>)>,
) -> Option<(u64, Seq<char>)> {
    match (a, b) {
        (Some(x), Some(y)) => Some(larger_number(x, y)),
        (Some(x), None) => a,
        (None, _) => b,
    }
}

/// The upper bound that two upper bounds make.
pub open spec fn joint_max(
    a: Option<(u64, Seq<char>)>,
    b: Option<(u64, Seq<char>)>,
) -> Option<(u64, Seq<char>)> {
    match (a, b) {
        (Some(x), Some(y)) => Some(smaller_number(x, y)),
        (Some(x), None) => a,
        (None, _) => b,
    }
}

/// Whether two lists of values share one.
pub open spec fn share_value(a: Seq<Val>, b: Seq<Val>) -> bool {
    exists|i: int, j: int|
        0 <= i < a.len() && 0 <= j < b.len() && equal_vals(#[trigger] a[i], #[trigger] b[j])
}

/// Why no value can meet the rules of two collections for one field.
pub open spec fn clash(
    name_a: Seq<char>,
    a: CollectionRule,
    fa: FieldRule,
    name_b: Seq<char>,
    b: CollectionRule,
    fb: FieldRule,
    name: Seq<char>,
) -> Option<Seq<char>> {
    let lo = joint_min(fa.min, fb.min);
    let hi = joint_max(fa.max, fb.max);
    if fa.field_type != fb.field_type {
        Some(
            "collections '"@ + name_a + "' (folder '"@ + a.folder + "') and '"@ + name_b
                + "' (folder '"@ + b.folder + "') both declare field '"@ + name
                + "' but with incompatible types '"@ + fa.field_type + "' vs '"@ + fb.field_type
                + "' — a single record under these folders must satisfy both, so the types must match"@,
        )
    } else if fa.enum_values.len() > 0 && fb.enum_values.len() > 0 && !share_value(
        fa.enum_values,
        fb.enum_values,
    ) {
        Some(
            "collections '"@ + name_a + "' and '"@ + name_b + "' declare field '"@ + name
                + "' with disjoint enum values (folders '"@ + a.folder + "' and '"@ + b.folder
                + "' overlap, so no value can satisfy both)"@,
        )
    } else if lo is Some && hi is Some && is_below(hi->0, lo->0) {
        Some(
            "collections '"@ + name_a + "' and '"@ + name_b + "' declare field '"@ + name
                + "' with disjoint numeric ranges: effective min="@ + (lo->0).1 + " > max="@ + (hi->0).1,
        )
    } else {
        None
    }
}

/// The rule for a field.
pub open spec fn rule_of(rs: Seq<(Seq<char>, FieldRule)>, name: Seq<char>) -> Option<FieldRule> {
    match key_at(rs, name, 0) {
        Some(i) => Some(rs[i].1),
        None => None,
    }
}

/// The first clash of two collections over some fields of the first.
pub open spec fn clash_over(
    a: (Seq<char>, CollectionRule),
    b: (Seq<char>, CollectionRule),
    fs: Seq<(Seq<char>, FieldRule)>,
) -> Option<Seq<char>>
    decreases fs.len(),
{
    if fs.len() == 0 {
        None
    } else {
        first_problem(
            clash_over(a, b, fs.drop_last()),
            match rule_of(b.1.fields, fs.last().0) {
                Some(fb) => clash(a.0, a.1, fs.last().1, b.0, b.1, fb, fs.last().0),
                None => None,
            },
        )
    }
}

/// The first clash of two collections. Those that cannot apply to one note do not
/// clash.
pub open spec fn pair_problem(
    a: (Seq<char>, CollectionRule),
    b: (Seq<char>, CollectionRule),
) -> Option<Seq<char>> {
    if !overlap(a.1.folder, b.1.folder) {
        None
    } else {
        match excluded(a.1.filter, b.1.filter) {
            Err(p) => Some(p),
            Ok(true) => None,
            Ok(false) => clash_over(a, b, a.1.fields),
        }
    }
}

/// The first clash of collection `i` with those behind it, up to `j`.
pub open spec fn row_problem(cs: Seq<(Seq<char>, CollectionRule)>, i: int, j: int) -> Option<
    Seq<char>,
>
    decreases j,
{
    if j <= i + 1 || j <= 0 {
        None
    } else {
        first_problem(row_problem(cs, i, j - 1), pair_problem(cs[i], cs[j - 1]))
    }
}

/// The first clash of the first `n` collections with those behind them.
pub open spec fn pairs_problem(cs: Seq<(Seq<char>, CollectionRule)>, n: int) -> Option<Seq<char>>
    decreases n,
{
    if n <= 0 {
        None
    } else {
        first_problem(pairs_problem(cs, n - 1), row_problem(cs, n - 1, cs.len() as int))
    }
}

/// Why a default does not meet the rule of another collection.
pub open spec fn misfit(v: Val, rule: FieldRule) -> Option<Seq<char>> {
    if !kind_fits(kind(v), rule.field_type) {
        Some(
            "value type '"@ + kind(v) + "' incompatible with field type '"@ + rule.field_type
                + "'"@,
        )
    } else if v is Text && !has_format(v->Text_0, rule.field_type) {
        Some("value '"@ + v->Text_0 + "' is not a valid "@ + rule.field_type)
    } else if rule.enum_values.len() > 0 && !is_allowed(rule.enum_values, shown(v)) {
        Some("value '"@ + shown(v) + "' not in declared enum values"@)
    } else {
        match float_of(v) {
            Some(n) => if rule.min is Some && is_below(n, rule.min->0) {
                Some("value "@ + n.1 + " is below minimum "@ + float_text(rule.min->0))
            } else if rule.max is Some && is_below(rule.max->0, n) {
                Some("value "@ + n.1 + " exceeds maximum "@ + float_text(rule.max->0))
            } else {
                None
            },
            None => None,
        }
    }
}

/// The text that a floating-point number is shown as.
pub open spec fn float_text(f: (u64, Seq<char>)) -> Seq<char> {
    f.1
}

/// A default meets the rule of another collection exactly if a note that has it would be
/// accepted there.
pub proof fn law_default_fits(v: Val, rule: FieldRule)
    ensures
        misfit(v, rule) is None <==> complaints(v, rule).len() == 0,
{
}

/// The default of a field at a time.
pub open spec fn default_of(rule: FieldRule, now: u64) -> Option<Val> {
    match rule.default {
        Some(v) => Some(v),
        None => match rule.default_expr {
            Some(e) => match resolved(e, now) {
                Ok(v) => Some(v),
                Err(_) => None,
            },
            None => None,
        },
    }
}

/// Why the default of a field of one collection breaks the rules of another.
pub open spec fn default_clash(
    a: (Seq<char>, CollectionRule),
    name: Seq<char>,
    v: Val,
    b: (Seq<char>, CollectionRule),
) -> Option<Seq<char>> {
    if b.0 == a.0 || !overlap(a.1.folder, b.1.folder) {
        None
    } else {
        match excluded(a.1.filter, b.1.filter) {
            Err(p) => Some(p),
            Ok(true) => None,
            Ok(false) => match rule_of(b.1.fields, name) {
                None => None,
                Some(fb) => match misfit(v, fb) {
                    None => None,
                    Some(why) => Some(
                        "collection '"@ + a.0 + "': default for field '"@ + name
                            + "' would violate overlapping collection '"@ + b.0 + "' (folder '"@
                            + b.1.folder + "'): "@ + why,
                    ),
                },
            },
        }
    }
}

/// The first of some collections whose rules the default of a field breaks.
pub open spec fn default_against(
    a: (Seq<char>, CollectionRule),
    name: Seq<char>,
    v: Val,
    cs: Seq<(Seq<char>, CollectionRule)>,
) -> Option<Seq<char>>
    decreases cs.len(),
{
    if cs.len() == 0 {
        None
    } else {
        first_problem(
            default_against(a, name, v, cs.drop_last()),
            default_clash(a, name, v, cs.last()),
        )
    }
}

/// The first problem of the defaults of some fields with the other collections.
pub open spec fn defaults_against(
    a: (Seq<char>, CollectionRule),
    fs: Seq<(Seq<char>, FieldRule)>,
    cs: Seq<(Seq<char>, CollectionRule)>,
    now: u64,
) -> Option<Seq<char>>
    decreases fs.len(),
{
    if fs.len() == 0 {
        None
    } else {
        first_problem(
            defaults_against(a, fs.drop_last(), cs, now),
            match default_of(fs.last().1, now) {
                Some(v) => default_against(a, fs.last().0, v, cs),
                None => None,
            },
        )
    }
}

/// The first problem of the defaults of some collections with all of them.
pub open spec fn all_defaults_against(
    some: Seq<(Seq<char>, CollectionRule)>,
    cs: Seq<(Seq<char>, CollectionRule)>,
    now: u64,
) -> Option<Seq<char>>
    decreases some.len(),
{
    if some.len() == 0 {
        None
    } else {
        first_problem(
            all_defaults_against(some.drop_last(), cs, now),
            defaults_against(some.last(), some.last().1.fields, cs, now),
        )
    }
}

/// Why the collections of a schema cannot stand together.
pub open spec fn inconsistency(cs: Seq<(Seq<char>, CollectionRule)>, now: u64) -> Option<
    Seq<char>,
> {
    first_problem(pairs_problem(cs, cs.len() as int), all_defaults_against(cs, cs, now))
}

/// Tells whether a value is what a text reads as.
fn reads_to(value: &Value, text: &str) -> (r: bool)
    ensures
        r == (val(*value) == scalar(text@)),
{
    match (value, parse_scalar(text)) {
        (Value::String(a), Value::String(b)) => same_text(a.as_str(), b.as_str()),
        (Value::Integer(a), Value::Integer(b)) => *a == b,
        (Value::Float(a), Value::Float(b)) => a.bits == b.bits && same_text(
            a.text.as_str(),
            b.text.as_str(),
        ),
        _ => false,
    }
}

/// Finds the field and the value that alternatives stand for.
fn find_written_value(es: &Vec<Expr>) -> (r: Option<(String, Value)>)
    ensures
        match r {
            Some((f, v)) => written_value(conds(es@)) == Some((f@, val(v))),
            None => written_value(conds(es@)) is None,
        },
{
    proof {
        reveal(written_value);
    }
    if es.len() != 2 {
        return None;
    }
    assert(conds(es@)[0] == cond(es@[0]) && conds(es@)[1] == cond(es@[1]));
    match (&es[0], &es[1]) {
        (
            Expr::Predicate(Predicate::Equals { field, value: Value::String(t) }),
            Expr::And(ns),
        ) => {
            proof {
                lemma_cond(*ns);
            }
            if ns.len() == 0 {
                return None;
            }
            assert(conds(ns@)[0] == cond(ns@[0]));
            match &ns[0] {
                Expr::Predicate(Predicate::Equals { field: other, value }) => {
                    if same_text(other.as_str(), field.as_str()) && reads_to(value, t.as_str()) {
                        Some((field.clone(), copy_value(value)))
                    } else {
                        None
                    }
                },
                _ => None,
            }
        },
        _ => None,
    }
}

/// Collects the equalities that a condition forces on fields.
fn collect_forced_equalities(e: &Expr, out: &mut Vec<(String, Value)>)
    ensures
        entries(final(out)@) == entries(old(out)@) + forced(cond(*e)),
    decreases e,
{
    let ghost before = entries(out@);
    match e {
        Expr::Predicate(Predicate::Equals { field, value }) => {
            let x: (String, Value) = (field.clone(), copy_value(value));
            proof {
                lemma_entries_push(out@, x);
            }
            out.push(x);
            assert(entries(out@) =~= before + forced(cond(*e)));
        },
        Expr::And(es) => {
            proof {
                lemma_cond(*es);
            }
            let ghost all = conds(es@);
            let mut i: usize = 0;
            assert(all.take(0) =~= seq![]);
            assert(entries(out@) =~= before + forced_by_all(all.take(0)));
            while i < es.len()
                invariant
                    *e == Expr::And(*es),
                    all == conds(es@),
                    i <= es.len(),
                    entries(out@) == before + forced_by_all(all.take(i as int)),
                decreases es.len() - i,
            {
                proof {
                    broadcast use vstd::std_specs::vec::axiom_vec_index_decreases;

                    assert(decreases_to!(*es => es[i as int]));
                    assert(decreases_to!(*e => e->And_0));
                    assert(all.take(i + 1).drop_last() =~= all.take(i as int));
                }
                collect_forced_equalities(&es[i], out);
                i += 1;
                assert(entries(out@) =~= before + forced_by_all(all.take(i as int)));
            }
            assert(all.take(i as int) =~= all);
        },
        Expr::Or(es) => {
            proof {
                lemma_cond(*es);
            }
            match find_written_value(es) {
                Some(x) => {
                    proof {
                        lemma_entries_push(out@, x);
                    }
                    out.push(x);
                },
                None => {},
            }
            assert(entries(out@) =~= before + forced(cond(*e)));
        },
        _ => {
            assert(entries(out@) =~= before + forced(cond(*e)));
        },
    }
}

/// What forced equalities, or the problem, are.
pub open spec fn forced_view(r: Result<Vec<(String, Value)>, String>) -> Result<
    Seq<(Seq<char>, Val)>,
    Seq<char>,
> {
    match r {
        Ok(v) => Ok(entries(v@)),
        Err(e) => Err(e@),
    }
}

/// The first problem with the first filters is that of all.
proof fn lemma_forced_prefix(filters: Seq<Seq<char>>, k: int)
    requires
        0 <= k <= filters.len(),
        forced_by_filters(filters.take(k)) is Err,
    ensures
        forced_by_filters(filters) == forced_by_filters(filters.take(k)),
    decreases filters.len() - k,
{
    if k == filters.len() {
        assert(filters.take(k) =~= filters);
    } else {
        assert(filters.take(k + 1).drop_last() =~= filters.take(k));
        lemma_forced_prefix(filters, k + 1);
    }
}

/// Reads the filters of a collection and collects the equalities that they force.
fn parse_forced_equalities(filters: &Vec<String>) -> (r: Result<Vec<(String, Value)>, String>)
    ensures
        forced_view(r) == forced_by_filters(string_views(filters@)),
{
    let ghost all = string_views(filters@);
    let mut out: Vec<(String, Value)> = Vec::new();
    let mut i: usize = 0;
    assert(all.take(0) =~= seq![]);
    assert(entries(out@) =~= seq![]);
    while i < filters.len()
        invariant
            all == string_views(filters@),
            i <= filters.len(),
            forced_by_filters(all.take(i as int)) == Ok::<Seq<(Seq<char>, Val)>, Seq<char>>(
                entries(out@),
            ),
        decreases filters.len() - i,
    {
        assert(all.take(i + 1).drop_last() =~= all.take(i as int));
        match crate::dsl::parse(filters[i].as_str()) {
            Ok(e) => {
                collect_forced_equalities(&e, &mut out);
            },
            Err(e) => {
                proof {
                    lemma_forced_prefix(all, i + 1);
                }
                return Err(
                    cat4(
                        "parsing filter '",
                        filters[i].as_str(),
                        "': ",
                        e.to_string().as_str(),
                    ),
                );
            },
        }
        i += 1;
    }
    assert(all.take(i as int) =~= all);
    Ok(out)
}

/// Tells whether two lists of equalities force different values on one field.
fn find_contradiction(a: &Vec<(String, Value)>, b: &Vec<(String, Value)>) -> (r: bool)
    ensures
        r == contradict(entries(a@), entries(b@)),
{
    let ghost x = entries(a@);
    let ghost y = entries(b@);
    let mut i: usize = 0;
    while i < a.len()
        invariant
            x == entries(a@),
            y == entries(b@),
            i <= a.len(),
            forall|p: int, q: int|
                0 <= p < i && 0 <= q < y.len() && (#[trigger] x[p]).0 == (#[trigger] y[q]).0
                    ==> equal_vals(x[p].1, y[q].1),
        decreases a.len() - i,
    {
        let mut j: usize = 0;
        while j < b.len()
            invariant
                x == entries(a@),
                y == entries(b@),
                i < a.len(),
                j <= b.len(),
                forall|p: int, q: int|
                    0 <= p < i && 0 <= q < y.len() && (#[trigger] x[p]).0 == (#[trigger] y[q]).0
                        ==> equal_vals(x[p].1, y[q].1),
                forall|q: int|
                    0 <= q < j && x[i as int].0 == (#[trigger] y[q]).0 ==> equal_vals(
                        x[i as int].1,
                        y[q].1,
                    ),
            decreases b.len() - j,
        {
            if same_text(a[i].0.as_str(), b[j].0.as_str()) && !equal_values(&a[i].1, &b[j].1) {
                assert(x[i as int].0 == y[j as int].0);
                return true;
            }
            j += 1;
        }
        i += 1;
    }
    false
}

/// What an answer, or the problem, is.
pub open spec fn answer_view(r: Result<bool, String>) -> Result<bool, Seq<char>> {
    match r {
        Ok(b) => Ok(b),
        Err(e) => Err(e@),
    }
}

/// Tells whether the filters of two collections exclude each other.
fn filters_demonstrably_disjoint(a: &Vec<String>, b: &Vec<String>) -> (r: Result<bool, String>)
    ensures
        answer_view(r) == excluded(string_views(a@), string_views(b@)),
{
    match parse_forced_equalities(a) {
        Ok(x) => match parse_forced_equalities(b) {
            Ok(y) => Ok(find_contradiction(&x, &y)),
            Err(e) => Err(e),
        },
        Err(e) => Err(e),
    }
}

/// Finds the rule for a field.
pub fn find_rule(rs: &Vec<(String, FieldSchema)>, name: &str) -> (r: Option<usize>)
    ensures
        match r {
            Some(i) => key_at(rules(rs@), name@, 0) == Some(i as int) && i < rs.len(),
            None => key_at(rules(rs@), name@, 0) is None,
        },
{
    let mut i: usize = 0;
    while i < rs.len()
        invariant
            i <= rs.len(),
            key_at(rules(rs@), name@, 0) == key_at(rules(rs@), name@, i as int),
        decreases rs.len() - i,
    {
        if same_text(rs[i].0.as_str(), name) {
            return Some(i);
        }
        i += 1;
    }
    None
}

/// Tells whether a number is none.
fn is_no_number(f: &Float) -> (r: bool)
    ensures
        r == (crate::float::place(f.bits) is None),
{
    crate::float::place_of(f.bits).is_none()
}

/// The lower bound that two lower bounds make.
fn join_min(a: &Option<Float>, b: &Option<Float>) -> (r: Option<Float>)
    ensures
        float_view(r) == joint_min(float_view(*a), float_view(*b)),
{
    match (a, b) {
        (Some(x), Some(y)) => if below_number(x, y) || is_no_number(x) {
            Some(copy_float(y))
        } else {
            Some(copy_float(x))
        },
        (Some(x), None) => Some(copy_float(x)),
        (None, Some(y)) => Some(copy_float(y)),
        (None, None) => None,
    }
}

/// The upper bound that two upper bounds make.
fn join_max(a: &Option<Float>, b: &Option<Float>) -> (r: Option<Float>)
    ensures
        float_view(r) == joint_max(float_view(*a), float_view(*b)),
{
    match (a, b) {
        (Some(x), Some(y)) => if below_number(y, x) || is_no_number(x) {
            Some(copy_float(y))
        } else {
            Some(copy_float(x))
        },
        (Some(x), None) => Some(copy_float(x)),
        (None, Some(y)) => Some(copy_float(y)),
        (None, None) => None,
    }
}

/// Tells whether two lists of values share one.
fn find_shared(a: &Vec<Value>, b: &Vec<Value>) -> (r: bool)
    ensures
        r == share_value(vals(a@), vals(b@)),
{
    let ghost x = vals(a@);
    let ghost y = vals(b@);
    let mut i: usize = 0;
    while i < a.len()
        invariant
            x == vals(a@),
            y == vals(b@),
            i <= a.len(),
            forall|p: int, q: int|
                0 <= p < i && 0 <= q < y.len() ==> !equal_vals(#[trigger] x[p], #[trigger] y[q]),
        decreases a.len() - i,
    {
        let mut j: usize = 0;
        while j < b.len()
            invariant
                x == vals(a@),
                y == vals(b@),
                i < a.len(),
                j <= b.len(),
                forall|p: int, q: int|
                    0 <= p < i && 0 <= q < y.len() ==> !equal_vals(
                        #[trigger] x[p],
                        #[trigger] y[q],
                    ),
                forall|q: int| 0 <= q < j ==> !equal_vals(x[i as int], #[trigger] y[q]),
            decreases b.len() - j,
        {
            if equal_values(&a[i], &b[j]) {
                assert(equal_vals(x[i as int], y[j as int]));
                return true;
            }
            j += 1;
        }
        i += 1;
    }
    false
}

/// Finds why no value can meet the rules of two collections for one field.
fn check_field_pair(
    name_a: &str,
    a: &CollectionSchema,
    fa: &FieldSchema,
    name_b: &str,
    b: &CollectionSchema,
    fb: &FieldSchema,
    name: &str,
) -> (r: Option<String>)
    ensures
        text_view(r) == clash(name_a@, a@, fa@, name_b@, b@, fb@, name@),
{
    if !same_text(fa.field_type.as_str(), fb.field_type.as_str()) {
        let mut t: String = cat5(
            "collections '",
            name_a,
            "' (folder '",
            a.folder.as_str(),
            "') and '",
        );
        t.append(name_b);
        t.append("' (folder '");
        t.append(b.folder.as_str());
        t.append("') both declare field '");
        t.append(name);
        t.append("' but with incompatible types '");
        t.append(fa.field_type.as_str());
        t.append("' vs '");
        t.append(fb.field_type.as_str());
        t.append(
            "' — a single record under these folders must satisfy both, so the types must match",
        );
        return Some(t);
    }
    if fa.enum_values.len() > 0 && fb.enum_values.len() > 0 && !find_shared(
        &fa.enum_values,
        &fb.enum_values,
    ) {
        let mut t: String = cat5("collections '", name_a, "' and '", name_b, "' declare field '");
        t.append(name);
        t.append("' with disjoint enum values (folders '");
        t.append(a.folder.as_str());
        t.append("' and '");
        t.append(b.folder.as_str());
        t.append("' overlap, so no value can satisfy both)");
        return Some(t);
    }
    match (join_min(&fa.min, &fb.min), join_max(&fa.max, &fb.max)) {
        (Some(lo), Some(hi)) => {
            if below_number(&hi, &lo) {
                let mut t: String = cat5(
                    "collections '",
                    name_a,
                    "' and '",
                    name_b,
                    "' declare field '",
                );
                t.append(name);
                t.append("' with disjoint numeric ranges: effective min=");
                t.append(lo.text.as_str());
                t.append(" > max=");
                t.append(hi.text.as_str());
                return Some(t);
            }
        },
        _ => {},
    }
    None
}

/// The first clash over the first fields is that over all.
proof fn lemma_clash_prefix(
    a: (Seq<char>, CollectionRule),
    b: (Seq<char>, CollectionRule),
    fs: Seq<(Seq<char>, FieldRule)>,
    k: int,
)
    requires
        0 <= k <= fs.len(),
        clash_over(a, b, fs.take(k)) is Some,
    ensures
        clash_over(a, b, fs) == clash_over(a, b, fs.take(k)),
    decreases fs.len() - k,
{
    if k == fs.len() {
        assert(fs.take(k) =~= fs);
    } else {
        assert(fs.take(k + 1).drop_last() =~= fs.take(k));
        lemma_clash_prefix(a, b, fs, k + 1);
    }
}

/// Finds the first clash of two collections.
fn check_pair(a: &(String, CollectionSchema), b: &(String, CollectionSchema)) -> (r: Option<String>)
    ensures
        text_view(r) == pair_problem((a.0@, a.1@), (b.0@, b.1@)),
{
    let ghost x = (a.0@, a.1@);
    let ghost y = (b.0@, b.1@);
    if !folders_overlap(a.1.folder.as_str(), b.1.folder.as_str()) {
        return None;
    }
    match filters_demonstrably_disjoint(&a.1.filter, &b.1.filter) {
        Err(p) => {
            return Some(p);
        },
        Ok(true) => {
            return None;
        },
        Ok(false) => {},
    }
    let ghost all = rules(a.1.fields@);
    let mut i: usize = 0;
    assert(all.take(0) =~= seq![]);
    while i < a.1.fields.len()
        invariant
            x == (a.0@, a.1@),
            y == (b.0@, b.1@),
            pair_problem(x, y) == clash_over(x, y, all),
            all == rules(a.1.fields@),
            i <= a.1.fields.len(),
            clash_over(x, y, all.take(i as int)) is None,
        decreases a.1.fields.len() - i,
    {
        assert(all.take(i + 1).drop_last() =~= all.take(i as int));
        let name: &str = a.1.fields[i].0.as_str();
        match find_rule(&b.1.fields, name) {
            Some(k) => {
                match check_field_pair(
                    a.0.as_str(),
                    &a.1,
                    &a.1.fields[i].1,
                    b.0.as_str(),
                    &b.1,
                    &b.1.fields[k].1,
                    name,
                ) {
                    Some(p) => {
                        proof {
                            lemma_clash_prefix(x, y, all, i + 1);
                        }
                        return Some(p);
                    },
                    None => {},
                }
            },
            None => {},
        }
        i += 1;
    }
    assert(all.take(i as int) =~= all);
    None
}

/// The first clash of a row up to a collection is that of the whole row.
proof fn lemma_row_prefix(cs: Seq<(Seq<char>, CollectionRule)>, i: int, j: int, n: int)
    requires
        0 <= i,
        j <= n,
        row_problem(cs, i, j) is Some,
    ensures
        row_problem(cs, i, n) == row_problem(cs, i, j),
    decreases n - j,
{
    if j < n {
        lemma_row_prefix(cs, i, j + 1, n);
    }
}

/// The first clash of the first collections is that of all.
proof fn lemma_pairs_prefix(cs: Seq<(Seq<char>, CollectionRule)>, k: int, n: int)
    requires
        k <= n,
        pairs_problem(cs, k) is Some,
    ensures
        pairs_problem(cs, n) == pairs_problem(cs, k),
    decreases n - k,
{
    if k < n {
        lemma_pairs_prefix(cs, k + 1, n);
    }
}

/// Finds the first clash of two collections of a schema.
fn check_pairs(schema: &VaultSchema) -> (r: Option<String>)
    ensures
        text_view(r) == pairs_problem(
            collection_views(schema.collections@),
            schema.collections@.len() as int,
        ),
{
    let ghost cs = collection_views(schema.collections@);
    let n: usize = schema.collections.len();
    let mut i: usize = 0;
    while i < n
        invariant
            cs == collection_views(schema.collections@),
            n == schema.collections.len(),
            i <= n,
            pairs_problem(cs, i as int) is None,
        decreases n - i,
    {
        let mut j: usize = i + 1;
        while j < n
            invariant
                cs == collection_views(schema.collections@),
                n == schema.collections.len(),
                i < j <= n,
                pairs_problem(cs, i as int) is None,
                row_problem(cs, i as int, j as int) is None,
            decreases n - j,
        {
            match check_pair(&schema.collections[i], &schema.collections[j]) {
                Some(p) => {
                    proof {
                        assert(row_problem(cs, i as int, j + 1) == Some(p@));
                        lemma_row_prefix(cs, i as int, j + 1, n as int);
                        lemma_pairs_prefix(cs, i + 1, n as int);
                    }
                    return Some(p);
                },
                None => {},
            }
            j += 1;
        }
        i += 1;
    }
    None
}

/// Finds why a default does not meet the rule of another collection.
fn default_satisfies(v: &Value, rule: &FieldSchema) -> (r: Option<String>)
    ensures
        text_view(r) == misfit(val(*v), rule@),
{
    let actual: &str = v.kind_name();
    if !type_matches(actual, rule.field_type.as_str()) {
        return Some(
            cat5(
                "value type '",
                actual,
                "' incompatible with field type '",
                rule.field_type.as_str(),
                "'",
            ),
        );
    }
    match v {
        Value::String(s) => {
            if !check_format(s.as_str(), rule.field_type.as_str()) {
                return Some(
                    cat4("value '", s.as_str(), "' is not a valid ", rule.field_type.as_str()),
                );
            }
        },
        _ => {},
    }
    let display: String = v.display_value();
    if rule.enum_values.len() > 0 && !in_allowed(&rule.enum_values, display.as_str()) {
        return Some(cat3("value '", display.as_str(), "' not in declared enum values"));
    }
    let n: Float = match v.as_float() {
        Some(n) => n,
        None => {
            return None;
        },
    };
    match &rule.min {
        Some(min) => {
            if below_number(&n, min) {
                return Some(
                    cat4("value ", n.text.as_str(), " is below minimum ", min.text.as_str()),
                );
            }
        },
        None => {},
    }
    match &rule.max {
        Some(max) => {
            if below_number(max, &n) {
                return Some(
                    cat4("value ", n.text.as_str(), " exceeds maximum ", max.text.as_str()),
                );
            }
        },
        None => {},
    }
    None
}

/// Finds the default of a field at a time.
pub fn find_default(rule: &FieldSchema, now: u64) -> (r: Option<Value>)
    ensures
        val_view(r) == default_of(rule@, now),
{
    match &rule.default {
        Some(v) => Some(copy_value(v)),
        None => match &rule.default_expr {
            Some(e) => match resolve_default_expr(e.as_str(), now) {
                Ok(v) => Some(v),
                Err(_) => None,
            },
            None => None,
        },
    }
}

/// Finds why the default of a field of one collection breaks the rules of another.
fn check_default(
    a: &(String, CollectionSchema),
    name: &str,
    v: &Value,
    b: &(String, CollectionSchema),
) -> (r: Option<String>)
    ensures
        text_view(r) == default_clash((a.0@, a.1@), name@, val(*v), (b.0@, b.1@)),
{
    if same_text(b.0.as_str(), a.0.as_str()) || !folders_overlap(
        a.1.folder.as_str(),
        b.1.folder.as_str(),
    ) {
        return None;
    }
    match filters_demonstrably_disjoint(&a.1.filter, &b.1.filter) {
        Err(p) => {
            return Some(p);
        },
        Ok(true) => {
            return None;
        },
        Ok(false) => {},
    }
    match find_rule(&b.1.fields, name) {
        None => None,
        Some(k) => match default_satisfies(v, &b.1.fields[k].1) {
            None => None,
            Some(why) => {
                let mut t: String = cat5(
                    "collection '",
                    a.0.as_str(),
                    "': default for field '",
                    name,
                    "' would violate overlapping collection '",
                );
                t.append(b.0.as_str());
                t.append("' (folder '");
                t.append(b.1.folder.as_str());
                t.append("'): ");
                t.append(why.as_str());
                Some(t)
            },
        },
    }
}

/// The first problem of a default with the first collections is that with all.
proof fn lemma_default_prefix(
    a: (Seq<char>, CollectionRule),
    name: Seq<char>,
    v: Val,
    cs: Seq<(Seq<char>, CollectionRule)>,
    k: int,
)
    requires
        0 <= k <= cs.len(),
        default_against(a, name, v, cs.take(k)) is Some,
    ensures
        default_against(a, name, v, cs) == default_against(a, name, v, cs.take(k)),
    decreases cs.len() - k,
{
    if k == cs.len() {
        assert(cs.take(k) =~= cs);
    } else {
        assert(cs.take(k + 1).drop_last() =~= cs.take(k));
        lemma_default_prefix(a, name, v, cs, k + 1);
    }
}

/// Finds the first collection whose rules the default of a field breaks.
fn check_default_against(
    a: &(String, CollectionSchema),
    name: &str,
    v: &Value,
    schema: &VaultSchema,
) -> (r: Option<String>)
    ensures
        text_view(r) == default_against(
            (a.0@, a.1@),
            name@,
            val(*v),
            collection_views(schema.collections@),
        ),
{
    let ghost cs = collection_views(schema.collections@);
    let ghost x = (a.0@, a.1@);
    let mut i: usize = 0;
    assert(cs.take(0) =~= seq![]);
    while i < schema.collections.len()
        invariant
            cs == collection_views(schema.collections@),
            x == (a.0@, a.1@),
            i <= schema.collections.len(),
            default_against(x, name@, val(*v), cs.take(i as int)) is None,
        decreases schema.collections.len() - i,
    {
        assert(cs.take(i + 1).drop_last() =~= cs.take(i as int));
        match check_default(a, name, v, &schema.collections[i]) {
            Some(p) => {
                proof {
                    lemma_default_prefix(x, name@, val(*v), cs, i + 1);
                }
                return Some(p);
            },
            None => {},
        }
        i += 1;
    }
    assert(cs.take(i as int) =~= cs);
    None
}

/// The first problem of the defaults of the first fields is that of all.
proof fn lemma_defaults_against_prefix(
    a: (Seq<char>, CollectionRule),
    fs: Seq<(Seq<char>, FieldRule)>,
    cs: Seq<(Seq<char>, CollectionRule)>,
    now: u64,
    k: int,
)
    requires
        0 <= k <= fs.len(),
        defaults_against(a, fs.take(k), cs, now) is Some,
    ensures
        defaults_against(a, fs, cs, now) == defaults_against(a, fs.take(k), cs, now),
    decreases fs.len() - k,
{
    if k == fs.len() {
        assert(fs.take(k) =~= fs);
    } else {
        assert(fs.take(k + 1).drop_last() =~= fs.take(k));
        lemma_defaults_against_prefix(a, fs, cs, now, k + 1);
    }
}

/// Finds the first problem of the defaults of a collection with the others.
fn check_collection_defaults(
    a: &(String, CollectionSchema),
    schema: &VaultSchema,
    now: u64,
) -> (r: Option<String>)
    ensures
        text_view(r) == defaults_against(
            (a.0@, a.1@),
            a.1@.fields,
            collection_views(schema.collections@),
            now,
        ),
{
    let ghost cs = collection_views(schema.collections@);
    let ghost x = (a.0@, a.1@);
    let ghost fs = rules(a.1.fields@);
    let mut i: usize = 0;
    assert(fs.take(0) =~= seq![]);
    while i < a.1.fields.len()
        invariant
            cs == collection_views(schema.collections@),
            x == (a.0@, a.1@),
            fs == rules(a.1.fields@),
            i <= a.1.fields.len(),
            defaults_against(x, fs.take(i as int), cs, now) is None,
        decreases a.1.fields.len() - i,
    {
        assert(fs.take(i + 1).drop_last() =~= fs.take(i as int));
        match find_default(&a.1.fields[i].1, now) {
            Some(v) => {
                match check_default_against(a, a.1.fields[i].0.as_str(), &v, schema) {
                    Some(p) => {
                        proof {
                            lemma_defaults_against_prefix(x, fs, cs, now, i + 1);
                        }
                        return Some(p);
                    },
                    None => {},
                }
            },
            None => {},
        }
        i += 1;
    }
    assert(fs.take(i as int) =~= fs);
    None
}

/// The first problem of the defaults of the first collections is that of all.
proof fn lemma_all_defaults_prefix(
    some: Seq<(Seq<char>, CollectionRule)>,
    cs: Seq<(Seq<char>, CollectionRule)>,
    now: u64,
    k: int,
)
    requires
        0 <= k <= some.len(),
        all_defaults_against(some.take(k), cs, now) is Some,
    ensures
        all_defaults_against(some, cs, now) == all_defaults_against(some.take(k), cs, now),
    decreases some.len() - k,
{
    if k == some.len() {
        assert(some.take(k) =~= some);
    } else {
        assert(some.take(k + 1).drop_last() =~= some.take(k));
        lemma_all_defaults_prefix(some, cs, now, k + 1);
    }
}

/// Checks that collections that can apply to one note do not ask for what no
/// value can be: neither their rules for a field, nor the default of one against
/// the rules of another. The time is in seconds since 1970.
pub fn validate_schema_consistency(schema: &VaultSchema, now: u64) -> (r: Result<(), VaultdbError>)
    ensures
        check_view(r) == checked(inconsistency(collection_views(schema.collections@), now)),
{
    let ghost cs = collection_views(schema.collections@);
    match check_pairs(schema) {
        Some(p) => {
            return Err(VaultdbError::SchemaError(p));
        },
        None => {},
    }
    let mut i: usize = 0;
    assert(cs.take(0) =~= seq![]);
    while i < schema.collections.len()
        invariant
            cs == collection_views(schema.collections@),
            pairs_problem(cs, cs.len() as int) is None,
            i <= schema.collections.len(),
            all_defaults_against(cs.take(i as int), cs, now) is None,
        decreases schema.collections.len() - i,
    {
        assert(cs.take(i + 1).drop_last() =~= cs.take(i as int));
        match check_collection_defaults(&schema.collections[i], schema, now) {
            Some(p) => {
                proof {
                    lemma_all_defaults_prefix(cs, cs, now, i + 1);
                }
                return Err(VaultdbError::SchemaError(p));
            },
            None => {},
        }
        i += 1;
    }
    assert(cs.take(i as int) =~= cs);
    Ok(())
}

/// The outcome of checking a schema: its defaults first, then its consistency.
pub open spec fn schema_checked(cs: Seq<(Seq<char>, CollectionRule)>, now: u64) -> Result<
    (),
    Failure,
> {
    match checked(schema_defaults_problem(cs)) {
        Err(e) => Err(e),
        Ok(()) => checked(inconsistency(cs, now)),
    }
}

/// Checks a schema that was read.
pub fn validate_schema(schema: &VaultSchema, now: u64) -> (r: Result<(), VaultdbError>)
    ensures
        check_view(r) == schema_checked(collection_views(schema.collections@), now),
{
    match validate_schema_defaults(schema) {
        Err(e) => Err(e),
        Ok(()) => validate_schema_consistency(schema, now),
    }
}

// ── Inference ──────────────────────────────────────────────────────────────

/// Ascending names with those of some fields.
pub open spec fn names_with(names: Seq<Seq<char>>, fields: Seq<(Seq<char>, Val)>) -> Seq<Seq<char>>
    decreases fields.len(),
{
    if fields.len() == 0 {
        names
    } else {
        with_text(names_with(names, fields.drop_last()), fields.last().0)
    }
}

/// The names of the fields of some notes, ascending, each once.
pub open spec fn field_names(rs: Seq<Rec>) -> Seq<Seq<char>>
    decreases rs.len(),
{
    if rs.len() == 0 {
        seq![]
    } else {
        names_with(field_names(rs.drop_last()), rs.last().fields)
    }
}

/// The values that some fields give a name.
pub open spec fn values_in(fields: Seq<(Seq<char>, Val)>, name: Seq<char>) -> Seq<Val>
    decreases fields.len(),
{
    if fields.len() == 0 {
        seq![]
    } else if fields.last().0 == name {
        values_in(fields.drop_last(), name).push(fields.last().1)
    } else {
        values_in(fields.drop_last(), name)
    }
}

/// The values that some notes give a field, in their order.
pub open spec fn values_of(rs: Seq<Rec>, name: Seq<char>) -> Seq<Val>
    decreases rs.len(),
{
    if rs.len() == 0 {
        seq![]
    } else {
        values_of(rs.drop_last(), name) + values_in(rs.last().fields, name)
    }
}

/// How many of some values are of a kind.
pub open spec fn kind_count(vs: Seq<Val>, k: Seq<char>) -> nat
    decreases vs.len(),
{
    if vs.len() == 0 {
        0
    } else {
        kind_count(vs.drop_last(), k) + if kind(vs.last()) == k {
            1nat
        } else {
            0nat
        }
    }
}

/// The more frequent of two kinds; the second where they are equally frequent.
pub open spec fn more_frequent(vs: Seq<Val>, a: Seq<char>, b: Seq<char>) -> Seq<char> {
    if kind_count(vs, b) >= kind_count(vs, a) {
        b
    } else {
        a
    }
}

/// The most frequent kind of some values but null; the last by name where several
/// are, and `string` where there is none.
pub open spec fn dominant_kind(vs: Seq<Val>) -> Seq<char> {
    let k = more_frequent(vs, "bool"@, "float"@);
    let k = more_frequent(vs, k, "integer"@);
    let k = more_frequent(vs, k, "list"@);
    let k = more_frequent(vs, k, "map"@);
    more_frequent(vs, k, "string"@)
}

/// The texts of the scalars among some values.
pub open spec fn scalar_texts(vs: Seq<Val>) -> Seq<Seq<char>>
    decreases vs.len(),
{
    if vs.len() == 0 {
        seq![]
    } else if vs.last() is Null || vs.last() is List || vs.last() is Mapping {
        scalar_texts(vs.drop_last())
    } else {
        scalar_texts(vs.drop_last()).push(shown(vs.last()))
    }
}

/// A text as an integer where it is one.
pub open spec fn integer_or_text(t: Seq<char>) -> Val {
    match integer_of(t) {
        Some(n) => Val::Int(n as i64),
        None => Val::Text(t),
    }
}

/// The allowed values that some values suggest: the different ones, where they
/// are at most ten and fewer than half of all.
pub open spec fn suggested_values(vs: Seq<Val>) -> Seq<Val> {
    let texts = scalar_texts(vs);
    let unique = text_set(texts);
    if unique.len() <= 10 && unique.len() < texts.len() / 2 {
        Seq::new(unique.len(), |i: int| integer_or_text(unique[i]))
    } else {
        seq![]
    }
}

/// The rule that some values suggest.
pub open spec fn inferred_rule(vs: Seq<Val>) -> FieldRule {
    FieldRule {
        field_type: dominant_kind(vs),
        enum_values: suggested_values(vs),
        min: None,
        max: None,
        default: None,
        default_expr: None,
    }
}

/// Whether as many values are not null as there are notes.
pub open spec fn is_everywhere(rs: Seq<Rec>, name: Seq<char>) -> bool {
    let vs = values_of(rs, name);
    vs.len() - kind_count(vs, "null"@) == rs.len() && rs.len() > 0
}

/// Those of some names whose field is set in every note.
pub open spec fn everywhere(rs: Seq<Rec>, names: Seq<Seq<char>>) -> Seq<Seq<char>>
    decreases names.len(),
{
    if names.len() == 0 {
        seq![]
    } else if is_everywhere(rs, names.last()) {
        everywhere(rs, names.drop_last()).push(names.last())
    } else {
        everywhere(rs, names.drop_last())
    }
}

/// The collection that some notes of a folder suggest.
pub open spec fn inferred(folder: Seq<char>, rs: Seq<Rec>) -> CollectionRule {
    let names = field_names(rs);
    CollectionRule {
        description: Some("Auto-inferred schema for "@ + folder),
        folder,
        filter: seq![],
        required: everywhere(rs, names),
        fields: Seq::new(names.len(), |i: int| (names[i], inferred_rule(values_of(rs, names[i])))),
    }
}

/// Collects the names of the fields of some notes.
pub fn collect_names(records: &Vec<Record>) -> (r: Vec<String>)
    ensures
        string_views(r@) == field_names(recs(records@)),
{
    let ghost rs = recs(records@);
    let mut names: Vec<String> = Vec::new();
    let mut i: usize = 0;
    assert(rs.take(0) =~= seq![]);
    assert(string_views(names@) =~= seq![]);
    while i < records.len()
        invariant
            rs == recs(records@),
            i <= records.len(),
            string_views(names@) == field_names(rs.take(i as int)),
        decreases records.len() - i,
    {
        let ghost fs = entries(records@[i as int].fields@);
        let ghost start = string_views(names@);
        let mut j: usize = 0;
        assert(fs.take(0) =~= seq![]);
        while j < records[i].fields.len()
            invariant
                rs == recs(records@),
                i < records.len(),
                fs == entries(records@[i as int].fields@),
                j <= fs.len(),
                string_views(names@) == names_with(start, fs.take(j as int)),
            decreases fs.len() - j,
        {
            assert(fs.take(j + 1).drop_last() =~= fs.take(j as int));
            insert_text(&mut names, records[i].fields[j].0.as_str());
            j += 1;
        }
        assert(fs.take(j as int) =~= fs);
        assert(rs.take(i + 1).drop_last() =~= rs.take(i as int));
        i += 1;
    }
    assert(rs.take(i as int) =~= rs);
    names
}

/// What is counted of the values of one field.
struct Tally {
    bools: u128,
    floats: u128,
    integers: u128,
    lists: u128,
    maps: u128,
    strings: u128,
    nulls: u128,
    all: u128,
    texts: Vec<String>,
}

impl Tally {
    /// Whether the counts are those of some values.
    spec fn is_of(self, vs: Seq<Val>) -> bool {
        &&& self.bools == kind_count(vs, "bool"@)
        &&& self.floats == kind_count(vs, "float"@)
        &&& self.integers == kind_count(vs, "integer"@)
        &&& self.lists == kind_count(vs, "list"@)
        &&& self.maps == kind_count(vs, "map"@)
        &&& self.strings == kind_count(vs, "string"@)
        &&& self.nulls == kind_count(vs, "null"@)
        &&& self.all == vs.len()
        &&& string_views(self.texts@) == scalar_texts(vs)
    }

    /// Counts one more value.
    fn count(&mut self, v: &Value, Ghost(vs): Ghost<Seq<Val>>)
        requires
            old(self).is_of(vs),
            old(self).all < u128::MAX,
        ensures
            final(self).is_of(vs.push(val(*v))),
    {
        proof {
            assert(vs.push(val(*v)).drop_last() =~= vs);
            lemma_kinds_differ();
            lemma_kind_count(vs);
        }
        self.all += 1;
        match v {
            Value::Null => {
                self.nulls += 1;
            },
            Value::Bool(_) => {
                self.bools += 1;
            },
            Value::Float(_) => {
                self.floats += 1;
            },
            Value::Integer(_) => {
                self.integers += 1;
            },
            Value::List(_) => {
                self.lists += 1;
            },
            Value::Mapping(_) => {
                self.maps += 1;
            },
            Value::String(_) => {
                self.strings += 1;
            },
        }
        match v {
            Value::Null | Value::List(_) | Value::Mapping(_) => {},
            _ => {
                let t: String = v.display_value();
                proof {
                    lemma_string_views_push(self.texts@, t);
                }
                self.texts.push(t);
            },
        }
    }

    /// The most frequent kind.
    fn dominant(&self, Ghost(vs): Ghost<Seq<Val>>) -> (r: String)
        requires
            self.is_of(vs),
        ensures
            r@ == dominant_kind(vs),
    {
        let mut best: &'static str = "bool";
        let mut n: u128 = self.bools;
        if self.floats >= n {
            best = "float";
            n = self.floats;
        }
        if self.integers >= n {
            best = "integer";
            n = self.integers;
        }
        if self.lists >= n {
            best = "list";
            n = self.lists;
        }
        if self.maps >= n {
            best = "map";
            n = self.maps;
        }
        if self.strings >= n {
            best = "string";
        }
        best.to_owned()
    }
}

/// The names of the kinds differ.
proof fn lemma_kinds_differ()
    ensures
        "float"@.len() == 5,
        "integer"@.len() == 7,
        "map"@.len() == 3,
        "string"@.len() == 6,
        "bool"@.len() == 4 && "bool"@[0] == 'b',
        "list"@.len() == 4 && "list"@[0] == 'l',
        "null"@.len() == 4 && "null"@[0] == 'n',
{
    reveal_strlit("bool");
    reveal_strlit("float");
    reveal_strlit("integer");
    reveal_strlit("list");
    reveal_strlit("map");
    reveal_strlit("string");
    reveal_strlit("null");
}

/// No kind is more frequent than there are values.
proof fn lemma_kind_count(vs: Seq<Val>)
    ensures
        forall|k: Seq<char>| #[trigger] kind_count(vs, k) <= vs.len(),
    decreases vs.len(),
{
    if vs.len() > 0 {
        lemma_kind_count(vs.drop_last());
        assert forall|k: Seq<char>| #[trigger] kind_count(vs, k) <= vs.len() by {
            assert(kind_count(vs.drop_last(), k) <= vs.drop_last().len());
        }
    }
}

/// Counts the values of a field.
fn tally(records: &Vec<Record>, name: &str) -> (t: Tally)
    ensures
        t.is_of(values_of(recs(records@), name@)),
{
    let ghost rs = recs(records@);
    let mut t: Tally = Tally {
        bools: 0,
        floats: 0,
        integers: 0,
        lists: 0,
        maps: 0,
        strings: 0,
        nulls: 0,
        all: 0,
        texts: Vec::new(),
    };
    let mut i: usize = 0;
    assert(rs.take(0) =~= seq![]);
    assert(string_views(t.texts@) =~= seq![]);
    while i < records.len()
        invariant
            rs == recs(records@),
            i <= records.len(),
            t.is_of(values_of(rs.take(i as int), name@)),
            t.all <= i * 0x1_0000_0000_0000_0000,
        decreases records.len() - i,
    {
        let ghost fs = entries(records@[i as int].fields@);
        let ghost start = values_of(rs.take(i as int), name@);
        let mut j: usize = 0;
        assert(fs.take(0) =~= seq![]);
        assert(start + values_in(fs.take(0), name@) =~= start);
        assert(rs.take(i + 1).drop_last() =~= rs.take(i as int));
        while j < records[i].fields.len()
            invariant
                rs == recs(records@),
                i < records.len(),
                fs == entries(records@[i as int].fields@),
                start == values_of(rs.take(i as int), name@),
                rs.take(i + 1).drop_last() == rs.take(i as int),
                j <= fs.len(),
                t.is_of(start + values_in(fs.take(j as int), name@)),
                t.all <= i * 0x1_0000_0000_0000_0000 + j,
            decreases fs.len() - j,
        {
            assert(fs.take(j + 1).drop_last() =~= fs.take(j as int));
            if same_text(records[i].fields[j].0.as_str(), name) {
                let ghost vs = start + values_in(fs.take(j as int), name@);
                t.count(&records[i].fields[j].1, Ghost(vs));
                assert(vs.push(fs[j as int].1) =~= start + values_in(fs.take(j + 1), name@));
            }
            j += 1;
        }
        assert(fs.take(j as int) =~= fs);
        i += 1;
    }
    assert(rs.take(i as int) =~= rs);
    t
}

/// The allowed values that the texts of some values suggest.
fn suggest_values(texts: &Vec<String>, Ghost(vs): Ghost<Seq<Val>>) -> (r: Vec<Value>)
    requires
        string_views(texts@) == scalar_texts(vs),
    ensures
        vals(r@) == suggested_values(vs),
{
    let unique: Vec<String> = sort_texts(texts);
    let mut out: Vec<Value> = Vec::new();
    if !(unique.len() <= 10 && unique.len() < texts.len() / 2) {
        assert(vals(out@) =~= seq![]);
        return out;
    }
    let ghost u = string_views(unique@);
    let mut i: usize = 0;
    while i < unique.len()
        invariant
            u == string_views(unique@),
            i <= unique.len(),
            out@.len() == i,
            forall|k: int| 0 <= k < i ==> val(#[trigger] out@[k]) == integer_or_text(u[k]),
        decreases unique.len() - i,
    {
        match parse_integer(unique[i].as_str()) {
            Some(n) => {
                out.push(Value::Integer(n));
            },
            None => {
                out.push(Value::String(unique[i].clone()));
            },
        }
        i += 1;
    }
    assert(vals(out@) =~= suggested_values(vs));
    out
}

/// Infers the schema of a folder from its notes: every field, with its most
/// frequent kind and the values that recur; a field that no note leaves out is
/// required.
pub fn infer_schema(folder_name: &str, records: &Vec<Record>) -> (r: CollectionSchema)
    ensures
        r@ == inferred(folder_name@, recs(records@)),
{
    let ghost rs = recs(records@);
    let names: Vec<String> = collect_names(records);
    let ghost ns = string_views(names@);
    let mut fields: Vec<(String, FieldSchema)> = Vec::new();
    let mut required: Vec<String> = Vec::new();
    let mut i: usize = 0;
    assert(ns.take(0) =~= seq![]);
    assert(string_views(required@) =~= seq![]);
    while i < names.len()
        invariant
            rs == recs(records@),
            ns == string_views(names@),
            i <= names.len(),
            fields@.len() == i,
            string_views(required@) == everywhere(rs, ns.take(i as int)),
            forall|k: int|
                0 <= k < i ==> (#[trigger] fields@[k]).0@ == ns[k] && fields@[k].1@
                    == inferred_rule(values_of(rs, ns[k])),
        decreases names.len() - i,
    {
        assert(ns.take(i + 1).drop_last() =~= ns.take(i as int));
        let t: Tally = tally(records, names[i].as_str());
        let ghost vs = values_of(rs, ns[i as int]);
        proof {
            lemma_kind_count(vs);
        }
        if t.all - t.nulls == records.len() as u128 && records.len() > 0 {
            let n: String = names[i].clone();
            proof {
                lemma_string_views_push(required@, n);
            }
            required.push(n);
        }
        let f: FieldSchema = FieldSchema {
            field_type: t.dominant(Ghost(vs)),
            enum_values: suggest_values(&t.texts, Ghost(vs)),
            min: None,
            max: None,
            default: None,
            default_expr: None,
        };
        fields.push((names[i].clone(), f));
        i += 1;
    }
    assert(ns.take(i as int) =~= ns);
    let r = CollectionSchema {
        description: Some(cat2("Auto-inferred schema for ", folder_name)),
        folder: folder_name.to_owned(),
        filter: Vec::new(),
        required,
        fields,
    };
    assert(r@.filter =~= seq![]);
    assert(r@.fields =~= inferred(folder_name@, rs).fields);
    r
}

/// An inferred schema has a rule for exactly the fields that some note has, in
/// ascending order of their names.
pub proof fn law_inferred_fields(folder: Seq<char>, rs: Seq<Rec>)
    ensures
        is_text_set(field_names(rs)),
        forall|i: int|
            0 <= i < inferred(folder, rs).fields.len() ==> (#[trigger] inferred(
                folder,
                rs,
            ).fields[i]).0 == field_names(rs)[i],
        inferred(folder, rs).fields.len() == field_names(rs).len(),
        forall|name: Seq<char>| #[trigger]
            field_names(rs).contains(name) <==> exists|r: int, k: int|
                0 <= r < rs.len() && 0 <= k < rs[r].fields.len() && (#[trigger] rs[r].fields[k]).0
                    == name,
    decreases rs.len(),
{
    if rs.len() > 0 {
        let rest = rs.drop_last();
        law_inferred_fields(folder, rest);
        lemma_names_with(field_names(rest), rs.last().fields);
        assert forall|name: Seq<char>| #[trigger]
            field_names(rs).contains(name) <==> exists|r: int, k: int|
                0 <= r < rs.len() && 0 <= k < rs[r].fields.len() && (#[trigger] rs[r].fields[k]).0
                    == name by {
            if field_names(rs).contains(name) {
                if field_names(rest).contains(name) {
                    let (r, k) = choose|r: int, k: int|
                        0 <= r < rest.len() && 0 <= k < rest[r].fields.len() && (
                        #[trigger] rest[r].fields[k]).0 == name;
                    assert(rs[r].fields[k].0 == name);
                } else {
                    let k = choose|k: int|
                        0 <= k < rs.last().fields.len() && (#[trigger] rs.last().fields[k]).0
                            == name;
                    assert(rs[rs.len() - 1].fields[k].0 == name);
                }
            }
            if exists|r: int, k: int|
                0 <= r < rs.len() && 0 <= k < rs[r].fields.len() && (#[trigger] rs[r].fields[k]).0
                    == name {
                let (r, k) = choose|r: int, k: int|
                    0 <= r < rs.len() && 0 <= k < rs[r].fields.len() && (
                    #[trigger] rs[r].fields[k]).0 == name;
                if r < rest.len() {
                    assert(rest[r].fields[k].0 == name);
                } else {
                    assert(rs.last().fields[k].0 == name);
                }
            }
        }
    }
}

/// Names with those of some fields are the names and those of the fields.
proof fn lemma_names_with(names: Seq<Seq<char>>, fields: Seq<(Seq<char>, Val)>)
    requires
        is_text_set(names),
    ensures
        is_text_set(names_with(names, fields)),
        forall|name: Seq<char>| #[trigger]
            names_with(names, fields).contains(name) <==> names.contains(name) || exists|k: int|
                0 <= k < fields.len() && (#[trigger] fields[k]).0 == name,
    decreases fields.len(),
{
    if fields.len() > 0 {
        let rest = fields.drop_last();
        lemma_names_with(names, rest);
        lemma_with_text(names_with(names, rest), fields.last().0);
        assert forall|name: Seq<char>| #[trigger]
            names_with(names, fields).contains(name) <==> names.contains(name) || exists|k: int|
                0 <= k < fields.len() && (#[trigger] fields[k]).0 == name by {
            if exists|k: int| 0 <= k < fields.len() && (#[trigger] fields[k]).0 == name {
                let k = choose|k: int| 0 <= k < fields.len() && (#[trigger] fields[k]).0 == name;
                if k < rest.len() {
                    assert(rest[k].0 == name);
                }
            }
            if exists|k: int| 0 <= k < rest.len() && (#[trigger] rest[k]).0 == name {
                let k = choose|k: int| 0 <= k < rest.len() && (#[trigger] rest[k]).0 == name;
                assert(fields[k].0 == name);
            }
            assert(fields[fields.len() - 1] == fields.last());
        }
    }
}

} // verus!
