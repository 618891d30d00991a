//! YAML documents as plain values, read and written by `serde_yaml`.

use crate::float::{
    copy_float, digits_end, drop_sign, end_of_digits, is_decimal_number, is_float_text,
    is_special_number, mantissa_end, reads_as_float, unsigned, Float, INFINITY, SIGN,
};
use crate::text::{
    cat2, contains_char, from_chars, is_text, lowered, push_all, push_str, slice, text_less,
    to_ascii_lowercase, to_chars,
};
use crate::record::{
    ascending, entries, keyed, lemma_val_list, lemma_val_mapping, lemma_with_entry_ascending,
    put_entry, val, vals, with_entry, Val,
};
use serde_yaml::Number as YamlNumber;
use serde_yaml::Value as YamlValue;
use vstd::prelude::*;

pub mod laws;

verus! {

/// One step in building a document on a stack: push a scalar, or put what lies
/// on top of the stack into a list, a mapping or a tag.
#[derive(Debug, PartialEq, Eq)]
pub enum YamlStep {
    Null,
    Bool(bool),
    Int(i64),
    Float(Float),
    Text(String),
    /// A list of the topmost items.
    List(usize),
    /// A mapping of the topmost pairs of key and value.
    Mapping(usize),
    /// A tag on the topmost item.
    Tagged(String),
    /// An integer that only an unsigned number holds, and the floating-point number
    /// nearest to it.
    Large(u64, Float),
}

/// A step with its texts as sequences of characters.
pub enum Step {
    Null,
    Bool(bool),
    Int(i64),
    Float((u64, Seq<char>)),
    Text(Seq<char>),
    List(usize),
    Mapping(usize),
    Tagged(Seq<char>),
    Large(u64, (u64, Seq<char>)),
}

impl View for YamlStep {
    type V = Step;

    open spec fn view(&self) -> Step {
        match *self {
            YamlStep::Null => Step::Null,
            YamlStep::Bool(b) => Step::Bool(b),
            YamlStep::Int(n) => Step::Int(n),
            YamlStep::Float(f) => Step::Float(f@),
            YamlStep::Text(s) => Step::Text(s@),
            YamlStep::List(n) => Step::List(n),
            YamlStep::Mapping(n) => Step::Mapping(n),
            YamlStep::Tagged(t) => Step::Tagged(t@),
            YamlStep::Large(n, f) => Step::Large(n, f@),
        }
    }
}

/// What steps are.
pub open spec fn steps(v: Seq<YamlStep>) -> Seq<Step> {
    Seq::new(v.len(), |i: int| v[i]@)
}

/// What the steps of a document, or the message of the failure, are.
pub open spec fn parsed_view(r: Result<Vec<YamlStep>, String>) -> Result<Seq<Step>, Seq<char>> {
    match r {
        Ok(v) => Ok(steps(v@)),
        Err(e) => Err(e@),
    }
}

/// What a rendered text, or the message of the failure, is.
pub open spec fn rendered_view(r: Result<String, String>) -> Result<Seq<char>, Seq<char>> {
    match r {
        Ok(s) => Ok(s@),
        Err(e) => Err(e@),
    }
}

// ── Values of `serde_yaml` ─────────────────────────────────────────────────

/// A document as `serde_yaml` holds it.
#[verifier::external_type_specification]
#[verifier::external_body]
pub struct ExYamlValue(YamlValue);

/// A number as `serde_yaml` holds it.
#[verifier::external_type_specification]
#[verifier::external_body]
pub struct ExYamlNumber(YamlNumber);

/// What a `serde_yaml::Value` holds: the steps that build it, the leaves first.
pub uninterp spec fn yaml_contents(v: YamlValue) -> Seq<Step>;

/// What a `serde_yaml::Number` holds: the one step that builds it.
pub uninterp spec fn yaml_number_contents(n: YamlNumber) -> Seq<Step>;

/// What `serde_yaml::from_str` reads from a text: what the value holds, or the message
/// of its error.
pub uninterp spec fn yaml_parsed(text: Seq<char>) -> Result<Seq<Step>, Seq<char>>;

/// What `serde_yaml::to_string` writes for a value that holds a document, or the
/// message of its error.
pub uninterp spec fn yaml_rendered(document: Seq<Step>) -> Result<Seq<char>, Seq<char>>;

/// What `serde_yaml::Number` reads from a text: what the number holds.
pub uninterp spec fn yaml_number(text: Seq<char>) -> Option<Seq<Step>>;

/// A value of `serde_yaml` with its outermost layer taken off.
pub enum YamlNode<'a> {
    Null,
    Bool(bool),
    Number(&'a YamlNumber),
    Text(String),
    List(Vec<&'a YamlValue>),
    Mapping(Vec<(&'a YamlValue, &'a YamlValue)>),
    Tagged(String, &'a YamlValue),
}

/// What some values hold, one after the other.
pub open spec fn all_contents(vs: Seq<&YamlValue>) -> Seq<Step>
    decreases vs.len(),
{
    if vs.len() == 0 {
        seq![]
    } else {
        all_contents(vs.drop_last()) + yaml_contents(*vs.last())
    }
}

/// What some pairs of values hold, one after the other.
pub open spec fn pair_contents(ps: Seq<(&YamlValue, &YamlValue)>) -> Seq<Step>
    decreases ps.len(),
{
    if ps.len() == 0 {
        seq![]
    } else {
        pair_contents(ps.drop_last()) + yaml_contents(*ps.last().0) + yaml_contents(*ps.last().1)
    }
}

/// What a value holds whose outermost layer was taken off.
pub open spec fn node_contents(n: YamlNode<'_>) -> Seq<Step> {
    match n {
        YamlNode::Null => seq![Step::Null],
        YamlNode::Bool(b) => seq![Step::Bool(b)],
        YamlNode::Number(n) => yaml_number_contents(*n),
        YamlNode::Text(s) => seq![Step::Text(s@)],
        YamlNode::List(vs) => all_contents(vs@).push(Step::List(vs@.len() as usize)),
        YamlNode::Mapping(ps) => pair_contents(ps@).push(Step::Mapping(ps@.len() as usize)),
        YamlNode::Tagged(t, v) => yaml_contents(*v).push(Step::Tagged(t@)),
    }
}

/// Calls `serde_yaml::from_str` for a `serde_yaml::Value`. Claims that what the value
/// holds, or the message of the error, depends on the text alone.
#[verifier::external_body]
pub(crate) fn read_value(text: &str) -> (r: Result<YamlValue, String>)
    ensures
        match r {
            Ok(v) => yaml_parsed(text@) == Ok::<Seq<Step>, Seq<char>>(yaml_contents(v)),
            Err(e) => yaml_parsed(text@) == Err::<Seq<Step>, Seq<char>>(e@),
        },
{
    serde_yaml::from_str(text).map_err(|e| e.to_string())
}

/// Takes the outermost layer off a `serde_yaml::Value`, variant by variant. Claims that
/// the value holds what its parts hold, in their order, and then the layer.
#[verifier::external_body]
fn open_value<'a>(v: &'a YamlValue) -> (r: YamlNode<'a>)
    ensures
        yaml_contents(*v) == node_contents(r),
{
    match v {
        YamlValue::Null => YamlNode::Null,
        YamlValue::Bool(b) => YamlNode::Bool(*b),
        YamlValue::Number(n) => YamlNode::Number(n),
        YamlValue::String(s) => YamlNode::Text(s.clone()),
        YamlValue::Sequence(s) => YamlNode::List(s.iter().collect()),
        YamlValue::Mapping(m) => YamlNode::Mapping(m.iter().collect()),
        YamlValue::Tagged(t) => YamlNode::Tagged(t.tag.to_string(), &t.value),
    }
}

/// Calls `as_i64`, `as_u64` and `as_f64` of a `serde_yaml::Number`. Claims that the
/// number holds the first of an `i64`, a `u64` and a floating-point number that they
/// give; the last is there as its bits and the text that it is shown as.
#[verifier::external_body]
fn open_number(n: &YamlNumber) -> (r: YamlStep)
    ensures
        yaml_number_contents(*n) == seq![r@],
        r is Int || r is Large || r is Float,
{
    let x = n.as_f64().unwrap_or_default();
    let f: Float = Float { bits: x.to_bits(), text: x.to_string() };
    match (n.as_i64(), n.as_u64()) {
        (Some(i), _) => YamlStep::Int(i),
        (_, Some(u)) => YamlStep::Large(u, f),
        _ => YamlStep::Float(f),
    }
}

/// Calls `str::parse` for a `serde_yaml::Number`. Claims that what the number holds
/// depends on the text alone.
#[verifier::external_body]
fn parse_number(text: &str) -> (r: Option<YamlNumber>)
    ensures
        match r {
            Some(n) => yaml_number(text@) == Some(yaml_number_contents(n)),
            None => yaml_number(text@) is None,
        },
{
    text.parse().ok()
}

/// A value of `serde_yaml` to be made of its parts.
pub enum YamlPart {
    Null,
    Bool(bool),
    Int(i64),
    Number(YamlNumber),
    Text(String),
    List(Vec<YamlValue>),
    Mapping(Vec<(String, YamlValue)>),
}

/// What some values hold, one after the other.
pub open spec fn list_contents(vs: Seq<YamlValue>) -> Seq<Step>
    decreases vs.len(),
{
    if vs.len() == 0 {
        seq![]
    } else {
        list_contents(vs.drop_last()) + yaml_contents(vs.last())
    }
}

/// What entries hold, one after the other.
pub open spec fn entry_contents(m: Seq<(Seq<char>, Seq<Step>)>) -> Seq<Step>
    decreases m.len(),
{
    if m.len() == 0 {
        seq![]
    } else {
        entry_contents(m.drop_last()).push(Step::Text(m.last().0)) + m.last().1
    }
}

/// What the values of entries hold.
pub open spec fn held_by(m: Seq<(Seq<char>, YamlValue)>) -> Seq<(Seq<char>, Seq<Step>)> {
    Seq::new(m.len(), |i: int| (m[i].0, yaml_contents(m[i].1)))
}

/// What a value made of its parts holds.
pub open spec fn part_contents(p: YamlPart) -> Seq<Step> {
    match p {
        YamlPart::Null => seq![Step::Null],
        YamlPart::Bool(b) => seq![Step::Bool(b)],
        YamlPart::Int(n) => seq![Step::Int(n)],
        YamlPart::Number(n) => yaml_number_contents(n),
        YamlPart::Text(s) => seq![Step::Text(s@)],
        YamlPart::List(vs) => list_contents(vs@).push(Step::List(vs@.len() as usize)),
        YamlPart::Mapping(m) => entry_contents(held_by(keyed(m@))).push(
            Step::Mapping(m@.len() as usize),
        ),
    }
}

/// Makes a `serde_yaml::Value`, variant by variant. Claims that it holds what it is made
/// of; a mapping keeps the order of its keys, and each of them, since none occurs
/// twice.
#[verifier::external_body]
fn make_value(p: YamlPart) -> (r: YamlValue)
    requires
        p matches YamlPart::Mapping(m) ==> ascending(keyed(m@)),
    ensures
        yaml_contents(r) == part_contents(p),
{
    match p {
        YamlPart::Null => YamlValue::Null,
        YamlPart::Bool(b) => b.into(),
        YamlPart::Int(n) => n.into(),
        YamlPart::Number(n) => YamlValue::Number(n),
        YamlPart::Text(s) => s.into(),
        YamlPart::List(vs) => vs.into(),
        YamlPart::Mapping(m) => YamlValue::Mapping(m.into_iter().map(|(k, v)| (k.into(), v)).collect()),
    }
}

/// Calls `serde_yaml::to_string` on a `serde_yaml::Value`. Claims that the text, or the
/// message of the error, depends on what the value holds alone.
#[verifier::external_body]
fn write_value(v: &YamlValue) -> (r: Result<String, String>)
    ensures
        rendered_view(r) == yaml_rendered(yaml_contents(*v)),
{
    serde_yaml::to_string(v).map_err(|e| e.to_string())
}

/// Each of some values holds part of what they hold together.
proof fn lemma_all_contents(vs: Seq<&YamlValue>, i: int)
    requires
        0 <= i < vs.len(),
    ensures
        yaml_contents(*vs[i]).len() <= all_contents(vs).len(),
    decreases vs.len(),
{
    if i < vs.len() - 1 {
        lemma_all_contents(vs.drop_last(), i);
    }
}

/// Each of some pairs of values holds part of what they hold together.
proof fn lemma_pair_contents(ps: Seq<(&YamlValue, &YamlValue)>, i: int)
    requires
        0 <= i < ps.len(),
    ensures
        yaml_contents(*ps[i].0).len() <= pair_contents(ps).len(),
        yaml_contents(*ps[i].1).len() <= pair_contents(ps).len(),
    decreases ps.len(),
{
    if i < ps.len() - 1 {
        lemma_pair_contents(ps.drop_last(), i);
    }
}

/// Appends a step.
fn push_step(out: &mut Vec<YamlStep>, x: YamlStep)
    ensures
        steps(final(out)@) == steps(old(out)@).push(x@),
{
    let ghost before = out@;
    out.push(x);
    assert(steps(out@) =~= steps(before).push(x@));
}

/// Appends what a value holds.
fn push_contents(out: &mut Vec<YamlStep>, v: &YamlValue)
    ensures
        steps(final(out)@) == steps(old(out)@) + yaml_contents(*v),
    decreases yaml_contents(*v).len(),
{
    let ghost before = steps(out@);
    match open_value(v) {
        YamlNode::Null => {
            push_step(out, YamlStep::Null);
        },
        YamlNode::Bool(b) => {
            push_step(out, YamlStep::Bool(b));
        },
        YamlNode::Number(n) => {
            push_step(out, open_number(n));
        },
        YamlNode::Text(s) => {
            push_step(out, YamlStep::Text(s));
        },
        YamlNode::List(vs) => {
            let mut i: usize = 0;
            assert(vs@.take(0) =~= seq![]);
            assert(before + all_contents(vs@.take(0)) =~= before);
            while i < vs.len()
                invariant
                    i <= vs.len(),
                    yaml_contents(*v) == all_contents(vs@).push(Step::List(vs@.len() as usize)),
                    steps(out@) == before + all_contents(vs@.take(i as int)),
                decreases vs.len() - i,
            {
                proof {
                    lemma_all_contents(vs@, i as int);
                    assert(vs@.take(i + 1).drop_last() =~= vs@.take(i as int));
                }
                push_contents(out, vs[i]);
                i += 1;
                assert(steps(out@) =~= before + all_contents(vs@.take(i as int)));
            }
            assert(vs@.take(i as int) =~= vs@);
            push_step(out, YamlStep::List(i));
        },
        YamlNode::Mapping(ps) => {
            let mut i: usize = 0;
            assert(ps@.take(0) =~= seq![]);
            assert(before + pair_contents(ps@.take(0)) =~= before);
            while i < ps.len()
                invariant
                    i <= ps.len(),
                    yaml_contents(*v) == pair_contents(ps@).push(
                        Step::Mapping(ps@.len() as usize),
                    ),
                    steps(out@) == before + pair_contents(ps@.take(i as int)),
                decreases ps.len() - i,
            {
                proof {
                    lemma_pair_contents(ps@, i as int);
                    assert(ps@.take(i + 1).drop_last() =~= ps@.take(i as int));
                }
                push_contents(out, ps[i].0);
                push_contents(out, ps[i].1);
                i += 1;
                assert(steps(out@) =~= before + pair_contents(ps@.take(i as int)));
            }
            assert(ps@.take(i as int) =~= ps@);
            push_step(out, YamlStep::Mapping(i));
        },
        YamlNode::Tagged(t, inner) => {
            push_contents(out, inner);
            push_step(out, YamlStep::Tagged(t));
        },
    }
    assert(steps(out@) =~= before + yaml_contents(*v));
}

/// Reads a document as the steps that build it, the leaves first.
fn parse_steps(text: &str) -> (r: Result<Vec<YamlStep>, String>)
    ensures
        parsed_view(r) == yaml_parsed(text@),
{
    match read_value(text) {
        Ok(v) => {
            let mut out: Vec<YamlStep> = Vec::new();
            push_contents(&mut out, &v);
            assert(steps(out@) =~= yaml_contents(v));
            Ok(out)
        },
        Err(e) => Err(e),
    }
}

// ── Numbers ────────────────────────────────────────────────────────────────

/// A decimal number with a digit on both sides of a point, as every reader of
/// floating-point numbers takes it.
pub open spec fn pointed(s: Seq<char>) -> Seq<char> {
    let a = digits_end(s, 0);
    let b = mantissa_end(s);
    (if a == 0 {
        "0"@
    } else {
        s.take(a)
    }) + "."@ + (if b <= a + 1 {
        "0"@
    } else {
        s.subrange(a + 1, b)
    }) + s.skip(b)
}

/// The floating-point number that a number holds, if it is one.
pub open spec fn float_held(n: Option<Seq<Step>>) -> Option<(u64, Seq<char>)> {
    match n {
        Some(held) => match held[0] {
            Step::Float(f) => Some(f),
            _ => None,
        },
        None => None,
    }
}

/// The bits and the text of the floating-point number that a text stands for. A
/// number too large to be finite is infinite.
pub open spec fn float_reading(s: Seq<char>) -> Option<(u64, Seq<char>)> {
    let negative = s.len() > 0 && s[0] == '-';
    let body = unsigned(s);
    let infinite: (u64, Seq<char>) = if negative {
        ((SIGN + INFINITY) as u64, "-inf"@)
    } else {
        (INFINITY, "inf"@)
    };
    if !is_float_text(s) {
        None
    } else if lowered(body) == "nan"@ {
        Some((((if negative { SIGN as int } else { 0int }) + 0x7ff8_0000_0000_0000) as u64, "NaN"@))
    } else if is_special_number(body) {
        Some(infinite)
    } else {
        match float_held(yaml_number((if negative { "-"@ } else { ""@ }) + pointed(body))) {
            Some(f) => Some(f),
            None => Some(infinite),
        }
    }
}

/// What a floating-point number that may be missing is.
pub open spec fn float_view(f: Option<Float>) -> Option<(u64, Seq<char>)> {
    match f {
        Some(f) => Some(f@),
        None => None,
    }
}

/// Writes a decimal number with a digit on both sides of its point.
fn point(s: &Vec<char>) -> (r: Vec<char>)
    requires
        is_decimal_number(s@),
    ensures
        r@ == pointed(s@),
{
    let a: usize = end_of_digits(s, 0);
    let b: usize = if a < s.len() && s[a] == '.' {
        end_of_digits(s, a + 1)
    } else {
        a
    };
    let mut out: Vec<char> = if a == 0 {
        to_chars("0")
    } else {
        slice(s, 0, a)
    };
    assert(a > 0 ==> out@ =~= s@.take(a as int));
    push_str(&mut out, ".");
    if b - a <= 1 {
        push_str(&mut out, "0");
    } else {
        push_all(&mut out, &slice(s, a + 1, b));
    }
    let tail: Vec<char> = slice(s, b, s.len());
    assert(tail@ =~= s@.skip(b as int));
    push_all(&mut out, &tail);
    out
}

/// Reads a floating-point number.
pub fn read_float(text: &str) -> (r: Option<Float>)
    ensures
        float_view(r) == float_reading(text@),
{
    let s: Vec<char> = to_chars(text);
    if !reads_as_float(&s) {
        return None;
    }
    let negative: bool = s.len() > 0 && s[0] == '-';
    let body: Vec<char> = drop_sign(&s);
    let low: Vec<char> = to_ascii_lowercase(&body);
    if is_text(&low, "nan") {
        let bits: u64 = if negative {
            0xfff8_0000_0000_0000
        } else {
            0x7ff8_0000_0000_0000
        };
        return Some(Float { bits, text: "NaN".to_owned() });
    }
    if !is_text(&low, "inf") && !is_text(&low, "infinity") {
        let digits: String = from_chars(&point(&body));
        let full: String = if negative {
            cat2("-", digits.as_str())
        } else {
            cat2("", digits.as_str())
        };
        match parse_number(full.as_str()) {
            Some(n) => match open_number(&n) {
                YamlStep::Float(f) => {
                    return Some(f);
                },
                _ => {},
            },
            None => {},
        }
    }
    if negative {
        Some(Float { bits: SIGN + INFINITY, text: "-inf".to_owned() })
    } else {
        Some(Float { bits: INFINITY, text: "inf".to_owned() })
    }
}

/// How a floating-point number is written in YAML, so that it does not read as an
/// integer.
pub open spec fn yaml_float_text(f: (u64, Seq<char>)) -> Seq<char> {
    if f.1 == "inf"@ {
        ".inf"@
    } else if f.1 == "-inf"@ {
        "-.inf"@
    } else if f.1 == "NaN"@ {
        ".nan"@
    } else if f.1.contains('.') {
        f.1
    } else {
        f.1 + ".0"@
    }
}

/// Writes a floating-point number so that it does not read as an integer.
pub fn write_float(f: &Float) -> (r: Float)
    ensures
        r@ == (f.bits, yaml_float_text(f@)),
{
    let t: Vec<char> = to_chars(f.text.as_str());
    let text: String = if is_text(&t, "inf") {
        ".inf".to_owned()
    } else if is_text(&t, "-inf") {
        "-.inf".to_owned()
    } else if is_text(&t, "NaN") {
        ".nan".to_owned()
    } else if contains_char(&t, '.') {
        f.text.clone()
    } else {
        cat2(f.text.as_str(), ".0")
    };
    Float { bits: f.bits, text }
}

// ── Documents ──────────────────────────────────────────────────────────────

/// A YAML document.
#[derive(Debug, PartialEq, Eq)]
pub enum Yaml {
    Null,
    Bool(bool),
    Int(i64),
    Float(Float),
    Text(String),
    List(Vec<Yaml>),
    Mapping(Vec<(Yaml, Yaml)>),
    Tagged(Box<Yaml>),
}

/// A document with its texts and lists as sequences.
pub enum Doc {
    Null,
    Bool(bool),
    Int(i64),
    Float((u64, Seq<char>)),
    Text(Seq<char>),
    List(Seq<Doc>),
    Mapping(Seq<(Doc, Doc)>),
    Tagged(Box<Doc>),
}

/// What a document is.
pub open spec fn doc(y: Yaml) -> Doc
    decreases y,
{
    match y {
        Yaml::Null => Doc::Null,
        Yaml::Bool(b) => Doc::Bool(b),
        Yaml::Int(n) => Doc::Int(n),
        Yaml::Float(f) => Doc::Float(f@),
        Yaml::Text(s) => Doc::Text(s@),
        Yaml::List(items) => Doc::List(
            Seq::new(
                items@.len(),
                |i: int|
                    if 0 <= i < items@.len() {
                        doc(items@[i])
                    } else {
                        Doc::Null
                    },
            ),
        ),
        Yaml::Mapping(m) => Doc::Mapping(
            Seq::new(
                m@.len(),
                |i: int|
                    if 0 <= i < m@.len() {
                        (doc(m@[i].0), doc(m@[i].1))
                    } else {
                        (Doc::Null, Doc::Null)
                    },
            ),
        ),
        Yaml::Tagged(y) => Doc::Tagged(Box::new(doc(*y))),
    }
}

/// What documents are.
pub open spec fn docs(items: Seq<Yaml>) -> Seq<Doc> {
    Seq::new(items.len(), |i: int| doc(items[i]))
}

/// What pairs of documents are.
pub open spec fn doc_pairs(m: Seq<(Yaml, Yaml)>) -> Seq<(Doc, Doc)> {
    Seq::new(m.len(), |i: int| (doc(m[i].0), doc(m[i].1)))
}

/// A list is what its items are.
pub proof fn lemma_doc_list(items: Vec<Yaml>)
    ensures
        doc(Yaml::List(items)) == Doc::List(docs(items@)),
{
    assert(doc(Yaml::List(items))->List_0 =~= docs(items@));
}

/// A mapping is what its pairs are.
pub proof fn lemma_doc_mapping(m: Vec<(Yaml, Yaml)>)
    ensures
        doc(Yaml::Mapping(m)) == Doc::Mapping(doc_pairs(m@)),
{
    assert(doc(Yaml::Mapping(m))->Mapping_0 =~= doc_pairs(m@));
}

/// Documents in pairs.
pub open spec fn paired(items: Seq<Doc>) -> Seq<(Doc, Doc)> {
    Seq::new(items.len() / 2, |i: int| (items[2 * i], items[2 * i + 1]))
}

/// The smaller of two numbers.
pub open spec fn smaller(a: int, b: int) -> int {
    if a <= b {
        a
    } else {
        b
    }
}

/// The stack after one more step.
pub open spec fn stacked(stack: Seq<Doc>, step: Step) -> Seq<Doc> {
    let n = stack.len() as int;
    match step {
        Step::Null => stack.push(Doc::Null),
        Step::Bool(b) => stack.push(Doc::Bool(b)),
        Step::Int(i) => stack.push(Doc::Int(i)),
        Step::Float(f) => stack.push(Doc::Float(f)),
        Step::Text(s) => stack.push(Doc::Text(s)),
        Step::List(k) => {
            let at = n - smaller(k as int, n);
            stack.take(at).push(Doc::List(stack.skip(at)))
        },
        Step::Mapping(k) => {
            let at = n - 2 * smaller(k as int, n / 2);
            stack.take(at).push(Doc::Mapping(paired(stack.skip(at))))
        },
        Step::Large(_, f) => stack.push(Doc::Float(f)),
        Step::Tagged(_) => if n == 0 {
            stack
        } else {
            stack.drop_last().push(Doc::Tagged(Box::new(stack.last())))
        },
    }
}

/// The stack that steps leave.
pub open spec fn stack_of(document: Seq<Step>) -> Seq<Doc>
    decreases document.len(),
{
    if document.len() == 0 {
        seq![]
    } else {
        stacked(stack_of(document.drop_last()), document.last())
    }
}

/// The document that steps build.
pub open spec fn built(document: Seq<Step>) -> Doc {
    let stack = stack_of(document);
    if stack.len() == 0 {
        Doc::Null
    } else {
        stack.last()
    }
}

/// Puts documents in pairs.
fn pair_up(items: Vec<Yaml>) -> (r: Vec<(Yaml, Yaml)>)
    requires
        items.len() % 2 == 0,
    ensures
        doc_pairs(r@) == paired(docs(items@)),
{
    let ghost all = items@;
    let mut items: Vec<Yaml> = items;
    let mut out: Vec<(Yaml, Yaml)> = Vec::new();
    assert(doc_pairs(out@) =~= paired(docs(all)).skip(paired(docs(all)).len() as int));
    while items.len() >= 2
        invariant
            items.len() % 2 == 0,
            items@ == all.take(items@.len() as int),
            items@.len() <= all.len(),
            all.len() % 2 == 0,
            doc_pairs(out@) == paired(docs(all)).skip(items@.len() as int / 2),
        decreases items.len(),
    {
        let ghost n = items@.len() as int;
        let v: Option<Yaml> = items.pop();
        let k: Option<Yaml> = items.pop();
        match (k, v) {
            (Some(k), Some(v)) => {
                let ghost before = out@;
                assert(k == all[n - 2] && v == all[n - 1]);
                out.insert(0, (k, v));
                assert(items@ =~= all.take(n - 2));
                assert(doc_pairs(out@) =~= seq![(doc(k), doc(v))] + doc_pairs(before));
                assert(paired(docs(all))[n / 2 - 1] == (doc(k), doc(v)));
                assert(doc_pairs(out@) =~= paired(docs(all)).skip(n / 2 - 1));
            },
            _ => {},
        }
    }
    assert(paired(docs(all)).skip(0) =~= paired(docs(all)));
    out
}

/// Documents followed by one more.
proof fn lemma_docs_push(v: Seq<Yaml>, x: Yaml)
    ensures
        docs(v.push(x)) == docs(v).push(doc(x)),
{
    assert(docs(v.push(x)) =~= docs(v).push(doc(x)));
}

/// Takes one step in building a document.
fn take_step(stack: &mut Vec<Yaml>, step: &YamlStep)
    ensures
        docs(final(stack)@) == stacked(docs(old(stack)@), step@),
{
    let ghost before = stack@;
    let n: usize = stack.len();
    let y: Yaml = match step {
        YamlStep::Null => Yaml::Null,
        YamlStep::Bool(b) => Yaml::Bool(*b),
        YamlStep::Int(i) => Yaml::Int(*i),
        YamlStep::Float(f) => Yaml::Float(copy_float(f)),
        YamlStep::Text(s) => Yaml::Text(s.clone()),
        YamlStep::List(k) => {
            let at: usize = if *k <= n {
                n - *k
            } else {
                0
            };
            let tail: Vec<Yaml> = stack.split_off(at);
            proof {
                assert(docs(tail@) =~= docs(before).skip(at as int));
                assert(docs(stack@) =~= docs(before).take(at as int));
                lemma_doc_list(tail);
            }
            Yaml::List(tail)
        },
        YamlStep::Mapping(k) => {
            let at: usize = if *k <= n / 2 {
                n - 2 * *k
            } else {
                n - 2 * (n / 2)
            };
            let tail: Vec<Yaml> = stack.split_off(at);
            assert(docs(tail@) =~= docs(before).skip(at as int));
            assert(docs(stack@) =~= docs(before).take(at as int));
            let pairs: Vec<(Yaml, Yaml)> = pair_up(tail);
            proof {
                lemma_doc_mapping(pairs);
            }
            Yaml::Mapping(pairs)
        },
        YamlStep::Large(_, f) => Yaml::Float(copy_float(f)),
        YamlStep::Tagged(_) => match stack.pop() {
            Some(y) => {
                assert(docs(stack@) =~= docs(before).drop_last());
                Yaml::Tagged(Box::new(y))
            },
            None => {
                return ;
            },
        },
    };
    proof {
        lemma_docs_push(stack@, y);
    }
    stack.push(y);
}

/// Builds a document from its steps.
pub fn build(document: &Vec<YamlStep>) -> (r: Yaml)
    ensures
        doc(r) == built(steps(document@)),
{
    let ghost all = steps(document@);
    let mut stack: Vec<Yaml> = Vec::new();
    let mut i: usize = 0;
    assert(all.take(0) =~= seq![]);
    assert(docs(stack@) =~= seq![]);
    while i < document.len()
        invariant
            all == steps(document@),
            i <= document.len(),
            docs(stack@) == stack_of(all.take(i as int)),
        decreases document.len() - i,
    {
        assert(all.take(i + 1).drop_last() =~= all.take(i as int));
        take_step(&mut stack, &document[i]);
        i += 1;
    }
    assert(all.take(i as int) =~= all);
    match stack.pop() {
        Some(y) => y,
        None => Yaml::Null,
    }
}

/// What a document that was read, or the message of the failure, is.
pub open spec fn document_view(r: Result<Yaml, String>) -> Result<Doc, Seq<char>> {
    match r {
        Ok(y) => Ok(doc(y)),
        Err(e) => Err(e@),
    }
}

/// The document that a text holds, or the message of the failure.
pub open spec fn document_of(text: Seq<char>) -> Result<Doc, Seq<char>> {
    match yaml_parsed(text) {
        Ok(s) => Ok(built(s)),
        Err(e) => Err(e),
    }
}

/// Reads a document.
pub fn parse(text: &str) -> (r: Result<Yaml, String>)
    ensures
        document_view(r) == document_of(text@),
{
    match parse_steps(text) {
        Ok(s) => Ok(build(&s)),
        Err(e) => Err(e),
    }
}

/// What the `serde_yaml::Value` of a floating-point number holds: the number that its
/// text stands for, or the text where that is none.
pub open spec fn float_contents(f: (u64, Seq<char>)) -> Seq<Step> {
    match yaml_number(yaml_float_text(f)) {
        Some(held) => held,
        None => seq![Step::Text(yaml_float_text(f))],
    }
}

/// What the `serde_yaml::Value` of a value holds. The keys of a mapping ascend.
pub open spec fn held(v: Val) -> Seq<Step>
    decreases v,
{
    match v {
        Val::Null => seq![Step::Null],
        Val::Text(s) => seq![Step::Text(s)],
        Val::Int(n) => seq![Step::Int(n)],
        Val::Float(f) => float_contents(f),
        Val::Bool(b) => seq![Step::Bool(b)],
        Val::List(items) => held_items(items).push(Step::List(items.len() as usize)),
        Val::Mapping(m) => mapping_contents(held_entries(m)),
    }
}

/// What the items of a list hold, one after the other.
pub open spec fn held_items(items: Seq<Val>) -> Seq<Step>
    decreases items,
{
    if items.len() == 0 {
        seq![]
    } else {
        held_items(items.drop_last()) + held(items.last())
    }
}

/// What the entries of a mapping hold, in ascending order of their keys: of equal keys,
/// the last one counts.
pub open spec fn held_entries(m: Seq<(Seq<char>, Val)>) -> Seq<(Seq<char>, Seq<Step>)>
    decreases m,
{
    if m.len() == 0 {
        seq![]
    } else {
        with_entry(held_entries(m.drop_last()), m.last().0, held(m.last().1))
    }
}

/// What a mapping of entries holds.
pub open spec fn mapping_contents(m: Seq<(Seq<char>, Seq<Step>)>) -> Seq<Step> {
    entry_contents(m).push(Step::Mapping(m.len() as usize))
}

/// What the values of entries hold once a key is set.
proof fn lemma_held_by_entry(
    m: Seq<(Seq<char>, YamlValue)>,
    key: Seq<char>,
    v: YamlValue,
)
    ensures
        held_by(with_entry(m, key, v)) == with_entry(held_by(m), key, yaml_contents(v)),
    decreases m.len(),
{
    let h = held_by(m);
    if m.len() > 0 {
        assert(h[0] == (m[0].0, yaml_contents(m[0].1)));
        assert(held_by(m.skip(1)) =~= h.skip(1));
        if m[0].0 != key && !text_less(key, m[0].0) {
            lemma_held_by_entry(m.skip(1), key, v);
        }
    }
    assert(held_by(with_entry(m, key, v)) =~= with_entry(h, key, yaml_contents(v)));
}

/// Makes the `serde_yaml::Value` of a floating-point number.
pub(crate) fn make_float(f: &Float) -> (r: YamlValue)
    ensures
        yaml_contents(r) == float_contents(f@),
{
    let t: Float = write_float(f);
    match parse_number(t.text.as_str()) {
        Some(n) => make_value(YamlPart::Number(n)),
        None => make_value(YamlPart::Text(t.text)),
    }
}

/// Makes the `serde_yaml::Value` of a value.
fn to_value(v: &crate::record::Value) -> (r: YamlValue)
    ensures
        yaml_contents(r) == held(val(*v)),
    decreases v,
{
    match v {
        crate::record::Value::Null => make_value(YamlPart::Null),
        crate::record::Value::String(s) => make_value(YamlPart::Text(s.clone())),
        crate::record::Value::Integer(n) => make_value(YamlPart::Int(*n)),
        crate::record::Value::Float(f) => make_float(f),
        crate::record::Value::Bool(b) => make_value(YamlPart::Bool(*b)),
        crate::record::Value::List(items) => {
            proof {
                lemma_val_list(*items);
            }
            let ghost all = vals(items@);
            let mut out: Vec<YamlValue> = Vec::new();
            let mut i: usize = 0;
            assert(all.take(0) =~= seq![]);
            while i < items.len()
                invariant
                    *v == crate::record::Value::List(*items),
                    all == vals(items@),
                    i <= items.len(),
                    out.len() == i,
                    list_contents(out@) == held_items(all.take(i as int)),
                decreases items.len() - i,
            {
                proof {
                    broadcast use vstd::std_specs::vec::axiom_vec_index_decreases;

                    assert(decreases_to!(*items => items[i as int]));
                    assert(decreases_to!(*v => v->List_0));
                    assert(all.take(i + 1).drop_last() =~= all.take(i as int));
                }
                let x: YamlValue = to_value(&items[i]);
                let ghost before = out@;
                out.push(x);
                assert(out@.drop_last() =~= before);
                i += 1;
            }
            assert(all.take(i as int) =~= all);
            make_value(YamlPart::List(out))
        },
        crate::record::Value::Mapping(m) => {
            proof {
                lemma_val_mapping(*m);
            }
            let ghost all = entries(m@);
            let mut out: Vec<(String, YamlValue)> = Vec::new();
            let mut i: usize = 0;
            assert(all.take(0) =~= seq![]);
            assert(held_by(keyed(out@)) =~= seq![]);
            while i < m.len()
                invariant
                    *v == crate::record::Value::Mapping(*m),
                    all == entries(m@),
                    i <= m.len(),
                    ascending(keyed(out@)),
                    held_by(keyed(out@)) == held_entries(all.take(i as int)),
                decreases m.len() - i,
            {
                proof {
                    broadcast use vstd::std_specs::vec::axiom_vec_index_decreases;

                    assert(decreases_to!(*m => m[i as int]));
                    assert(decreases_to!(m[i as int] => m[i as int].1));
                    assert(decreases_to!(*v => v->Mapping_0));
                    assert(all.take(i + 1).drop_last() =~= all.take(i as int));
                }
                let x: YamlValue = to_value(&m[i].1);
                proof {
                    lemma_held_by_entry(keyed(out@), m@[i as int].0@, x);
                    lemma_with_entry_ascending(keyed(out@), m@[i as int].0@, x);
                }
                put_entry(&mut out, m[i].0.as_str(), x);
                i += 1;
            }
            assert(all.take(i as int) =~= all);
            assert(held_by(keyed(out@)).len() == out@.len());
            make_value(YamlPart::Mapping(out))
        },
    }
}

/// A value in YAML, or the message of the failure.
pub open spec fn value_yaml(v: Val) -> Result<Seq<char>, Seq<char>> {
    yaml_rendered(held(v))
}

/// A mapping of one key to a value in YAML, or the message of the failure.
pub open spec fn entry_yaml(key: Seq<char>, v: Val) -> Result<Seq<char>, Seq<char>> {
    yaml_rendered(mapping_contents(seq![(key, held(v))]))
}

/// Writes a value in YAML.
pub fn render_value(v: &crate::record::Value) -> (r: Result<String, String>)
    ensures
        rendered_view(r) == value_yaml(val(*v)),
{
    write_value(&to_value(v))
}

/// Writes a mapping of one key to a value in YAML.
pub fn render_entry(key: &str, v: &crate::record::Value) -> (r: Result<String, String>)
    ensures
        rendered_view(r) == entry_yaml(key@, val(*v)),
{
    let x: YamlValue = to_value(v);
    let mut m: Vec<(String, YamlValue)> = Vec::new();
    m.push((key.to_owned(), x));
    assert(held_by(keyed(m@)) =~= seq![(key@, held(val(*v)))]);
    write_value(&make_value(YamlPart::Mapping(m)))
}

} // verus!
