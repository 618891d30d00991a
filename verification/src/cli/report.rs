//! The commands `fields`, `tags`, `links` and `traverse`: what there is in the notes
//! of a folder, and how they are linked.

use crate::cli::query::{
    clauses, folder_notes, load_folder, matches_all, parse_select, parse_where_clauses, selection,
    CommandError, Purpose, Trouble,
};
use crate::error::Failure;
use crate::float::int_order;
use crate::links::{
    graph_of, hit_views, reached, record_named, sources, targets, Direction, Graph, LinkGraph,
};
use crate::path::below;
use crate::filter::holds;
use crate::query::{conds, Cond, Expr};
use crate::record::{
    copy_value, entries, field, get_field, kind, lemma_vals_push, looked_up, recs, shown, val, vals,
    Rec, Record, Val, Value,
};
use crate::schema::{collect_names, field_names, values_in, values_of};
use crate::sort::{
    goes_before, ints, is_consistent, law_sorted, lemma_sorted_same, positions, rank_of,
    sort_positions, sorted, Ranked,
};
use crate::text::{
    cat3, lemma_string_views_push, lemma_text_set, same_text, sort_texts, string_views, text_less,
    text_set, Order,
};
use crate::tree::{has_folder, Picture, Tree};
use crate::vault::Vault;
use vstd::prelude::*;

verus! {

// ── Fields ─────────────────────────────────────────────────────────────────

/// What there is of a field: the kinds of its values, ascending, how many values are
/// not null, and how many there are.
#[derive(Debug, PartialEq, Eq)]
pub struct FieldInfo {
    pub name: String,
    pub types: Vec<String>,
    pub non_null: usize,
    pub total: usize,
}

/// What there is of a field, with its texts as sequences of characters.
pub struct Info {
    pub name: Seq<char>,
    pub types: Seq<Seq<char>>,
    pub non_null: nat,
    pub total: nat,
}

impl View for FieldInfo {
    type V = Info;

    open spec fn view(&self) -> Info {
        Info {
            name: self.name@,
            types: string_views(self.types@),
            non_null: self.non_null as nat,
            total: self.total as nat,
        }
    }
}

/// What there is of some fields.
pub open spec fn infos(v: Seq<FieldInfo>) -> Seq<Info> {
    Seq::new(v.len(), |i: int| v[i]@)
}

/// How many of some values are not null.
pub open spec fn count_set(vs: Seq<Val>) -> nat
    decreases vs.len(),
{
    if vs.len() == 0 {
        0
    } else {
        count_set(vs.drop_last()) + if vs.last() == Val::Null {
            0nat
        } else {
            1nat
        }
    }
}

/// The kinds of some values.
pub open spec fn kinds(vs: Seq<Val>) -> Seq<Seq<char>> {
    Seq::new(vs.len(), |i: int| kind(vs[i]))
}

/// What there is of a field whose values are given.
pub open spec fn info_of(name: Seq<char>, vs: Seq<Val>) -> Info {
    Info { name, types: text_set(kinds(vs)), non_null: count_set(vs), total: vs.len() }
}

/// What there is of every field of some notes.
pub open spec fn all_infos(rs: Seq<Rec>) -> Seq<Info> {
    let names = field_names(rs);
    Seq::new(names.len(), |i: int| info_of(names[i], values_of(rs, names[i])))
}

/// Collects the values that some notes give a field.
fn collect_values(records: &Vec<Record>, name: &str) -> (r: Vec<Value>)
    ensures
        vals(r@) == values_of(recs(records@), name@),
{
    let ghost rs = recs(records@);
    let mut out: Vec<Value> = Vec::new();
    let mut i: usize = 0;
    assert(rs.take(0) =~= seq![]);
    assert(vals(out@) =~= seq![]);
    while i < records.len()
        invariant
            rs == recs(records@),
            i <= records.len(),
            vals(out@) == values_of(rs.take(i as int), name@),
        decreases records.len() - i,
    {
        let ghost fs = entries(records@[i as int].fields@);
        let ghost start = vals(out@);
        let mut j: usize = 0;
        assert(fs.take(0) =~= seq![]);
        assert(vals(out@) =~= start + values_in(fs.take(0), name@));
        while j < records[i].fields.len()
            invariant
                rs == recs(records@),
                i < records.len(),
                fs == entries(records@[i as int].fields@),
                j <= fs.len(),
                vals(out@) == start + values_in(fs.take(j as int), name@),
            decreases fs.len() - j,
        {
            assert(fs.take(j + 1).drop_last() =~= fs.take(j as int));
            if same_text(records[i].fields[j].0.as_str(), name) {
                let v: Value = copy_value(&records[i].fields[j].1);
                proof {
                    lemma_vals_push(out@, v);
                }
                out.push(v);
            }
            j += 1;
            assert(vals(out@) =~= start + values_in(fs.take(j as int), name@));
        }
        assert(fs.take(j as int) =~= fs);
        assert(rs.take(i + 1).drop_last() =~= rs.take(i as int));
        i += 1;
    }
    assert(rs.take(i as int) =~= rs);
    out
}

/// Tells what there is of a field whose values are given.
fn tell_field(name: &str, values: &Vec<Value>) -> (r: FieldInfo)
    ensures
        r@ == info_of(name@, vals(values@)),
{
    let ghost vs = vals(values@);
    let mut names: Vec<String> = Vec::new();
    let mut non_null: usize = 0;
    let mut i: usize = 0;
    assert(vs.take(0) =~= seq![]);
    assert(string_views(names@) =~= kinds(vs.take(0)));
    while i < values.len()
        invariant
            vs == vals(values@),
            i <= values.len(),
            non_null <= i,
            non_null == count_set(vs.take(i as int)),
            string_views(names@) == kinds(vs.take(i as int)),
        decreases values.len() - i,
    {
        assert(vs.take(i + 1).drop_last() =~= vs.take(i as int));
        assert(vs.take(i + 1).last() == val(values@[i as int]));
        if !values[i].is_null() {
            non_null += 1;
        }
        let k: String = values[i].kind_name().to_owned();
        let ghost before = string_views(names@);
        names.push(k);
        assert(string_views(names@) =~= before.push(k@));
        i += 1;
        assert(string_views(names@) =~= kinds(vs.take(i as int)));
    }
    assert(vs.take(i as int) =~= vs);
    FieldInfo { name: name.to_owned(), types: sort_texts(&names), non_null, total: values.len() }
}

/// What the command `fields` shows: each field, and how many notes there are.
#[derive(Debug, PartialEq, Eq)]
pub struct FieldsOutput {
    pub fields: Vec<FieldInfo>,
    pub total: usize,
}

/// What the command `fields` shows, or the failure.
pub open spec fn fields_view(r: Result<FieldsOutput, CommandError>) -> Result<
    (Seq<Info>, nat),
    Trouble,
> {
    match r {
        Ok(o) => Ok((infos(o.fields@), o.total as nat)),
        Err(e) => Err(e@),
    }
}

/// The notes of a folder that is there, or why they cannot be loaded.
pub open spec fn notes_of(
    p: Picture,
    root: Seq<char>,
    folder: Seq<char>,
    recursive: bool,
) -> Result<Seq<Rec>, Trouble> {
    if !has_folder(p, below(root, folder)) {
        Err(Trouble::Failed(Failure::FolderNotFound(folder)))
    } else {
        match folder_notes(p, root, folder, recursive) {
            Ok(rs) => Ok(rs),
            Err(e) => Err(Trouble::Failed(e)),
        }
    }
}

/// What the command `fields` shows.
pub open spec fn fields_run(
    p: Picture,
    root: Seq<char>,
    folder: Seq<char>,
    recursive: bool,
) -> Result<(Seq<Info>, nat), Trouble> {
    match notes_of(p, root, folder, recursive) {
        Ok(rs) => Ok((all_infos(rs), rs.len())),
        Err(t) => Err(t),
    }
}

/// Notes that were loaded, or the failure.
pub open spec fn notes_view(r: Result<Vec<Record>, CommandError>) -> Result<Seq<Rec>, Trouble> {
    match r {
        Ok(v) => Ok(recs(v@)),
        Err(e) => Err(e@),
    }
}

/// Loads the notes of a folder.
pub fn load_notes(vault: &Vault, tree: &Tree, folder: &str, recursive: bool) -> (r: Result<
    Vec<Record>,
    CommandError,
>)
    ensures
        notes_view(r) == notes_of(tree@, vault.root@, folder@, recursive),
{
    match vault.resolve_folder(folder, tree) {
        Ok(_) => load_folder(vault, tree, folder, recursive),
        Err(e) => Err(CommandError::Failed(e)),
    }
}

/// Tells what there is of every field of some notes.
fn tell_fields(records: &Vec<Record>) -> (r: Vec<FieldInfo>)
    ensures
        infos(r@) == all_infos(recs(records@)),
{
    let ghost rs = recs(records@);
    let names: Vec<String> = collect_names(records);
    let mut out: Vec<FieldInfo> = Vec::new();
    let mut i: usize = 0;
    assert(infos(out@) =~= all_infos(rs).take(0));
    while i < names.len()
        invariant
            rs == recs(records@),
            string_views(names@) == field_names(rs),
            i <= names.len(),
            infos(out@) == all_infos(rs).take(i as int),
        decreases names.len() - i,
    {
        assert(string_views(names@)[i as int] == names@[i as int]@);
        let values: Vec<Value> = collect_values(records, names[i].as_str());
        let info: FieldInfo = tell_field(names[i].as_str(), &values);
        let ghost before = infos(out@);
        out.push(info);
        assert(infos(out@) =~= before.push(info@));
        i += 1;
        assert(infos(out@) =~= all_infos(rs).take(i as int));
    }
    assert(all_infos(rs).take(i as int) =~= all_infos(rs));
    out
}

/// Runs the command `fields`.
pub fn run_fields(vault: &Vault, tree: &Tree, folder: &str, recursive: bool) -> (r: Result<
    FieldsOutput,
    CommandError,
>)
    ensures
        fields_view(r) == fields_run(tree@, vault.root@, folder@, recursive),
{
    match load_notes(vault, tree, folder, recursive) {
        Ok(records) => {
            assert(recs(records@).len() == records.len());
            Ok(FieldsOutput { fields: tell_fields(&records), total: records.len() })
        },
        Err(e) => Err(e),
    }
}

// ── Tags ───────────────────────────────────────────────────────────────────

/// The texts among some values.
pub open spec fn texts_among(items: Seq<Val>) -> Seq<Seq<char>>
    decreases items.len(),
{
    if items.len() == 0 {
        seq![]
    } else {
        let before = texts_among(items.drop_last());
        match items.last() {
            Val::Text(t) => before.push(t),
            _ => before,
        }
    }
}

/// The tags of a note.
pub open spec fn tags_of(r: Rec) -> Seq<Seq<char>> {
    match field(r.fields, "tags"@) {
        Some(Val::List(items)) => texts_among(items),
        _ => seq![],
    }
}

/// The tags of some notes, as often as they occur.
pub open spec fn all_tags(rs: Seq<Rec>) -> Seq<Seq<char>>
    decreases rs.len(),
{
    if rs.len() == 0 {
        seq![]
    } else {
        all_tags(rs.drop_last()) + tags_of(rs.last())
    }
}

/// How often a text occurs.
pub open spec fn occurrences(s: Seq<Seq<char>>, t: Seq<char>) -> nat
    decreases s.len(),
{
    if s.len() == 0 {
        0
    } else {
        occurrences(s.drop_last(), t) + if s.last() == t {
            1nat
        } else {
            0nat
        }
    }
}

/// Texts, ascending, with how often each occurs.
pub open spec fn tallied(s: Seq<Seq<char>>) -> Seq<(Seq<char>, nat)> {
    let names = text_set(s);
    Seq::new(names.len(), |i: int| (names[i], occurrences(s, names[i])))
}

/// How counted texts stand to each other: the more frequent first.
pub open spec fn frequency_rank(tally: Seq<(Seq<char>, nat)>) -> spec_fn(int, int) -> Order {
    |i: int, j: int| int_order(tally[j].1 as int, tally[i].1 as int)
}

/// Texts with how often each occurs, the more frequent first, and ascending among
/// those that occur equally often.
pub open spec fn by_frequency(s: Seq<Seq<char>>) -> Seq<(Seq<char>, nat)> {
    let tally = tallied(s);
    let at = sorted(frequency_rank(tally), positions(tally.len()));
    Seq::new(at.len(), |k: int| tally[at[k]])
}

/// Counted texts come the more frequent first, ascending among equals; each text is
/// there once with how often it occurs.
pub proof fn law_by_frequency(s: Seq<Seq<char>>)
    ensures
        forall|p: int, q: int|
            0 <= p < q < by_frequency(s).len() ==> (#[trigger] by_frequency(s)[p]).1 > (
            #[trigger] by_frequency(s)[q]).1 || (by_frequency(s)[p].1 == by_frequency(s)[q].1
                && text_less(by_frequency(s)[p].0, by_frequency(s)[q].0)),
        forall|p: int|
            0 <= p < by_frequency(s).len() ==> s.contains((#[trigger] by_frequency(s)[p]).0)
                && by_frequency(s)[p].1 == occurrences(s, by_frequency(s)[p].0),
        forall|t: Seq<char>|
            s.contains(t) ==> #[trigger] by_frequency(s).contains((t, occurrences(s, t))),
{
    let tally = tallied(s);
    let names = text_set(s);
    let ord = frequency_rank(tally);
    let n = tally.len();
    lemma_text_set(s);
    assert(is_consistent(ord, n));
    law_sorted(ord, n);
    let at = sorted(ord, positions(n));
    let out = by_frequency(s);
    assert forall|p: int| 0 <= p < out.len() implies s.contains((#[trigger] out[p]).0) && out[p].1
        == occurrences(s, out[p].0) by {
        assert(at.contains(at[p]));
        assert(names.contains(names[at[p]]));
    }
    assert forall|p: int, q: int| 0 <= p < q < out.len() implies (#[trigger] out[p]).1 > (
    #[trigger] out[q]).1 || (out[p].1 == out[q].1 && text_less(out[p].0, out[q].0)) by {
        assert(goes_before(ord, at[p], at[q]));
        assert(at.contains(at[p]));
        assert(at.contains(at[q]));
        if at[p] < at[q] {
            assert(text_less(names[at[p]], names[at[q]]));
        }
    }
    assert forall|t: Seq<char>| s.contains(t) implies #[trigger] out.contains(
        (t, occurrences(s, t)),
    ) by {
        assert(names.contains(t));
        let i = choose|i: int| 0 <= i < names.len() && names[i] == t;
        assert(at.contains(i));
        let p = choose|p: int| 0 <= p < at.len() && at[p] == i;
        assert(out[p] == (t, occurrences(s, t)));
    }
}

/// What counted texts are.
pub open spec fn tally_view(v: Seq<(String, usize)>) -> Seq<(Seq<char>, nat)> {
    Seq::new(v.len(), |i: int| (v[i].0@, v[i].1 as nat))
}

/// A count that comes before smaller ones.
pub struct Frequency {
    pub count: usize,
}

impl Ranked for Frequency {
    open spec fn rank(self, other: Self) -> Order {
        int_order(other.count as int, self.count as int)
    }

    fn compare(&self, other: &Self) -> (r: Order) {
        if other.count < self.count {
            Order::Less
        } else if other.count == self.count {
            Order::Equal
        } else {
            Order::Greater
        }
    }
}

/// Collects the tags of some notes.
fn collect_tags(records: &Vec<Record>) -> (r: Vec<String>)
    ensures
        string_views(r@) == all_tags(recs(records@)),
{
    let ghost rs = recs(records@);
    let mut out: Vec<String> = Vec::new();
    let mut i: usize = 0;
    assert(rs.take(0) =~= seq![]);
    assert(string_views(out@) =~= seq![]);
    while i < records.len()
        invariant
            rs == recs(records@),
            i <= records.len(),
            string_views(out@) == all_tags(rs.take(i as int)),
        decreases records.len() - i,
    {
        let ghost start = string_views(out@);
        assert(rs.take(i + 1).drop_last() =~= rs.take(i as int));
        assert(rs.take(i + 1).last() == records@[i as int]@);
        match get_field(&records[i].fields, "tags") {
            Some(Value::List(items)) => {
                proof {
                    crate::record::lemma_val_list(items);
                }
                let ghost vs = vals(items@);
                let mut j: usize = 0;
                assert(vs.take(0) =~= seq![]);
                assert(string_views(out@) =~= start + texts_among(vs.take(0)));
                while j < items.len()
                    invariant
                        vs == vals(items@),
                        j <= items.len(),
                        string_views(out@) == start + texts_among(vs.take(j as int)),
                    decreases items.len() - j,
                {
                    assert(vs.take(j + 1).drop_last() =~= vs.take(j as int));
                    assert(vs.take(j + 1).last() == val(items@[j as int]));
                    match &items[j] {
                        Value::String(t) => {
                            let c: String = t.clone();
                            proof {
                                lemma_string_views_push(out@, c);
                            }
                            out.push(c);
                        },
                        _ => {},
                    }
                    j += 1;
                    assert(string_views(out@) =~= start + texts_among(vs.take(j as int)));
                }
                assert(vs.take(j as int) =~= vs);
            },
            _ => {
                assert(string_views(out@) =~= start + seq![]);
            },
        }
        i += 1;
    }
    assert(rs.take(i as int) =~= rs);
    out
}

/// Counts how often a text occurs.
fn count_text(texts: &Vec<String>, t: &str) -> (n: usize)
    ensures
        n == occurrences(string_views(texts@), t@),
{
    let ghost s = string_views(texts@);
    let mut n: usize = 0;
    let mut i: usize = 0;
    assert(s.take(0) =~= seq![]);
    while i < texts.len()
        invariant
            s == string_views(texts@),
            i <= texts.len(),
            n <= i,
            n == occurrences(s.take(i as int), t@),
        decreases texts.len() - i,
    {
        assert(s.take(i + 1).drop_last() =~= s.take(i as int));
        if same_text(texts[i].as_str(), t) {
            n += 1;
        }
        i += 1;
    }
    assert(s.take(i as int) =~= s);
    n
}

/// Counts texts, the more frequent first.
fn count_texts(texts: &Vec<String>) -> (r: Vec<(String, usize)>)
    ensures
        tally_view(r@) == by_frequency(string_views(texts@)),
{
    let ghost s = string_views(texts@);
    let ghost tally = tallied(s);
    let names: Vec<String> = sort_texts(texts);
    let mut keys: Vec<Frequency> = Vec::new();
    let mut i: usize = 0;
    while i < names.len()
        invariant
            s == string_views(texts@),
            tally == tallied(s),
            string_views(names@) == text_set(s),
            i <= names.len(),
            keys.len() == i,
            forall|k: int| 0 <= k < i ==> (#[trigger] keys@[k]).count == tally[k].1,
        decreases names.len() - i,
    {
        assert(string_views(names@)[i as int] == names@[i as int]@);
        keys.push(Frequency { count: count_text(texts, names[i].as_str()) });
        i += 1;
    }
    let at: Vec<usize> = sort_positions(&keys);
    proof {
        assert(tally.len() == names.len());
        lemma_sorted_same(
            rank_of(keys@),
            frequency_rank(tally),
            tally.len(),
            positions(tally.len()),
        );
    }
    let ghost want = by_frequency(s);
    let mut out: Vec<(String, usize)> = Vec::new();
    let mut k: usize = 0;
    assert(tally_view(out@) =~= want.take(0));
    while k < at.len()
        invariant
            tally == tallied(s),
            string_views(names@) == text_set(s),
            keys.len() == names.len(),
            forall|k: int| 0 <= k < keys.len() ==> (#[trigger] keys@[k]).count == tally[k].1,
            forall|k: int| 0 <= k < at.len() ==> (#[trigger] at@[k]) < keys.len(),
            want == by_frequency(s),
            ints(at@) == sorted(frequency_rank(tally), positions(tally.len())),
            k <= at.len(),
            tally_view(out@) == want.take(k as int),
        decreases at.len() - k,
    {
        let n: usize = at[k];
        assert(string_views(names@)[n as int] == names@[n as int]@);
        let x: (String, usize) = (names[n].clone(), keys[n].count);
        let ghost before = tally_view(out@);
        out.push(x);
        assert(tally_view(out@) =~= before.push((x.0@, x.1 as nat)));
        assert(ints(at@)[k as int] == n);
        k += 1;
        assert(tally_view(out@) =~= want.take(k as int));
    }
    assert(want.take(k as int) =~= want);
    out
}

/// What the command `tags` shows, or the failure.
pub open spec fn tags_view(r: Result<Vec<(String, usize)>, CommandError>) -> Result<
    Seq<(Seq<char>, nat)>,
    Trouble,
> {
    match r {
        Ok(v) => Ok(tally_view(v@)),
        Err(e) => Err(e@),
    }
}

/// What the command `tags` shows.
pub open spec fn tags_run(
    p: Picture,
    root: Seq<char>,
    folder: Seq<char>,
    recursive: bool,
) -> Result<Seq<(Seq<char>, nat)>, Trouble> {
    match notes_of(p, root, folder, recursive) {
        Ok(rs) => Ok(by_frequency(all_tags(rs))),
        Err(t) => Err(t),
    }
}

/// Runs the command `tags`.
pub fn run_tags(vault: &Vault, tree: &Tree, folder: &str, recursive: bool) -> (r: Result<
    Vec<(String, usize)>,
    CommandError,
>)
    ensures
        tags_view(r) == tags_run(tree@, vault.root@, folder@, recursive),
{
    match load_notes(vault, tree, folder, recursive) {
        Ok(records) => Ok(count_texts(&collect_tags(&records))),
        Err(e) => Err(e),
    }
}

// ── Links ──────────────────────────────────────────────────────────────────

/// What the command `links` shows: the links of a note, each with whether there is
/// such a note, and its backlinks; each where it is asked for.
#[derive(Debug, PartialEq, Eq)]
pub struct LinksReport {
    pub outgoing: Option<Vec<(String, bool)>>,
    pub incoming: Option<Vec<String>>,
}

/// What the command `links` shows, as sequences.
pub type LinksShown = (Option<Seq<(Seq<char>, bool)>>, Option<Seq<Seq<char>>>);

/// Names with whether there is such a note.
pub open spec fn flagged(v: Seq<(String, bool)>) -> Seq<(Seq<char>, bool)> {
    Seq::new(v.len(), |i: int| (v[i].0@, v[i].1))
}

/// What the command `links` shows, or the failure.
pub open spec fn links_view(r: Result<LinksReport, CommandError>) -> Result<LinksShown, Trouble> {
    match r {
        Ok(o) => Ok(
            (
                match o.outgoing {
                    Some(v) => Some(flagged(v@)),
                    None => None,
                },
                match o.incoming {
                    Some(v) => Some(string_views(v@)),
                    None => None,
                },
            ),
        ),
        Err(e) => Err(e@),
    }
}

/// Names with whether a graph has such a note.
pub open spec fn resolved(g: Graph, names: Seq<Seq<char>>) -> Seq<(Seq<char>, bool)> {
    Seq::new(names.len(), |i: int| (names[i], record_named(g.records, names[i]) is Some))
}

/// The links of a note in a graph.
pub open spec fn links_shown(g: Graph, name: Seq<char>, direction: Direction) -> LinksShown {
    (
        if direction == Direction::Incoming {
            None
        } else {
            Some(resolved(g, targets(g.edges, name)))
        },
        if direction == Direction::Outgoing {
            None
        } else {
            Some(sources(g.edges, name))
        },
    )
}

/// What the command `links` shows.
pub open spec fn links_run(
    p: Picture,
    root: Seq<char>,
    name: Seq<char>,
    folder: Seq<char>,
    direction: Direction,
    recursive: bool,
) -> Result<LinksShown, Trouble> {
    match notes_of(p, root, folder, recursive) {
        Ok(rs) => Ok(links_shown(graph_of(rs), name, direction)),
        Err(t) => Err(t),
    }
}

/// Tells of names whether a graph has such a note.
fn resolve_names(g: &LinkGraph, names: &Vec<String>) -> (r: Vec<(String, bool)>)
    ensures
        flagged(r@) == resolved(g@, string_views(names@)),
{
    let ghost want = resolved(g@, string_views(names@));
    let mut out: Vec<(String, bool)> = Vec::new();
    let mut i: usize = 0;
    assert(flagged(out@) =~= want.take(0));
    while i < names.len()
        invariant
            want == resolved(g@, string_views(names@)),
            i <= names.len(),
            flagged(out@) == want.take(i as int),
        decreases names.len() - i,
    {
        let x: (String, bool) = (
            names[i].clone(),
            g.record_by_name(names[i].as_str()).is_some(),
        );
        let ghost before = flagged(out@);
        out.push(x);
        assert(flagged(out@) =~= before.push((x.0@, x.1)));
        i += 1;
        assert(flagged(out@) =~= want.take(i as int));
    }
    assert(want.take(i as int) =~= want);
    out
}

/// Runs the command `links`.
pub fn run_links(
    vault: &Vault,
    tree: &Tree,
    name: &str,
    folder: &str,
    direction: Direction,
    recursive: bool,
) -> (r: Result<LinksReport, CommandError>)
    ensures
        links_view(r) == links_run(tree@, vault.root@, name@, folder@, direction, recursive),
{
    let records: Vec<Record> = match load_notes(vault, tree, folder, recursive) {
        Ok(v) => v,
        Err(e) => {
            return Err(e);
        },
    };
    let g: LinkGraph = LinkGraph::build(&records);
    let outgoing: Option<Vec<(String, bool)>> = match direction {
        Direction::Incoming => None,
        _ => Some(resolve_names(&g, &g.outgoing_links(name))),
    };
    let incoming: Option<Vec<String>> = match direction {
        Direction::Outgoing => None,
        _ => Some(g.incoming_links(name)),
    };
    Ok(LinksReport { outgoing, incoming })
}

// ── Traversal ──────────────────────────────────────────────────────────────

/// A note that a traversal reaches: how far away it is, whether it is there, and the
/// fields of it that are asked for.
#[derive(Debug, PartialEq, Eq)]
pub struct TraverseLine {
    pub name: String,
    pub depth: usize,
    pub found: bool,
    pub fields: Vec<String>,
}

/// A note that a traversal reaches, as sequences.
pub struct Reached {
    pub name: Seq<char>,
    pub depth: nat,
    pub found: bool,
    pub fields: Seq<Seq<char>>,
}

impl View for TraverseLine {
    type V = Reached;

    open spec fn view(&self) -> Reached {
        Reached {
            name: self.name@,
            depth: self.depth as nat,
            found: self.found,
            fields: string_views(self.fields@),
        }
    }
}

/// What notes that a traversal reaches are.
pub open spec fn lines_view(v: Seq<TraverseLine>) -> Seq<Reached> {
    Seq::new(v.len(), |i: int| v[i]@)
}

/// What the command `traverse` shows: the notes it reaches, and how many it reaches
/// that do not meet the conditions. Nothing where the note is not in the graph.
#[derive(Debug, PartialEq, Eq)]
pub struct TraverseOutput {
    pub lines: Vec<TraverseLine>,
    pub filtered_out: usize,
}

/// What the command `traverse` shows, or the failure.
pub open spec fn traverse_view(r: Result<Option<TraverseOutput>, CommandError>) -> Result<
    Option<(Seq<Reached>, nat)>,
    Trouble,
> {
    match r {
        Ok(Some(o)) => Ok(Some((lines_view(o.lines@), o.filtered_out as nat))),
        Ok(None) => Ok(None),
        Err(e) => Err(e@),
    }
}

/// The fields of a note that are there, each with its value.
pub open spec fn field_texts(
    r: Rec,
    select: Seq<Seq<char>>,
    root: Seq<char>,
    g: Graph,
) -> Seq<Seq<char>>
    decreases select.len(),
{
    if select.len() == 0 {
        seq![]
    } else {
        let before = field_texts(r, select.drop_last(), root, g);
        match looked_up(r, select.last(), root, Some(g)) {
            Some(v) => before.push(select.last() + "="@ + shown(v)),
            None => before,
        }
    }
}

/// A note at a distance, as the command shows it.
pub open spec fn reached_line(
    hit: (Seq<char>, nat),
    select: Seq<Seq<char>>,
    root: Seq<char>,
    g: Graph,
) -> Reached {
    Reached {
        name: hit.0,
        depth: hit.1,
        found: record_named(g.records, hit.0) is Some,
        fields: match record_named(g.records, hit.0) {
            Some(r) => field_texts(r, select, root, g),
            None => seq![],
        },
    }
}

/// Whether a note is shown: where there are conditions, it must be there and meet
/// them.
pub open spec fn is_shown(name: Seq<char>, cs: Seq<Cond>, root: Seq<char>, g: Graph) -> bool {
    cs.len() == 0 || match record_named(g.records, name) {
        Some(r) => holds(Cond::And(cs), r, root, Some(g)),
        None => false,
    }
}

/// The notes of a traversal that are shown, and how many are not.
pub open spec fn shown_lines(
    hits: Seq<(Seq<char>, nat)>,
    cs: Seq<Cond>,
    select: Seq<Seq<char>>,
    root: Seq<char>,
    g: Graph,
) -> (Seq<Reached>, nat)
    decreases hits.len(),
{
    if hits.len() == 0 {
        (seq![], 0)
    } else {
        let (before, out) = shown_lines(hits.drop_last(), cs, select, root, g);
        if is_shown(hits.last().0, cs, root, g) {
            (before.push(reached_line(hits.last(), select, root, g)), out)
        } else {
            (before, out + 1)
        }
    }
}

/// What the command `traverse` is asked.
#[derive(Debug, PartialEq, Eq)]
pub struct TraverseCommand {
    pub name: String,
    pub folder: String,
    pub depth: usize,
    pub direction: Direction,
    pub where_strs: Vec<String>,
    pub select: Option<String>,
    pub recursive: bool,
}

/// What the command `traverse` shows of some notes.
pub open spec fn traverse_shown(
    rs: Seq<Rec>,
    cs: Seq<Cond>,
    command: TraverseCommand,
    root: Seq<char>,
) -> Option<(Seq<Reached>, nat)> {
    let g = graph_of(rs);
    let hits = reached(g.edges, command.name@, command.direction, command.depth as nat);
    if hits.len() == 0 || (hits.len() == 1 && record_named(g.records, command.name@) is None) {
        None
    } else {
        Some(
            shown_lines(
                hits,
                cs,
                selection(crate::cli::query::owned_view(command.select)),
                root,
                g,
            ),
        )
    }
}

/// What the command `traverse` shows.
pub open spec fn traverse_run(p: Picture, root: Seq<char>, command: TraverseCommand) -> Result<
    Option<(Seq<Reached>, nat)>,
    Trouble,
> {
    match notes_of(p, root, command.folder@, command.recursive) {
        Err(t) => Err(t),
        Ok(rs) => match clauses(string_views(command.where_strs@), Purpose::Traverse) {
            Err(t) => Err(t),
            Ok(cs) => Ok(traverse_shown(rs, cs, command, root)),
        },
    }
}

/// Writes the fields of a note that are there.
fn write_fields(r: &Record, select: &Vec<String>, root: &str, g: &LinkGraph) -> (out: Vec<String>)
    ensures
        string_views(out@) == field_texts(r@, string_views(select@), root@, g@),
{
    let ghost fs = string_views(select@);
    let mut out: Vec<String> = Vec::new();
    let mut i: usize = 0;
    assert(fs.take(0) =~= seq![]);
    assert(string_views(out@) =~= seq![]);
    while i < select.len()
        invariant
            fs == string_views(select@),
            i <= select.len(),
            string_views(out@) == field_texts(r@, fs.take(i as int), root@, g@),
        decreases select.len() - i,
    {
        assert(fs.take(i + 1).drop_last() =~= fs.take(i as int));
        match r.get_with_links(select[i].as_str(), root, Some(g)) {
            Some(v) => {
                let t: String = cat3(select[i].as_str(), "=", v.display_value().as_str());
                proof {
                    lemma_string_views_push(out@, t);
                }
                out.push(t);
            },
            None => {},
        }
        i += 1;
    }
    assert(fs.take(i as int) =~= fs);
    out
}

/// Shows the notes of a traversal.
fn show_hits(
    hits: &Vec<(String, usize)>,
    es: &Vec<Expr>,
    select: &Vec<String>,
    root: &str,
    g: &LinkGraph,
) -> (r: TraverseOutput)
    ensures
        (lines_view(r.lines@), r.filtered_out as nat) == shown_lines(
            hit_views(hits@),
            conds(es@),
            string_views(select@),
            root@,
            g@,
        ),
{
    let ghost cs = conds(es@);
    let ghost hv = hit_views(hits@);
    let ghost fs = string_views(select@);
    let mut lines: Vec<TraverseLine> = Vec::new();
    let mut filtered_out: usize = 0;
    let mut i: usize = 0;
    assert(hv.take(0) =~= seq![]);
    assert(lines_view(lines@) =~= seq![]);
    while i < hits.len()
        invariant
            cs == conds(es@),
            hv == hit_views(hits@),
            fs == string_views(select@),
            i <= hits.len(),
            filtered_out <= i,
            (lines_view(lines@), filtered_out as nat) == shown_lines(
                hv.take(i as int),
                cs,
                fs,
                root@,
                g@,
            ),
        decreases hits.len() - i,
    {
        assert(hv.take(i + 1).drop_last() =~= hv.take(i as int));
        let note: Option<&Record> = g.record_by_name(hits[i].0.as_str());
        let keep: bool = es.len() == 0 || match note {
            Some(x) => matches_all(es, x, root, Some(g)),
            None => false,
        };
        if keep {
            let fields: Vec<String> = match note {
                Some(x) => write_fields(x, select, root, g),
                None => Vec::new(),
            };
            assert(note is None ==> string_views(fields@) =~= seq![]);
            let line: TraverseLine = TraverseLine {
                name: hits[i].0.clone(),
                depth: hits[i].1,
                found: note.is_some(),
                fields,
            };
            let ghost before = lines_view(lines@);
            lines.push(line);
            assert(lines_view(lines@) =~= before.push(line@));
        } else {
            filtered_out += 1;
        }
        i += 1;
    }
    assert(hv.take(i as int) =~= hv);
    TraverseOutput { lines, filtered_out }
}

/// Runs the command `traverse`.
pub fn run_traverse(vault: &Vault, tree: &Tree, command: &TraverseCommand) -> (r: Result<
    Option<TraverseOutput>,
    CommandError,
>)
    ensures
        traverse_view(r) == traverse_run(tree@, vault.root@, *command),
{
    let records: Vec<Record> = match load_notes(
        vault,
        tree,
        command.folder.as_str(),
        command.recursive,
    ) {
        Ok(v) => v,
        Err(e) => {
            return Err(e);
        },
    };
    let g: LinkGraph = LinkGraph::build(&records);
    let es: Vec<Expr> = match parse_where_clauses(&command.where_strs, Purpose::Traverse) {
        Ok(es) => es,
        Err(e) => {
            return Err(e);
        },
    };
    let hits: Vec<(String, usize)> = g.traverse(
        command.name.as_str(),
        command.depth,
        command.direction,
    );
    assert(hit_views(hits@).len() == hits.len());
    if hits.len() == 0 || (hits.len() == 1 && g.record_by_name(command.name.as_str()).is_none()) {
        return Ok(None);
    }
    let select: Vec<String> = parse_select(
        match &command.select {
            Some(t) => Some(t.as_str()),
            None => None,
        },
    );
    Ok(Some(show_hits(&hits, &es, &select, vault.root.as_str(), &g)))
}

} // verus!
