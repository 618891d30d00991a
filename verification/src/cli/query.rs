//! The commands `query` and `count`: the notes of a folder that meet conditions, in
//! order.
//!
//! Conditions given apart must all hold. Conditions on links are conditions like any
//! other, once the graph of the folder's notes is there.

use crate::dsl::parsed;
use crate::error::{Failure, VaultdbError};
use crate::filter::{evaluate_expr, float_order_or_equal, holds};
use crate::float::order_floats;
use crate::links::{graph_of, graph_view, Graph, LinkGraph};
use crate::path::below;
use crate::query::{
    cond, conds, copy_expr, lemma_cond, lemma_conds_push, Cond, Expr, LinkCond, LinkPredicate,
};
use crate::record::{
    float_of, lemma_recs_push, looked_up, recs, shown, val_view, Rec, Record, Val, Value,
};
use crate::sort::{positions, rank_of, sort_positions, sorted, Ranked};
use crate::sort::lemma_sorted_same;
use crate::text::{
    cat2, contains, copy_strings, from_chars, has, order_texts, split, split_by, string_views,
    text_order, to_chars, trim, trimmed, views, Order,
};
use crate::tree::{has_folder, notes_in, Picture, Tree};
use crate::vault::{chosen, filter_records, limited, loaded, meeting, pick_records, Vault};
use vstd::prelude::*;

verus! {

// ── Failures ───────────────────────────────────────────────────────────────

/// Why a command failed: as such, while doing something, or with a message.
#[derive(Debug, PartialEq, Eq)]
pub enum CommandError {
    Failed(VaultdbError),
    InContext { context: String, cause: VaultdbError },
    Message(String),
}

/// Why a command failed, with its texts as sequences of characters.
pub enum Trouble {
    Failed(Failure),
    InContext { context: Seq<char>, cause: Failure },
    Message(Seq<char>),
}

impl View for CommandError {
    type V = Trouble;

    open spec fn view(&self) -> Trouble {
        match *self {
            CommandError::Failed(e) => Trouble::Failed(e@),
            CommandError::InContext { context, cause } => Trouble::InContext {
                context: context@,
                cause: cause@,
            },
            CommandError::Message(m) => Trouble::Message(m@),
        }
    }
}

// ── Conditions ─────────────────────────────────────────────────────────────

/// What a condition is given for.
#[derive(Debug, Clone, Copy, PartialEq, Eq, Structural)]
pub enum Purpose {
    Where,
    Traverse,
    LinksTo,
    LinkedFrom,
}

/// What is being done when a condition is read.
pub open spec fn reading(purpose: Purpose, text: Seq<char>) -> Seq<char> {
    match purpose {
        Purpose::Where => "parsing where expression: "@ + text,
        Purpose::Traverse => "parsing where: "@ + text,
        Purpose::LinksTo => "parsing --links-to-where"@,
        Purpose::LinkedFrom => "parsing --linked-from-where"@,
    }
}

/// The conditions that some texts stand for, or why the first that stands for none
/// does not.
pub open spec fn clauses(texts: Seq<Seq<char>>, purpose: Purpose) -> Result<Seq<Cond>, Trouble>
    decreases texts.len(),
{
    if texts.len() == 0 {
        Ok(seq![])
    } else {
        match clauses(texts.drop_last(), purpose) {
            Err(t) => Err(t),
            Ok(before) => match parsed(texts.last()) {
                Ok(c) => Ok(before.push(c)),
                Err(cause) => Err(
                    Trouble::InContext { context: reading(purpose, texts.last()), cause },
                ),
            },
        }
    }
}

/// What conditions, or the failure, are.
pub open spec fn clauses_view(r: Result<Vec<Expr>, CommandError>) -> Result<Seq<Cond>, Trouble> {
    match r {
        Ok(es) => Ok(conds(es@)),
        Err(e) => Err(e@),
    }
}

/// The first failure stands.
proof fn lemma_clauses(texts: Seq<Seq<char>>, purpose: Purpose, n: int)
    requires
        0 <= n <= texts.len(),
        clauses(texts.take(n), purpose) is Err,
    ensures
        clauses(texts, purpose) == clauses(texts.take(n), purpose),
    decreases texts.len() - n,
{
    if n < texts.len() {
        assert(texts.take(n + 1).drop_last() =~= texts.take(n));
        lemma_clauses(texts, purpose, n + 1);
    } else {
        assert(texts.take(n) =~= texts);
    }
}

/// Reads conditions.
pub fn parse_where_clauses(strs: &Vec<String>, purpose: Purpose) -> (r: Result<
    Vec<Expr>,
    CommandError,
>)
    ensures
        clauses_view(r) == clauses(string_views(strs@), purpose),
{
    let ghost texts = string_views(strs@);
    let mut out: Vec<Expr> = Vec::new();
    let mut i: usize = 0;
    assert(texts.take(0) =~= seq![]);
    assert(conds(out@) =~= seq![]);
    while i < strs.len()
        invariant
            texts == string_views(strs@),
            i <= strs.len(),
            clauses(texts.take(i as int), purpose) == Ok::<Seq<Cond>, Trouble>(conds(out@)),
        decreases strs.len() - i,
    {
        assert(texts.take(i + 1).drop_last() =~= texts.take(i as int));
        match Expr::parse(strs[i].as_str()) {
            Ok(e) => {
                proof {
                    lemma_conds_push(out@, e);
                }
                out.push(e);
            },
            Err(cause) => {
                proof {
                    lemma_clauses(texts, purpose, i + 1);
                }
                let context: String = match purpose {
                    Purpose::Where => cat2("parsing where expression: ", strs[i].as_str()),
                    Purpose::Traverse => cat2("parsing where: ", strs[i].as_str()),
                    Purpose::LinksTo => "parsing --links-to-where".to_owned(),
                    Purpose::LinkedFrom => "parsing --linked-from-where".to_owned(),
                };
                return Err(CommandError::InContext { context, cause });
            },
        }
        i += 1;
    }
    assert(texts.take(i as int) =~= texts);
    Ok(out)
}

/// Conditions on links, as a command takes them: by the name of a note at the other
/// end, or by a condition on it.
#[derive(Debug, PartialEq, Eq)]
pub struct RelationalFilters {
    pub links_to: Vec<String>,
    pub linked_from: Vec<String>,
    pub links_to_where: Vec<String>,
    pub linked_from_where: Vec<String>,
}

/// Conditions on links as sequences of texts.
pub struct Relations {
    pub links_to: Seq<Seq<char>>,
    pub linked_from: Seq<Seq<char>>,
    pub links_to_where: Seq<Seq<char>>,
    pub linked_from_where: Seq<Seq<char>>,
}

impl View for RelationalFilters {
    type V = Relations;

    open spec fn view(&self) -> Relations {
        Relations {
            links_to: string_views(self.links_to@),
            linked_from: string_views(self.linked_from@),
            links_to_where: string_views(self.links_to_where@),
            linked_from_where: string_views(self.linked_from_where@),
        }
    }
}

/// Whether there is no condition on links.
pub open spec fn no_relations(r: Relations) -> bool {
    r.links_to.len() == 0 && r.linked_from.len() == 0 && r.links_to_where.len() == 0
        && r.linked_from_where.len() == 0
}

impl RelationalFilters {
    /// Tells whether there is no condition on links.
    pub fn is_empty(&self) -> (r: bool)
        ensures
            r == no_relations(self@),
    {
        self.links_to.len() == 0 && self.linked_from.len() == 0 && self.links_to_where.len() == 0
            && self.linked_from_where.len() == 0
    }
}

/// Whether a text names a field computed from the link graph.
pub open spec fn mentions_graph(s: Seq<char>) -> bool {
    has(s, "_links"@) || has(s, "_link_count"@) || has(s, "_backlinks"@) || has(
        s,
        "_backlink_count"@,
    )
}

/// Whether a command needs the link graph.
pub open spec fn graph_needed(
    wheres: Seq<Seq<char>>,
    select: Option<Seq<char>>,
    sort: Option<Seq<char>>,
    relations: Relations,
) -> bool {
    ||| !no_relations(relations)
    ||| exists|i: int| 0 <= i < wheres.len() && mentions_graph(#[trigger] wheres[i])
    ||| match select {
        Some(s) => mentions_graph(s),
        None => false,
    }
    ||| match sort {
        Some(s) => mentions_graph(s),
        None => false,
    }
}

/// Tells whether a text names a field computed from the link graph.
fn names_graph(text: &str) -> (r: bool)
    ensures
        r == mentions_graph(text@),
{
    let s: Vec<char> = to_chars(text);
    contains(&s, "_links") || contains(&s, "_link_count") || contains(&s, "_backlinks") || contains(
        &s,
        "_backlink_count",
    )
}

/// What a text that may be missing is.
pub open spec fn str_view(s: Option<&str>) -> Option<Seq<char>> {
    match s {
        Some(t) => Some(t@),
        None => None,
    }
}

/// Tells whether a command needs the link graph.
pub fn needs_graph(
    where_strs: &Vec<String>,
    select: Option<&str>,
    sort: Option<&str>,
    relational: &RelationalFilters,
) -> (r: bool)
    ensures
        r == graph_needed(
            string_views(where_strs@),
            str_view(select),
            str_view(sort),
            relational@,
        ),
{
    if !relational.is_empty() {
        return true;
    }
    let ghost wheres = string_views(where_strs@);
    let mut i: usize = 0;
    while i < where_strs.len()
        invariant
            wheres == string_views(where_strs@),
            i <= where_strs.len(),
            forall|k: int| 0 <= k < i ==> !mentions_graph(#[trigger] wheres[k]),
        decreases where_strs.len() - i,
    {
        assert(wheres[i as int] == where_strs@[i as int]@);
        if names_graph(where_strs[i].as_str()) {
            return true;
        }
        i += 1;
    }
    match select {
        Some(s) => {
            if names_graph(s) {
                return true;
            }
        },
        None => {},
    }
    match sort {
        Some(s) => names_graph(s),
        None => false,
    }
}

/// Conditions that a note links to each of some notes, or is linked from each.
pub open spec fn named_links(names: Seq<Seq<char>>, incoming: bool) -> Seq<Cond> {
    Seq::new(
        names.len(),
        |i: int|
            if incoming {
                Cond::LinkedFrom(LinkCond::Target(names[i]))
            } else {
                Cond::LinksTo(LinkCond::Target(names[i]))
            },
    )
}

/// Conditions that a note links to a note that meets each of some conditions, or is
/// linked from one.
pub open spec fn described_links(cs: Seq<Cond>, incoming: bool) -> Seq<Cond> {
    Seq::new(
        cs.len(),
        |i: int|
            if incoming {
                Cond::LinkedFrom(LinkCond::Where(Box::new(cs[i])))
            } else {
                Cond::LinksTo(LinkCond::Where(Box::new(cs[i])))
            },
    )
}

/// Adds conditions that a note links to each of some notes, or is linked from each.
fn add_named(out: &mut Vec<Expr>, names: &Vec<String>, incoming: bool)
    ensures
        conds(final(out)@) == conds(old(out)@) + named_links(string_views(names@), incoming),
{
    let ghost start = conds(out@);
    let ghost want = named_links(string_views(names@), incoming);
    let mut i: usize = 0;
    assert(conds(out@) =~= start + want.take(0));
    while i < names.len()
        invariant
            want == named_links(string_views(names@), incoming),
            i <= names.len(),
            conds(out@) == start + want.take(i as int),
        decreases names.len() - i,
    {
        let name: String = names[i].clone();
        let e: Expr = if incoming {
            Expr::LinkedFrom(LinkPredicate::Target(name))
        } else {
            Expr::LinksTo(LinkPredicate::Target(name))
        };
        proof {
            lemma_conds_push(out@, e);
        }
        out.push(e);
        i += 1;
        assert(conds(out@) =~= start + want.take(i as int));
    }
    assert(want.take(i as int) =~= want);
}

/// Adds conditions that a note links to a note that meets each of some conditions, or
/// is linked from one.
fn add_described(out: &mut Vec<Expr>, es: &Vec<Expr>, incoming: bool)
    ensures
        conds(final(out)@) == conds(old(out)@) + described_links(conds(es@), incoming),
{
    let ghost start = conds(out@);
    let ghost want = described_links(conds(es@), incoming);
    let mut i: usize = 0;
    assert(conds(out@) =~= start + want.take(0));
    while i < es.len()
        invariant
            want == described_links(conds(es@), incoming),
            i <= es.len(),
            conds(out@) == start + want.take(i as int),
        decreases es.len() - i,
    {
        let inner: Expr = copy_expr(&es[i]);
        let e: Expr = if incoming {
            Expr::LinkedFrom(LinkPredicate::Where(Box::new(inner)))
        } else {
            Expr::LinksTo(LinkPredicate::Where(Box::new(inner)))
        };
        proof {
            lemma_conds_push(out@, e);
        }
        out.push(e);
        i += 1;
        assert(conds(out@) =~= start + want.take(i as int));
    }
    assert(want.take(i as int) =~= want);
}

/// Tells whether a note meets all of some conditions.
pub fn matches_all(es: &Vec<Expr>, r: &Record, root: &str, g: Option<&LinkGraph>) -> (b: bool)
    ensures
        b == holds(Cond::And(conds(es@)), r@, root@, graph_view(g)),
{
    let ghost cs = conds(es@);
    let mut i: usize = 0;
    while i < es.len()
        invariant
            cs == conds(es@),
            i <= es.len(),
            forall|k: int| 0 <= k < i ==> holds(#[trigger] cs[k], r@, root@, graph_view(g)),
        decreases es.len() - i,
    {
        assert(cs[i as int] == cond(es@[i as int]));
        if !evaluate_expr(&es[i], r, root, g) {
            assert(!holds(Cond::And(cs)->And_0[i as int], r@, root@, graph_view(g)));
            return false;
        }
        i += 1;
    }
    true
}

// ── Order ──────────────────────────────────────────────────────────────────

/// How two values of a field stand to each other: a missing one first, then null;
/// numbers by value, and otherwise as they are shown.
pub open spec fn field_order(a: Option<Val>, b: Option<Val>) -> Order {
    match (a, b) {
        (None, None) => Order::Equal,
        (None, Some(_)) => Order::Less,
        (Some(_), None) => Order::Greater,
        (Some(Val::Null), Some(Val::Null)) => Order::Equal,
        (Some(Val::Null), Some(_)) => Order::Less,
        (Some(_), Some(Val::Null)) => Order::Greater,
        (Some(x), Some(y)) => match (float_of(x), float_of(y)) {
            (Some(f), Some(g)) => float_order_or_equal(f.0, g.0),
            _ => text_order(shown(x), shown(y)),
        },
    }
}

/// Compares two values of a field.
pub fn compare_field_values(a: &Option<Value>, b: &Option<Value>) -> (r: Order)
    ensures
        r == field_order(val_view(*a), val_view(*b)),
{
    match (a, b) {
        (None, None) => Order::Equal,
        (None, Some(_)) => Order::Less,
        (Some(_), None) => Order::Greater,
        (Some(Value::Null), Some(Value::Null)) => Order::Equal,
        (Some(Value::Null), Some(_)) => Order::Less,
        (Some(_), Some(Value::Null)) => Order::Greater,
        (Some(x), Some(y)) => {
            match (x.as_float(), y.as_float()) {
                (Some(f), Some(g)) => {
                    return match order_floats(f.bits, g.bits) {
                        Some(o) => o,
                        None => Order::Equal,
                    };
                },
                _ => {},
            }
            order_texts(x.display_value().as_str(), y.display_value().as_str())
        },
    }
}

/// A value that notes are put in order by.
pub struct FieldKey {
    pub value: Option<Value>,
}

impl Ranked for FieldKey {
    open spec fn rank(self, other: Self) -> Order {
        field_order(val_view(self.value), val_view(other.value))
    }

    fn compare(&self, other: &Self) -> (r: Order) {
        compare_field_values(&self.value, &other.value)
    }
}

/// How notes stand to each other by a field.
pub open spec fn field_rank(
    rs: Seq<Rec>,
    field: Seq<char>,
    root: Seq<char>,
    g: Option<Graph>,
) -> spec_fn(int, int) -> Order {
    |i: int, j: int|
        field_order(looked_up(rs[i], field, root, g), looked_up(rs[j], field, root, g))
}

/// Notes in order of a field. In descending order, the order is read backwards.
pub open spec fn ordered(
    rs: Seq<Rec>,
    field: Seq<char>,
    descending: bool,
    root: Seq<char>,
    g: Option<Graph>,
) -> Seq<Rec> {
    let up = chosen(rs, sorted(field_rank(rs, field, root, g), positions(rs.len())));
    if descending {
        up.reverse()
    } else {
        up
    }
}

/// Puts notes in order of a field.
fn order_records(
    records: &Vec<Record>,
    field: &str,
    descending: bool,
    root: &str,
    g: Option<&LinkGraph>,
) -> (r: Vec<Record>)
    ensures
        recs(r@) == ordered(recs(records@), field@, descending, root@, graph_view(g)),
{
    let ghost rs = recs(records@);
    let ghost gv = graph_view(g);
    let mut keys: Vec<FieldKey> = Vec::new();
    let mut i: usize = 0;
    while i < records.len()
        invariant
            rs == recs(records@),
            gv == graph_view(g),
            i <= records.len(),
            keys.len() == i,
            forall|k: int|
                0 <= k < i ==> val_view((#[trigger] keys@[k]).value) == looked_up(
                    rs[k],
                    field@,
                    root@,
                    gv,
                ),
        decreases records.len() - i,
    {
        let value: Option<Value> = records[i].get_with_links(field, root, g);
        keys.push(FieldKey { value });
        i += 1;
    }
    let at: Vec<usize> = sort_positions(&keys);
    proof {
        lemma_sorted_same(
            rank_of(keys@),
            field_rank(rs, field@, root@, gv),
            records@.len(),
            positions(records@.len()),
        );
    }
    let up: Vec<Record> = pick_records(records, &at);
    if !descending {
        return up;
    }
    let ghost want = recs(up@).reverse();
    let mut out: Vec<Record> = Vec::new();
    let mut j: usize = up.len();
    assert(recs(out@) =~= want.take(0));
    while j > 0
        invariant
            want == recs(up@).reverse(),
            j <= up.len(),
            recs(out@) == want.take(up.len() - j),
        decreases j,
    {
        j -= 1;
        let c: Record = crate::record::copy_record(&up[j]);
        proof {
            lemma_recs_push(out@, c);
        }
        out.push(c);
        assert(recs(out@) =~= want.take(up.len() - j));
    }
    assert(want.take(up.len() as int) =~= want);
    out
}

// ── The commands ───────────────────────────────────────────────────────────

/// The fields that a text names, separated by commas.
pub open spec fn selection(select: Option<Seq<char>>) -> Seq<Seq<char>> {
    match select {
        Some(s) => {
            let parts = split_by(s, ',');
            Seq::new(parts.len(), |i: int| trimmed(parts[i]))
        },
        None => seq![],
    }
}

/// Reads the fields that a text names.
pub fn parse_select(select: Option<&str>) -> (r: Vec<String>)
    ensures
        string_views(r@) == selection(str_view(select)),
{
    let mut out: Vec<String> = Vec::new();
    match select {
        Some(s) => {
            let parts: Vec<Vec<char>> = split(&to_chars(s), ',');
            let ghost want = selection(str_view(select));
            let mut i: usize = 0;
            assert(string_views(out@) =~= want.take(0));
            while i < parts.len()
                invariant
                    views(parts@) == split_by(s@, ','),
                    want == selection(Some(s@)),
                    i <= parts.len(),
                    string_views(out@) == want.take(i as int),
                decreases parts.len() - i,
            {
                let t: String = from_chars(&trim(&parts[i]));
                let ghost before = string_views(out@);
                assert(views(parts@)[i as int] == parts@[i as int]@);
                out.push(t);
                assert(string_views(out@) =~= before.push(t@));
                i += 1;
                assert(string_views(out@) =~= want.take(i as int));
            }
            assert(want.take(i as int) =~= want);
        },
        None => {
            assert(string_views(out@) =~= seq![]);
        },
    }
    out
}

/// What the command `query` is asked.
#[derive(Debug, PartialEq, Eq)]
pub struct QueryCommand {
    pub folder: String,
    pub where_strs: Vec<String>,
    pub select: Option<String>,
    pub sort_field: Option<String>,
    pub desc: bool,
    pub limit: Option<usize>,
    pub relational: RelationalFilters,
    pub recursive: bool,
}

/// What the command `query` is asked, as sequences of texts.
pub struct Asked {
    pub folder: Seq<char>,
    pub wheres: Seq<Seq<char>>,
    pub select: Option<Seq<char>>,
    pub sort: Option<Seq<char>>,
    pub desc: bool,
    pub limit: Option<usize>,
    pub relations: Relations,
    pub recursive: bool,
}

/// What a text that may be missing is.
pub open spec fn owned_view(s: Option<String>) -> Option<Seq<char>> {
    match s {
        Some(t) => Some(t@),
        None => None,
    }
}

impl View for QueryCommand {
    type V = Asked;

    open spec fn view(&self) -> Asked {
        Asked {
            folder: self.folder@,
            wheres: string_views(self.where_strs@),
            select: owned_view(self.select),
            sort: owned_view(self.sort_field),
            desc: self.desc,
            limit: self.limit,
            relations: self.relational@,
            recursive: self.recursive,
        }
    }
}

/// What the command `query` shows: notes, the fields of them, and the graph that
/// fields are computed from.
#[derive(Debug, PartialEq, Eq)]
pub struct QueryOutput {
    pub records: Vec<Record>,
    pub select: Vec<String>,
    pub graph: Option<LinkGraph>,
}

/// What the command `query` shows, as sequences.
pub struct Shown {
    pub records: Seq<Rec>,
    pub select: Seq<Seq<char>>,
    pub graph: Option<Graph>,
}

/// What the command `query` shows, or the failure.
pub open spec fn output_view(r: Result<QueryOutput, CommandError>) -> Result<Shown, Trouble> {
    match r {
        Ok(o) => Ok(
            Shown {
                records: recs(o.records@),
                select: string_views(o.select@),
                graph: match o.graph {
                    Some(g) => Some(g@),
                    None => None,
                },
            },
        ),
        Err(e) => Err(e@),
    }
}

/// The notes of a folder with their texts, or why they cannot be loaded.
pub open spec fn folder_notes(
    p: Picture,
    root: Seq<char>,
    folder: Seq<char>,
    recursive: bool,
) -> Result<Seq<Rec>, Failure> {
    match loaded(notes_in(p.files, below(root, folder), recursive), true) {
        Ok((rs, _)) => Ok(rs),
        Err(e) => Err(e),
    }
}

/// Loads the notes of a folder with their texts.
pub fn load_folder(vault: &Vault, tree: &Tree, folder: &str, recursive: bool) -> (r: Result<
    Vec<Record>,
    CommandError,
>)
    ensures
        match r {
            Ok(v) => folder_notes(tree@, vault.root@, folder@, recursive) == Ok::<
                Seq<Rec>,
                Failure,
            >(recs(v@)),
            Err(e) => match folder_notes(tree@, vault.root@, folder@, recursive) {
                Ok(_) => false,
                Err(f) => e@ == Trouble::Failed(f),
            },
        },
{
    let path: String = crate::path::join_path(vault.root.as_str(), folder);
    match vault.load_records_with_content(path.as_str(), recursive, tree) {
        Ok(l) => Ok(l.records),
        Err(e) => Err(CommandError::Failed(e)),
    }
}

/// The conditions of a query, all of which must hold, once those on links are read.
pub open spec fn all_clauses(
    wheres: Seq<Cond>,
    relations: Relations,
    to: Seq<Cond>,
    from: Seq<Cond>,
) -> Cond {
    Cond::And(
        wheres + named_links(relations.links_to, false) + named_links(relations.linked_from, true)
            + described_links(to, false) + described_links(from, true),
    )
}

/// The notes that meet a condition, in order and limited.
pub open spec fn answer_of(rs: Seq<Rec>, c: Cond, a: Asked, root: Seq<char>) -> Shown {
    let g = if graph_needed(a.wheres, a.select, a.sort, a.relations) {
        Some(graph_of(rs))
    } else {
        None
    };
    let found = meeting(rs, Some(c), root, g);
    Shown {
        records: limited(
            match a.sort {
                Some(field) => ordered(found, field, a.desc, root, g),
                None => found,
            },
            a.limit,
        ),
        select: selection(a.select),
        graph: g,
    }
}

/// What the command `query` shows. The folder comes first of what can fail, then the
/// conditions, the notes, and the conditions on links.
pub open spec fn query_run(p: Picture, root: Seq<char>, a: Asked) -> Result<Shown, Trouble> {
    if !has_folder(p, below(root, a.folder)) {
        Err(Trouble::Failed(Failure::FolderNotFound(a.folder)))
    } else {
        match clauses(a.wheres, Purpose::Where) {
            Err(t) => Err(t),
            Ok(wheres) => match folder_notes(p, root, a.folder, a.recursive) {
                Err(e) => Err(Trouble::Failed(e)),
                Ok(rs) => match clauses(a.relations.links_to_where, Purpose::LinksTo) {
                    Err(t) => Err(t),
                    Ok(to) => match clauses(a.relations.linked_from_where, Purpose::LinkedFrom) {
                        Err(t) => Err(t),
                        Ok(from) => Ok(
                            answer_of(rs, all_clauses(wheres, a.relations, to, from), a, root),
                        ),
                    },
                },
            },
        }
    }
}

/// Keeps the first of some notes.
fn keep_first(records: Vec<Record>, limit: Option<usize>) -> (r: Vec<Record>)
    ensures
        recs(r@) == limited(recs(records@), limit),
{
    let mut out: Vec<Record> = records;
    match limit {
        Some(n) => {
            if n < out.len() {
                out.truncate(n);
                assert(recs(out@) =~= recs(records@).take(n as int));
            }
        },
        None => {},
    }
    out
}

/// A reference to a text that may be missing.
fn borrowed(s: &Option<String>) -> (r: Option<&str>)
    ensures
        str_view(r) == owned_view(*s),
{
    match s {
        Some(t) => Some(t.as_str()),
        None => None,
    }
}

/// Answers from notes that were loaded.
fn answer_command(
    records: &Vec<Record>,
    condition: Expr,
    command: &QueryCommand,
    root: &str,
) -> (r: QueryOutput)
    ensures
        output_view(Ok::<QueryOutput, CommandError>(r)) == Ok::<Shown, Trouble>(
            answer_of(recs(records@), cond(condition), command@, root@),
        ),
{
    let with_graph: bool = needs_graph(
        &command.where_strs,
        borrowed(&command.select),
        borrowed(&command.sort_field),
        &command.relational,
    );
    let graph: Option<LinkGraph> = if with_graph {
        Some(LinkGraph::build(records))
    } else {
        None
    };
    let g: Option<&LinkGraph> = match &graph {
        Some(x) => Some(x),
        None => None,
    };
    let found: Vec<Record> = filter_records(records, &Some(condition), root, g);
    let in_order: Vec<Record> = match &command.sort_field {
        Some(field) => order_records(&found, field.as_str(), command.desc, root, g),
        None => found,
    };
    QueryOutput {
        records: keep_first(in_order, command.limit),
        select: parse_select(borrowed(&command.select)),
        graph,
    }
}

/// Runs the command `query`.
pub fn run_query(vault: &Vault, tree: &Tree, command: &QueryCommand) -> (r: Result<
    QueryOutput,
    CommandError,
>)
    ensures
        output_view(r) == query_run(tree@, vault.root@, command@),
{
    match vault.resolve_folder(command.folder.as_str(), tree) {
        Ok(_) => {},
        Err(e) => {
            return Err(CommandError::Failed(e));
        },
    }
    let mut all: Vec<Expr> = match parse_where_clauses(&command.where_strs, Purpose::Where) {
        Ok(es) => es,
        Err(e) => {
            return Err(e);
        },
    };
    let ghost wheres = conds(all@);
    let records: Vec<Record> = match load_folder(
        vault,
        tree,
        command.folder.as_str(),
        command.recursive,
    ) {
        Ok(v) => v,
        Err(e) => {
            return Err(e);
        },
    };
    let to: Vec<Expr> = match parse_where_clauses(
        &command.relational.links_to_where,
        Purpose::LinksTo,
    ) {
        Ok(es) => es,
        Err(e) => {
            return Err(e);
        },
    };
    let from: Vec<Expr> = match parse_where_clauses(
        &command.relational.linked_from_where,
        Purpose::LinkedFrom,
    ) {
        Ok(es) => es,
        Err(e) => {
            return Err(e);
        },
    };
    add_named(&mut all, &command.relational.links_to, false);
    add_named(&mut all, &command.relational.linked_from, true);
    add_described(&mut all, &to, false);
    add_described(&mut all, &from, true);
    proof {
        lemma_cond(all);
    }
    Ok(answer_command(&records, Expr::And(all), command, vault.root.as_str()))
}

/// What the command `count` shows.
pub open spec fn count_run(
    p: Picture,
    root: Seq<char>,
    folder: Seq<char>,
    wheres: Seq<Seq<char>>,
    recursive: bool,
) -> Result<nat, Trouble> {
    let a = Asked {
        folder,
        wheres,
        select: None,
        sort: None,
        desc: false,
        limit: None,
        relations: Relations {
            links_to: seq![],
            linked_from: seq![],
            links_to_where: seq![],
            linked_from_where: seq![],
        },
        recursive,
    };
    match query_run(p, root, a) {
        Ok(s) => Ok(s.records.len()),
        Err(t) => Err(t),
    }
}

/// Runs the command `count`.
pub fn run_count(
    vault: &Vault,
    tree: &Tree,
    folder: &str,
    where_strs: &Vec<String>,
    recursive: bool,
) -> (r: Result<usize, CommandError>)
    ensures
        match r {
            Ok(n) => count_run(tree@, vault.root@, folder@, string_views(where_strs@), recursive)
                == Ok::<nat, Trouble>(n as nat),
            Err(e) => count_run(tree@, vault.root@, folder@, string_views(where_strs@), recursive)
                == Err::<nat, Trouble>(e@),
        },
{
    let command: QueryCommand = QueryCommand {
        folder: folder.to_owned(),
        where_strs: copy_strings(where_strs),
        select: None,
        sort_field: None,
        desc: false,
        limit: None,
        relational: RelationalFilters {
            links_to: Vec::new(),
            linked_from: Vec::new(),
            links_to_where: Vec::new(),
            linked_from_where: Vec::new(),
        },
        recursive,
    };
    assert(string_views(command.relational.links_to@) =~= seq![]);
    assert(string_views(command.relational.linked_from@) =~= seq![]);
    assert(string_views(command.relational.links_to_where@) =~= seq![]);
    assert(string_views(command.relational.linked_from_where@) =~= seq![]);
    match run_query(vault, tree, &command) {
        Ok(o) => {
            assert(recs(o.records@).len() == o.records.len());
            Ok(o.records.len())
        },
        Err(e) => Err(e),
    }
}

} // verus!
