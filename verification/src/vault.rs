//! [`Vault`]: finding a vault, listing and loading its notes, running queries and
//! building the link graph, all on a picture of the file system.

use crate::error::{Failure, ParseError, VaultdbError};
use crate::filter::{evaluate_expr, expr_uses_links, holds, order_values, uses_links, val_order};
use crate::frontmatter::{load_note, note_of, record_view};
use crate::journal::{recovery_start, replay_all, Recovery};
use crate::links::{graph_of, graph_view, Graph, LinkGraph};
use crate::path::{below, components, is_absolute, join_path, path_components};
use crate::query::{cond, sort_view, Cond, Expr, Query, Request, SortBy, SortKey};
use crate::record::{
    copy_record, copy_value, entries, lemma_entries_push, lemma_recs_push, looked_up, recs, val,
    Rec, Record, Val, Value,
};
use crate::sort::{
    best, best_positions, ints, lemma_best_same, lemma_sorted_same, positions, rank_of,
    sort_positions, sorted, Ranked,
};
use crate::text::{
    cat2, copy, copy_strings, from_chars, has_string, is_text, join, joined,
    lemma_string_views_push, string_views, views, Order,
};
use crate::tree::{
    file_at, has_folder, notes_in, picked, starts_at_root, FileEntry, FileView, Picture, Tree,
};
use vstd::prelude::*;

pub mod answers;
pub mod laws;

verus! {

/// A vault, by the folder that holds it.
#[derive(Debug, PartialEq, Eq)]
pub struct Vault {
    pub root: String,
}

/// Notes that were loaded, and the files whose frontmatter could not be read.
#[derive(Debug, PartialEq, Eq)]
pub struct LoadResult {
    pub records: Vec<Record>,
    pub parse_errors: Vec<ParseError>,
}

/// What files that could not be read are: each path with a message.
pub open spec fn error_views(v: Seq<ParseError>) -> Seq<(Seq<char>, Seq<char>)> {
    Seq::new(v.len(), |i: int| (v[i].file@, v[i].message@))
}

/// Notes and unreadable files as sequences.
pub type Load = (Seq<Rec>, Seq<(Seq<char>, Seq<char>)>);

/// What a load, or the failure, is.
pub open spec fn load_view(r: Result<LoadResult, VaultdbError>) -> Result<Load, Failure> {
    match r {
        Ok(l) => Ok((recs(l.records@), error_views(l.parse_errors@))),
        Err(e) => Err(e@),
    }
}

/// What a text, or the failure, is.
pub open spec fn path_view(r: Result<String, VaultdbError>) -> Result<Seq<char>, Failure> {
    match r {
        Ok(t) => Ok(t@),
        Err(e) => Err(e@),
    }
}

/// What records, or the failure, are.
pub open spec fn records_view(r: Result<Vec<Record>, VaultdbError>) -> Result<Seq<Rec>, Failure> {
    match r {
        Ok(v) => Ok(recs(v@)),
        Err(e) => Err(e@),
    }
}

// ── Finding a vault ────────────────────────────────────────────────────────

/// The folder that the first `n` components of a path lead to; all of them lead to
/// the path itself.
pub open spec fn ancestor(path: Seq<char>, n: int) -> Seq<char> {
    let cs = components(path);
    if n >= cs.len() {
        path
    } else if is_absolute(path) {
        "/"@ + joined(cs.take(n), "/"@)
    } else {
        joined(cs.take(n), "/"@)
    }
}

/// The nearest folder with an `.obsidian` folder in it, at or above the one that the
/// first `n` components of a path lead to.
pub open spec fn vault_above(p: Picture, path: Seq<char>, n: int) -> Option<Seq<char>>
    decreases n + 1,
{
    if n < 0 {
        None
    } else if has_folder(p, below(ancestor(path, n), ".obsidian"@)) {
        Some(ancestor(path, n))
    } else {
        vault_above(p, path, n - 1)
    }
}

/// The components of a path with those that lead upwards resolved: each takes away the
/// one before it.
pub open spec fn resolved_components(cs: Seq<Seq<char>>) -> Seq<Seq<char>>
    decreases cs.len(),
{
    if cs.len() == 0 {
        seq![]
    } else {
        let done = resolved_components(cs.drop_last());
        if cs.last() != ".."@ {
            done.push(cs.last())
        } else if done.len() > 0 {
            done.drop_last()
        } else {
            done
        }
    }
}

/// A path as it leads from the root of the file system, told from the folder that it is
/// looked up in.
pub open spec fn full_path(cwd: Seq<char>, path: Seq<char>) -> Seq<char> {
    "/"@ + joined(resolved_components(components(below(cwd, path))), "/"@)
}

/// The vault that a path lies in: the nearest folder at or above it with an `.obsidian`
/// folder in it.
pub open spec fn vault_of(p: Picture, cwd: Seq<char>, start: Seq<char>) -> Option<Seq<char>> {
    let path = full_path(cwd, start);
    vault_above(p, path, components(path).len() as int)
}

/// Makes a path lead from the root of the file system.
fn make_full(cwd: &str, path: &str) -> (r: String)
    ensures
        r@ == full_path(cwd@, path@),
{
    let cs: Vec<Vec<char>> = path_components(join_path(cwd, path).as_str());
    let ghost all = views(cs@);
    let mut done: Vec<Vec<char>> = Vec::new();
    let mut i: usize = 0;
    assert(views(done@) =~= seq![]);
    assert(all.take(0) =~= seq![]);
    while i < cs.len()
        invariant
            all == views(cs@),
            i <= cs.len(),
            views(done@) == resolved_components(all.take(i as int)),
        decreases cs.len() - i,
    {
        let ghost before = views(done@);
        assert(all[i as int] == cs@[i as int]@);
        assert(all.take(i + 1).drop_last() =~= all.take(i as int));
        if is_text(&cs[i], "..") {
            if done.len() > 0 {
                let last: Option<Vec<char>> = done.pop();
                assert(views(done@) =~= before.drop_last());
            }
        } else {
            let c: Vec<char> = copy(&cs[i]);
            done.push(c);
            assert(views(done@) =~= before.push(c@));
        }
        i += 1;
    }
    assert(all.take(i as int) =~= all);
    cat2("/", from_chars(&join(&done, "/")).as_str())
}

/// Finds the folder that the first `n` components of a path lead to.
pub fn find_ancestor(path: &str, n: usize) -> (r: String)
    ensures
        r@ == ancestor(path@, n as int),
{
    let cs: Vec<Vec<char>> = path_components(path);
    if n >= cs.len() {
        return path.to_owned();
    }
    let head: Vec<Vec<char>> = crate::writer::copy_lines(&cs, 0, n);
    assert(views(head@) =~= components(path@).take(n as int));
    let t: String = from_chars(&join(&head, "/"));
    if starts_at_root(path) {
        cat2("/", t.as_str())
    } else {
        t
    }
}

// ── Loading ────────────────────────────────────────────────────────────────

/// The notes of some files. Files with frontmatter that cannot be read are listed;
/// the first file that cannot be read at all is the failure.
pub open spec fn loaded(files: Seq<FileView>, with_content: bool) -> Result<Load, Failure>
    decreases files.len(),
{
    if files.len() == 0 {
        Ok((seq![], seq![]))
    } else {
        match loaded(files.drop_last(), with_content) {
            Err(e) => Err(e),
            Ok((rs, es)) => match note_of(files.last(), with_content) {
                Ok(r) => Ok((rs.push(r), es)),
                Err(Failure::InvalidFrontmatter { file, reason }) => Ok((rs, es.push((file, reason)))),
                Err(e) => Err(e),
            },
        }
    }
}

/// The first failure to load stands.
proof fn lemma_loaded_prefix(files: Seq<FileView>, with_content: bool, k: int)
    requires
        0 <= k <= files.len(),
        loaded(files.take(k), with_content) is Err,
    ensures
        loaded(files, with_content) == loaded(files.take(k), with_content),
    decreases files.len() - k,
{
    if k == files.len() {
        assert(files.take(k) =~= files);
    } else {
        assert(files.take(k + 1).drop_last() =~= files.take(k));
        lemma_loaded_prefix(files, with_content, k + 1);
    }
}

/// Unreadable files followed by one more.
proof fn lemma_error_views_push(v: Seq<ParseError>, x: ParseError)
    ensures
        error_views(v.push(x)) == error_views(v).push((x.file@, x.message@)),
{
    assert(error_views(v.push(x)) =~= error_views(v).push((x.file@, x.message@)));
}

/// Loads the notes of some files.
fn load_files(tree: &Tree, at: &Vec<usize>, with_content: bool) -> (r: Result<
    LoadResult,
    VaultdbError,
>)
    requires
        forall|k: int| 0 <= k < at.len() ==> (#[trigger] at@[k]) < tree.files.len(),
    ensures
        load_view(r) == loaded(picked(tree@.files, at@), with_content),
{
    let ghost files = picked(tree@.files, at@);
    let mut records: Vec<Record> = Vec::new();
    let mut parse_errors: Vec<ParseError> = Vec::new();
    let mut i: usize = 0;
    assert(files.take(0) =~= seq![]);
    assert(recs(records@) =~= seq![]);
    assert(error_views(parse_errors@) =~= seq![]);
    while i < at.len()
        invariant
            files == picked(tree@.files, at@),
            i <= at.len(),
            forall|k: int| 0 <= k < at.len() ==> (#[trigger] at@[k]) < tree.files.len(),
            loaded(files.take(i as int), with_content) == Ok::<Load, Failure>(
                (recs(records@), error_views(parse_errors@)),
            ),
        decreases at.len() - i,
    {
        assert(files.take(i + 1).drop_last() =~= files.take(i as int));
        assert(files.take(i + 1).last() == tree.files@[at@[i as int] as int]@);
        match load_note(&tree.files[at[i]], with_content) {
            Ok(r) => {
                proof {
                    lemma_recs_push(records@, r);
                }
                records.push(r);
            },
            Err(VaultdbError::InvalidFrontmatter { file, reason }) => {
                let e: ParseError = ParseError { file, message: reason };
                proof {
                    lemma_error_views_push(parse_errors@, e);
                }
                parse_errors.push(e);
            },
            Err(e) => {
                proof {
                    lemma_loaded_prefix(files, with_content, i + 1);
                }
                return Err(e);
            },
        }
        i += 1;
    }
    assert(files.take(i as int) =~= files);
    Ok(LoadResult { records, parse_errors })
}

// ── Queries ────────────────────────────────────────────────────────────────

/// The key that a record is put in order by.
pub open spec fn sort_value(r: Rec, field: Seq<char>, root: Seq<char>) -> Val {
    match looked_up(r, field, root, None) {
        Some(v) => v,
        None => Val::Null,
    }
}

/// An order the other way round.
pub open spec fn flipped(o: Order) -> Order {
    match o {
        Order::Less => Order::Greater,
        Order::Equal => Order::Equal,
        Order::Greater => Order::Less,
    }
}

/// How two values stand to each other, ascending or descending.
pub open spec fn directed(a: Val, b: Val, descending: bool) -> Order {
    if descending {
        flipped(val_order(a, b))
    } else {
        val_order(a, b)
    }
}

/// How records stand to each other by a field.
pub open spec fn record_rank(
    rs: Seq<Rec>,
    field: Seq<char>,
    descending: bool,
    root: Seq<char>,
) -> spec_fn(int, int) -> Order {
    |i: int, j: int|
        directed(
            sort_value(rs[i], field, root),
            sort_value(rs[j], field, root),
            descending,
        )
}

/// The records at some positions.
pub open spec fn chosen(rs: Seq<Rec>, at: Seq<int>) -> Seq<Rec> {
    Seq::new(at.len(), |k: int| rs[at[k]])
}

/// Records in order of a field.
pub open spec fn sorted_records(
    rs: Seq<Rec>,
    field: Seq<char>,
    descending: bool,
    root: Seq<char>,
) -> Seq<Rec> {
    chosen(rs, sorted(record_rank(rs, field, descending, root), positions(rs.len())))
}

/// The first `k` records in order of a field.
pub open spec fn first_records(
    rs: Seq<Rec>,
    field: Seq<char>,
    descending: bool,
    root: Seq<char>,
    k: nat,
) -> Seq<Rec> {
    chosen(rs, best(record_rank(rs, field, descending, root), rs.len(), k))
}

/// A value with the direction that it is put in order.
pub struct DirectedValue {
    pub value: Value,
    pub descending: bool,
}

impl Ranked for DirectedValue {
    open spec fn rank(self, other: Self) -> Order {
        directed(val(self.value), val(other.value), self.descending)
    }

    fn compare(&self, other: &Self) -> (r: Order) {
        let o: Order = order_values(&self.value, &other.value);
        if self.descending {
            match o {
                Order::Less => Order::Greater,
                Order::Equal => Order::Equal,
                Order::Greater => Order::Less,
            }
        } else {
            o
        }
    }
}

/// Reads the keys that records are put in order by.
fn sort_keys(records: &Vec<Record>, key: &SortKey, root: &str) -> (r: Vec<DirectedValue>)
    ensures
        r.len() == records.len(),
        forall|i: int, j: int|
            0 <= i < r.len() && 0 <= j < r.len() ==> (#[trigger] rank_of(r@)(i, j)) == record_rank(
                recs(records@),
                key.field@,
                key.descending,
                root@,
            )(i, j),
{
    let ghost rs = recs(records@);
    let mut keys: Vec<DirectedValue> = Vec::new();
    let mut i: usize = 0;
    while i < records.len()
        invariant
            rs == recs(records@),
            i <= records.len(),
            keys.len() == i,
            forall|k: int|
                0 <= k < i ==> val((#[trigger] keys@[k]).value) == sort_value(
                    rs[k],
                    key.field@,
                    root@,
                ) && keys@[k].descending == key.descending,
        decreases records.len() - i,
    {
        let value: Value = match records[i].get(key.field.as_str(), root) {
            Some(v) => v,
            None => Value::Null,
        };
        keys.push(DirectedValue { value, descending: key.descending });
        i += 1;
    }
    keys
}

/// Copies the records at some positions.
pub fn pick_records(records: &Vec<Record>, at: &Vec<usize>) -> (r: Vec<Record>)
    requires
        forall|k: int| 0 <= k < at.len() ==> (#[trigger] at@[k]) < records.len(),
    ensures
        recs(r@) == chosen(recs(records@), ints(at@)),
{
    let ghost rs = recs(records@);
    let mut out: Vec<Record> = Vec::new();
    let mut i: usize = 0;
    assert(recs(out@) =~= chosen(rs, ints(at@)).take(0));
    while i < at.len()
        invariant
            rs == recs(records@),
            i <= at.len(),
            forall|k: int| 0 <= k < at.len() ==> (#[trigger] at@[k]) < records.len(),
            recs(out@) == chosen(rs, ints(at@)).take(i as int),
        decreases at.len() - i,
    {
        let c: Record = copy_record(&records[at[i]]);
        proof {
            lemma_recs_push(out@, c);
            assert(recs(out@).push(c@) =~= chosen(rs, ints(at@)).take(i + 1));
        }
        out.push(c);
        i += 1;
    }
    assert(chosen(rs, ints(at@)).take(i as int) =~= chosen(rs, ints(at@)));
    out
}

/// Puts records in order of a field; those that are equal in order stay as they
/// stand to each other.
pub fn sort_records(records: &Vec<Record>, key: &SortKey, root: &str) -> (r: Vec<Record>)
    ensures
        recs(r@) == sorted_records(recs(records@), key.field@, key.descending, root@),
{
    let keys: Vec<DirectedValue> = sort_keys(records, key, root);
    let at: Vec<usize> = sort_positions(&keys);
    proof {
        lemma_sorted_same(
            rank_of(keys@),
            record_rank(recs(records@), key.field@, key.descending, root@),
            records@.len(),
            positions(records@.len()),
        );
    }
    pick_records(records, &at)
}

/// Finds the first `k` records in order of a field, keeping no more than `k` at a
/// time.
pub fn top_k_sorted(records: &Vec<Record>, key: &SortKey, k: usize, root: &str) -> (r: Vec<Record>)
    ensures
        recs(r@) == first_records(recs(records@), key.field@, key.descending, root@, k as nat),
{
    let keys: Vec<DirectedValue> = sort_keys(records, key, root);
    let at: Vec<usize> = best_positions(&keys, k);
    proof {
        lemma_best_same(
            rank_of(keys@),
            record_rank(recs(records@), key.field@, key.descending, root@),
            records@.len(),
            k as nat,
        );
    }
    pick_records(records, &at)
}

/// Those of some records that meet a condition.
pub open spec fn meeting(
    rs: Seq<Rec>,
    filter: Option<Cond>,
    root: Seq<char>,
    g: Option<Graph>,
) -> Seq<Rec>
    decreases rs.len(),
{
    if rs.len() == 0 {
        seq![]
    } else if meets(rs.last(), filter, root, g) {
        meeting(rs.drop_last(), filter, root, g).push(rs.last())
    } else {
        meeting(rs.drop_last(), filter, root, g)
    }
}

/// Whether a record meets a condition; every record meets one that is missing.
pub open spec fn meets(r: Rec, filter: Option<Cond>, root: Seq<char>, g: Option<Graph>) -> bool {
    match filter {
        Some(c) => holds(c, r, root, g),
        None => true,
    }
}

/// Entries with the keys that are wanted.
pub open spec fn with_keys(m: Seq<(Seq<char>, Val)>, wanted: Seq<Seq<char>>) -> Seq<
    (Seq<char>, Val),
>
    decreases m.len(),
{
    if m.len() == 0 {
        seq![]
    } else if wanted.contains(m.last().0) {
        with_keys(m.drop_last(), wanted).push(m.last())
    } else {
        with_keys(m.drop_last(), wanted)
    }
}

/// A record as a query gives it: with the fields that are wanted, without its text.
pub open spec fn projected(r: Rec, select: Option<Seq<Seq<char>>>) -> Rec {
    Rec {
        path: r.path,
        fields: match select {
            Some(wanted) => with_keys(r.fields, wanted),
            None => r.fields,
        },
        content: None,
        modified: r.modified,
        created: r.created,
    }
}

/// A record with its text, which is that of its file where it was left out.
pub open spec fn with_text(r: Rec, p: Picture) -> Rec {
    match r.content {
        Some(_) => r,
        None => Rec {
            content: match file_at(p.files, r.path, 0) {
                Some(i) => match p.files[i].content {
                    Ok(text) => Some(text),
                    Err(_) => None,
                },
                None => None,
            },
            ..r
        },
    }
}

/// Records with their texts.
pub open spec fn with_all_texts(rs: Seq<Rec>, p: Picture) -> Seq<Rec> {
    Seq::new(rs.len(), |i: int| with_text(rs[i], p))
}

/// Gives records their texts, such as a query left out: what an export shows of a
/// note's text is that of its file.
pub fn with_texts(records: &Vec<Record>, tree: &Tree) -> (r: Vec<Record>)
    ensures
        recs(r@) == with_all_texts(recs(records@), tree@),
{
    let ghost rs = recs(records@);
    let ghost all = with_all_texts(rs, tree@);
    let mut out: Vec<Record> = Vec::new();
    let mut i: usize = 0;
    assert(recs(out@) =~= all.take(0));
    while i < records.len()
        invariant
            rs == recs(records@),
            all == with_all_texts(rs, tree@),
            i <= records.len(),
            recs(out@) == all.take(i as int),
        decreases records.len() - i,
    {
        let mut c: Record = copy_record(&records[i]);
        if c.raw_content.is_none() {
            let text: Option<String> = match tree.find_file(c.path.as_str()) {
                Some(k) => match &tree.files[k].content {
                    Ok(t) => Some(t.clone()),
                    Err(_) => None,
                },
                None => None,
            };
            c.raw_content = text;
        }
        proof {
            assert(c@ == with_text(rs[i as int], tree@));
            lemma_recs_push(out@, c);
            assert(recs(out@).push(c@) =~= all.take(i + 1));
        }
        out.push(c);
        i += 1;
    }
    assert(all.take(i as int) =~= all);
    out
}

/// Records as a query gives them.
pub open spec fn all_projected(rs: Seq<Rec>, select: Option<Seq<Seq<char>>>) -> Seq<Rec> {
    Seq::new(rs.len(), |i: int| projected(rs[i], select))
}

/// What a condition that may be missing is.
pub open spec fn cond_view(e: Option<Expr>) -> Option<Cond> {
    match e {
        Some(e) => Some(cond(e)),
        None => None,
    }
}

/// What a list of texts that may be missing is.
pub open spec fn list_view(v: Option<Vec<String>>) -> Option<Seq<Seq<char>>> {
    match v {
        Some(v) => Some(string_views(v@)),
        None => None,
    }
}

/// The first of some records, or all of them.
pub open spec fn limited(rs: Seq<Rec>, limit: Option<usize>) -> Seq<Rec> {
    match limit {
        Some(n) => if n < rs.len() {
            rs.take(n as int)
        } else {
            rs
        },
        None => rs,
    }
}

/// Records put in order and limited as a query says.
pub open spec fn arranged(
    rs: Seq<Rec>,
    sort: Option<SortBy>,
    limit: Option<usize>,
    root: Seq<char>,
) -> Seq<Rec> {
    match sort {
        Some(key) => match limit {
            Some(k) => if k < rs.len() {
                first_records(rs, key.field, key.descending, root, k as nat)
            } else {
                sorted_records(rs, key.field, key.descending, root)
            },
            None => sorted_records(rs, key.field, key.descending, root),
        },
        None => limited(rs, limit),
    }
}

/// Whether a condition looks at the link graph.
pub open spec fn needs_graph(filter: Option<Cond>) -> bool {
    match filter {
        Some(c) => uses_links(c),
        None => false,
    }
}

/// The graph that a condition needs.
pub open spec fn graph_for(rs: Seq<Rec>, filter: Option<Cond>) -> Option<Graph> {
    if needs_graph(filter) {
        Some(graph_of(rs))
    } else {
        None
    }
}

/// What a query gives of notes that were loaded.
pub open spec fn answered(
    rs: Seq<Rec>,
    filter: Option<Cond>,
    select: Option<Seq<Seq<char>>>,
    sort: Option<SortBy>,
    limit: Option<usize>,
    root: Seq<char>,
) -> Seq<Rec> {
    all_projected(
        arranged(meeting(rs, filter, root, graph_for(rs, filter)), sort, limit, root),
        select,
    )
}

/// What a query gives file by file, from a position on and with room for `left`
/// more: files whose frontmatter cannot be read are passed over, the first file that
/// cannot be read at all is the failure.
pub open spec fn streamed(
    files: Seq<FileView>,
    at: int,
    filter: Option<Cond>,
    select: Option<Seq<Seq<char>>>,
    left: Option<nat>,
    root: Seq<char>,
) -> Result<Seq<Rec>, Failure>
    decreases files.len() - at,
{
    if at < 0 || at >= files.len() || left == Some(0nat) {
        Ok(seq![])
    } else {
        match note_of(files[at], true) {
            Err(Failure::InvalidFrontmatter { file, reason }) => streamed(
                files,
                at + 1,
                filter,
                select,
                left,
                root,
            ),
            Err(e) => Err(e),
            Ok(r) => if meets(r, filter, root, None) {
                match streamed(files, at + 1, filter, select, one_less(left), root) {
                    Ok(rs) => Ok(seq![projected(r, select)] + rs),
                    Err(e) => Err(e),
                }
            } else {
                streamed(files, at + 1, filter, select, left, root)
            },
        }
    }
}

/// One less of a number that may be missing.
pub open spec fn one_less(left: Option<nat>) -> Option<nat> {
    match left {
        Some(n) => Some((n - 1) as nat),
        None => None,
    }
}

/// A number that may be missing.
pub open spec fn nat_view(n: Option<usize>) -> Option<nat> {
    match n {
        Some(n) => Some(n as nat),
        None => None,
    }
}

/// A query that is answered file by file.
pub struct StreamingState {
    /// The paths of the files, in order.
    pub paths: Vec<String>,
    /// How many of them were read.
    pub at: usize,
    pub filter: Option<Expr>,
    pub select: Option<Vec<String>>,
    pub root: String,
    pub limit: Option<usize>,
    /// How many records were found.
    pub yielded: usize,
}

/// A query under way: one that is answered file by file, or the records found.
pub enum QueryIter {
    Streaming(StreamingState),
    Materialized(Vec<Record>),
}

/// What a file adds to a query that is answered file by file.
pub open spec fn offered(
    f: FileView,
    filter: Option<Cond>,
    select: Option<Seq<Seq<char>>>,
    root: Seq<char>,
) -> Option<Result<Rec, Failure>> {
    match note_of(f, true) {
        Err(Failure::InvalidFrontmatter { file, reason }) => None,
        Err(e) => Some(Err(e)),
        Ok(r) => if meets(r, filter, root, None) {
            Some(Ok(projected(r, select)))
        } else {
            None
        },
    }
}

/// What a record that may be missing, or the failure, is.
pub open spec fn offer_view(r: Option<Result<Record, VaultdbError>>) -> Option<
    Result<Rec, Failure>,
> {
    match r {
        Some(x) => Some(record_view(x)),
        None => None,
    }
}

/// Tells whether a record meets a condition.
pub fn check_filter(r: &Record, filter: &Option<Expr>, root: &str, g: Option<&LinkGraph>) -> (b: bool)
    ensures
        b == meets(r@, cond_view(*filter), root@, graph_view(g)),
{
    match filter {
        Some(e) => evaluate_expr(e, r, root, g),
        None => true,
    }
}

/// Makes a record what a query gives.
fn project(r: &Record, select: &Option<Vec<String>>) -> (p: Record)
    ensures
        p@ == projected(r@, list_view(*select)),
{
    let mut fields: Vec<(String, Value)> = Vec::new();
    let ghost all = entries(r.fields@);
    assert(entries(fields@) =~= seq![]);
    match select {
        Some(wanted) => {
            let mut i: usize = 0;
            assert(all.take(0) =~= seq![]);
            while i < r.fields.len()
                invariant
                    all == entries(r.fields@),
                    i <= r.fields.len(),
                    entries(fields@) == with_keys(all.take(i as int), string_views(wanted@)),
                decreases r.fields.len() - i,
            {
                assert(all.take(i + 1).drop_last() =~= all.take(i as int));
                if has_string(wanted, r.fields[i].0.as_str()) {
                    let x: (String, Value) = (r.fields[i].0.clone(), copy_value(&r.fields[i].1));
                    proof {
                        lemma_entries_push(fields@, x);
                    }
                    fields.push(x);
                }
                i += 1;
            }
            assert(all.take(i as int) =~= all);
        },
        None => {
            fields = crate::record::copy_fields(&r.fields);
        },
    }
    Record {
        path: r.path.clone(),
        fields,
        raw_content: None,
        modified: r.modified,
        created: r.created,
    }
}

impl StreamingState {
    /// Whether another file is wanted.
    pub open spec fn is_open(&self) -> bool {
        self.at < self.paths.len() && match self.limit {
            Some(n) => self.yielded < n,
            None => true,
        }
    }

    /// The path of the file that is wanted next; none once all were read or the limit
    /// is reached.
    pub fn next_path(&self) -> (r: Option<&str>)
        ensures
            r is Some == self.is_open(),
            r is Some ==> r->0@ == self.paths@[self.at as int]@,
    {
        match self.limit {
            Some(n) => {
                if self.yielded >= n {
                    return None;
                }
            },
            None => {},
        }
        if self.at < self.paths.len() {
            Some(self.paths[self.at].as_str())
        } else {
            None
        }
    }

    /// Takes the file that was wanted, and gives the record that it adds.
    pub fn next_record(&mut self, file: &FileEntry) -> (r: Option<Result<Record, VaultdbError>>)
        ensures
            offer_view(r) == if old(self).is_open() {
                offered(
                    file@,
                    cond_view(old(self).filter),
                    list_view(old(self).select),
                    old(self).root@,
                )
            } else {
                None
            },
            *final(self) == (StreamingState {
                at: if old(self).is_open() {
                    (old(self).at + 1) as usize
                } else {
                    old(self).at
                },
                yielded: if r is Some && r->0 is Ok && old(self).yielded < usize::MAX {
                    (old(self).yielded + 1) as usize
                } else {
                    old(self).yielded
                },
                ..*old(self)
            }),
    {
        if self.next_path().is_none() {
            return None;
        }
        self.at += 1;
        match load_note(file, true) {
            Err(VaultdbError::InvalidFrontmatter { .. }) => None,
            Err(e) => Some(Err(e)),
            Ok(r) => {
                if check_filter(&r, &self.filter, self.root.as_str(), None) {
                    if self.yielded < usize::MAX {
                        self.yielded += 1;
                    }
                    Some(Ok(project(&r, &self.select)))
                } else {
                    None
                }
            },
        }
    }
}

/// Copies a list of texts that may be missing.
fn copy_list(v: &Option<Vec<String>>) -> (r: Option<Vec<String>>)
    ensures
        list_view(r) == list_view(*v),
{
    match v {
        Some(v) => Some(copy_strings(v)),
        None => None,
    }
}

/// What a query gives of the files that are there.
pub open spec fn queried(p: Picture, root: Seq<char>, q: Request) -> Result<Seq<Rec>, Failure> {
    let folder = below(root, q.folder);
    let files = notes_in(p.files, folder, q.recursive);
    if !has_folder(p, folder) {
        Err(Failure::FolderNotFound(q.folder))
    } else if !needs_graph(q.filter) && q.sort is None {
        streamed(files, 0, q.filter, q.select, nat_view(q.limit), root)
    } else {
        match loaded(files, true) {
            Ok((rs, _)) => Ok(answered(rs, q.filter, q.select, q.sort, q.limit, root)),
            Err(e) => Err(e),
        }
    }
}

/// The scope of a link graph.
pub enum GraphScope {
    /// The whole vault.
    All,
    /// One folder with its subfolders.
    Folder(String),
    /// The notes of the vault that meet a condition.
    Where(Expr),
}

/// The graph of a scope.
pub open spec fn scoped_graph(p: Picture, root: Seq<char>, scope: GraphScope) -> Result<
    Graph,
    Failure,
> {
    match scope {
        GraphScope::All => match loaded(notes_in(p.files, root, true), true) {
            Ok((rs, _)) => Ok(graph_of(rs)),
            Err(e) => Err(e),
        },
        GraphScope::Folder(folder) => if !has_folder(p, below(root, folder@)) {
            Err(Failure::FolderNotFound(folder@))
        } else {
            match loaded(notes_in(p.files, below(root, folder@), true), true) {
                Ok((rs, _)) => Ok(graph_of(rs)),
                Err(e) => Err(e),
            }
        },
        GraphScope::Where(e) => match loaded(notes_in(p.files, root, true), true) {
            Ok((rs, _)) => Ok(graph_of(meeting(rs, Some(cond(e)), root, Some(graph_of(rs))))),
            Err(e) => Err(e),
        },
    }
}

/// What a graph, or the failure, is.
pub open spec fn graph_result(r: Result<LinkGraph, VaultdbError>) -> Result<Graph, Failure> {
    match r {
        Ok(g) => Ok(g@),
        Err(e) => Err(e@),
    }
}

/// Keeps the records that meet a condition.
pub fn filter_records(
    records: &Vec<Record>,
    filter: &Option<Expr>,
    root: &str,
    g: Option<&LinkGraph>,
) -> (r: Vec<Record>)
    ensures
        recs(r@) == meeting(recs(records@), cond_view(*filter), root@, graph_view(g)),
{
    let ghost rs = recs(records@);
    let mut out: Vec<Record> = Vec::new();
    let mut i: usize = 0;
    assert(rs.take(0) =~= seq![]);
    assert(recs(out@) =~= seq![]);
    while i < records.len()
        invariant
            rs == recs(records@),
            i <= records.len(),
            recs(out@) == meeting(rs.take(i as int), cond_view(*filter), root@, graph_view(g)),
        decreases records.len() - i,
    {
        assert(rs.take(i + 1).drop_last() =~= rs.take(i as int));
        assert(rs.take(i + 1).last() == records@[i as int]@);
        if check_filter(&records[i], filter, root, g) {
            let c: Record = copy_record(&records[i]);
            proof {
                lemma_recs_push(out@, c);
            }
            out.push(c);
        }
        i += 1;
    }
    assert(rs.take(i as int) =~= rs);
    out
}

/// Keeps the first of some records.
fn truncate(records: &Vec<Record>, limit: Option<usize>) -> (r: Vec<Record>)
    ensures
        recs(r@) == limited(recs(records@), limit),
{
    let ghost rs = recs(records@);
    let n: usize = match limit {
        Some(n) => if n < records.len() {
            n
        } else {
            records.len()
        },
        None => records.len(),
    };
    let mut out: Vec<Record> = Vec::new();
    let mut i: usize = 0;
    assert(recs(out@) =~= rs.take(0));
    while i < n
        invariant
            rs == recs(records@),
            i <= n <= records.len(),
            recs(out@) == rs.take(i as int),
        decreases n - i,
    {
        let c: Record = copy_record(&records[i]);
        proof {
            lemma_recs_push(out@, c);
            assert(recs(out@).push(c@) =~= rs.take(i + 1));
        }
        out.push(c);
        i += 1;
    }
    assert(rs.take(n as int) =~= limited(rs, limit));
    out
}

/// Answers a query from notes that were loaded.
fn answer(records: &Vec<Record>, q: &Query, root: &str) -> (r: Vec<Record>)
    ensures
        recs(r@) == answered(
            recs(records@),
            cond_view(q.filter),
            list_view(q.select),
            sort_view(q.sort),
            q.limit,
            root@,
        ),
{
    let wants_graph: bool = match &q.filter {
        Some(e) => expr_uses_links(e),
        None => false,
    };
    let graph: Option<LinkGraph> = if wants_graph {
        Some(LinkGraph::build(records))
    } else {
        None
    };
    let found: Vec<Record> = match &graph {
        Some(g) => filter_records(records, &q.filter, root, Some(g)),
        None => filter_records(records, &q.filter, root, None),
    };
    let some: Vec<Record> = match &q.sort {
        Some(key) => match q.limit {
            Some(k) => if k < found.len() {
                top_k_sorted(&found, key, k, root)
            } else {
                sort_records(&found, key, root)
            },
            None => sort_records(&found, key, root),
        },
        None => truncate(&found, q.limit),
    };
    let ghost rs = recs(some@);
    let mut out: Vec<Record> = Vec::new();
    let mut i: usize = 0;
    assert(recs(out@) =~= all_projected(rs, list_view(q.select)).take(0));
    while i < some.len()
        invariant
            rs == recs(some@),
            i <= some.len(),
            recs(out@) == all_projected(rs, list_view(q.select)).take(i as int),
        decreases some.len() - i,
    {
        let c: Record = project(&some[i], &q.select);
        proof {
            lemma_recs_push(out@, c);
            assert(recs(out@).push(c@) =~= all_projected(rs, list_view(q.select)).take(i + 1));
        }
        out.push(c);
        i += 1;
    }
    assert(all_projected(rs, list_view(q.select)).take(i as int) =~= all_projected(
        rs,
        list_view(q.select),
    ));
    out
}

impl Vault {
    /// Finds the vault that a path lies in: the nearest folder at or above it with an
    /// `.obsidian` folder. A path that does not start at the root of the file system is
    /// looked up in the working directory.
    pub fn discover(start: &str, cwd: &str, tree: &Tree) -> (r: Result<Vault, VaultdbError>)
        ensures
            match vault_of(tree@, cwd@, start@) {
                Some(root) => r is Ok && r->Ok_0.root@ == root,
                None => r is Err && r->Err_0@ == Failure::VaultNotFound(start@),
            },
    {
        let path: String = make_full(cwd, start);
        let cs: Vec<Vec<char>> = path_components(path.as_str());
        assert(views(cs@).len() == cs.len());
        let mut n: usize = cs.len();
        loop
            invariant
                n <= cs.len(),
                path@ == full_path(cwd@, start@),
                vault_of(tree@, cwd@, start@) == vault_above(tree@, path@, n as int),
            decreases n,
        {
            let current: String = find_ancestor(path.as_str(), n);
            if tree.is_dir(join_path(current.as_str(), ".obsidian").as_str()) {
                return Ok(Vault { root: current });
            }
            if n == 0 {
                assert(vault_above(tree@, path@, -1) is None);
                return Err(VaultdbError::VaultNotFound(start.to_owned()));
            }
            n -= 1;
        }
    }

    /// Starts replaying the renames that were left unfinished, given the files in the
    /// folder of the journals: the oldest first, to the first that fails.
    pub fn recover(&self, paths: &Vec<String>) -> (r: Recovery)
        ensures
            r@ == recovery_start(string_views(paths@)),
    {
        replay_all(paths)
    }

    /// The vault in a folder.
    pub fn with_root(root: String) -> (r: Vault)
        ensures
            r.root == root,
    {
        Vault { root }
    }

    /// Finds a folder of the vault.
    pub fn resolve_folder(&self, folder: &str, tree: &Tree) -> (r: Result<String, VaultdbError>)
        ensures
            path_view(r) == if has_folder(tree@, below(self.root@, folder@)) {
                Ok::<Seq<char>, Failure>(below(self.root@, folder@))
            } else {
                Err(Failure::FolderNotFound(folder@))
            },
    {
        let path: String = join_path(self.root.as_str(), folder);
        if tree.is_dir(path.as_str()) {
            Ok(path)
        } else {
            Err(VaultdbError::FolderNotFound(folder.to_owned()))
        }
    }

    /// Lists the notes of a folder, in the order of their paths.
    pub fn list_files(&self, folder: &str, recursive: bool, tree: &Tree) -> (r: Vec<String>)
        ensures
            string_views(r@) == file_paths(notes_in(tree@.files, folder@, recursive)),
    {
        let at: Vec<usize> = tree.find_notes(folder, recursive);
        paths_of(tree, &at)
    }

    /// Loads the notes of a folder without their texts.
    pub fn load_records(&self, folder: &str, recursive: bool, tree: &Tree) -> (r: Result<
        LoadResult,
        VaultdbError,
    >)
        ensures
            load_view(r) == loaded(notes_in(tree@.files, folder@, recursive), false),
    {
        load_files(tree, &tree.find_notes(folder, recursive), false)
    }

    /// Loads the notes of a folder with their texts.
    pub fn load_records_with_content(&self, folder: &str, recursive: bool, tree: &Tree) -> (r:
        Result<LoadResult, VaultdbError>)
        ensures
            load_view(r) == loaded(notes_in(tree@.files, folder@, recursive), true),
    {
        load_files(tree, &tree.find_notes(folder, recursive), true)
    }

    /// Looks up a note of a folder by its name. One whose frontmatter cannot be read is
    /// a failure here.
    pub fn find_by_name(&self, folder: &str, name: &str, tree: &Tree) -> (r: Result<
        Option<Record>,
        VaultdbError,
    >)
        ensures
            found_view(r) == found_by_name(tree@, self.root@, folder@, name@),
    {
        let folder_path: String = match self.resolve_folder(folder, tree) {
            Ok(p) => p,
            Err(e) => {
                return Err(e);
            },
        };
        let candidate: String = join_path(folder_path.as_str(), cat2(name, ".md").as_str());
        match tree.find_file(candidate.as_str()) {
            None => Ok(None),
            Some(i) => {
                let file: FileEntry = FileEntry {
                    path: candidate,
                    content: match &tree.files[i].content {
                        Ok(t) => Ok(t.clone()),
                        Err(e) => Err(e.clone()),
                    },
                    modified: tree.files[i].modified,
                    created: tree.files[i].created,
                };
                match load_note(&file, false) {
                    Ok(x) => Ok(Some(x)),
                    Err(e) => Err(e),
                }
            },
        }
    }

    /// Builds the link graph of a scope.
    pub fn link_graph(&self, scope: &GraphScope, tree: &Tree) -> (r: Result<
        LinkGraph,
        VaultdbError,
    >)
        ensures
            graph_result(r) == scoped_graph(tree@, self.root@, *scope),
    {
        match scope {
            GraphScope::All => match self.load_records_with_content(
                self.root.as_str(),
                true,
                tree,
            ) {
                Ok(l) => Ok(LinkGraph::build(&l.records)),
                Err(e) => Err(e),
            },
            GraphScope::Folder(folder) => match self.resolve_folder(folder.as_str(), tree) {
                Ok(path) => match self.load_records_with_content(path.as_str(), true, tree) {
                    Ok(l) => Ok(LinkGraph::build(&l.records)),
                    Err(e) => Err(e),
                },
                Err(e) => Err(e),
            },
            GraphScope::Where(e) => match self.load_records_with_content(
                self.root.as_str(),
                true,
                tree,
            ) {
                Ok(l) => {
                    let g: LinkGraph = LinkGraph::build(&l.records);
                    let some: Vec<Record> = filter_by(&l.records, e, self.root.as_str(), &g);
                    Ok(LinkGraph::build(&some))
                },
                Err(x) => Err(x),
            },
        }
    }

    /// Starts a query: file by file where neither an order nor the link graph is needed,
    /// and with all records at hand otherwise.
    pub fn query_iter(&self, q: &Query, tree: &Tree) -> (r: Result<QueryIter, VaultdbError>)
        ensures
            match r {
                Err(e) => queried(tree@, self.root@, q@) == Err::<Seq<Rec>, Failure>(e@),
                Ok(QueryIter::Materialized(rs)) => queried(tree@, self.root@, q@) == Ok::<
                    Seq<Rec>,
                    Failure,
                >(recs(rs@)),
                Ok(QueryIter::Streaming(s)) => {
                    let files = notes_in(tree@.files, below(self.root@, q.folder@), q.recursive);
                    &&& string_views(s.paths@) == file_paths(files)
                    &&& s.at == 0 && s.yielded == 0 && s.limit == q.limit
                    &&& s.root@ == self.root@
                    &&& cond_view(s.filter) == cond_view(q.filter)
                    &&& list_view(s.select) == list_view(q.select)
                    &&& queried(tree@, self.root@, q@) == streamed(
                        files,
                        0,
                        cond_view(q.filter),
                        list_view(q.select),
                        nat_view(q.limit),
                        self.root@,
                    )
                },
            },
    {
        let folder: String = match self.resolve_folder(q.folder.as_str(), tree) {
            Ok(p) => p,
            Err(e) => {
                return Err(e);
            },
        };
        let wants_graph: bool = match &q.filter {
            Some(e) => expr_uses_links(e),
            None => false,
        };
        if !wants_graph && q.sort.is_none() {
            let filter: Option<Expr> = match &q.filter {
                Some(e) => Some(crate::query::copy_expr(e)),
                None => None,
            };
            return Ok(
                QueryIter::Streaming(
                    StreamingState {
                        paths: self.list_files(folder.as_str(), q.recursive, tree),
                        at: 0,
                        filter,
                        select: copy_list(&q.select),
                        root: self.root.clone(),
                        limit: q.limit,
                        yielded: 0,
                    },
                ),
            );
        }
        match self.load_records_with_content(folder.as_str(), q.recursive, tree) {
            Ok(l) => Ok(QueryIter::Materialized(answer(&l.records, q, self.root.as_str()))),
            Err(e) => Err(e),
        }
    }

    /// Runs a query.
    pub fn query(&self, q: &Query, tree: &Tree) -> (r: Result<Vec<Record>, VaultdbError>)
        ensures
            records_view(r) == queried(tree@, self.root@, q@),
    {
        match self.query_iter(q, tree) {
            Err(e) => Err(e),
            Ok(QueryIter::Materialized(rs)) => Ok(rs),
            Ok(QueryIter::Streaming(s)) => {
                let folder: String = join_path(self.root.as_str(), q.folder.as_str());
                let at: Vec<usize> = tree.find_notes(folder.as_str(), q.recursive);
                assert(string_views(s.paths@).len() == picked(tree@.files, at@).len());
                drain(s, tree, &at)
            },
        }
    }
}

/// The paths of files.
pub open spec fn file_paths(files: Seq<FileView>) -> Seq<Seq<char>> {
    Seq::new(files.len(), |i: int| files[i].path)
}

/// Reads the paths of files.
fn paths_of(tree: &Tree, at: &Vec<usize>) -> (r: Vec<String>)
    requires
        forall|k: int| 0 <= k < at.len() ==> (#[trigger] at@[k]) < tree.files.len(),
    ensures
        string_views(r@) == file_paths(picked(tree@.files, at@)),
{
    let ghost all = file_paths(picked(tree@.files, at@));
    let mut out: Vec<String> = Vec::new();
    let mut i: usize = 0;
    assert(string_views(out@) =~= all.take(0));
    while i < at.len()
        invariant
            all == file_paths(picked(tree@.files, at@)),
            i <= at.len(),
            forall|k: int| 0 <= k < at.len() ==> (#[trigger] at@[k]) < tree.files.len(),
            string_views(out@) == all.take(i as int),
        decreases at.len() - i,
    {
        let t: String = tree.files[at[i]].path.clone();
        proof {
            lemma_string_views_push(out@, t);
            assert(string_views(out@).push(t@) =~= all.take(i + 1));
        }
        out.push(t);
        i += 1;
    }
    assert(all.take(i as int) =~= all);
    out
}

/// Keeps the records that meet a condition on the graph.
fn filter_by(records: &Vec<Record>, e: &Expr, root: &str, g: &LinkGraph) -> (r: Vec<Record>)
    ensures
        recs(r@) == meeting(recs(records@), Some(cond(*e)), root@, Some(g@)),
{
    filter_records(records, &Some(crate::query::copy_expr(e)), root, Some(g))
}

/// A note of a folder by its name.
pub open spec fn found_by_name(
    p: Picture,
    root: Seq<char>,
    folder: Seq<char>,
    name: Seq<char>,
) -> Result<Option<Rec>, Failure> {
    let path = below(below(root, folder), name + ".md"@);
    if !has_folder(p, below(root, folder)) {
        Err(Failure::FolderNotFound(folder))
    } else {
        match file_at(p.files, path, 0) {
            None => Ok(None),
            Some(i) => match note_of(FileView { path, ..p.files[i] }, false) {
                Ok(r) => Ok(Some(r)),
                Err(e) => Err(e),
            },
        }
    }
}

/// What a record that may be missing, or the failure, is.
pub open spec fn found_view(r: Result<Option<Record>, VaultdbError>) -> Result<
    Option<Rec>,
    Failure,
> {
    match r {
        Ok(Some(x)) => Ok(Some(x@)),
        Ok(None) => Ok(None),
        Err(e) => Err(e@),
    }
}

/// Answers a query file by file to the end.
fn drain(start: StreamingState, tree: &Tree, at: &Vec<usize>) -> (r: Result<Vec<Record>, VaultdbError>)
    requires
        forall|k: int| 0 <= k < at.len() ==> (#[trigger] at@[k]) < tree.files.len(),
        start.paths.len() == at.len(),
        start.at == 0,
        start.yielded == 0,
    ensures
        records_view(r) == streamed(
            picked(tree@.files, at@),
            0,
            cond_view(start.filter),
            list_view(start.select),
            nat_view(start.limit),
            start.root@,
        ),
{
    let ghost files = picked(tree@.files, at@);
    let ghost filter = cond_view(start.filter);
    let ghost select = list_view(start.select);
    let ghost root = start.root@;
    let ghost all = streamed(files, 0, filter, select, nat_view(start.limit), root);
    let mut s: StreamingState = start;
    let mut out: Vec<Record> = Vec::new();
    assert(recs(out@) =~= seq![]);
    proof {
        lemma_after(all, recs(out@));
    }
    while s.next_path().is_some()
        invariant
            forall|k: int| 0 <= k < at.len() ==> (#[trigger] at@[k]) < tree.files.len(),
            files == picked(tree@.files, at@),
            filter == cond_view(start.filter),
            select == list_view(start.select),
            root == start.root@,
            all == streamed(files, 0, filter, select, nat_view(start.limit), root),
            s.paths.len() == at.len(),
            s.at <= at.len(),
            cond_view(s.filter) == filter,
            list_view(s.select) == select,
            s.root@ == root,
            s.yielded == out.len(),
            s.limit is Some ==> s.yielded <= s.limit->0,
            all == after(
                recs(out@),
                streamed(files, s.at as int, filter, select, room(s), root),
            ),
        decreases at.len() - s.at,
    {
        let i: usize = s.at;
        let ghost rest = streamed(files, i + 1, filter, select, room(s), root);
        assert(files[i as int] == tree.files@[at@[i as int] as int]@);
        match s.next_record(&tree.files[at[i]]) {
            None => {},
            Some(Err(e)) => {
                return Err(e);
            },
            Some(Ok(x)) => {
                let ghost before = recs(out@);
                proof {
                    lemma_recs_push(out@, x);
                    let tail = streamed(files, i + 1, filter, select, room(s), root);
                    assert(after(before, join_first(x@, tail)) == after(before.push(x@), tail)) by {
                        if tail is Ok {
                            assert(before + (seq![x@] + tail->Ok_0) =~= before.push(x@)
                                + tail->Ok_0);
                        }
                    }
                }
                out.push(x);
            },
        }
    }
    assert(recs(out@) + seq![] =~= recs(out@));
    Ok(out)
}

/// The room that is left in a query.
spec fn room(s: StreamingState) -> Option<nat> {
    match s.limit {
        Some(n) => Some((n - s.yielded) as nat),
        None => None,
    }
}

/// Records followed by others, or the failure.
spec fn after(rs: Seq<Rec>, rest: Result<Seq<Rec>, Failure>) -> Result<Seq<Rec>, Failure> {
    match rest {
        Ok(more) => Ok(rs + more),
        Err(e) => Err(e),
    }
}

/// A record followed by others, or the failure.
spec fn join_first(r: Rec, rest: Result<Seq<Rec>, Failure>) -> Result<Seq<Rec>, Failure> {
    match rest {
        Ok(more) => Ok(seq![r] + more),
        Err(e) => Err(e),
    }
}

/// Nothing before the others changes nothing.
proof fn lemma_after(rest: Result<Seq<Rec>, Failure>, rs: Seq<Rec>)
    requires
        rs.len() == 0,
    ensures
        after(rs, rest) == rest,
{
    if rest is Ok {
        assert(rs + rest->Ok_0 =~= rest->Ok_0);
    }
}

} // verus!
