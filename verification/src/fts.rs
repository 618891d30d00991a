//! The index for full-text search: what is to be done to it, and what is made of what
//! it finds.
//!
//! The index holds a row for each document, by an identifier, with the time at which
//! the document was last changed. Bringing it into agreement with the documents means
//! writing those that are new or changed, and removing rows without a document.

use crate::error::{message, Failure, VaultdbError};
use crate::record::{key_at, lemma_key_at, recs, Record};
use crate::text::{
    cat2, from_chars, has_string, is_white, is_whitespace, join_strings, joined,
    lemma_string_views_push, same_text, slice, string_views, to_chars, trimmed_start,
};
use crate::tree::{notes_in, Tree};
use crate::vault::{loaded, Vault};
use vstd::prelude::*;

pub mod laws;

verus! {

/// The version of the index's layout.
pub const FTS_SCHEMA_VERSION: i64 = 1;

/// Why the index cannot be used.
#[derive(Debug, PartialEq, Eq)]
pub enum FtsError {
    /// The database failed, with a message.
    Sqlite(String),
    Vault(VaultdbError),
    Data(String),
    Io(String),
}

/// Why the index cannot be used, with its text as a sequence of characters.
pub enum FtsFailure {
    Sqlite(Seq<char>),
    Vault(Failure),
    Data(Seq<char>),
    Io(Seq<char>),
}

impl View for FtsError {
    type V = FtsFailure;

    open spec fn view(&self) -> FtsFailure {
        match *self {
            FtsError::Sqlite(m) => FtsFailure::Sqlite(m@),
            FtsError::Vault(e) => FtsFailure::Vault(e@),
            FtsError::Data(m) => FtsFailure::Data(m@),
            FtsError::Io(m) => FtsFailure::Io(m@),
        }
    }
}

impl FtsError {
    /// The message to show.
    pub fn to_string(&self) -> (r: String)
        ensures
            r@ == match self@ {
                FtsFailure::Sqlite(m) => m,
                FtsFailure::Vault(e) => message(e),
                FtsFailure::Data(m) => "data error: "@ + m,
                FtsFailure::Io(m) => "io error: "@ + m,
            },
    {
        match self {
            FtsError::Sqlite(m) => m.clone(),
            FtsError::Vault(e) => e.to_string(),
            FtsError::Data(m) => cat2("data error: ", m.as_str()),
            FtsError::Io(m) => cat2("io error: ", m.as_str()),
        }
    }
}

// ── The layout ─────────────────────────────────────────────────────────────

/// What came of laying out the index.
#[derive(Debug, Clone, Copy, PartialEq, Eq, Structural)]
pub struct InitOutcome {
    /// Whether the searchable table was dropped; it is then to be filled again.
    pub fts_rebuilt: bool,
}

/// Decides by the version that the database has whether the searchable table is
/// dropped: it is where there is a layout of another version. A new database has
/// version 0.
pub fn init_schema(current_version: i64) -> (r: InitOutcome)
    ensures
        r.fts_rebuilt == (current_version != 0 && current_version != FTS_SCHEMA_VERSION),
{
    InitOutcome { fts_rebuilt: current_version != 0 && current_version != FTS_SCHEMA_VERSION }
}

/// A file that could not be read, as the index lists it.
#[derive(Debug, PartialEq, Eq)]
pub struct ParseErrorRow {
    pub path: String,
    pub message: String,
    pub occurred_at: String,
}

// ── Documents ──────────────────────────────────────────────────────────────

/// A document of the index, borrowed.
#[derive(Debug)]
pub struct Document<'a> {
    pub file_id: &'a str,
    pub path: &'a str,
    /// When it was last changed, in nanoseconds since 1970.
    pub mtime_ns: i64,
    pub body: &'a str,
    pub name: &'a str,
    pub tags: &'a Vec<String>,
    pub custom_text: &'a str,
}

/// A document of the index.
#[derive(Debug, PartialEq, Eq)]
pub struct OwnedDocument {
    pub file_id: String,
    pub path: String,
    /// When it was last changed, in nanoseconds since 1970.
    pub mtime_ns: i64,
    pub body: String,
    pub name: String,
    pub tags: Vec<String>,
    pub custom_text: String,
}

impl OwnedDocument {
    /// Borrows the document.
    pub fn borrowed(&self) -> (r: Document)
        ensures
            r.file_id@ == self.file_id@,
            r.path@ == self.path@,
            r.mtime_ns == self.mtime_ns,
            r.body@ == self.body@,
            r.name@ == self.name@,
            *r.tags == self.tags,
            r.custom_text@ == self.custom_text@,
    {
        Document {
            file_id: self.file_id.as_str(),
            path: self.path.as_str(),
            mtime_ns: self.mtime_ns,
            body: self.body.as_str(),
            name: self.name.as_str(),
            tags: &self.tags,
            custom_text: self.custom_text.as_str(),
        }
    }
}

/// The tags of a document as the index keeps them.
pub fn tags_column(tags: &Vec<String>) -> (r: String)
    ensures
        r@ == joined(string_views(tags@), " "@),
{
    join_strings(tags, " ")
}

// ── Searching ──────────────────────────────────────────────────────────────

/// The first position from one on that holds white space, or the end.
pub open spec fn word_end(s: Seq<char>, i: int) -> int
    decreases s.len() - i,
{
    if 0 <= i < s.len() && !is_white(s[i]) {
        word_end(s, i + 1)
    } else {
        i
    }
}

/// A word does not end before it starts, nor behind the text.
pub proof fn lemma_word_end(s: Seq<char>, i: int)
    requires
        0 <= i <= s.len(),
    ensures
        i <= word_end(s, i) <= s.len(),
        i < s.len() && !is_white(s[i]) ==> i < word_end(s, i),
    decreases s.len() - i,
{
    if i < s.len() && !is_white(s[i]) {
        lemma_word_end(s, i + 1);
    }
}

/// The words of a text: what white space separates.
pub open spec fn words(s: Seq<char>) -> Seq<Seq<char>>
    decreases s.len(),
{
    let t = trimmed_start(s);
    if t.len() == 0 || t.len() > s.len() || is_white(t[0]) {
        seq![]
    } else {
        let n = word_end(t, 0);
        if 0 < n <= t.len() {
            seq![t.take(n)] + words(t.skip(n))
        } else {
            seq![]
        }
    }
}

/// Splits a text into its words.
pub fn split_words(text: &str) -> (r: Vec<String>)
    ensures
        string_views(r@) == words(text@),
{
    let s: Vec<char> = to_chars(text);
    let mut out: Vec<String> = Vec::new();
    let mut rest: Vec<char> = s;
    assert(string_views(out@) + words(rest@) =~= words(text@));
    loop
        invariant
            string_views(out@) + words(rest@) == words(text@),
        ensures
            string_views(out@) == words(text@),
        decreases rest.len(),
    {
        let ghost before = rest@;
        let t: Vec<char> = crate::text::trim_start(&rest);
        proof {
            lemma_trimmed_start(rest@);
        }
        if t.len() == 0 {
            assert(string_views(out@) + seq![] =~= string_views(out@));
            break ;
        }
        let mut n: usize = 0;
        while n < t.len() && !is_whitespace(t[n])
            invariant
                n <= t.len(),
                word_end(t@, 0) == word_end(t@, n as int),
            decreases t.len() - n,
        {
            n += 1;
        }
        proof {
            lemma_word_end(t@, 0);
            lemma_word_end(t@, n as int);
        }
        let word: Vec<char> = slice(&t, 0, n);
        let after: Vec<char> = slice(&t, n, t.len());
        assert(word@ =~= t@.take(n as int));
        assert(after@ =~= t@.skip(n as int));
        let w: String = from_chars(&word);
        let ghost done = string_views(out@);
        out.push(w);
        assert(string_views(out@) =~= done.push(word@));
        assert(done + (seq![word@] + words(after@)) =~= done.push(word@) + words(after@));
        rest = after;
    }
    out
}

/// Leading white space is dropped, and only that.
proof fn lemma_trimmed_start(s: Seq<char>)
    ensures
        trimmed_start(s).len() <= s.len(),
        trimmed_start(s).len() > 0 ==> !is_white(trimmed_start(s)[0]),
    decreases s.len(),
{
    if s.len() > 0 && is_white(s[0]) {
        lemma_trimmed_start(s.skip(1));
    }
}

/// A row that the index finds.
#[derive(Debug, PartialEq, Eq)]
pub struct SearchRow {
    pub file_id: String,
    pub name: String,
    pub snippet: String,
    /// The tags, separated by white space.
    pub row_tags: String,
}

/// A document that is found, with the part of its body that matches.
#[derive(Debug, PartialEq, Eq)]
pub struct SearchHit {
    pub file_id: String,
    pub name: String,
    pub snippet: String,
    pub tags: Vec<String>,
}

/// A row or a hit, with its texts as sequences of characters.
pub struct Hit {
    pub file_id: Seq<char>,
    pub name: Seq<char>,
    pub snippet: Seq<char>,
    pub tags: Seq<Seq<char>>,
}

impl View for SearchRow {
    type V = Hit;

    open spec fn view(&self) -> Hit {
        Hit {
            file_id: self.file_id@,
            name: self.name@,
            snippet: self.snippet@,
            tags: words(self.row_tags@),
        }
    }
}

impl View for SearchHit {
    type V = Hit;

    open spec fn view(&self) -> Hit {
        Hit {
            file_id: self.file_id@,
            name: self.name@,
            snippet: self.snippet@,
            tags: string_views(self.tags@),
        }
    }
}

/// What rows are.
pub open spec fn search_rows(v: Seq<SearchRow>) -> Seq<Hit> {
    Seq::new(v.len(), |i: int| v[i]@)
}

/// What hits are.
pub open spec fn search_hits(v: Seq<SearchHit>) -> Seq<Hit> {
    Seq::new(v.len(), |i: int| v[i]@)
}

/// How many rows are asked of the index: more than wanted where some are dropped for
/// their tags.
pub fn scan_limit(limit: usize, filter_tags: &Vec<String>) -> (r: usize)
    requires
        filter_tags@.len() > 0 ==> limit * 4 <= usize::MAX,
    ensures
        r == if filter_tags@.len() == 0 {
            limit as int
        } else {
            limit * 4
        },
{
    if filter_tags.len() == 0 {
        limit
    } else {
        limit * 4
    }
}

/// Whether a row has all of some tags.
pub open spec fn has_tags(h: Hit, required: Seq<Seq<char>>) -> bool {
    forall|i: int| 0 <= i < required.len() ==> h.tags.contains(#[trigger] required[i])
}

/// Those of some rows that have all of some tags.
pub open spec fn tagged(rows: Seq<Hit>, required: Seq<Seq<char>>) -> Seq<Hit>
    decreases rows.len(),
{
    if rows.len() == 0 {
        seq![]
    } else {
        let before = tagged(rows.drop_last(), required);
        if has_tags(rows.last(), required) {
            before.push(rows.last())
        } else {
            before
        }
    }
}

/// The first of some hits.
pub open spec fn first_hits(hits: Seq<Hit>, limit: usize) -> Seq<Hit> {
    if limit < hits.len() {
        hits.take(limit as int)
    } else {
        hits
    }
}

/// Tells whether a row has all of some tags.
fn carries(tags: &Vec<String>, required: &Vec<String>) -> (r: bool)
    ensures
        r == (forall|i: int|
            0 <= i < required@.len() ==> string_views(tags@).contains(
                #[trigger] string_views(required@)[i],
            )),
{
    let ghost rv = string_views(required@);
    let mut i: usize = 0;
    while i < required.len()
        invariant
            rv == string_views(required@),
            i <= required.len(),
            forall|k: int| 0 <= k < i ==> string_views(tags@).contains(#[trigger] rv[k]),
        decreases required.len() - i,
    {
        assert(rv[i as int] == required@[i as int]@);
        if !has_string(tags, required[i].as_str()) {
            return false;
        }
        i += 1;
    }
    true
}

/// Hits do not become fewer with more rows, and the first ones stay.
proof fn lemma_tagged(rows: Seq<Hit>, required: Seq<Seq<char>>, n: int)
    requires
        0 <= n <= rows.len(),
    ensures
        tagged(rows.take(n), required).len() <= tagged(rows, required).len(),
        tagged(rows.take(n), required) == tagged(rows, required).take(
            tagged(rows.take(n), required).len() as int,
        ),
    decreases rows.len() - n,
{
    if n < rows.len() {
        lemma_tagged(rows, required, n + 1);
        assert(rows.take(n + 1).drop_last() =~= rows.take(n));
        let a = tagged(rows.take(n), required);
        let b = tagged(rows.take(n + 1), required);
        let c = tagged(rows, required);
        assert(a =~= b.take(a.len() as int));
        assert(c.take(b.len() as int).take(a.len() as int) =~= c.take(a.len() as int));
    } else {
        assert(rows.take(n) =~= rows);
        assert(tagged(rows, required).take(tagged(rows, required).len() as int) =~= tagged(
            rows,
            required,
        ));
    }
}

/// Picks the hits from the rows that the index found: those with all the tags, at
/// most so many.
pub fn search(rows: &Vec<SearchRow>, limit: usize, filter_tags: &Vec<String>) -> (r: Vec<
    SearchHit,
>)
    ensures
        search_hits(r@) == first_hits(
            tagged(search_rows(rows@), string_views(filter_tags@)),
            limit,
        ),
{
    let ghost rv = search_rows(rows@);
    let ghost required = string_views(filter_tags@);
    let ghost all = tagged(rv, required);
    let mut out: Vec<SearchHit> = Vec::new();
    assert(search_hits(out@) =~= seq![]);
    if limit == 0 {
        assert(search_hits(out@) =~= first_hits(all, limit));
        return out;
    }
    let mut i: usize = 0;
    assert(rv.take(0) =~= seq![]);
    while i < rows.len()
        invariant
            rv == search_rows(rows@),
            required == string_views(filter_tags@),
            all == tagged(rv, required),
            i <= rows.len(),
            out.len() < limit,
            search_hits(out@) == tagged(rv.take(i as int), required),
        decreases rows.len() - i,
    {
        assert(rv.take(i + 1).drop_last() =~= rv.take(i as int));
        assert(rv.take(i + 1).last() == rows@[i as int]@);
        let tags: Vec<String> = split_words(rows[i].row_tags.as_str());
        if carries(&tags, filter_tags) {
            let hit: SearchHit = SearchHit {
                file_id: rows[i].file_id.clone(),
                name: rows[i].name.clone(),
                snippet: rows[i].snippet.clone(),
                tags,
            };
            assert(has_tags(rows@[i as int]@, required));
            let ghost before = search_hits(out@);
            out.push(hit);
            assert(search_hits(out@) =~= before.push(hit@));
            if out.len() >= limit {
                proof {
                    lemma_tagged(rv, required, i + 1);
                    assert(search_hits(out@).len() == out.len());
                    assert(search_hits(out@) =~= first_hits(all, limit));
                }
                return out;
            }
        } else {
            assert(!has_tags(rows@[i as int]@, required));
        }
        i += 1;
    }
    assert(rv.take(i as int) =~= rv);
    assert(search_hits(out@).len() == out.len());
    out
}

/// Every hit has all the tags that are asked for.
pub proof fn law_hits_are_tagged(rows: Seq<Hit>, required: Seq<Seq<char>>, limit: usize, k: int)
    requires
        0 <= k < first_hits(tagged(rows, required), limit).len(),
    ensures
        has_tags(first_hits(tagged(rows, required), limit)[k], required),
    decreases rows.len(),
{
    lemma_all_tagged(rows, required);
}

/// What `tagged` keeps has all the tags.
proof fn lemma_all_tagged(rows: Seq<Hit>, required: Seq<Seq<char>>)
    ensures
        forall|k: int|
            0 <= k < tagged(rows, required).len() ==> has_tags(
                #[trigger] tagged(rows, required)[k],
                required,
            ),
    decreases rows.len(),
{
    if rows.len() > 0 {
        let before = tagged(rows.drop_last(), required);
        lemma_all_tagged(rows.drop_last(), required);
        assert forall|k: int| 0 <= k < tagged(rows, required).len() implies has_tags(
            #[trigger] tagged(rows, required)[k],
            required,
        ) by {
            if k < before.len() {
                assert(tagged(rows, required)[k] == before[k]);
            }
        }
    }
}

// ── Bringing the index into agreement ──────────────────────────────────────

/// What bringing the index into agreement comes to.
#[derive(Debug, Clone, Copy, PartialEq, Eq, Structural)]
pub struct ReconcileSummary {
    pub added: usize,
    pub updated: usize,
    pub removed: usize,
    pub unchanged: usize,
    /// Notes that are no documents.
    pub skipped: usize,
}

/// What is to be done to the index: documents to be written, by their positions, and
/// rows to be removed, by their identifiers.
#[derive(Debug, PartialEq, Eq)]
pub struct ReconcilePlan {
    pub writes: Vec<usize>,
    pub removals: Vec<String>,
    pub summary: ReconcileSummary,
}

/// Identifiers with times.
pub open spec fn times(v: Seq<(String, i64)>) -> Seq<(Seq<char>, i64)> {
    Seq::new(v.len(), |i: int| (v[i].0@, v[i].1))
}

/// Documents as identifiers with times; notes that are no documents have none.
pub open spec fn stamps(v: Seq<Option<OwnedDocument>>) -> Seq<Option<(Seq<char>, i64)>> {
    Seq::new(
        v.len(),
        |i: int|
            match v[i] {
                Some(d) => Some((d.file_id@, d.mtime_ns)),
                None => None,
            },
    )
}

/// The identifier of a document.
pub open spec fn id_of(doc: Option<(Seq<char>, i64)>) -> Seq<char> {
    match doc {
        Some((id, _)) => id,
        None => seq![],
    }
}

/// The time of a document.
pub open spec fn time_of(doc: Option<(Seq<char>, i64)>) -> i64 {
    match doc {
        Some((_, time)) => time,
        None => 0,
    }
}

/// What happens to a document.
pub enum Fate {
    Skipped,
    Unchanged,
    Added,
    Updated,
}

/// What happens to a document: it stays as it is where the index has it with the same
/// time.
pub open spec fn fate(existing: Seq<(Seq<char>, i64)>, doc: Option<(Seq<char>, i64)>) -> Fate {
    match doc {
        None => Fate::Skipped,
        Some((id, time)) => match key_at(existing, id, 0) {
            None => Fate::Added,
            Some(k) => if existing[k].1 == time {
                Fate::Unchanged
            } else {
                Fate::Updated
            },
        },
    }
}

/// Whether a document is written.
pub open spec fn is_written(f: Fate) -> bool {
    f is Added || f is Updated
}

/// The positions of the documents that are written.
pub open spec fn written(
    existing: Seq<(Seq<char>, i64)>,
    docs: Seq<Option<(Seq<char>, i64)>>,
) -> Seq<int>
    decreases docs.len(),
{
    if docs.len() == 0 {
        seq![]
    } else {
        let before = written(existing, docs.drop_last());
        if is_written(fate(existing, docs.last())) {
            before.push(docs.len() - 1)
        } else {
            before
        }
    }
}

/// How many documents meet a fate.
pub open spec fn fated(
    existing: Seq<(Seq<char>, i64)>,
    docs: Seq<Option<(Seq<char>, i64)>>,
    f: Fate,
) -> nat
    decreases docs.len(),
{
    if docs.len() == 0 {
        0
    } else {
        fated(existing, docs.drop_last(), f) + if fate(existing, docs.last()) == f {
            1nat
        } else {
            0nat
        }
    }
}

/// Whether a document has an identifier.
pub open spec fn is_present(docs: Seq<Option<(Seq<char>, i64)>>, id: Seq<char>) -> bool {
    exists|i: int|
        0 <= i < docs.len() && #[trigger] docs[i] is Some && id_of(docs[i]) == id
}

/// The identifiers of rows without a document.
pub open spec fn stale(
    existing: Seq<(Seq<char>, i64)>,
    docs: Seq<Option<(Seq<char>, i64)>>,
) -> Seq<Seq<char>>
    decreases existing.len(),
{
    if existing.len() == 0 {
        seq![]
    } else {
        let before = stale(existing.drop_last(), docs);
        if is_present(docs, existing.last().0) {
            before
        } else {
            before.push(existing.last().0)
        }
    }
}

/// Finds the row with an identifier.
fn find_row(existing: &Vec<(String, i64)>, id: &str) -> (r: Option<usize>)
    ensures
        match r {
            Some(i) => key_at(times(existing@), id@, 0) == Some(i as int) && i < existing.len(),
            None => key_at(times(existing@), id@, 0) is None,
        },
{
    let ghost all = times(existing@);
    let mut i: usize = 0;
    while i < existing.len()
        invariant
            all == times(existing@),
            i <= existing.len(),
            key_at(all, id@, 0) == key_at(all, id@, i as int),
        decreases existing.len() - i,
    {
        if same_text(existing[i].0.as_str(), id) {
            return Some(i);
        }
        i += 1;
    }
    None
}

/// Tells whether a document has an identifier.
fn find_document(docs: &Vec<Option<OwnedDocument>>, id: &str) -> (r: bool)
    ensures
        r == is_present(stamps(docs@), id@),
{
    let ghost sv = stamps(docs@);
    let mut i: usize = 0;
    while i < docs.len()
        invariant
            sv == stamps(docs@),
            i <= docs.len(),
            forall|k: int| 0 <= k < i ==> !(#[trigger] sv[k] is Some && id_of(sv[k]) == id@),
        decreases docs.len() - i,
    {
        match &docs[i] {
            Some(d) => {
                assert(sv[i as int] == Some((d.file_id@, d.mtime_ns)));
                if same_text(d.file_id.as_str(), id) {
                    return true;
                }
            },
            None => {
                assert(sv[i as int] is None);
            },
        }
        i += 1;
    }
    false
}

/// Decides what is to be done to the index, whose rows are given as identifiers with
/// times, so that it agrees with the documents that the notes were made into.
pub fn reconcile(existing: &Vec<(String, i64)>, docs: &Vec<Option<OwnedDocument>>) -> (r:
    ReconcilePlan)
    ensures
        crate::sort::ints(r.writes@) == written(times(existing@), stamps(docs@)),
        string_views(r.removals@) == stale(times(existing@), stamps(docs@)),
        r.summary.added == fated(times(existing@), stamps(docs@), Fate::Added),
        r.summary.updated == fated(times(existing@), stamps(docs@), Fate::Updated),
        r.summary.unchanged == fated(times(existing@), stamps(docs@), Fate::Unchanged),
        r.summary.skipped == fated(times(existing@), stamps(docs@), Fate::Skipped),
        r.summary.removed == stale(times(existing@), stamps(docs@)).len(),
{
    let ghost ev = times(existing@);
    let ghost sv = stamps(docs@);
    let mut writes: Vec<usize> = Vec::new();
    let mut summary: ReconcileSummary = ReconcileSummary {
        added: 0,
        updated: 0,
        removed: 0,
        unchanged: 0,
        skipped: 0,
    };
    let mut i: usize = 0;
    assert(sv.take(0) =~= seq![]);
    assert(crate::sort::ints(writes@) =~= seq![]);
    while i < docs.len()
        invariant
            ev == times(existing@),
            sv == stamps(docs@),
            i <= docs.len(),
            crate::sort::ints(writes@) == written(ev, sv.take(i as int)),
            summary.added == fated(ev, sv.take(i as int), Fate::Added),
            summary.updated == fated(ev, sv.take(i as int), Fate::Updated),
            summary.unchanged == fated(ev, sv.take(i as int), Fate::Unchanged),
            summary.skipped == fated(ev, sv.take(i as int), Fate::Skipped),
            summary.removed == 0,
            summary.added + summary.updated + summary.unchanged + summary.skipped == i,
        decreases docs.len() - i,
    {
        assert(sv.take(i + 1).drop_last() =~= sv.take(i as int));
        assert(sv.take(i + 1).last() == sv[i as int]);
        let mut write: bool = false;
        match &docs[i] {
            None => {
                summary.skipped = summary.skipped + 1;
            },
            Some(d) => match find_row(existing, d.file_id.as_str()) {
                None => {
                    write = true;
                    summary.added = summary.added + 1;
                },
                Some(k) => {
                    if existing[k].1 == d.mtime_ns {
                        summary.unchanged = summary.unchanged + 1;
                    } else {
                        write = true;
                        summary.updated = summary.updated + 1;
                    }
                },
            },
        }
        if write {
            let ghost before = crate::sort::ints(writes@);
            writes.push(i);
            assert(crate::sort::ints(writes@) =~= before.push(i as int));
        }
        i += 1;
    }
    assert(sv.take(i as int) =~= sv);
    let mut removals: Vec<String> = Vec::new();
    let mut j: usize = 0;
    assert(ev.take(0) =~= seq![]);
    assert(string_views(removals@) =~= seq![]);
    while j < existing.len()
        invariant
            ev == times(existing@),
            sv == stamps(docs@),
            j <= existing.len(),
            string_views(removals@) == stale(ev.take(j as int), sv),
        decreases existing.len() - j,
    {
        assert(ev.take(j + 1).drop_last() =~= ev.take(j as int));
        assert(ev.take(j + 1).last() == ev[j as int]);
        if !find_document(docs, existing[j].0.as_str()) {
            let id: String = existing[j].0.clone();
            proof {
                lemma_string_views_push(removals@, id);
            }
            removals.push(id);
        }
        j += 1;
    }
    assert(ev.take(j as int) =~= ev);
    assert(string_views(removals@).len() == removals.len());
    summary.removed = removals.len();
    ReconcilePlan { writes, removals, summary }
}

/// The notes that documents are made of: those directly in the vault, with their
/// texts.
pub fn notes_to_index(vault: &Vault, tree: &Tree) -> (r: Result<Vec<Record>, FtsError>)
    ensures
        match loaded(notes_in(tree@.files, vault.root@, false), true) {
            Ok((rs, _)) => r is Ok && recs(r->Ok_0@) == rs,
            Err(e) => r is Err && r->Err_0@ == FtsFailure::Data(
                "vault.load_records_with_content failed: "@ + message(e),
            ),
        },
{
    match vault.load_records_with_content(vault.root.as_str(), false, tree) {
        Ok(l) => Ok(l.records),
        Err(e) => Err(
            FtsError::Data(
                cat2(
                    "vault.load_records_with_content failed: ",
                    e.to_string().as_str(),
                ),
            ),
        ),
    }
}

/// The rows of an index as a map from identifiers to times.
pub open spec fn index_of(rows: Seq<(Seq<char>, i64)>) -> Map<Seq<char>, i64>
    decreases rows.len(),
{
    if rows.len() == 0 {
        Map::empty()
    } else {
        index_of(rows.drop_last()).insert(rows.last().0, rows.last().1)
    }
}

/// An index after documents were written.
pub open spec fn after_writes(
    index: Map<Seq<char>, i64>,
    docs: Seq<Option<(Seq<char>, i64)>>,
    at: Seq<int>,
) -> Map<Seq<char>, i64>
    decreases at.len(),
{
    if at.len() == 0 {
        index
    } else {
        let d = docs[at.last()];
        after_writes(index, docs, at.drop_last()).insert(id_of(d), time_of(d))
    }
}

/// An index after rows were removed.
pub open spec fn after_removals(index: Map<Seq<char>, i64>, ids: Seq<Seq<char>>) -> Map<
    Seq<char>,
    i64,
>
    decreases ids.len(),
{
    if ids.len() == 0 {
        index
    } else {
        after_removals(index, ids.drop_last()).remove(ids.last())
    }
}

/// An index after the plan was carried out.
pub open spec fn after_plan(
    existing: Seq<(Seq<char>, i64)>,
    docs: Seq<Option<(Seq<char>, i64)>>,
) -> Map<Seq<char>, i64> {
    after_removals(
        after_writes(index_of(existing), docs, written(existing, docs)),
        stale(existing, docs),
    )
}

/// Whether no two rows have the same identifier.
pub open spec fn rows_differ(rows: Seq<(Seq<char>, i64)>) -> bool {
    forall|i: int, j: int|
        0 <= i < j < rows.len() ==> (#[trigger] rows[i]).0 != (#[trigger] rows[j]).0
}

/// Whether no two documents have the same identifier.
pub open spec fn docs_differ(docs: Seq<Option<(Seq<char>, i64)>>) -> bool {
    forall|i: int, j: int|
        0 <= i < j < docs.len() && (#[trigger] docs[i]) is Some && (#[trigger] docs[j]) is Some
            ==> id_of(docs[i]) != id_of(docs[j])
}

/// What the map of rows holds.
proof fn lemma_index_of(rows: Seq<(Seq<char>, i64)>)
    requires
        rows_differ(rows),
    ensures
        forall|i: int|
            0 <= i < rows.len() ==> index_of(rows).contains_key((#[trigger] rows[i]).0) && index_of(
                rows,
            )[rows[i].0] == rows[i].1,
        forall|id: Seq<char>| #[trigger]
            index_of(rows).contains_key(id) ==> exists|i: int|
                0 <= i < rows.len() && (#[trigger] rows[i]).0 == id,
    decreases rows.len(),
{
    if rows.len() > 0 {
        let rest = rows.drop_last();
        assert(rows_differ(rest)) by {
            assert forall|i: int, j: int| 0 <= i < j < rest.len() implies (#[trigger] rest[i]).0
                != (#[trigger] rest[j]).0 by {
                assert(rest[i] == rows[i] && rest[j] == rows[j]);
            }
        }
        lemma_index_of(rest);
        assert forall|i: int| 0 <= i < rows.len() implies index_of(rows).contains_key(
            (#[trigger] rows[i]).0,
        ) && index_of(rows)[rows[i].0] == rows[i].1 by {
            if i < rest.len() {
                assert(rest[i] == rows[i]);
                assert(rows[i].0 != rows[rows.len() - 1].0);
            }
        }
        assert forall|id: Seq<char>| #[trigger] index_of(rows).contains_key(id) implies exists|
            i: int,
        | 0 <= i < rows.len() && (#[trigger] rows[i]).0 == id by {
            if id == rows.last().0 {
                assert(rows[rows.len() - 1].0 == id);
            } else {
                assert(index_of(rest).contains_key(id));
                let i = choose|i: int| 0 <= i < rest.len() && (#[trigger] rest[i]).0 == id;
                assert(rows[i].0 == id);
            }
        }
    }
}

/// The positions of the documents that are written.
proof fn lemma_written(existing: Seq<(Seq<char>, i64)>, docs: Seq<Option<(Seq<char>, i64)>>)
    ensures
        forall|k: int|
            0 <= k < written(existing, docs).len() ==> 0 <= #[trigger] written(existing, docs)[k]
                < docs.len() && is_written(fate(existing, docs[written(existing, docs)[k]])),
        forall|i: int|
            0 <= i < docs.len() && is_written(fate(existing, #[trigger] docs[i])) ==> written(
                existing,
                docs,
            ).contains(i),
    decreases docs.len(),
{
    if docs.len() > 0 {
        let rest = docs.drop_last();
        lemma_written(existing, rest);
        let a = written(existing, rest);
        let b = written(existing, docs);
        assert forall|k: int| 0 <= k < b.len() implies 0 <= #[trigger] b[k] < docs.len()
            && is_written(fate(existing, docs[b[k]])) by {
            if k < a.len() {
                assert(b[k] == a[k]);
                assert(docs[b[k]] == rest[a[k]]);
            }
        }
        assert forall|i: int| 0 <= i < docs.len() && is_written(
            fate(existing, #[trigger] docs[i]),
        ) implies b.contains(i) by {
            if i < rest.len() {
                assert(docs[i] == rest[i]);
                assert(a.contains(i));
                let k = choose|k: int| 0 <= k < a.len() && a[k] == i;
                assert(b[k] == i);
            } else {
                assert(b[b.len() - 1] == i);
            }
        }
    }
}

/// What an index holds after documents with different identifiers were written.
proof fn lemma_after_writes(
    index: Map<Seq<char>, i64>,
    docs: Seq<Option<(Seq<char>, i64)>>,
    at: Seq<int>,
)
    requires
        docs_differ(docs),
        forall|k: int| 0 <= k < at.len() ==> 0 <= #[trigger] at[k] < docs.len() && docs[at[k]] is Some,
    ensures
        forall|k: int|
            0 <= k < at.len() ==> after_writes(index, docs, at).contains_key(
                id_of(docs[#[trigger] at[k]]),
            ) && after_writes(index, docs, at)[id_of(docs[at[k]])] == time_of(docs[at[k]]),
        forall|id: Seq<char>|
            (forall|k: int| 0 <= k < at.len() ==> id_of(docs[#[trigger] at[k]]) != id) ==> (
            #[trigger] after_writes(index, docs, at).contains_key(id) == index.contains_key(id))
                && (index.contains_key(id) ==> after_writes(index, docs, at)[id] == index[id]),
    decreases at.len(),
{
    if at.len() > 0 {
        let rest = at.drop_last();
        assert forall|k: int| 0 <= k < rest.len() implies 0 <= #[trigger] rest[k] < docs.len()
            && docs[rest[k]] is Some by {
            assert(rest[k] == at[k]);
        }
        lemma_after_writes(index, docs, rest);
        let m = after_writes(index, docs, rest);
        let full = after_writes(index, docs, at);
        let last = at[at.len() - 1];
        assert forall|k: int| 0 <= k < at.len() implies full.contains_key(
            id_of(docs[#[trigger] at[k]]),
        ) && full[id_of(docs[at[k]])] == time_of(docs[at[k]]) by {
            if k < rest.len() {
                assert(rest[k] == at[k]);
                if id_of(docs[at[k]]) == id_of(docs[last]) {
                    if at[k] < last {
                        assert(id_of(docs[at[k]]) != id_of(docs[last]));
                    } else if last < at[k] {
                        assert(id_of(docs[last]) != id_of(docs[at[k]]));
                    }
                }
            }
        }
        assert forall|id: Seq<char>|
            (forall|k: int| 0 <= k < at.len() ==> id_of(docs[#[trigger] at[k]]) != id) implies (
        #[trigger] full.contains_key(id) == index.contains_key(id)) && (index.contains_key(id)
            ==> full[id] == index[id]) by {
            assert(id_of(docs[at[at.len() - 1]]) != id);
            assert forall|k: int| 0 <= k < rest.len() implies id_of(docs[#[trigger] rest[k]])
                != id by {
                assert(rest[k] == at[k]);
            }
            assert(m.contains_key(id) == index.contains_key(id));
        }
    }
}

/// What an index holds after rows were removed.
proof fn lemma_after_removals(index: Map<Seq<char>, i64>, ids: Seq<Seq<char>>)
    ensures
        forall|id: Seq<char>| #[trigger]
            after_removals(index, ids).contains_key(id) <==> index.contains_key(id)
                && !ids.contains(id),
        forall|id: Seq<char>|
            after_removals(index, ids).contains_key(id) ==> #[trigger] after_removals(index, ids)[id]
                == index[id],
    decreases ids.len(),
{
    if ids.len() > 0 {
        let rest = ids.drop_last();
        lemma_after_removals(index, rest);
        assert forall|id: Seq<char>| #[trigger]
            after_removals(index, ids).contains_key(id) <==> index.contains_key(id)
                && !ids.contains(id) by {
            assert(after_removals(index, rest).contains_key(id) <==> index.contains_key(id)
                && !rest.contains(id));
            if ids.contains(id) && id != ids.last() {
                let k = choose|k: int| 0 <= k < ids.len() && ids[k] == id;
                assert(rest[k] == id);
                assert(rest.contains(id));
            }
            if rest.contains(id) {
                let k = choose|k: int| 0 <= k < rest.len() && rest[k] == id;
                assert(ids[k] == id);
            }
            if id == ids.last() {
                assert(ids[ids.len() - 1] == id);
            }
        }
        assert forall|id: Seq<char>|
            after_removals(index, ids).contains_key(id) implies #[trigger] after_removals(
            index,
            ids,
        )[id] == index[id] by {
            assert(after_removals(index, rest).contains_key(id));
            assert(after_removals(index, rest)[id] == index[id]);
        }
    }
}

/// The rows that are removed are those without a document.
proof fn lemma_stale(existing: Seq<(Seq<char>, i64)>, docs: Seq<Option<(Seq<char>, i64)>>)
    ensures
        forall|id: Seq<char>| #[trigger]
            stale(existing, docs).contains(id) <==> !is_present(docs, id) && exists|i: int|
                0 <= i < existing.len() && (#[trigger] existing[i]).0 == id,
    decreases existing.len(),
{
    if existing.len() > 0 {
        let rest = existing.drop_last();
        lemma_stale(rest, docs);
        let a = stale(rest, docs);
        let b = stale(existing, docs);
        assert forall|id: Seq<char>| #[trigger]
            b.contains(id) <==> !is_present(docs, id) && exists|i: int|
                0 <= i < existing.len() && (#[trigger] existing[i]).0 == id by {
            assert(a.contains(id) <==> !is_present(docs, id) && exists|i: int|
                0 <= i < rest.len() && (#[trigger] rest[i]).0 == id);
            if a.contains(id) {
                let i = choose|i: int| 0 <= i < rest.len() && (#[trigger] rest[i]).0 == id;
                assert(existing[i].0 == id);
                let k = choose|k: int| 0 <= k < a.len() && a[k] == id;
                assert(b[k] == id);
            }
            if b.contains(id) && !a.contains(id) {
                let k = choose|k: int| 0 <= k < b.len() && b[k] == id;
                if k < a.len() {
                    assert(a[k] == id);
                }
                assert(existing[existing.len() - 1].0 == id);
            }
            if !is_present(docs, id) && exists|i: int|
                0 <= i < existing.len() && (#[trigger] existing[i]).0 == id {
                let i = choose|i: int| 0 <= i < existing.len() && (#[trigger] existing[i]).0 == id;
                if i < rest.len() {
                    assert(rest[i].0 == id);
                } else {
                    assert(b[b.len() - 1] == id);
                }
            }
        }
    } else {
        assert forall|id: Seq<char>| !(#[trigger] stale(existing, docs).contains(id)) by {}
    }
}

/// Carried out, the plan leaves the index with exactly the documents, each with its
/// time, where no two have the same identifier.
#[verifier::spinoff_prover]
pub proof fn law_reconcile_agrees(
    existing: Seq<(Seq<char>, i64)>,
    docs: Seq<Option<(Seq<char>, i64)>>,
)
    requires
        rows_differ(existing),
        docs_differ(docs),
    ensures
        forall|id: Seq<char>| #[trigger]
            after_plan(existing, docs).contains_key(id) <==> is_present(docs, id),
        forall|i: int|
            0 <= i < docs.len() && (#[trigger] docs[i]) is Some ==> after_plan(existing, docs)[id_of(docs[i])]
                == time_of(docs[i]),
{
    let at = written(existing, docs);
    let gone = stale(existing, docs);
    let start = index_of(existing);
    let mid = after_writes(start, docs, at);
    let end = after_plan(existing, docs);
    lemma_index_of(existing);
    lemma_written(existing, docs);
    assert forall|k: int| 0 <= k < at.len() implies 0 <= #[trigger] at[k] < docs.len()
        && docs[at[k]] is Some by {}
    lemma_after_writes(start, docs, at);
    lemma_after_removals(mid, gone);
    lemma_stale(existing, docs);
    assert forall|i: int| 0 <= i < docs.len() && (#[trigger] docs[i]) is Some implies end.contains_key(
        id_of(docs[i]),
    ) && end[id_of(docs[i])] == time_of(docs[i]) by {
        let id = id_of(docs[i]);
        assert(is_present(docs, id));
        assert(!gone.contains(id));
        lemma_key_at(existing, id, 0);
        if is_written(fate(existing, docs[i])) {
            assert(at.contains(i));
            let k = choose|k: int| 0 <= k < at.len() && at[k] == i;
            assert(mid.contains_key(id_of(docs[at[k]])));
        } else {
            let k = key_at(existing, id, 0)->0;
            assert(existing[k].0 == id && existing[k].1 == time_of(docs[i]));
            assert(start.contains_key(existing[k].0));
            assert forall|q: int| 0 <= q < at.len() implies id_of(docs[#[trigger] at[q]]) != id by {
                if id_of(docs[at[q]]) == id {
                    if at[q] < i {
                        assert(id_of(docs[at[q]]) != id_of(docs[i]));
                    } else if i < at[q] {
                        assert(id_of(docs[i]) != id_of(docs[at[q]]));
                    }
                }
            }
            assert(mid.contains_key(id) == start.contains_key(id));
        }
        assert(end.contains_key(id) <==> mid.contains_key(id) && !gone.contains(id));
        assert(end[id] == mid[id]);
    }
    assert forall|id: Seq<char>| #[trigger] end.contains_key(id) implies is_present(docs, id) by {
        if !is_present(docs, id) {
            assert(mid.contains_key(id) && !gone.contains(id));
            assert forall|q: int| 0 <= q < at.len() implies id_of(docs[#[trigger] at[q]]) != id by {
                assert(docs[at[q]] is Some);
            }
            assert(start.contains_key(id));
            let i = choose|i: int| 0 <= i < existing.len() && (#[trigger] existing[i]).0 == id;
            assert(gone.contains(id));
        }
    }
    assert forall|id: Seq<char>| is_present(docs, id) implies #[trigger] end.contains_key(id) by {
        let i = choose|i: int|
            0 <= i < docs.len() && #[trigger] docs[i] is Some && id_of(docs[i]) == id;
        assert(docs[i] is Some);
    }
}

/// Where the index already has exactly the documents, nothing is to be done.
pub proof fn law_reconcile_again(
    existing: Seq<(Seq<char>, i64)>,
    docs: Seq<Option<(Seq<char>, i64)>>,
)
    requires
        rows_differ(existing),
        forall|id: Seq<char>| #[trigger]
            index_of(existing).contains_key(id) <==> is_present(docs, id),
        forall|i: int|
            0 <= i < docs.len() && (#[trigger] docs[i]) is Some ==> index_of(existing)[id_of(docs[i])]
                == time_of(docs[i]),
    ensures
        written(existing, docs).len() == 0,
        stale(existing, docs).len() == 0,
{
    lemma_index_of(existing);
    lemma_written(existing, docs);
    lemma_stale(existing, docs);
    let at = written(existing, docs);
    if at.len() > 0 {
        let i = at[0];
        let id = id_of(docs[i]);
        assert(docs[i] is Some);
        assert(is_present(docs, id));
        assert(index_of(existing).contains_key(id));
        lemma_key_at(existing, id, 0);
        let k = choose|k: int| 0 <= k < existing.len() && (#[trigger] existing[k]).0 == id;
        match key_at(existing, id, 0) {
            Some(j) => {
                assert(existing[j].0 == id);
            },
            None => {
                assert(existing[k].0 != id);
            },
        }
    }
    let gone = stale(existing, docs);
    if gone.len() > 0 {
        assert(gone.contains(gone[0]));
        let k = choose|k: int| 0 <= k < existing.len() && (#[trigger] existing[k]).0 == gone[0];
        assert(index_of(existing).contains_key(existing[k].0));
    }
}

} // verus!
