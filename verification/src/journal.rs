//! The journal of a rename under way.
//!
//! A rename moves a note and then rewrites the links to it. Before it starts it is
//! written down, so that one that was cut short can be carried to its end: see
//! [`ReplayRun`].

use crate::error::{Failure, VaultdbError};
use crate::mutation::relocate::{deed_view, failure_of, read_failure, Action, Came, Deed, Outcome};
use crate::path::{below, extension, extension_of, file_name, file_name_of, join_path};
use crate::text::{
    cat3, cat4, find_at, from_chars, lacks, lemma_find_at, lemma_replaced_nothing,
    lemma_replaced_same, occurs_at, replace, replaced, same_text, string_views, to_chars, Order,
};
use crate::tree::{order_paths, path_order};
use vstd::prelude::*;

pub mod laws;

verus! {

/// The folder of a vault that holds what is not a note.
pub const META_DIR: &'static str = ".vaultdb";

/// The folder in it that holds the journals.
pub const JOURNAL_SUBDIR: &'static str = "rename-journal";

/// A rename under way.
#[derive(Debug, PartialEq, Eq)]
pub struct RenameJournal {
    /// Where the note was.
    pub source: String,
    /// Where it goes.
    pub dest: String,
    /// The name that links had.
    pub from_name: String,
    /// The name that links get.
    pub to_name: String,
    /// The files with links to the note.
    pub backlinks: Vec<String>,
}

/// A rename under way, as sequences.
pub struct Journal {
    pub source: Seq<char>,
    pub dest: Seq<char>,
    pub from_name: Seq<char>,
    pub to_name: Seq<char>,
    pub backlinks: Seq<Seq<char>>,
}

impl View for RenameJournal {
    type V = Journal;

    open spec fn view(&self) -> Journal {
        Journal {
            source: self.source@,
            dest: self.dest@,
            from_name: self.from_name@,
            to_name: self.to_name@,
            backlinks: string_views(self.backlinks@),
        }
    }
}

// ── Where journals are ─────────────────────────────────────────────────────

/// Where the file lies that is locked while a vault is changed.
pub fn lock_path(vault_root: &str) -> (r: String)
    ensures
        r@ == below(below(vault_root@, ".vaultdb"@), "lock"@),
{
    join_path(join_path(vault_root, ".vaultdb").as_str(), "lock")
}

/// The folder that holds the journals of a vault.
pub open spec fn journal_folder(root: Seq<char>) -> Seq<char> {
    below(below(root, ".vaultdb"@), "rename-journal"@)
}

/// Where the journals of a vault are.
pub fn journal_dir(vault_root: &str) -> (r: String)
    ensures
        r@ == journal_folder(vault_root@),
{
    join_path(join_path(vault_root, ".vaultdb").as_str(), "rename-journal")
}

/// A number of nanoseconds with zeros before it, as the names of journals start.
pub open spec fn stamp_name(nanos: u64) -> Seq<char> {
    crate::record::padded(nanos as nat, 32)
}

/// Where a journal is written that is made at a time, in nanoseconds since 1970.
pub fn journal_path(vault_root: &str, nanos: u64) -> (r: String)
    ensures
        r@ == below(journal_folder(vault_root@), stamp_name(nanos) + ".json"@),
{
    let mut name: Vec<char> = Vec::new();
    crate::record::push_padded(&mut name, nanos, 32);
    crate::text::push_str(&mut name, ".json");
    assert(name@ =~= stamp_name(nanos) + ".json"@);
    join_path(journal_dir(vault_root).as_str(), from_chars(&name).as_str())
}

/// Whether a path names a journal.
pub open spec fn is_journal(path: Seq<char>) -> bool {
    match file_name(path) {
        Some(n) => extension(n) == Some("json"@),
        None => false,
    }
}

/// Paths in order with one more: behind those that do not come after it.
pub open spec fn with_path(paths: Seq<Seq<char>>, p: Seq<char>) -> Seq<Seq<char>>
    decreases paths.len(),
{
    if paths.len() > 0 && path_order(paths.last(), p) == Order::Greater {
        with_path(paths.drop_last(), p).push(paths.last())
    } else {
        paths.push(p)
    }
}

/// The journals among some paths, in order.
pub open spec fn journals_among(paths: Seq<Seq<char>>) -> Seq<Seq<char>>
    decreases paths.len(),
{
    if paths.len() == 0 {
        seq![]
    } else if is_journal(paths.last()) {
        with_path(journals_among(paths.drop_last()), paths.last())
    } else {
        journals_among(paths.drop_last())
    }
}

/// Puts a path in its place among others.
fn insert_path(paths: &mut Vec<String>, p: &str)
    ensures
        string_views(final(paths)@) == with_path(string_views(old(paths)@), p@),
{
    let ghost before = string_views(paths@);
    let ghost start = paths@;
    let mut j: usize = paths.len();
    assert(before.take(j as int) =~= before);
    assert(with_path(before.take(j as int), p@) + before.skip(j as int) =~= with_path(before, p@));
    while j > 0 && order_paths(paths[j - 1].as_str(), p) == Order::Greater
        invariant
            paths@ == start,
            before == string_views(start),
            j <= paths.len(),
            with_path(before.take(j as int), p@) + before.skip(j as int) == with_path(before, p@),
        decreases j,
    {
        proof {
            let head = before.take(j as int);
            assert(head.drop_last() =~= before.take(j - 1));
            assert(head.last() == before[j - 1]);
            assert(with_path(before.take(j - 1), p@).push(before[j - 1]) + before.skip(j as int)
                =~= with_path(before.take(j - 1), p@) + before.skip(j - 1));
        }
        j -= 1;
    }
    let x: String = p.to_owned();
    paths.insert(j, x);
    proof {
        if j > 0 {
            assert(before.take(j as int).last() == before[j - 1]);
        }
        assert(string_views(paths@) =~= before.take(j as int).push(p@) + before.skip(j as int));
    }
}

/// Lists the journals among the files of their folder, the oldest first.
pub fn list_pending(paths: &Vec<String>) -> (r: Vec<String>)
    ensures
        string_views(r@) == journals_among(string_views(paths@)),
{
    let ghost all = string_views(paths@);
    let mut out: Vec<String> = Vec::new();
    let mut i: usize = 0;
    assert(all.take(0) =~= seq![]);
    assert(string_views(out@) =~= seq![]);
    while i < paths.len()
        invariant
            all == string_views(paths@),
            i <= paths.len(),
            string_views(out@) == journals_among(all.take(i as int)),
        decreases paths.len() - i,
    {
        assert(all.take(i + 1).drop_last() =~= all.take(i as int));
        let is_json: bool = match file_name_of(paths[i].as_str()) {
            Some(n) => match extension_of(n.as_str()) {
                Some(e) => same_text(e.as_str(), "json"),
                None => false,
            },
            None => false,
        };
        if is_json {
            insert_path(&mut out, paths[i].as_str());
        }
        i += 1;
    }
    assert(all.take(i as int) =~= all);
    out
}

// ── Rewriting links ────────────────────────────────────────────────────────

/// The start of a link to a note, up to what follows its name.
pub open spec fn link_text(name: Seq<char>, end: Seq<char>) -> Seq<char> {
    "[["@ + name + end
}

/// A text with the links to one note leading to another, in all their shapes:
/// `[[name]]`, `[[name|alias]]` and `[[name#section]]`.
pub open spec fn rewritten(content: Seq<char>, from: Seq<char>, to: Seq<char>) -> Seq<char> {
    let a = replaced(content, link_text(from, "]]"@), link_text(to, "]]"@));
    let b = replaced(a, link_text(from, "|"@), link_text(to, "|"@));
    replaced(b, link_text(from, "#"@), link_text(to, "#"@))
}

/// Makes the links to one note lead to another.
pub fn rewrite_wikilinks(content: &str, from: &str, to: &str) -> (r: String)
    ensures
        r@ == rewritten(content@, from@, to@),
{
    let a: Vec<char> = replace(
        &to_chars(content),
        &to_chars(cat3("[[", from, "]]").as_str()),
        &to_chars(cat3("[[", to, "]]").as_str()),
    );
    let b: Vec<char> = replace(
        &a,
        &to_chars(cat3("[[", from, "|").as_str()),
        &to_chars(cat3("[[", to, "|").as_str()),
    );
    let c: Vec<char> = replace(
        &b,
        &to_chars(cat3("[[", from, "#").as_str()),
        &to_chars(cat3("[[", to, "#").as_str()),
    );
    from_chars(&c)
}

/// Whether a character has a meaning of its own in a link.
pub open spec fn is_link_mark(c: char) -> bool {
    c == '[' || c == ']' || c == '|' || c == '#'
}

/// Whether a name can stand in a link.
pub open spec fn is_plain_name(name: Seq<char>) -> bool {
    forall|i: int| 0 <= i < name.len() ==> !is_link_mark(#[trigger] name[i])
}

/// Whether a text ends the name in a link.
pub open spec fn is_link_end(end: Seq<char>) -> bool {
    &&& end.len() > 0
    &&& end[0] == ']' || end[0] == '|' || end[0] == '#'
    &&& forall|i: int| 0 <= i < end.len() ==> #[trigger] end[i] != '['
}

/// Links that were not there do not come about, and those that are replaced go, when
/// links to one note are made to lead to another.
proof fn lemma_replaced_lacks(
    s: Seq<char>,
    from: Seq<char>,
    to: Seq<char>,
    end: Seq<char>,
    other: Seq<char>,
)
    requires
        is_plain_name(from),
        is_plain_name(to),
        is_link_end(end),
        is_link_end(other),
        from != to,
        other == end || lacks(s, link_text(from, other)),
    ensures
        lacks(replaced(s, link_text(from, end), link_text(to, end)), link_text(from, other)),
    decreases s.len(),
{
    reveal_strlit("[[");
    let p = link_text(from, end);
    let q = link_text(to, end);
    let w = link_text(from, other);
    let r = replaced(s, p, q);
    lemma_find_at(s, p, 0);
    lemma_find_at(s, w, 0);
    match find_at(s, p, 0) {
        None => {},
        Some(i) => {
            let rest = s.skip(i + p.len());
            let more = replaced(rest, p, q);
            if other != end {
                assert(lacks(rest, w)) by {
                    lemma_find_at(rest, w, 0);
                    if let Some(k) = find_at(rest, w, 0) {
                        assert(rest.subrange(k, k + w.len()) =~= s.subrange(
                            i + p.len() + k,
                            i + p.len() + k + w.len(),
                        ));
                        assert(occurs_at(s, w, i + p.len() + k));
                    }
                }
            }
            lemma_replaced_lacks(rest, from, to, end, other);
            assert(r =~= s.take(i) + q + more);
            lemma_find_at(r, w, 0);
            lemma_find_at(more, w, 0);
            if let Some(k) = find_at(r, w, 0) {
                let at = r.subrange(k, k + w.len());
                assert(at == w);
                assert(forall|t: int| 0 <= t < w.len() ==> #[trigger] w[t] == r[k + t]) by {
                    assert forall|t: int| 0 <= t < w.len() implies #[trigger] w[t] == r[k + t] by {
                        assert(at[t] == r[k + t]);
                    }
                }
                assert(w[0] == '[' && w[1] == '[');
                assert(q[0] == '[' && q[1] == '[');
                if k + w.len() <= i {
                    assert(s.subrange(k, k + w.len()) =~= at);
                    assert(occurs_at(s, w, k));
                } else if k < i {
                    assert(r[i] == q[0]);
                    assert(r[i + 1] == q[1]);
                    assert(w[i - k] == '[');
                    lemma_bracket_in_link(from, other, i - k);
                    assert(w[2] == r[k + 2]);
                    lemma_bracket_in_link(from, other, 2);
                } else if k < i + q.len() {
                    assert(r[k] == q[k - i]);
                    lemma_bracket_in_link(to, end, k - i);
                    if k == i + 1 {
                        assert(r[k + 1] == q[2]);
                        lemma_bracket_in_link(to, end, 2);
                    } else {
                        assert(k == i);
                        assert forall|t: int| 0 <= t < w.len() && t < q.len() implies #[trigger] w[t]
                            == q[t] by {
                            assert(r[k + t] == q[t]);
                        }
                        let t = lemma_links_differ(from, to, other, end);
                        assert(w[t] == q[t]);
                    }
                } else {
                    let m = k - i - q.len();
                    assert(more.subrange(m, m + w.len()) =~= at);
                    assert(occurs_at(more, w, m));
                }
            }
        },
    }
}

/// Only the first two characters of the start of a link are opening brackets.
pub proof fn lemma_bracket_in_link(name: Seq<char>, end: Seq<char>, t: int)
    requires
        is_plain_name(name),
        is_link_end(end),
        0 <= t < link_text(name, end).len(),
        link_text(name, end)[t] == '[',
    ensures
        t < 2,
{
    reveal_strlit("[[");
    if t >= 2 {
        if t < 2 + name.len() {
            assert(link_text(name, end)[t] == name[t - 2]);
        } else {
            assert(link_text(name, end)[t] == end[t - 2 - name.len()]);
        }
    }
}

/// The starts of links to two notes differ before either ends.
pub proof fn lemma_links_differ(from: Seq<char>, to: Seq<char>, other: Seq<char>, end: Seq<char>) -> (t:
    int)
    requires
        is_plain_name(from),
        is_plain_name(to),
        is_link_end(other),
        is_link_end(end),
        from != to,
    ensures
        0 <= t < link_text(from, other).len(),
        t < link_text(to, end).len(),
        link_text(from, other)[t] != link_text(to, end)[t],
{
    reveal_strlit("[[");
    let w = link_text(from, other);
    let q = link_text(to, end);
    if from.len() < to.len() {
        let t = 2 + from.len() as int;
        assert(w[t] == other[0]);
        assert(q[t] == to[from.len() as int]);
        t
    } else if from.len() > to.len() {
        let t = 2 + to.len() as int;
        assert(q[t] == end[0]);
        assert(w[t] == from[to.len() as int]);
        t
    } else {
        assert(!(from =~= to));
        let i = choose|i: int| 0 <= i < from.len() && from[i] != to[i];
        assert(w[2 + i] == from[i]);
        assert(q[2 + i] == to[i]);
        2 + i
    }
}

/// Once links to a note were made to lead to another, none to the first are left.
pub proof fn law_rewritten_removes(content: Seq<char>, from: Seq<char>, to: Seq<char>)
    requires
        is_plain_name(from),
        is_plain_name(to),
        from != to,
    ensures
        lacks(rewritten(content, from, to), link_text(from, "]]"@)),
        lacks(rewritten(content, from, to), link_text(from, "|"@)),
        lacks(rewritten(content, from, to), link_text(from, "#"@)),
{
    reveal_strlit("]]");
    reveal_strlit("|");
    reveal_strlit("#");
    let a = replaced(content, link_text(from, "]]"@), link_text(to, "]]"@));
    let b = replaced(a, link_text(from, "|"@), link_text(to, "|"@));
    lemma_replaced_lacks(content, from, to, "]]"@, "]]"@);
    lemma_replaced_lacks(a, from, to, "|"@, "]]"@);
    lemma_replaced_lacks(a, from, to, "|"@, "|"@);
    lemma_replaced_lacks(b, from, to, "#"@, "]]"@);
    lemma_replaced_lacks(b, from, to, "#"@, "|"@);
    lemma_replaced_lacks(b, from, to, "#"@, "#"@);
}

/// Making links lead to another note twice is the same as once.
pub proof fn law_rewritten_twice(content: Seq<char>, from: Seq<char>, to: Seq<char>)
    requires
        is_plain_name(from),
        is_plain_name(to),
    ensures
        rewritten(rewritten(content, from, to), from, to) == rewritten(content, from, to),
{
    let r = rewritten(content, from, to);
    if from == to {
        lemma_replaced_same(r, link_text(from, "]]"@));
        lemma_replaced_same(r, link_text(from, "|"@));
        lemma_replaced_same(r, link_text(from, "#"@));
    } else {
        law_rewritten_removes(content, from, to);
        lemma_replaced_nothing(r, link_text(from, "]]"@), link_text(to, "]]"@));
        lemma_replaced_nothing(r, link_text(from, "|"@), link_text(to, "|"@));
        lemma_replaced_nothing(r, link_text(from, "#"@), link_text(to, "#"@));
    }
}

// ── Replaying ──────────────────────────────────────────────────────────────

/// How far a replay is.
#[derive(Debug, PartialEq, Eq)]
pub enum ReplayPhase {
    /// The note is still to be moved.
    Move,
    /// A file with links is to be read.
    Read(usize),
    /// A file with links is to be written.
    Write(usize, String),
    /// The journal is to be removed.
    Drop,
    /// All is done.
    Finished,
    /// It failed; the journal stays.
    Stopped(String),
}

/// How far a replay is, as sequences.
pub enum Phase {
    Move,
    Read(int),
    Write(int, Seq<char>),
    Drop,
    Finished,
    Stopped(Seq<char>),
}

impl View for ReplayPhase {
    type V = Phase;

    open spec fn view(&self) -> Phase {
        match *self {
            ReplayPhase::Move => Phase::Move,
            ReplayPhase::Read(i) => Phase::Read(i as int),
            ReplayPhase::Write(i, t) => Phase::Write(i as int, t@),
            ReplayPhase::Drop => Phase::Drop,
            ReplayPhase::Finished => Phase::Finished,
            ReplayPhase::Stopped(e) => Phase::Stopped(e@),
        }
    }
}

/// A journal being replayed.
pub struct ReplayRun {
    journal: RenameJournal,
    phase: ReplayPhase,
    /// The last failure to rewrite a file.
    last_error: Option<String>,
}

/// A journal being replayed, as sequences.
pub struct Replay {
    pub journal: Journal,
    pub phase: Phase,
    pub last_error: Option<Seq<char>>,
}

impl View for ReplayRun {
    type V = Replay;

    closed spec fn view(&self) -> Replay {
        Replay {
            journal: self.journal@,
            phase: self.phase@,
            last_error: crate::schema::text_view(self.last_error),
        }
    }
}

/// Where a replay goes on from file `i`: with that file, or to its end.
pub open spec fn rewrite_from(r: Replay, i: int) -> Replay {
    if i < r.journal.backlinks.len() {
        Replay { phase: Phase::Read(i), ..r }
    } else {
        match r.last_error {
            Some(e) => Replay { phase: Phase::Stopped(e), ..r },
            None => Replay { phase: Phase::Drop, ..r },
        }
    }
}

/// How a replay starts. A note that was not moved is moved; where it was moved, or
/// where both places are taken, only links are rewritten; where both are gone, there
/// is nothing to do.
pub open spec fn replay_start(j: Journal, source_there: bool, dest_there: bool) -> Replay {
    let fresh = Replay { journal: j, phase: Phase::Drop, last_error: None };
    if source_there && !dest_there {
        Replay { phase: Phase::Move, ..fresh }
    } else if !source_there && !dest_there {
        fresh
    } else {
        rewrite_from(fresh, 0)
    }
}

/// What is to be done next.
pub open spec fn replay_next(r: Replay) -> Option<Deed> {
    match r.phase {
        Phase::Move => Some(Deed::MoveFile { from: r.journal.source, to: r.journal.dest }),
        Phase::Read(i) => Some(Deed::ReadFile(r.journal.backlinks[i])),
        Phase::Write(i, t) => Some(Deed::WriteFile { path: r.journal.backlinks[i], content: t }),
        Phase::Drop => Some(Deed::DropJournal),
        Phase::Finished => None,
        Phase::Stopped(_) => None,
    }
}

/// How things stand once it came to something. A file that is gone is passed over; a
/// file that cannot be read or written is a failure in the end, once the others were
/// dealt with.
pub open spec fn replay_after(r: Replay, c: Came) -> Replay {
    match r.phase {
        Phase::Move => match failure_of(c) {
            Some(e) => Replay { phase: Phase::Stopped(e), ..r },
            None => rewrite_from(r, 0),
        },
        Phase::Read(i) => match c {
            Came::Text(t) => {
                let new = rewritten(t, r.journal.from_name, r.journal.to_name);
                if new == t {
                    rewrite_from(r, i + 1)
                } else {
                    Replay { phase: Phase::Write(i, new), ..r }
                }
            },
            Came::Failed(e) => rewrite_from(Replay { last_error: Some(e), ..r }, i + 1),
            _ => rewrite_from(r, i + 1),
        },
        Phase::Write(i, _) => match failure_of(c) {
            Some(e) => rewrite_from(Replay { last_error: Some(e), ..r }, i + 1),
            None => rewrite_from(r, i + 1),
        },
        Phase::Drop => Replay { phase: Phase::Finished, ..r },
        _ => r,
    }
}

impl ReplayRun {
    /// Whether the file at hand is one of those with links.
    pub closed spec fn is_valid(&self) -> bool {
        match self.phase {
            ReplayPhase::Read(i) => i < self.journal.backlinks.len(),
            ReplayPhase::Write(i, _) => i < self.journal.backlinks.len(),
            _ => true,
        }
    }

    /// Starts replaying a journal, given whether the note is at its old place and
    /// whether something is at its new one.
    pub fn new(journal: RenameJournal, source_there: bool, dest_there: bool) -> (r: Self)
        ensures
            r@ == replay_start(journal@, source_there, dest_there),
            r.is_valid(),
    {
        let mut r: ReplayRun = ReplayRun { journal, phase: ReplayPhase::Drop, last_error: None };
        if source_there && !dest_there {
            r.phase = ReplayPhase::Move;
        } else if source_there || dest_there {
            r.go_on(0);
        }
        r
    }

    /// Goes on with a file, or to the end.
    fn go_on(&mut self, i: usize)
        ensures
            final(self)@ == rewrite_from(old(self)@, i as int),
            final(self).is_valid(),
    {
        assert(self@.journal.backlinks.len() == self.journal.backlinks.len());
        if i < self.journal.backlinks.len() {
            self.phase = ReplayPhase::Read(i);
        } else {
            self.phase = match &self.last_error {
                Some(e) => ReplayPhase::Stopped(e.clone()),
                None => ReplayPhase::Drop,
            };
        }
    }

    /// Tells what is to be done next; nothing once all is done or it failed.
    pub fn next(&self) -> (r: Option<Action>)
        requires
            self.is_valid(),
        ensures
            deed_view(r) == replay_next(self@),
    {
        match &self.phase {
            ReplayPhase::Move => Some(
                Action::MoveFile {
                    from: self.journal.source.clone(),
                    to: self.journal.dest.clone(),
                },
            ),
            ReplayPhase::Read(i) => Some(Action::ReadFile(self.journal.backlinks[*i].clone())),
            ReplayPhase::Write(i, t) => Some(
                Action::WriteFile {
                    path: self.journal.backlinks[*i].clone(),
                    content: t.clone(),
                },
            ),
            ReplayPhase::Drop => Some(Action::DropJournal),
            _ => None,
        }
    }

    /// Takes what came of what was to be done.
    pub fn done(&mut self, outcome: &Outcome)
        requires
            old(self).is_valid(),
        ensures
            final(self)@ == replay_after(old(self)@, outcome@),
            final(self).is_valid(),
    {
        let failure: Option<String> = read_failure(outcome);
        match &self.phase {
            ReplayPhase::Move => match failure {
                Some(e) => {
                    self.phase = ReplayPhase::Stopped(e);
                },
                None => {
                    self.go_on(0);
                },
            },
            ReplayPhase::Read(i) => {
                let at: usize = *i;
                match outcome {
                    Outcome::Text(t) => {
                        let new: String = rewrite_wikilinks(
                            t.as_str(),
                            self.journal.from_name.as_str(),
                            self.journal.to_name.as_str(),
                        );
                        if same_text(new.as_str(), t.as_str()) {
                            self.go_on(at + 1);
                        } else {
                            self.phase = ReplayPhase::Write(at, new);
                        }
                    },
                    Outcome::Failed(e) => {
                        self.last_error = Some(e.clone());
                        self.go_on(at + 1);
                    },
                    _ => {
                        self.go_on(at + 1);
                    },
                }
            },
            ReplayPhase::Write(i, _) => {
                let at: usize = *i;
                match failure {
                    Some(e) => {
                        self.last_error = Some(e);
                    },
                    None => {},
                }
                self.go_on(at + 1);
            },
            ReplayPhase::Drop => {
                self.phase = ReplayPhase::Finished;
            },
            _ => {},
        }
    }
}

/// Why a journal was not replayed in full, if it was not.
pub open spec fn replay_fault(r: Replay) -> Option<Failure> {
    match r.phase {
        Phase::Stopped(e) => Some(Failure::Io(e)),
        _ => match r.last_error {
            Some(e) => Some(Failure::Io(e)),
            None => None,
        },
    }
}

impl ReplayRun {
    /// Why the journal was not replayed in full, if it was not.
    pub fn finish(self) -> (r: Option<VaultdbError>)
        ensures
            fault_view(r) == replay_fault(self@),
    {
        match self.phase {
            ReplayPhase::Stopped(e) => Some(VaultdbError::Io(e)),
            _ => match self.last_error {
                Some(e) => Some(VaultdbError::Io(e)),
                None => None,
            },
        }
    }
}

/// A file whose links were rewritten is not written again: replaying a journal once
/// more passes it over.
pub proof fn law_replay_again(r: Replay, i: int, content: Seq<char>)
    requires
        r.phase == Phase::Read(i),
        is_plain_name(r.journal.from_name),
        is_plain_name(r.journal.to_name),
    ensures
        replay_after(r, Came::Text(rewritten(content, r.journal.from_name, r.journal.to_name)))
            == rewrite_from(r, i + 1),
{
    law_rewritten_twice(content, r.journal.from_name, r.journal.to_name);
}

/// The journal of a replay is removed only once no file failed: where one did, the
/// replay stops and the journal stays for the next time.
pub proof fn law_replay_keeps_journal(r: Replay, i: int)
    requires
        i >= r.journal.backlinks.len(),
    ensures
        r.last_error is Some ==> rewrite_from(r, i).phase == Phase::Stopped(r.last_error->0)
            && replay_next(rewrite_from(r, i)) is None,
        r.last_error is None ==> replay_next(rewrite_from(r, i)) == Some(Deed::DropJournal),
{
}

// ── Recovering a vault ─────────────────────────────────────────────────────

/// The journals of a vault being replayed, one after the other.
pub struct Recovery {
    pending: Vec<String>,
    /// How many were replayed.
    count: usize,
    /// Why one could not be replayed.
    failed: Option<VaultdbError>,
}

/// The journals of a vault being replayed, as sequences.
pub struct Sweep {
    pub pending: Seq<Seq<char>>,
    pub count: nat,
    pub failed: Option<Failure>,
}

impl View for Recovery {
    type V = Sweep;

    closed spec fn view(&self) -> Sweep {
        Sweep {
            pending: string_views(self.pending@),
            count: self.count as nat,
            failed: fault_view(self.failed),
        }
    }
}

/// How a recovery starts, given the files in the folder of the journals.
pub open spec fn recovery_start(paths: Seq<Seq<char>>) -> Sweep {
    Sweep { pending: journals_among(paths), count: 0, failed: None }
}

/// The journal to be replayed next; none once all were replayed or one failed.
pub open spec fn recovery_next(v: Sweep) -> Option<Seq<char>> {
    if v.failed is None && v.count < v.pending.len() {
        Some(v.pending[v.count as int])
    } else {
        None
    }
}

/// How things stand once a journal was replayed, or could not be: the first that fails
/// ends it all.
pub open spec fn recovery_after(v: Sweep, fault: Option<Failure>) -> Sweep {
    if recovery_next(v) is None {
        v
    } else if fault is None {
        Sweep { count: v.count + 1, ..v }
    } else {
        Sweep { failed: fault, ..v }
    }
}

/// What a failure that may be missing is.
pub open spec fn fault_view(e: Option<VaultdbError>) -> Option<Failure> {
    match e {
        Some(e) => Some(e@),
        None => None,
    }
}

/// The failure that a journal which cannot be read is.
pub fn unreadable_journal(path: &str, reason: &str) -> (r: VaultdbError)
    ensures
        r@ == Failure::Internal("parse rename journal "@ + path@ + ": "@ + reason@),
{
    VaultdbError::Internal(cat4("parse rename journal ", path, ": ", reason))
}

/// Starts replaying the journals among the files of their folder, the oldest first.
pub fn replay_all(paths: &Vec<String>) -> (r: Recovery)
    ensures
        r@ == recovery_start(string_views(paths@)),
{
    Recovery { pending: list_pending(paths), count: 0, failed: None }
}

impl Recovery {
    /// The journal to be replayed next; none once all were replayed or one failed.
    pub fn next(&self) -> (r: Option<&str>)
        ensures
            match r {
                Some(p) => recovery_next(self@) == Some(p@),
                None => recovery_next(self@) is None,
            },
    {
        assert(self@.pending.len() == self.pending.len());
        if self.failed.is_none() && self.count < self.pending.len() {
            Some(self.pending[self.count].as_str())
        } else {
            None
        }
    }

    /// Takes what came of replaying a journal: the first that fails ends it all.
    pub fn done(&mut self, failure: Option<VaultdbError>)
        ensures
            final(self)@ == recovery_after(old(self)@, fault_view(failure)),
    {
        assert(self@.pending.len() == self.pending.len());
        if self.failed.is_none() && self.count < self.pending.len() {
            match failure {
                Some(e) => {
                    self.failed = Some(e);
                },
                None => {
                    self.count += 1;
                },
            }
        }
    }

    /// How many journals were replayed, or why one could not be.
    pub fn finish(self) -> (r: Result<usize, VaultdbError>)
        ensures
            match (self@.failed, r) {
                (Some(e), Err(x)) => x@ == e,
                (None, Ok(n)) => n == self@.count,
                _ => false,
            },
    {
        match self.failed {
            Some(e) => Err(e),
            None => Ok(self.count),
        }
    }
}

} // verus!
