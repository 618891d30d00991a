//! Queries: conditions on records, and what to do with those that meet them.

use crate::record::{copy_value, val, Val, Value};
use vstd::prelude::*;

verus! {

/// A condition on a record.
#[derive(Debug, PartialEq, Eq)]
#[non_exhaustive]
pub enum Expr {
    /// A condition on a field.
    Predicate(Predicate),
    /// All of the conditions hold.
    And(Vec<Expr>),
    /// At least one of the conditions holds.
    Or(Vec<Expr>),
    /// The condition does not hold.
    Not(Box<Expr>),
    /// The record links to such a note.
    LinksTo(LinkPredicate),
    /// Such a note links to the record.
    LinkedFrom(LinkPredicate),
}

/// A condition on a field of a record.
#[derive(Debug, PartialEq, Eq)]
#[non_exhaustive]
#[allow(inconsistent_fields)]
pub enum Predicate {
    Equals { field: String, value: Value },
    Contains { field: String, value: Value },
    Compare { field: String, op: CompareOp, value: Value },
    Matches { field: String, regex: String },
    StartsWith { field: String, value: String },
    EndsWith { field: String, value: String },
    Exists { field: String },
    Missing { field: String },
}

/// How two values are compared.
#[derive(Debug, Clone, Copy, PartialEq, Eq, Structural)]
#[non_exhaustive]
pub enum CompareOp {
    Lt,
    Le,
    Gt,
    Ge,
    Ne,
}

/// Which notes at the other end of a link are meant: one by its name, or those
/// that meet a condition.
#[derive(Debug, PartialEq, Eq)]
#[non_exhaustive]
pub enum LinkPredicate {
    Target(String),
    Where(Box<Expr>),
}

/// A sort key.
#[derive(Debug, PartialEq, Eq)]
pub struct SortKey {
    pub field: String,
    pub descending: bool,
}

/// A query: which notes of a folder, which of their fields, in which order.
#[derive(Debug, PartialEq, Eq)]
pub struct Query {
    pub folder: String,
    pub filter: Option<Expr>,
    /// The fields wanted; all of them where this is missing.
    pub select: Option<Vec<String>>,
    pub sort: Option<SortKey>,
    pub limit: Option<usize>,
    pub recursive: bool,
}

/// A sort key, with its text as a sequence of characters.
pub struct SortBy {
    pub field: Seq<char>,
    pub descending: bool,
}

impl View for SortKey {
    type V = SortBy;

    open spec fn view(&self) -> SortBy {
        SortBy { field: self.field@, descending: self.descending }
    }
}

/// What a sort key that may be missing is.
pub open spec fn sort_view(k: Option<SortKey>) -> Option<SortBy> {
    match k {
        Some(k) => Some(k@),
        None => None,
    }
}

/// A query, as sequences.
pub struct Request {
    pub folder: Seq<char>,
    pub filter: Option<Cond>,
    pub select: Option<Seq<Seq<char>>>,
    pub sort: Option<SortBy>,
    pub limit: Option<usize>,
    pub recursive: bool,
}

impl View for Query {
    type V = Request;

    open spec fn view(&self) -> Request {
        Request {
            folder: self.folder@,
            filter: crate::vault::cond_view(self.filter),
            select: crate::vault::list_view(self.select),
            sort: sort_view(self.sort),
            limit: self.limit,
            recursive: self.recursive,
        }
    }
}

/// A condition on a field, with its texts as sequences of characters.
#[allow(inconsistent_fields)]
pub enum Pred {
    Equals { field: Seq<char>, value: Val },
    Contains { field: Seq<char>, value: Val },
    Compare { field: Seq<char>, op: CompareOp, value: Val },
    Matches { field: Seq<char>, regex: Seq<char> },
    StartsWith { field: Seq<char>, value: Seq<char> },
    EndsWith { field: Seq<char>, value: Seq<char> },
    Exists { field: Seq<char> },
    Missing { field: Seq<char> },
}

/// A condition on a record, with its texts and lists as sequences.
pub enum Cond {
    Predicate(Pred),
    And(Seq<Cond>),
    Or(Seq<Cond>),
    Not(Box<Cond>),
    LinksTo(LinkCond),
    LinkedFrom(LinkCond),
}

/// A condition on the notes at the other end of a link.
pub enum LinkCond {
    Target(Seq<char>),
    Where(Box<Cond>),
}

impl View for Predicate {
    type V = Pred;

    open spec fn view(&self) -> Pred {
        match *self {
            Predicate::Equals { field, value } => Pred::Equals { field: field@, value: val(value) },
            Predicate::Contains { field, value } => Pred::Contains {
                field: field@,
                value: val(value),
            },
            Predicate::Compare { field, op, value } => Pred::Compare {
                field: field@,
                op,
                value: val(value),
            },
            Predicate::Matches { field, regex } => Pred::Matches { field: field@, regex: regex@ },
            Predicate::StartsWith { field, value } => Pred::StartsWith {
                field: field@,
                value: value@,
            },
            Predicate::EndsWith { field, value } => Pred::EndsWith { field: field@, value: value@ },
            Predicate::Exists { field } => Pred::Exists { field: field@ },
            Predicate::Missing { field } => Pred::Missing { field: field@ },
        }
    }
}

/// What a condition is.
pub open spec fn cond(e: Expr) -> Cond
    decreases e,
{
    match e {
        Expr::Predicate(p) => Cond::Predicate(p@),
        Expr::And(es) => Cond::And(
            Seq::new(
                es@.len(),
                |i: int|
                    if 0 <= i < es@.len() {
                        cond(es@[i])
                    } else {
                        Cond::And(seq![])
                    },
            ),
        ),
        Expr::Or(es) => Cond::Or(
            Seq::new(
                es@.len(),
                |i: int|
                    if 0 <= i < es@.len() {
                        cond(es@[i])
                    } else {
                        Cond::And(seq![])
                    },
            ),
        ),
        Expr::Not(e) => Cond::Not(Box::new(cond(*e))),
        Expr::LinksTo(l) => Cond::LinksTo(
            match l {
                LinkPredicate::Target(t) => LinkCond::Target(t@),
                LinkPredicate::Where(e) => LinkCond::Where(Box::new(cond(*e))),
            },
        ),
        Expr::LinkedFrom(l) => Cond::LinkedFrom(
            match l {
                LinkPredicate::Target(t) => LinkCond::Target(t@),
                LinkPredicate::Where(e) => LinkCond::Where(Box::new(cond(*e))),
            },
        ),
    }
}

/// What conditions are.
pub open spec fn conds(es: Seq<Expr>) -> Seq<Cond> {
    Seq::new(es.len(), |i: int| cond(es[i]))
}

/// A conjunction and a disjunction are what their parts are.
pub proof fn lemma_cond(es: Vec<Expr>)
    ensures
        cond(Expr::And(es)) == Cond::And(conds(es@)),
        cond(Expr::Or(es)) == Cond::Or(conds(es@)),
{
    assert(cond(Expr::And(es))->And_0 =~= conds(es@));
    assert(cond(Expr::Or(es))->Or_0 =~= conds(es@));
}

/// Conditions followed by one more.
pub proof fn lemma_conds_push(es: Seq<Expr>, x: Expr)
    ensures
        conds(es.push(x)) == conds(es).push(cond(x)),
{
    assert(conds(es.push(x)) =~= conds(es).push(cond(x)));
}

// ── Combining conditions ───────────────────────────────────────────────────

/// The parts of a conjunction; any other condition is its own only part.
pub open spec fn and_parts(c: Cond) -> Seq<Cond> {
    match c {
        Cond::And(parts) => parts,
        other => seq![other],
    }
}

/// The parts of a disjunction; any other condition is its own only part.
pub open spec fn or_parts(c: Cond) -> Seq<Cond> {
    match c {
        Cond::Or(parts) => parts,
        other => seq![other],
    }
}

/// The negation of a condition; that of a negation is the condition negated.
pub open spec fn negated(c: Cond) -> Cond {
    match c {
        Cond::Not(inner) => *inner,
        other => Cond::Not(Box::new(other)),
    }
}

/// Conditions one after the other.
fn append(a: Vec<Expr>, b: Vec<Expr>) -> (r: Vec<Expr>)
    ensures
        conds(r@) == conds(a@) + conds(b@),
{
    let mut r: Vec<Expr> = a;
    let mut b: Vec<Expr> = b;
    let ghost x = r@;
    let ghost y = b@;
    r.append(&mut b);
    assert(r@ == x + y);
    assert(conds(r@) =~= conds(x) + conds(y));
    r
}

/// A condition as the only part.
fn single(e: Expr) -> (r: Vec<Expr>)
    ensures
        conds(r@) == seq![cond(e)],
{
    let mut r: Vec<Expr> = Vec::new();
    r.push(e);
    assert(conds(r@) =~= seq![cond(e)]);
    r
}

/// The parts of a conjunction.
pub fn into_and_parts(e: Expr) -> (r: Vec<Expr>)
    ensures
        conds(r@) == and_parts(cond(e)),
{
    match e {
        Expr::And(es) => {
            proof {
                lemma_cond(es);
            }
            es
        },
        other => single(other),
    }
}

/// The parts of a disjunction.
pub fn into_or_parts(e: Expr) -> (r: Vec<Expr>)
    ensures
        conds(r@) == or_parts(cond(e)),
{
    match e {
        Expr::Or(es) => {
            proof {
                lemma_cond(es);
            }
            es
        },
        other => single(other),
    }
}

impl Expr {
    /// Both conditions hold. Conjunctions are merged into one.
    pub fn bitand(self, rhs: Expr) -> (r: Expr)
        ensures
            cond(r) == Cond::And(and_parts(cond(self)) + and_parts(cond(rhs))),
    {
        let parts: Vec<Expr> = append(into_and_parts(self), into_and_parts(rhs));
        proof {
            lemma_cond(parts);
        }
        Expr::And(parts)
    }

    /// At least one of the conditions holds. Disjunctions are merged into one.
    pub fn bitor(self, rhs: Expr) -> (r: Expr)
        ensures
            cond(r) == Cond::Or(or_parts(cond(self)) + or_parts(cond(rhs))),
    {
        let parts: Vec<Expr> = append(into_or_parts(self), into_or_parts(rhs));
        proof {
            lemma_cond(parts);
        }
        Expr::Or(parts)
    }

    /// The condition does not hold. A double negation cancels.
    pub fn not(self) -> (r: Expr)
        ensures
            cond(r) == negated(cond(self)),
    {
        match self {
            Expr::Not(inner) => *inner,
            other => Expr::Not(Box::new(other)),
        }
    }
}

/// Copies a condition on a field.
pub fn copy_predicate(p: &Predicate) -> (r: Predicate)
    ensures
        r@ == p@,
{
    match p {
        Predicate::Equals { field, value } => Predicate::Equals {
            field: field.clone(),
            value: copy_value(value),
        },
        Predicate::Contains { field, value } => Predicate::Contains {
            field: field.clone(),
            value: copy_value(value),
        },
        Predicate::Compare { field, op, value } => Predicate::Compare {
            field: field.clone(),
            op: *op,
            value: copy_value(value),
        },
        Predicate::Matches { field, regex } => Predicate::Matches {
            field: field.clone(),
            regex: regex.clone(),
        },
        Predicate::StartsWith { field, value } => Predicate::StartsWith {
            field: field.clone(),
            value: value.clone(),
        },
        Predicate::EndsWith { field, value } => Predicate::EndsWith {
            field: field.clone(),
            value: value.clone(),
        },
        Predicate::Exists { field } => Predicate::Exists { field: field.clone() },
        Predicate::Missing { field } => Predicate::Missing { field: field.clone() },
    }
}

/// Copies a condition on the notes at the other end of a link.
fn copy_link(l: &LinkPredicate) -> (r: LinkPredicate)
    ensures
        cond(Expr::LinksTo(r)) == cond(Expr::LinksTo(*l)),
        cond(Expr::LinkedFrom(r)) == cond(Expr::LinkedFrom(*l)),
    decreases l,
{
    match l {
        LinkPredicate::Target(t) => LinkPredicate::Target(t.clone()),
        LinkPredicate::Where(e) => LinkPredicate::Where(Box::new(copy_expr(&**e))),
    }
}

/// Copies some conditions.
fn copy_exprs(es: &Vec<Expr>) -> (r: Vec<Expr>)
    ensures
        conds(r@) == conds(es@),
    decreases es,
{
    let ghost all = conds(es@);
    let mut out: Vec<Expr> = Vec::new();
    let mut i: usize = 0;
    assert(conds(out@) =~= all.take(0));
    while i < es.len()
        invariant
            all == conds(es@),
            i <= es.len(),
            conds(out@) == all.take(i as int),
        decreases es.len() - i,
    {
        proof {
            broadcast use vstd::std_specs::vec::axiom_vec_index_decreases;

            assert(decreases_to!(*es => es[i as int]));
        }
        let e: Expr = copy_expr(&es[i]);
        proof {
            lemma_conds_push(out@, e);
            assert(conds(out@).push(cond(e)) =~= all.take(i + 1));
        }
        out.push(e);
        i += 1;
    }
    assert(all.take(i as int) =~= all);
    out
}

/// Copies a condition.
pub fn copy_expr(e: &Expr) -> (r: Expr)
    ensures
        cond(r) == cond(*e),
    decreases e,
{
    match e {
        Expr::Predicate(p) => Expr::Predicate(copy_predicate(p)),
        Expr::And(es) => {
            let v: Vec<Expr> = copy_exprs(es);
            proof {
                lemma_cond(v);
                lemma_cond(*es);
            }
            Expr::And(v)
        },
        Expr::Or(es) => {
            let v: Vec<Expr> = copy_exprs(es);
            proof {
                lemma_cond(v);
                lemma_cond(*es);
            }
            Expr::Or(v)
        },
        Expr::Not(inner) => Expr::Not(Box::new(copy_expr(&**inner))),
        Expr::LinksTo(l) => Expr::LinksTo(copy_link(l)),
        Expr::LinkedFrom(l) => Expr::LinkedFrom(copy_link(l)),
    }
}

impl Clone for Expr {
    fn clone(&self) -> (r: Self)
        ensures
            cond(r) == cond(*self),
    {
        copy_expr(self)
    }
}

} // verus!
