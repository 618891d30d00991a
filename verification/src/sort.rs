//! Putting things in order: all of them, or the first few.
//!
//! Things are named by their positions, and compared by keys. An order need not be
//! a consistent one: values of different kinds, for example, count as equal to each
//! other. What is proved of the result for orders that are consistent stands in
//! [`law_sorted`] and [`law_best`].

use crate::text::Order;
use vstd::prelude::*;

verus! {

/// A key that things are put in order by.
pub trait Ranked: Sized {
    /// How the key stands to another.
    spec fn rank(self, other: Self) -> Order;

    /// Compares the key with another.
    fn compare(&self, other: &Self) -> (r: Order)
        ensures
            r == self.rank(*other),
    ;
}

/// How two positions stand to each other by their keys.
pub open spec fn rank_of<K: Ranked>(keys: Seq<K>) -> spec_fn(int, int) -> Order {
    |i: int, j: int| keys[i].rank(keys[j])
}

/// The positions below `n`.
pub open spec fn positions(n: nat) -> Seq<int> {
    Seq::new(n, |i: int| i)
}

/// What positions are.
pub open spec fn ints(v: Seq<usize>) -> Seq<int> {
    Seq::new(v.len(), |i: int| v[i] as int)
}

/// Two lists of positions merged: of their first ones, that of the second list goes
/// first only where it comes strictly before the other.
pub open spec fn merged(ord: spec_fn(int, int) -> Order, a: Seq<int>, b: Seq<int>) -> Seq<int>
    decreases a.len() + b.len(),
{
    if a.len() == 0 {
        b
    } else if b.len() == 0 {
        a
    } else if ord(a[0], b[0]) == Order::Greater {
        seq![b[0]] + merged(ord, a, b.skip(1))
    } else {
        seq![a[0]] + merged(ord, a.skip(1), b)
    }
}

/// Positions in order: both halves in order, merged.
pub open spec fn sorted(ord: spec_fn(int, int) -> Order, s: Seq<int>) -> Seq<int>
    decreases s.len(),
{
    if s.len() < 2 {
        s
    } else {
        let h = s.len() as int / 2;
        merged(ord, sorted(ord, s.take(h)), sorted(ord, s.skip(h)))
    }
}

/// A list of positions in order with one more: behind those that do not come after
/// it.
pub open spec fn with_position(ord: spec_fn(int, int) -> Order, s: Seq<int>, i: int) -> Seq<int>
    decreases s.len(),
{
    if s.len() > 0 && ord(s.last(), i) == Order::Greater {
        with_position(ord, s.drop_last(), i).push(s.last())
    } else {
        s.push(i)
    }
}

/// The first `k` of the positions below `n`: each one is kept while there is room,
/// or where it comes before the last that was kept.
pub open spec fn best(ord: spec_fn(int, int) -> Order, n: nat, k: nat) -> Seq<int>
    decreases n,
{
    if n == 0 || k == 0 {
        seq![]
    } else {
        let i = n - 1;
        let kept = best(ord, i as nat, k);
        if kept.len() < k {
            with_position(ord, kept, i)
        } else if ord(i, kept.last()) == Order::Less {
            with_position(ord, kept.drop_last(), i)
        } else {
            kept
        }
    }
}

/// Merges two lists of positions.
fn merge<K: Ranked>(keys: &Vec<K>, a: &Vec<usize>, b: &Vec<usize>) -> (r: Vec<usize>)
    requires
        forall|i: int| 0 <= i < a.len() ==> (#[trigger] a@[i]) < keys.len(),
        forall|i: int| 0 <= i < b.len() ==> (#[trigger] b@[i]) < keys.len(),
    ensures
        ints(r@) == merged(rank_of(keys@), ints(a@), ints(b@)),
        forall|i: int| 0 <= i < r.len() ==> (#[trigger] r@[i]) < keys.len(),
{
    let ghost ord = rank_of(keys@);
    let ghost x = ints(a@);
    let ghost y = ints(b@);
    let mut out: Vec<usize> = Vec::new();
    let mut i: usize = 0;
    let mut j: usize = 0;
    assert(x.skip(0) =~= x);
    assert(y.skip(0) =~= y);
    assert(ints(out@) + merged(ord, x.skip(0), y.skip(0)) =~= merged(ord, x, y));
    while i < a.len() || j < b.len()
        invariant
            ord == rank_of(keys@),
            x == ints(a@),
            y == ints(b@),
            i <= a.len(),
            j <= b.len(),
            forall|i: int| 0 <= i < a.len() ==> (#[trigger] a@[i]) < keys.len(),
            forall|i: int| 0 <= i < b.len() ==> (#[trigger] b@[i]) < keys.len(),
            forall|i: int| 0 <= i < out.len() ==> (#[trigger] out@[i]) < keys.len(),
            ints(out@) + merged(ord, x.skip(i as int), y.skip(j as int)) == merged(ord, x, y),
        decreases a.len() - i + (b.len() - j),
    {
        let ghost xs = x.skip(i as int);
        let ghost ys = y.skip(j as int);
        let ghost before = ints(out@);
        let from_b: bool = if i >= a.len() {
            true
        } else if j >= b.len() {
            false
        } else {
            keys[a[i]].compare(&keys[b[j]]) == Order::Greater
        };
        if from_b {
            out.push(b[j]);
            proof {
                assert(ints(out@) =~= before.push(ys[0]));
                assert(ys.skip(1) =~= y.skip(j + 1));
                if i >= a.len() {
                    assert(xs =~= seq![]);
                    assert(ys =~= seq![ys[0]] + ys.skip(1));
                }
                assert(ints(out@) + merged(ord, xs, ys.skip(1)) =~= before + (seq![ys[0]] + merged(
                    ord,
                    xs,
                    ys.skip(1),
                )));
            }
            j += 1;
        } else {
            out.push(a[i]);
            proof {
                assert(ints(out@) =~= before.push(xs[0]));
                assert(xs.skip(1) =~= x.skip(i + 1));
                if j >= b.len() {
                    assert(ys =~= seq![]);
                    assert(xs =~= seq![xs[0]] + xs.skip(1));
                    if xs.skip(1).len() == 0 {
                        assert(merged(ord, xs.skip(1), ys) =~= xs.skip(1));
                    }
                }
                assert(ints(out@) + merged(ord, xs.skip(1), ys) =~= before + (seq![xs[0]] + merged(
                    ord,
                    xs.skip(1),
                    ys,
                )));
            }
            i += 1;
        }
    }
    assert(x.skip(i as int) =~= seq![]);
    assert(y.skip(j as int) =~= seq![]);
    assert(ints(out@) =~= merged(ord, x, y));
    out
}

/// Puts the positions from `from` to `to` in order.
fn sort_range<K: Ranked>(keys: &Vec<K>, from: usize, to: usize) -> (r: Vec<usize>)
    requires
        from <= to <= keys.len(),
    ensures
        ints(r@) == sorted(
            rank_of(keys@),
            positions(keys@.len()).subrange(from as int, to as int),
        ),
        forall|i: int| 0 <= i < r.len() ==> (#[trigger] r@[i]) < keys.len(),
    decreases to - from,
{
    let ghost all = positions(keys@.len());
    let ghost s = all.subrange(from as int, to as int);
    if to - from < 2 {
        let mut out: Vec<usize> = Vec::new();
        if from < to {
            out.push(from);
        }
        assert(ints(out@) =~= s);
        return out;
    }
    let h: usize = (to - from) / 2;
    let a: Vec<usize> = sort_range(keys, from, from + h);
    let b: Vec<usize> = sort_range(keys, from + h, to);
    proof {
        assert(s.take(h as int) =~= all.subrange(from as int, from + h));
        assert(s.skip(h as int) =~= all.subrange(from + h, to as int));
    }
    merge(keys, &a, &b)
}

/// Puts things in order by their keys; things that are equal in order stay as they
/// stand to each other.
pub fn sort_positions<K: Ranked>(keys: &Vec<K>) -> (r: Vec<usize>)
    ensures
        ints(r@) == sorted(rank_of(keys@), positions(keys@.len())),
        forall|i: int| 0 <= i < r.len() ==> (#[trigger] r@[i]) < keys.len(),
{
    let r: Vec<usize> = sort_range(keys, 0, keys.len());
    assert(positions(keys@.len()).subrange(0, keys.len() as int) =~= positions(keys@.len()));
    r
}

/// Puts a position in its place among others.
fn place<K: Ranked>(keys: &Vec<K>, kept: &mut Vec<usize>, i: usize)
    requires
        i < keys.len(),
        forall|q: int| 0 <= q < old(kept).len() ==> (#[trigger] old(kept)@[q]) < keys.len(),
    ensures
        ints(final(kept)@) == with_position(rank_of(keys@), ints(old(kept)@), i as int),
        forall|q: int| 0 <= q < final(kept).len() ==> (#[trigger] final(kept)@[q]) < keys.len(),
{
    let ghost ord = rank_of(keys@);
    let ghost before = ints(kept@);
    let ghost start = kept@;
    let mut j: usize = kept.len();
    assert(before.take(j as int) =~= before);
    assert(with_position(ord, before.take(j as int), i as int) + before.skip(j as int)
        =~= with_position(ord, before, i as int));
    while j > 0 && keys[kept[j - 1]].compare(&keys[i]) == Order::Greater
        invariant
            ord == rank_of(keys@),
            i < keys.len(),
            kept@ == start,
            before == ints(start),
            j <= kept.len(),
            forall|q: int| 0 <= q < kept.len() ==> (#[trigger] kept@[q]) < keys.len(),
            with_position(ord, before.take(j as int), i as int) + before.skip(j as int)
                == with_position(ord, before, i as int),
        decreases j,
    {
        proof {
            let head = before.take(j as int);
            assert(head.drop_last() =~= before.take(j - 1));
            assert(head.last() == before[j - 1]);
            assert(with_position(ord, before.take(j - 1), i as int).push(before[j - 1])
                + before.skip(j as int) =~= with_position(ord, before.take(j - 1), i as int)
                + before.skip(j - 1));
        }
        j -= 1;
    }
    kept.insert(j, i);
    proof {
        if j > 0 {
            assert(before.take(j as int).last() == before[j - 1]);
        }
        assert(ints(kept@) =~= before.take(j as int).push(i as int) + before.skip(j as int));
    }
}

/// Finds the first `k` things by their keys, in order, keeping no more than `k`
/// at a time.
pub fn best_positions<K: Ranked>(keys: &Vec<K>, k: usize) -> (r: Vec<usize>)
    ensures
        ints(r@) == best(rank_of(keys@), keys@.len(), k as nat),
        forall|q: int| 0 <= q < r.len() ==> (#[trigger] r@[q]) < keys.len(),
{
    let ghost ord = rank_of(keys@);
    let mut kept: Vec<usize> = Vec::new();
    assert(ints(kept@) =~= seq![]);
    if k == 0 {
        return kept;
    }
    let mut i: usize = 0;
    while i < keys.len()
        invariant
            ord == rank_of(keys@),
            k > 0,
            i <= keys.len(),
            ints(kept@) == best(ord, i as nat, k as nat),
            forall|q: int| 0 <= q < kept.len() ==> (#[trigger] kept@[q]) < keys.len(),
        decreases keys.len() - i,
    {
        if kept.len() < k {
            place(keys, &mut kept, i);
        } else {
            let last: usize = kept[kept.len() - 1];
            assert(ints(kept@).last() == last as int);
            if keys[i].compare(&keys[last]) == Order::Less {
                let ghost before = ints(kept@);
                let _ = kept.pop();
                assert(ints(kept@) =~= before.drop_last());
                place(keys, &mut kept, i);
            }
        }
        i += 1;
    }
    kept
}

// ── Laws ───────────────────────────────────────────────────────────────────

/// Whether an order is consistent on the positions below `n`: equal to itself,
/// turned around with the positions, and transitive.
pub open spec fn is_consistent(ord: spec_fn(int, int) -> Order, n: nat) -> bool {
    &&& forall|i: int| 0 <= i < n ==> #[trigger] ord(i, i) == Order::Equal
    &&& forall|i: int, j: int|
        0 <= i < n && 0 <= j < n ==> (#[trigger] ord(i, j) == Order::Less) == (ord(j, i)
            == Order::Greater)
    &&& forall|i: int, j: int, k: int|
        0 <= i < n && 0 <= j < n && 0 <= k < n && #[trigger] ord(i, j) != Order::Greater
            && #[trigger] ord(j, k) != Order::Greater ==> ord(i, k) != Order::Greater
}

/// Whether a position goes before another: by the order, and by where they stand
/// if they are equal in order.
pub open spec fn goes_before(ord: spec_fn(int, int) -> Order, i: int, j: int) -> bool {
    ord(i, j) == Order::Less || (ord(i, j) == Order::Equal && i < j)
}

/// Whether each of some positions goes before those behind it.
pub open spec fn in_order(ord: spec_fn(int, int) -> Order, s: Seq<int>) -> bool {
    forall|p: int, q: int|
        0 <= p < q < s.len() ==> goes_before(ord, #[trigger] s[p], #[trigger] s[q])
}

/// Whether some positions are below `n`.
pub open spec fn all_below(s: Seq<int>, n: nat) -> bool {
    forall|p: int| 0 <= p < s.len() ==> 0 <= #[trigger] s[p] < n
}

/// Merging two lists in order, all of the first standing before all of the second,
/// gives one list in order.
proof fn lemma_merged(ord: spec_fn(int, int) -> Order, n: nat, a: Seq<int>, b: Seq<int>)
    requires
        is_consistent(ord, n),
        all_below(a, n),
        all_below(b, n),
        in_order(ord, a),
        in_order(ord, b),
        forall|p: int, q: int|
            0 <= p < a.len() && 0 <= q < b.len() ==> #[trigger] a[p] < #[trigger] b[q],
    ensures
        in_order(ord, merged(ord, a, b)),
        all_below(merged(ord, a, b), n),
        merged(ord, a, b).len() == a.len() + b.len(),
        forall|x: int| #[trigger] merged(ord, a, b).contains(x) <==> a.contains(x) || b.contains(x),
    decreases a.len() + b.len(),
{
    let m = merged(ord, a, b);
    if a.len() == 0 {
        assert forall|x: int| #[trigger] m.contains(x) <==> a.contains(x) || b.contains(x) by {}
    } else if b.len() == 0 {
        assert forall|x: int| #[trigger] m.contains(x) <==> a.contains(x) || b.contains(x) by {}
    } else if ord(a[0], b[0]) == Order::Greater {
        let rest = merged(ord, a, b.skip(1));
        lemma_merged(ord, n, a, b.skip(1));
        assert(m =~= seq![b[0]] + rest);
        assert forall|q: int| 0 <= q < rest.len() implies goes_before(
            ord,
            b[0],
            #[trigger] rest[q],
        ) by {
            let x = rest[q];
            assert(rest.contains(x));
            if a.contains(x) {
                let p = choose|p: int| 0 <= p < a.len() && a[p] == x;
                assert(ord(b[0], a[0]) == Order::Less);
                assert(ord(a[0], a[p]) != Order::Greater);
                assert(ord(b[0], a[p]) != Order::Greater);
                if ord(b[0], a[p]) == Order::Equal {
                    assert(ord(a[p], b[0]) != Order::Greater);
                    assert(ord(a[0], b[0]) != Order::Greater);
                }
            } else {
                let p = choose|p: int| 0 <= p < b.skip(1).len() && b.skip(1)[p] == x;
                assert(b[p + 1] == x);
            }
        }
        lemma_front(m, b[0], rest);
        assert forall|x: int| #[trigger] m.contains(x) <==> a.contains(x) || b.contains(x) by {
            lemma_front(b, b[0], b.skip(1));
        }
    } else {
        let rest = merged(ord, a.skip(1), b);
        lemma_merged(ord, n, a.skip(1), b);
        assert(m =~= seq![a[0]] + rest);
        assert forall|q: int| 0 <= q < rest.len() implies goes_before(
            ord,
            a[0],
            #[trigger] rest[q],
        ) by {
            let x = rest[q];
            assert(rest.contains(x));
            if b.contains(x) {
                let p = choose|p: int| 0 <= p < b.len() && b[p] == x;
                assert(ord(b[0], b[p]) != Order::Greater);
                assert(ord(a[0], b[p]) != Order::Greater);
            } else {
                let p = choose|p: int| 0 <= p < a.skip(1).len() && a.skip(1)[p] == x;
                assert(a[p + 1] == x);
            }
        }
        lemma_front(m, a[0], rest);
        assert forall|x: int| #[trigger] m.contains(x) <==> a.contains(x) || b.contains(x) by {
            lemma_front(a, a[0], a.skip(1));
        }
    }
}

/// What a list with a first element holds.
proof fn lemma_front(s: Seq<int>, first: int, rest: Seq<int>)
    requires
        s =~= seq![first] + rest,
    ensures
        forall|x: int| #[trigger] s.contains(x) <==> x == first || rest.contains(x),
{
    assert forall|x: int| #[trigger] s.contains(x) <==> x == first || rest.contains(x) by {
        if s.contains(x) {
            let p = choose|p: int| 0 <= p < s.len() && s[p] == x;
            if p > 0 {
                assert(rest[p - 1] == x);
            }
        }
        if rest.contains(x) {
            let p = choose|p: int| 0 <= p < rest.len() && rest[p] == x;
            assert(s[p + 1] == x);
        }
        assert(s[0] == first);
    }
}

/// Putting ascending positions in order.
proof fn lemma_sorted(ord: spec_fn(int, int) -> Order, n: nat, s: Seq<int>)
    requires
        is_consistent(ord, n),
        all_below(s, n),
        forall|p: int, q: int| 0 <= p < q < s.len() ==> #[trigger] s[p] < #[trigger] s[q],
    ensures
        in_order(ord, sorted(ord, s)),
        all_below(sorted(ord, s), n),
        sorted(ord, s).len() == s.len(),
        forall|x: int| #[trigger] sorted(ord, s).contains(x) <==> s.contains(x),
    decreases s.len(),
{
    if s.len() >= 2 {
        let h = s.len() as int / 2;
        let l = s.take(h);
        let r = s.skip(h);
        lemma_sorted(ord, n, l);
        lemma_sorted(ord, n, r);
        let a = sorted(ord, l);
        let b = sorted(ord, r);
        assert forall|p: int, q: int| 0 <= p < a.len() && 0 <= q < b.len() implies #[trigger] a[p]
            < #[trigger] b[q] by {
            assert(a.contains(a[p]) && b.contains(b[q]));
            let i = choose|i: int| 0 <= i < l.len() && l[i] == a[p];
            let j = choose|j: int| 0 <= j < r.len() && r[j] == b[q];
            assert(s[i] == a[p] && s[h + j] == b[q]);
        }
        lemma_merged(ord, n, a, b);
        assert forall|x: int| #[trigger] sorted(ord, s).contains(x) <==> s.contains(x) by {
            if l.contains(x) {
                let i = choose|i: int| 0 <= i < l.len() && l[i] == x;
                assert(s[i] == x);
            }
            if r.contains(x) {
                let j = choose|j: int| 0 <= j < r.len() && r[j] == x;
                assert(s[h + j] == x);
            }
            if s.contains(x) {
                let i = choose|i: int| 0 <= i < s.len() && s[i] == x;
                if i < h {
                    assert(l[i] == x);
                } else {
                    assert(r[i - h] == x);
                }
            }
        }
    }
}

/// Things put in order by a consistent order are all there, once each, and each goes
/// before those behind it; those that are equal in order keep their order.
pub proof fn law_sorted(ord: spec_fn(int, int) -> Order, n: nat)
    requires
        is_consistent(ord, n),
    ensures
        sorted(ord, positions(n)).len() == n,
        in_order(ord, sorted(ord, positions(n))),
        forall|i: int| #[trigger] sorted(ord, positions(n)).contains(i) <==> 0 <= i < n,
{
    lemma_sorted(ord, n, positions(n));
    assert forall|i: int| #[trigger] sorted(ord, positions(n)).contains(i) <==> 0 <= i < n by {
        if 0 <= i < n {
            assert(positions(n)[i] == i);
        }
    }
}

/// Putting one more position among those in order.
proof fn lemma_with_position(ord: spec_fn(int, int) -> Order, n: nat, s: Seq<int>, i: int)
    requires
        is_consistent(ord, n),
        0 <= i < n,
        all_below(s, i as nat),
        in_order(ord, s),
    ensures
        in_order(ord, with_position(ord, s, i)),
        with_position(ord, s, i).len() == s.len() + 1,
        forall|x: int| #[trigger] with_position(ord, s, i).contains(x) <==> s.contains(x) || x == i,
    decreases s.len(),
{
    let w = with_position(ord, s, i);
    if s.len() > 0 && ord(s.last(), i) == Order::Greater {
        let rest = with_position(ord, s.drop_last(), i);
        lemma_with_position(ord, n, s.drop_last(), i);
        assert(ord(i, s.last()) == Order::Less);
        assert forall|p: int| 0 <= p < rest.len() implies goes_before(
            ord,
            #[trigger] rest[p],
            s.last(),
        ) by {
            assert(rest.contains(rest[p]));
            if rest[p] != i {
                let q = choose|q: int| 0 <= q < s.drop_last().len() && s.drop_last()[q] == rest[p];
                assert(s[q] == rest[p]);
            }
        }
        assert forall|x: int| #[trigger] w.contains(x) <==> s.contains(x) || x == i by {
            if w.contains(x) {
                let p = choose|p: int| 0 <= p < w.len() && w[p] == x;
                if p < rest.len() {
                    assert(rest[p] == x);
                    assert(rest.contains(x));
                    if s.drop_last().contains(x) {
                        let q = choose|q: int| 0 <= q < s.drop_last().len() && s.drop_last()[q] == x;
                        assert(s[q] == x);
                    }
                } else {
                    assert(s[s.len() - 1] == x);
                }
            }
            if s.contains(x) || x == i {
                if s.contains(x) && x != i {
                    let q = choose|q: int| 0 <= q < s.len() && s[q] == x;
                    if q < s.len() - 1 {
                        assert(s.drop_last()[q] == x);
                        assert(rest.contains(x));
                    } else {
                        assert(w[w.len() - 1] == x);
                    }
                } else {
                    assert(rest.contains(x));
                }
                if rest.contains(x) {
                    let p = choose|p: int| 0 <= p < rest.len() && rest[p] == x;
                    assert(w[p] == x);
                }
            }
        }
    } else {
        assert forall|p: int| 0 <= p < s.len() implies goes_before(ord, #[trigger] s[p], i) by {
            assert(0 <= s[p] < i);
            let last = s[s.len() - 1];
            if p < s.len() - 1 {
                assert(goes_before(ord, s[p], last));
            }
            assert(ord(s[p], last) != Order::Greater);
            assert(ord(last, i) != Order::Greater);
            assert(ord(s[p], i) != Order::Greater);
        }
        assert forall|x: int| #[trigger] w.contains(x) <==> s.contains(x) || x == i by {
            if s.contains(x) {
                let q = choose|q: int| 0 <= q < s.len() && s[q] == x;
                assert(w[q] == x);
            }
            assert(w[s.len() as int] == i);
        }
    }
}

/// The first `k` things by a consistent order are as many as there can be, each goes
/// before those behind it, and each goes before all that were left out.
pub proof fn law_best(ord: spec_fn(int, int) -> Order, n: nat, k: nat)
    requires
        is_consistent(ord, n),
    ensures
        best(ord, n, k).len() == if n < k {
            n
        } else {
            k
        },
        in_order(ord, best(ord, n, k)),
        all_below(best(ord, n, k), n),
        forall|i: int, p: int|
            0 <= i < n && !(#[trigger] best(ord, n, k).contains(i)) && 0 <= p < best(
                ord,
                n,
                k,
            ).len() ==> goes_before(ord, #[trigger] best(ord, n, k)[p], i),
    decreases n,
{
    if n > 0 && k > 0 {
        let i = n - 1;
        let kept = best(ord, i as nat, k);
        let now = best(ord, n, k);
        assert(is_consistent(ord, i as nat));
        law_best(ord, i as nat, k);
        if kept.len() < k {
            lemma_with_position(ord, n, kept, i);
            lemma_full(ord, n, kept);
            assert forall|p: int| 0 <= p < now.len() implies 0 <= #[trigger] now[p] < n by {
                assert(now.contains(now[p]));
                if now[p] != i {
                    let q = choose|q: int| 0 <= q < kept.len() && kept[q] == now[p];
                    assert(0 <= kept[q] < i);
                }
            }
        } else if ord(i, kept.last()) == Order::Less {
            let rest = kept.drop_last();
            let last = kept.last();
            assert(kept[kept.len() - 1] == last);
            lemma_with_position(ord, n, rest, i);
            assert forall|p: int| 0 <= p < now.len() implies 0 <= #[trigger] now[p] < n by {
                assert(now.contains(now[p]));
                if now[p] != i {
                    let q = choose|q: int| 0 <= q < rest.len() && rest[q] == now[p];
                    assert(0 <= kept[q] < i);
                }
            }
            assert forall|l: int, p: int|
                0 <= l < n && !(#[trigger] now.contains(l)) && 0 <= p < now.len() implies goes_before(
                ord,
                #[trigger] now[p],
                l,
            ) by {
                assert(l != i);
                assert(now.contains(now[p]));
                if now[p] != i {
                    let q = choose|q: int| 0 <= q < rest.len() && rest[q] == now[p];
                    assert(kept[q] == now[p]);
                    if l != last {
                        if kept.contains(l) {
                            let t = choose|t: int| 0 <= t < kept.len() && kept[t] == l;
                            assert(rest[t] == l);
                        }
                    }
                } else {
                    assert(ord(last, i) == Order::Greater);
                    if l != last {
                        if kept.contains(l) {
                            let t = choose|t: int| 0 <= t < kept.len() && kept[t] == l;
                            assert(rest[t] == l);
                        }
                        assert(goes_before(ord, kept[kept.len() - 1], l));
                        assert(ord(last, l) != Order::Greater);
                        assert(ord(i, last) != Order::Greater);
                        assert(ord(i, l) != Order::Greater);
                        if ord(i, l) == Order::Equal {
                            assert(ord(l, i) != Order::Greater);
                            assert(ord(last, i) != Order::Greater);
                        }
                    }
                }
            }
        } else {
            let last = kept.last();
            assert(kept[kept.len() - 1] == last);
            assert(ord(last, i) != Order::Greater);
            assert forall|l: int, p: int|
                0 <= l < n && !(#[trigger] now.contains(l)) && 0 <= p < now.len() implies goes_before(
                ord,
                #[trigger] now[p],
                l,
            ) by {
                if l == i {
                    if p < kept.len() - 1 {
                        assert(goes_before(ord, kept[p], kept[kept.len() - 1]));
                    }
                    assert(ord(kept[p], last) != Order::Greater);
                    assert(ord(kept[p], i) != Order::Greater);
                }
            }
        }
    }
}

/// As many positions in order as there are below a number are all of them.
proof fn lemma_full(ord: spec_fn(int, int) -> Order, n: nat, kept: Seq<int>)
    requires
        n > 0,
        is_consistent(ord, n),
        all_below(kept, (n - 1) as nat),
        in_order(ord, kept),
        kept.len() == n - 1,
    ensures
        forall|i: int| 0 <= i < n - 1 ==> #[trigger] kept.contains(i),
{
    assert(kept.no_duplicates()) by {
        assert forall|p: int, q: int|
            0 <= p < kept.len() && 0 <= q < kept.len() && p != q implies kept[p] != kept[q] by {
            if p < q {
                assert(goes_before(ord, kept[p], kept[q]));
            } else {
                assert(goes_before(ord, kept[q], kept[p]));
            }
        }
    }
    let all = vstd::set_lib::set_int_range(0, n - 1);
    vstd::set_lib::lemma_int_range(0, n - 1);
    kept.unique_seq_to_set();
    assert(kept.to_set().subset_of(all));
    vstd::set_lib::lemma_subset_equality(kept.to_set(), all);
    assert forall|i: int| 0 <= i < n - 1 implies #[trigger] kept.contains(i) by {
        assert(all.contains(i));
    }
}

/// The first `k` things by a consistent order are those that come first when all are
/// put in order.
pub proof fn law_best_is_first(ord: spec_fn(int, int) -> Order, n: nat, k: nat)
    requires
        is_consistent(ord, n),
    ensures
        best(ord, n, k) == sorted(ord, positions(n)).take(
            if k < n {
                k as int
            } else {
                n as int
            },
        ),
{
    law_sorted(ord, n);
    law_best(ord, n, k);
    let s = sorted(ord, positions(n));
    let b = best(ord, n, k);
    lemma_same_start(ord, n, s, b, b.len());
    assert(b =~= s.take(b.len() as int));
}

/// Two lists in order, the one of all positions and the other of the first of them,
/// start alike.
proof fn lemma_same_start(
    ord: spec_fn(int, int) -> Order,
    n: nat,
    s: Seq<int>,
    b: Seq<int>,
    m: nat,
)
    requires
        is_consistent(ord, n),
        in_order(ord, s),
        in_order(ord, b),
        all_below(b, n),
        s.len() == n,
        forall|i: int| #[trigger] s.contains(i) <==> 0 <= i < n,
        forall|i: int, p: int|
            0 <= i < n && !(#[trigger] b.contains(i)) && 0 <= p < b.len() ==> goes_before(
                ord,
                #[trigger] b[p],
                i,
            ),
        m <= b.len() <= n,
    ensures
        forall|p: int| 0 <= p < m ==> #[trigger] s[p] == b[p],
    decreases m,
{
    if m > 0 {
        lemma_same_start(ord, n, s, b, (m - 1) as nat);
        let p = m - 1;
        assert(s.contains(s[p]));
        assert(s.contains(b[p]));
        let q = choose|q: int| 0 <= q < s.len() && s[q] == b[p];
        if q < p {
            assert(s[q] == b[q]);
            assert(goes_before(ord, b[q], b[p]));
        } else if q > p {
            assert(goes_before(ord, s[p], s[q]));
            if b.contains(s[p]) {
                let r = choose|r: int| 0 <= r < b.len() && b[r] == s[p];
                if r < p {
                    assert(s[r] == b[r]);
                    assert(goes_before(ord, s[r], s[p]));
                } else if r > p {
                    assert(goes_before(ord, b[p], b[r]));
                }
            } else {
                assert(goes_before(ord, b[p], s[p]));
            }
        }
    }
}

/// Orders that agree on some positions put them in the same order.
pub proof fn lemma_sorted_same(
    f: spec_fn(int, int) -> Order,
    g: spec_fn(int, int) -> Order,
    n: nat,
    s: Seq<int>,
)
    requires
        all_below(s, n),
        forall|i: int, j: int| 0 <= i < n && 0 <= j < n ==> #[trigger] f(i, j) == g(i, j),
    ensures
        sorted(f, s) == sorted(g, s),
        all_below(sorted(f, s), n),
    decreases s.len(),
{
    if s.len() >= 2 {
        let h = s.len() as int / 2;
        lemma_sorted_same(f, g, n, s.take(h));
        lemma_sorted_same(f, g, n, s.skip(h));
        lemma_merged_same(f, g, n, sorted(f, s.take(h)), sorted(f, s.skip(h)));
    }
}

/// Orders that agree on some positions merge them in the same way.
proof fn lemma_merged_same(
    f: spec_fn(int, int) -> Order,
    g: spec_fn(int, int) -> Order,
    n: nat,
    a: Seq<int>,
    b: Seq<int>,
)
    requires
        all_below(a, n),
        all_below(b, n),
        forall|i: int, j: int| 0 <= i < n && 0 <= j < n ==> #[trigger] f(i, j) == g(i, j),
    ensures
        merged(f, a, b) == merged(g, a, b),
        all_below(merged(f, a, b), n),
    decreases a.len() + b.len(),
{
    if a.len() > 0 && b.len() > 0 {
        assert(f(a[0], b[0]) == g(a[0], b[0]));
        if f(a[0], b[0]) == Order::Greater {
            lemma_merged_same(f, g, n, a, b.skip(1));
        } else {
            lemma_merged_same(f, g, n, a.skip(1), b);
        }
    }
}

/// Orders that agree on some positions find the same first ones.
pub proof fn lemma_best_same(
    f: spec_fn(int, int) -> Order,
    g: spec_fn(int, int) -> Order,
    n: nat,
    k: nat,
)
    requires
        forall|i: int, j: int| 0 <= i < n && 0 <= j < n ==> #[trigger] f(i, j) == g(i, j),
    ensures
        best(f, n, k) == best(g, n, k),
        all_below(best(f, n, k), n),
    decreases n,
{
    if n > 0 && k > 0 {
        let i = n - 1;
        lemma_best_same(f, g, i as nat, k);
        let kept = best(f, i as nat, k);
        lemma_with_position_same(f, g, n, kept, i);
        if kept.len() > 0 {
            assert(0 <= kept[kept.len() - 1] < n);
            assert(f(i, kept.last()) == g(i, kept.last()));
            lemma_with_position_same(f, g, n, kept.drop_last(), i);
        }
    }
}

/// Orders that agree on some positions place one more alike.
proof fn lemma_with_position_same(
    f: spec_fn(int, int) -> Order,
    g: spec_fn(int, int) -> Order,
    n: nat,
    s: Seq<int>,
    i: int,
)
    requires
        0 <= i < n,
        all_below(s, n),
        forall|i: int, j: int| 0 <= i < n && 0 <= j < n ==> #[trigger] f(i, j) == g(i, j),
    ensures
        with_position(f, s, i) == with_position(g, s, i),
        all_below(with_position(f, s, i), n),
    decreases s.len(),
{
    if s.len() > 0 {
        assert(0 <= s[s.len() - 1] < n);
        assert(f(s.last(), i) == g(s.last(), i));
        lemma_with_position_same(f, g, n, s.drop_last(), i);
    }
}

} // verus!
