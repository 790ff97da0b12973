//! Putting things in order: by priority, and by name where that does not decide.

use crate::text::chars_of;
use vstd::prelude::*;

verus! {

/// What something is put in order by.
pub type Rank = (int, Seq<char>);

/// Whether one text comes before another.
pub open spec fn reads_before(a: Seq<char>, b: Seq<char>) -> bool
    decreases b.len(),
{
    if b.len() == 0 {
        false
    } else if a.len() == 0 {
        true
    } else {
        a[0] < b[0] || (a[0] == b[0] && reads_before(a.skip(1), b.skip(1)))
    }
}

/// Whether one thing comes before another. Ties break by name, so that the order is stable across
/// redraws rather than depending on what happened to load first.
pub open spec fn comes_before(a: Rank, b: Rank) -> bool {
    a.0 < b.0 || (a.0 == b.0 && reads_before(a.1, b.1))
}

fn earlier(a: &str, b: &str) -> (r: bool)
    ensures
        r == reads_before(a@, b@),
{
    let x = chars_of(a);
    let y = chars_of(b);
    let mut i: usize = 0;
    assert(a@.skip(0) =~= a@);
    assert(b@.skip(0) =~= b@);
    loop
        invariant
            x@ == a@,
            y@ == b@,
            i <= x@.len(),
            i <= y@.len(),
            reads_before(a@, b@) == reads_before(a@.skip(i as int), b@.skip(i as int)),
        decreases x@.len() - i,
    {
        if i >= y.len() {
            return false;
        }
        if i >= x.len() {
            return true;
        }
        proof {
            assert(a@.skip(i as int)[0] == x@[i as int]);
            assert(b@.skip(i as int)[0] == y@[i as int]);
            assert(a@.skip(i as int).skip(1) =~= a@.skip(i + 1));
            assert(b@.skip(i as int).skip(1) =~= b@.skip(i + 1));
        }
        if x[i] < y[i] {
            return true;
        }
        if x[i] != y[i] {
            return false;
        }
        i = i + 1;
    }
}

/// The ranks of some things.
pub open spec fn ranks(v: Seq<(i32, String)>) -> Seq<Rank> {
    v.map_values(|k: (i32, String)| (k.0 as int, k.1@))
}

/// Where `x` goes among some that are in order: after everything that does not come after it.
pub open spec fn put_in(order: Seq<int>, ks: Seq<Rank>, x: int) -> Seq<int>
    decreases order.len(),
{
    if order.len() == 0 {
        seq![x]
    } else if comes_before(ks[x], ks[order.last()]) {
        put_in(order.drop_last(), ks, x).push(order.last())
    } else {
        order.push(x)
    }
}

/// The first `n` things in order.
pub open spec fn in_rank(ks: Seq<Rank>, n: int) -> Seq<int>
    decreases n,
{
    if n <= 0 {
        seq![]
    } else {
        put_in(in_rank(ks, n - 1), ks, n - 1)
    }
}

/// Indices as plain numbers.
pub open spec fn indices(v: Seq<usize>) -> Seq<int> {
    v.map_values(|i: usize| i as int)
}

proof fn lemma_put_in(order: Seq<int>, ks: Seq<Rank>, x: int, p: int)
    requires
        0 <= p <= order.len(),
        forall|j: int| p <= j < order.len() ==> comes_before(ks[x], ks[#[trigger] order[j]]),
        p > 0 ==> !comes_before(ks[x], ks[order[p - 1]]),
    ensures
        put_in(order, ks, x) == order.insert(p, x),
    decreases order.len(),
{
    if p == order.len() {
        assert(order.insert(p, x) =~= order.push(x));
    } else {
        assert(comes_before(ks[x], ks[order[order.len() - 1]]));
        let less = order.drop_last();
        assert forall|j: int| p <= j < less.len() implies comes_before(
            ks[x],
            ks[#[trigger] less[j]],
        ) by {
            assert(less[j] == order[j]);
        }
        lemma_put_in(less, ks, x, p);
        assert(less.insert(p, x).push(order.last()) =~= order.insert(p, x));
    }
}

/// Some things in order, as where each is in the list.
pub fn rank(ks: &Vec<(i32, String)>) -> (r: Vec<usize>)
    ensures
        indices(r@) == in_rank(ranks(ks@), ks@.len() as int),
        r@.len() == ks@.len(),
        forall|i: int| 0 <= i < r@.len() ==> #[trigger] r@[i] < ks@.len(),
{
    let ghost rs = ranks(ks@);
    let mut r: Vec<usize> = Vec::new();
    let mut n: usize = 0;
    assert(indices(r@) =~= in_rank(rs, 0));
    while n < ks.len()
        invariant
            n <= ks@.len(),
            rs == ranks(ks@),
            r@.len() == n,
            forall|i: int| 0 <= i < r@.len() ==> #[trigger] r@[i] < n,
            indices(r@) == in_rank(rs, n as int),
        decreases ks@.len() - n,
    {
        let mut p: usize = r.len();
        while p > 0 && before(&ks[n], &ks[r[p - 1]])
            invariant
                p <= r@.len(),
                r@.len() == n,
                n < ks@.len(),
                rs == ranks(ks@),
                forall|i: int| 0 <= i < r@.len() ==> #[trigger] r@[i] < n,
                forall|j: int|
                    p <= j < r@.len() ==> comes_before(rs[n as int], rs[#[trigger] r@[j] as int]),
            decreases p,
        {
            p = p - 1;
        }
        let ghost order = indices(r@);
        proof {
            assert forall|j: int| p <= j < order.len() implies comes_before(
                rs[n as int],
                rs[#[trigger] order[j]],
            ) by {
                assert(order[j] == r@[j]);
            }
            if p > 0 {
                assert(order[p - 1] == r@[p - 1]);
            }
            lemma_put_in(order, rs, n as int, p as int);
        }
        let ghost was = r@;
        r.insert(p, n);
        proof {
            assert(indices(r@) =~= order.insert(p as int, n as int));
            assert forall|i: int| 0 <= i < r@.len() implies #[trigger] r@[i] < n + 1 by {
                if i < p {
                    assert(r@[i] == was[i]);
                } else if i > p {
                    assert(r@[i] == was[i - 1]);
                }
            }
        }
        n = n + 1;
    }
    r
}

fn before(a: &(i32, String), b: &(i32, String)) -> (r: bool)
    ensures
        r == comes_before((a.0 as int, a.1@), (b.0 as int, b.1@)),
{
    a.0 < b.0 || (a.0 == b.0 && earlier(a.1.as_str(), b.1.as_str()))
}

// ---- the order is one -------------------------------------------------------

proof fn lemma_reads_before_trans(a: Seq<char>, b: Seq<char>, c: Seq<char>)
    requires
        !reads_before(b, a),
        !reads_before(c, b),
    ensures
        !reads_before(c, a),
    decreases a.len(),
{
    if a.len() > 0 {
        if b.len() > 0 && c.len() > 0 {
            if a[0] == b[0] && b[0] == c[0] {
                lemma_reads_before_trans(a.skip(1), b.skip(1), c.skip(1));
            }
        }
    }
}

proof fn lemma_comes_before_trans(a: Rank, b: Rank, c: Rank)
    requires
        !comes_before(b, a),
        !comes_before(c, b),
    ensures
        !comes_before(c, a),
{
    if a.0 == b.0 && b.0 == c.0 {
        lemma_reads_before_trans(a.1, b.1, c.1);
    }
}

proof fn lemma_reads_before_irrefl(a: Seq<char>, b: Seq<char>)
    requires
        reads_before(a, b),
    ensures
        !reads_before(b, a),
    decreases b.len(),
{
    if a.len() > 0 && a[0] == b[0] {
        lemma_reads_before_irrefl(a.skip(1), b.skip(1));
    }
}

/// Whether nothing in a list comes before what stands ahead of it.
pub open spec fn is_ranked(order: Seq<int>, ks: Seq<Rank>) -> bool {
    forall|i: int, j: int|
        0 <= i < j < order.len() ==> !comes_before(ks[#[trigger] order[j]], ks[#[trigger] order[i]])
}

proof fn lemma_put_in_ranked(order: Seq<int>, ks: Seq<Rank>, x: int)
    requires
        is_ranked(order, ks),
    ensures
        is_ranked(put_in(order, ks, x), ks),
        put_in(order, ks, x).to_multiset() =~= order.to_multiset().insert(x),
    decreases order.len(),
{
    broadcast use vstd::seq_lib::group_to_multiset_ensures;

    let r = put_in(order, ks, x);
    if order.len() == 0 {
        assert(order.push(x) =~= r);
    } else {
        let last = order.last();
        let less = order.drop_last();
        assert(is_ranked(less, ks)) by {
            assert forall|i: int, j: int| 0 <= i < j < less.len() implies !comes_before(
                ks[#[trigger] less[j]],
                ks[#[trigger] less[i]],
            ) by {
                assert(less[i] == order[i] && less[j] == order[j]);
            }
        }
        assert(less.push(last) =~= order);
        if comes_before(ks[x], ks[last]) {
            lemma_put_in_ranked(less, ks, x);
            let q = put_in(less, ks, x);
            assert forall|i: int, j: int| 0 <= i < j < r.len() implies !comes_before(
                ks[#[trigger] r[j]],
                ks[#[trigger] r[i]],
            ) by {
                assert(r[i] == q[i]);
                if j < q.len() {
                    assert(r[j] == q[j]);
                } else {
                    assert(r[j] == last);
                    assert(q.to_multiset().contains(q[i]));
                    assert(less.to_multiset().insert(x).contains(q[i]));
                    if q[i] == x {
                        if ks[x].0 == ks[last].0 {
                            lemma_reads_before_irrefl(ks[x].1, ks[last].1);
                        }
                    } else {
                        assert(less.to_multiset().contains(q[i]));
                        assert(less.contains(q[i]));
                        let k = choose|k: int| 0 <= k < less.len() && less[k] == q[i];
                        assert(order[k] == q[i]);
                        assert(order[order.len() - 1] == last);
                    }
                }
            }
        } else {
            assert forall|i: int, j: int| 0 <= i < j < r.len() implies !comes_before(
                ks[#[trigger] r[j]],
                ks[#[trigger] r[i]],
            ) by {
                assert(r[i] == order[i]);
                if j < order.len() {
                    assert(r[j] == order[j]);
                } else if i < order.len() - 1 {
                    assert(order[order.len() - 1] == last);
                    lemma_comes_before_trans(ks[order[i]], ks[last], ks[x]);
                }
            }
        }
    }
}

/// The order is one: each thing is in it once, and nothing comes before what stands ahead of it.
pub proof fn the_order_is_one(ks: Seq<Rank>, n: int)
    requires
        0 <= n <= ks.len(),
    ensures
        is_ranked(in_rank(ks, n), ks),
        in_rank(ks, n).to_multiset() =~= Seq::new(n as nat, |i: int| i).to_multiset(),
    decreases n,
{
    broadcast use vstd::seq_lib::group_to_multiset_ensures;

    if n > 0 {
        the_order_is_one(ks, n - 1);
        lemma_put_in_ranked(in_rank(ks, n - 1), ks, n - 1);
        let less = Seq::new((n - 1) as nat, |i: int| i);
        assert(less.push(n - 1) =~= Seq::new(n as nat, |i: int| i));
    } else {
        assert(in_rank(ks, n) =~= Seq::new(0, |i: int| i));
    }
}

} // verus!
