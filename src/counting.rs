use vstd::multiset::Multiset;
use vstd::prelude::*;

verus! {

/// How many items of `s` satisfy `p`.
pub open spec fn count_where<A>(s: Seq<A>, p: spec_fn(A) -> bool) -> nat
    decreases s.len(),
{
    if s.len() == 0 {
        0
    } else {
        count_where(s.drop_last(), p) + if p(s.last()) {
            1nat
        } else {
            0nat
        }
    }
}

/// How many items of the rows of `g`, taken together, satisfy `p`.
pub open spec fn count_in_rows<A>(g: Seq<Seq<A>>, p: spec_fn(A) -> bool) -> nat
    decreases g.len(),
{
    if g.len() == 0 {
        0
    } else {
        count_in_rows(g.drop_last(), p) + count_where(g.last(), p)
    }
}

/// How many `true` entries `s` holds.
pub open spec fn count_true(s: Seq<bool>) -> nat {
    count_where(s, |b: bool| b)
}

pub proof fn lemma_count_push<A>(s: Seq<A>, a: A, p: spec_fn(A) -> bool)
    ensures
        count_where(s.push(a), p) == count_where(s, p) + if p(a) {
            1nat
        } else {
            0nat
        },
{
    assert(s.push(a).drop_last() =~= s);
}

pub proof fn lemma_count_concat<A>(s: Seq<A>, t: Seq<A>, p: spec_fn(A) -> bool)
    ensures
        count_where(s + t, p) == count_where(s, p) + count_where(t, p),
    decreases t.len(),
{
    if t.len() == 0 {
        assert(s + t =~= s);
    } else {
        assert((s + t).drop_last() =~= s + t.drop_last());
        lemma_count_concat(s, t.drop_last(), p);
    }
}

pub proof fn lemma_count_bound<A>(s: Seq<A>, p: spec_fn(A) -> bool)
    ensures
        count_where(s, p) <= s.len(),
    decreases s.len(),
{
    if s.len() > 0 {
        lemma_count_bound(s.drop_last(), p);
    }
}

/// Replacing one item changes the count by what the old and new item contribute.
pub proof fn lemma_count_update<A>(s: Seq<A>, i: int, v: A, p: spec_fn(A) -> bool)
    requires
        0 <= i < s.len(),
    ensures
        count_where(s.update(i, v), p) + (if p(s[i]) {
            1int
        } else {
            0int
        }) == count_where(s, p) + if p(v) {
            1int
        } else {
            0int
        },
    decreases s.len(),
{
    if i == s.len() - 1 {
        assert(s.update(i, v).drop_last() =~= s.drop_last());
    } else {
        assert(s.update(i, v).drop_last() =~= s.drop_last().update(i, v));
        lemma_count_update(s.drop_last(), i, v, p);
    }
}

/// Two sequences that agree item by item on their predicates have equal counts.
pub proof fn lemma_count_same<A, B>(s: Seq<A>, t: Seq<B>, p: spec_fn(A) -> bool, q: spec_fn(B) -> bool)
    requires
        s.len() == t.len(),
        forall|i: int| 0 <= i < s.len() ==> p(s[i]) == q(t[i]),
    ensures
        count_where(s, p) == count_where(t, q),
    decreases s.len(),
{
    if s.len() > 0 {
        lemma_count_same(s.drop_last(), t.drop_last(), p, q);
    }
}

/// A predicate implied item by item counts no more.
pub proof fn lemma_count_le<A>(s: Seq<A>, p: spec_fn(A) -> bool, q: spec_fn(A) -> bool)
    requires
        forall|i: int| 0 <= i < s.len() && p(s[i]) ==> q(s[i]),
    ensures
        count_where(s, p) <= count_where(s, q),
    decreases s.len(),
{
    if s.len() > 0 {
        lemma_count_le(s.drop_last(), p, q);
    }
}

/// The count of `true` entries is the multiplicity of `true` in the multiset.
pub proof fn lemma_count_true_multiset(s: Seq<bool>)
    ensures
        count_true(s) == s.to_multiset().count(true),
    decreases s.len(),
{
    broadcast use vstd::seq_lib::group_to_multiset_ensures;

    if s.len() == 0 {
        assert(s.to_multiset() =~= Multiset::empty());
    } else {
        lemma_count_true_multiset(s.drop_last());
        assert(s.drop_last().push(s.last()) =~= s);
    }
}

pub proof fn lemma_rows_push<A>(g: Seq<Seq<A>>, row: Seq<A>, p: spec_fn(A) -> bool)
    ensures
        count_in_rows(g.push(row), p) == count_in_rows(g, p) + count_where(row, p),
{
    assert(g.push(row).drop_last() =~= g);
}

/// Replacing one row changes the total by the difference of the two rows' counts.
pub proof fn lemma_rows_update<A>(g: Seq<Seq<A>>, i: int, row: Seq<A>, p: spec_fn(A) -> bool)
    requires
        0 <= i < g.len(),
    ensures
        count_in_rows(g.update(i, row), p) + count_where(g[i], p) == count_in_rows(g, p)
            + count_where(row, p),
    decreases g.len(),
{
    if i == g.len() - 1 {
        assert(g.update(i, row).drop_last() =~= g.drop_last());
    } else {
        assert(g.update(i, row).drop_last() =~= g.drop_last().update(i, row));
        lemma_rows_update(g.drop_last(), i, row, p);
    }
}

/// Two grids of the same shape that agree cell by cell on their predicates have
/// equal counts.
pub proof fn lemma_rows_same<A, B>(
    g: Seq<Seq<A>>,
    h: Seq<Seq<B>>,
    p: spec_fn(A) -> bool,
    q: spec_fn(B) -> bool,
)
    requires
        g.len() == h.len(),
        forall|i: int| 0 <= i < g.len() ==> (#[trigger] g[i]).len() == h[i].len(),
        forall|i: int, j: int|
            0 <= i < g.len() && 0 <= j < g[i].len() ==> p(#[trigger] g[i][j]) == q(h[i][j]),
    ensures
        count_in_rows(g, p) == count_in_rows(h, q),
    decreases g.len(),
{
    if g.len() > 0 {
        let k = g.len() - 1;
        assert(g[k].len() == h[k].len());
        assert forall|j: int| 0 <= j < g.last().len() implies p(g.last()[j]) == q(h.last()[j]) by {
            assert(p(g[k][j]) == q(h[k][j]));
        }
        lemma_count_same(g.last(), h.last(), p, q);
        lemma_rows_same(g.drop_last(), h.drop_last(), p, q);
    }
}

/// A predicate implied cell by cell counts no more over a grid.
pub proof fn lemma_rows_le<A>(g: Seq<Seq<A>>, p: spec_fn(A) -> bool, q: spec_fn(A) -> bool)
    requires
        forall|i: int, j: int|
            0 <= i < g.len() && 0 <= j < g[i].len() && p(#[trigger] g[i][j]) ==> q(g[i][j]),
    ensures
        count_in_rows(g, p) <= count_in_rows(g, q),
    decreases g.len(),
{
    if g.len() > 0 {
        let k = g.len() - 1;
        assert forall|j: int| 0 <= j < g.last().len() && p(g.last()[j]) implies q(g.last()[j]) by {
            assert(p(g[k][j]));
        }
        lemma_count_le(g.last(), p, q);
        lemma_rows_le(g.drop_last(), p, q);
    }
}

/// Where exactly one of two predicates holds of each item, their counts add up
/// to the length.
pub proof fn lemma_count_split<A>(s: Seq<A>, p: spec_fn(A) -> bool, q: spec_fn(A) -> bool)
    requires
        forall|i: int| 0 <= i < s.len() ==> p(s[i]) != q(s[i]),
    ensures
        count_where(s, p) + count_where(s, q) == s.len(),
    decreases s.len(),
{
    if s.len() > 0 {
        lemma_count_split(s.drop_last(), p, q);
    }
}

pub proof fn lemma_rows_zero<A>(g: Seq<Seq<A>>)
    ensures
        count_in_rows(g, |a: A| false) == 0,
    decreases g.len(),
{
    if g.len() > 0 {
        lemma_count_zero(g.last());
        lemma_rows_zero(g.drop_last());
    }
}

pub proof fn lemma_count_zero<A>(s: Seq<A>)
    ensures
        count_where(s, |a: A| false) == 0,
    decreases s.len(),
{
    if s.len() > 0 {
        lemma_count_zero(s.drop_last());
    }
}

} // verus!
