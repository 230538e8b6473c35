//! What a tree over a sequence answers, stated without the tree: the
//! recursive halving of index ranges, and the aggregates it leads to.

use crate::computation::SegmentTreeComputation;
use vstd::prelude::*;

verus! {

/// The answer to the query for the closed range `[left, right]`, found from
/// the node that covers `[lo, hi]`.
///
/// A node that covers one index holds the aggregate of that element. Any
/// other node is split at the midpoint `(lo + hi) / 2`: a query that lies on
/// one side of the split is passed on to that half, and one that straddles
/// it is answered by both halves, each for its part, left before right.
/// With `left == lo` and `right == hi` this is the aggregate that the node
/// itself stores.
pub open spec fn query<K: SegmentTreeComputation>(
    values: Seq<K::Input>,
    lo: int,
    hi: int,
    left: int,
    right: int,
) -> K::Output
    decreases hi - lo,
{
    if lo >= hi {
        K::spec_init(values[lo])
    } else {
        let mid = (lo + hi) / 2;
        if mid < left {
            query::<K>(values, mid + 1, hi, left, right)
        } else if right <= mid {
            query::<K>(values, lo, mid, left, right)
        } else {
            K::spec_combine(
                query::<K>(values, lo, mid, left, mid),
                query::<K>(values, mid + 1, hi, mid + 1, right),
            )
        }
    }
}

/// Whether every combination that `query` makes on these arguments stays
/// within the limits of the strategy's arithmetic.
pub open spec fn combines_fit<K: SegmentTreeComputation>(
    values: Seq<K::Input>,
    lo: int,
    hi: int,
    left: int,
    right: int,
) -> bool
    decreases hi - lo,
{
    if lo >= hi {
        true
    } else {
        let mid = (lo + hi) / 2;
        if mid < left {
            combines_fit::<K>(values, mid + 1, hi, left, right)
        } else if right <= mid {
            combines_fit::<K>(values, lo, mid, left, right)
        } else {
            &&& combines_fit::<K>(values, lo, mid, left, mid)
            &&& combines_fit::<K>(values, mid + 1, hi, mid + 1, right)
            &&& K::combinable(
                query::<K>(values, lo, mid, left, mid),
                query::<K>(values, mid + 1, hi, mid + 1, right),
            )
        }
    }
}

/// Whether a tree can be built over all of `values`: every combination that
/// forms a node's aggregate fits.
pub open spec fn buildable<K: SegmentTreeComputation>(values: Seq<K::Input>) -> bool {
    values.len() > 0 ==> combines_fit::<K>(values, 0, values.len() - 1, 0, values.len() - 1)
}

/// A query looks only at the elements that its node covers.
pub proof fn lemma_query_local<K: SegmentTreeComputation>(
    a: Seq<K::Input>,
    b: Seq<K::Input>,
    lo: int,
    hi: int,
    left: int,
    right: int,
)
    requires
        lo <= hi,
        forall|i: int| lo <= i <= hi ==> a[i] == b[i],
    ensures
        query::<K>(a, lo, hi, left, right) == query::<K>(b, lo, hi, left, right),
        combines_fit::<K>(a, lo, hi, left, right) == combines_fit::<K>(b, lo, hi, left, right),
    decreases hi - lo,
{
    if lo < hi {
        let mid = (lo + hi) / 2;
        if mid < left {
            lemma_query_local::<K>(a, b, mid + 1, hi, left, right);
        } else if right <= mid {
            lemma_query_local::<K>(a, b, lo, mid, left, right);
        } else {
            lemma_query_local::<K>(a, b, lo, mid, left, mid);
            lemma_query_local::<K>(a, b, mid + 1, hi, mid + 1, right);
        }
    }
}

/// The query for a single index is the aggregate of the element there,
/// and no combination is needed to find it.
pub proof fn lemma_query_single<K: SegmentTreeComputation>(
    values: Seq<K::Input>,
    lo: int,
    hi: int,
    pos: int,
)
    requires
        lo <= pos <= hi,
    ensures
        query::<K>(values, lo, hi, pos, pos) == K::spec_init(values[pos]),
        combines_fit::<K>(values, lo, hi, pos, pos),
    decreases hi - lo,
{
    if lo < hi {
        let mid = (lo + hi) / 2;
        if mid < pos {
            lemma_query_single::<K>(values, mid + 1, hi, pos);
        } else {
            lemma_query_single::<K>(values, lo, mid, pos);
        }
    }
}

/// After the element at `pos` was overwritten with `value`, the query for
/// `pos` alone answers the aggregate of `value`, whatever was there before.
pub proof fn lemma_query_after_update<K: SegmentTreeComputation>(
    values: Seq<K::Input>,
    pos: int,
    value: K::Input,
)
    requires
        0 <= pos < values.len(),
    ensures
        query::<K>(values.update(pos, value), 0, values.len() - 1, pos, pos) == K::spec_init(
            value,
        ),
        combines_fit::<K>(values.update(pos, value), 0, values.len() - 1, pos, pos),
{
    lemma_query_single::<K>(values.update(pos, value), 0, values.len() - 1, pos);
}

/// The aggregate of a non-empty sequence, taken element by element from
/// the left.
pub open spec fn fold<K: SegmentTreeComputation>(s: Seq<K::Input>) -> K::Output
    decreases s.len(),
{
    if s.len() <= 1 {
        K::spec_init(s[0])
    } else {
        K::spec_combine(fold::<K>(s.drop_last()), K::spec_init(s.last()))
    }
}

/// Whether the aggregates of any two neighbouring runs of `s` can be
/// combined.
pub open spec fn foldable<K: SegmentTreeComputation>(s: Seq<K::Input>) -> bool {
    forall|i: int, j: int, k: int|
        0 <= i < j < k <= s.len() ==> K::combinable(
            #[trigger] fold::<K>(s.subrange(i, j)),
            #[trigger] fold::<K>(s.subrange(j, k)),
        )
}

/// Whether three aggregates combine to the same aggregate whichever two
/// are combined first, wherever all four combinations can be made.
pub open spec fn associative<K: SegmentTreeComputation>() -> bool {
    forall|a: K::Output, b: K::Output, c: K::Output|
        K::combinable(a, b) && K::combinable(b, c) && K::combinable(K::spec_combine(a, b), c)
            && K::combinable(a, K::spec_combine(b, c)) ==> #[trigger] K::spec_combine(
            K::spec_combine(a, b),
            c,
        ) == K::spec_combine(a, K::spec_combine(b, c))
}

/// Under an associative strategy, the aggregate of a run is the
/// combination of the aggregates of its two parts, wherever it is cut.
pub proof fn lemma_fold_concat<K: SegmentTreeComputation>(
    s: Seq<K::Input>,
    i: int,
    j: int,
    k: int,
)
    requires
        associative::<K>(),
        foldable::<K>(s),
        0 <= i < j < k <= s.len(),
    ensures
        fold::<K>(s.subrange(i, k)) == K::spec_combine(
            fold::<K>(s.subrange(i, j)),
            fold::<K>(s.subrange(j, k)),
        ),
    decreases k - j,
{
    let last = s.subrange(k - 1, k);
    assert(s.subrange(i, k).drop_last() =~= s.subrange(i, k - 1));
    assert(fold::<K>(last) == K::spec_init(s[k - 1]));
    if j < k - 1 {
        lemma_fold_concat::<K>(s, i, j, k - 1);
        assert(s.subrange(j, k).drop_last() =~= s.subrange(j, k - 1));
        let a = fold::<K>(s.subrange(i, j));
        let b = fold::<K>(s.subrange(j, k - 1));
        let c = fold::<K>(last);
        assert(K::combinable(a, b));
        assert(K::combinable(b, c));
        assert(K::combinable(fold::<K>(s.subrange(i, k - 1)), c));
        assert(K::combinable(a, fold::<K>(s.subrange(j, k))));
        assert(K::spec_combine(K::spec_combine(a, b), c) == K::spec_combine(
            a,
            K::spec_combine(b, c),
        ));
    }
}

/// Under an associative strategy the shape of the tree does not show: a
/// query answers the aggregate of its range taken from the left, and every
/// combination on the way can be made.
pub proof fn lemma_query_is_fold<K: SegmentTreeComputation>(
    values: Seq<K::Input>,
    lo: int,
    hi: int,
    left: int,
    right: int,
)
    requires
        associative::<K>(),
        foldable::<K>(values),
        0 <= lo <= left <= right <= hi < values.len(),
    ensures
        query::<K>(values, lo, hi, left, right) == fold::<K>(values.subrange(left, right + 1)),
        combines_fit::<K>(values, lo, hi, left, right),
    decreases hi - lo,
{
    if lo < hi {
        let mid = (lo + hi) / 2;
        if mid < left {
            lemma_query_is_fold::<K>(values, mid + 1, hi, left, right);
        } else if right <= mid {
            lemma_query_is_fold::<K>(values, lo, mid, left, right);
        } else {
            lemma_query_is_fold::<K>(values, lo, mid, left, mid);
            lemma_query_is_fold::<K>(values, mid + 1, hi, mid + 1, right);
            lemma_fold_concat::<K>(values, left, mid + 1, right + 1);
        }
    }
}

} // verus!
