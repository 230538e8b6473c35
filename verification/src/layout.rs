//! How the nodes of a tree lie in its array: node `i` has its children at
//! `2 * i` and `2 * i + 1`, and the root is node 1.

use crate::computation::SegmentTreeComputation;
use crate::shape::{lemma_query_local, query};
use vstd::prelude::*;

verus! {

/// Whether `node` is `root` or lies below it.
pub open spec fn under(root: int, node: int) -> bool
    decreases node,
{
    if root < 1 || node < root {
        false
    } else if node == root {
        true
    } else {
        under(root, node / 2)
    }
}

/// Whether the subtree at `index`, which covers `[lo, hi]`, holds in `nodes`
/// the aggregates of `values`: every node the aggregate of its range, the
/// left child for the range up to the midpoint and the right child for the
/// rest.
pub open spec fn layout<K: SegmentTreeComputation>(
    values: Seq<K::Input>,
    nodes: Seq<K::Output>,
    index: int,
    lo: int,
    hi: int,
) -> bool
    decreases hi - lo,
{
    &&& 0 < index < nodes.len()
    &&& nodes[index] == query::<K>(values, lo, hi, lo, hi)
    &&& lo < hi ==> {
        let mid = (lo + hi) / 2;
        &&& layout::<K>(values, nodes, 2 * index, lo, mid)
        &&& layout::<K>(values, nodes, 2 * index + 1, mid + 1, hi)
    }
}

/// Whether the nodes of the subtree at `index`, which covers `[lo, hi]`, all
/// lie in an array of `size` slots.
pub open spec fn within(size: int, index: int, lo: int, hi: int) -> bool
    decreases hi - lo,
{
    &&& 0 < index < size
    &&& lo < hi ==> {
        let mid = (lo + hi) / 2;
        &&& within(size, 2 * index, lo, mid)
        &&& within(size, 2 * index + 1, mid + 1, hi)
    }
}

/// The array after the element at `pos` changed, where `values` is the
/// sequence after the change: the nodes on the way from `index` down to the
/// leaf for `pos` hold the aggregates of their ranges anew, and every other
/// slot is as it was.
pub open spec fn rewrite<K: SegmentTreeComputation>(
    nodes: Seq<K::Output>,
    values: Seq<K::Input>,
    index: int,
    lo: int,
    hi: int,
    pos: int,
) -> Seq<K::Output>
    decreases hi - lo,
{
    let below = if lo >= hi {
        nodes
    } else {
        let mid = (lo + hi) / 2;
        if pos <= mid {
            rewrite::<K>(nodes, values, 2 * index, lo, mid, pos)
        } else {
            rewrite::<K>(nodes, values, 2 * index + 1, mid + 1, hi, pos)
        }
    };
    below.update(index, query::<K>(values, lo, hi, lo, hi))
}

/// What lies below a child lies below its parent, and is not the parent.
pub proof fn lemma_under_child(root: int, node: int)
    requires
        root >= 1,
        under(2 * root, node) || under(2 * root + 1, node),
    ensures
        under(root, node),
        node != root,
    decreases node,
{
    assert(under(root, root));
    if node != 2 * root && node != 2 * root + 1 {
        lemma_under_child(root, node / 2);
    }
}

/// The two subtrees below a node share no slot.
pub proof fn lemma_under_disjoint(root: int, node: int)
    requires
        root >= 1,
    ensures
        !(under(2 * root, node) && under(2 * root + 1, node)),
    decreases node,
{
    assert(!under(2 * root, root));
    if node > 2 * root + 1 {
        lemma_under_disjoint(root, node / 2);
    }
}

/// A subtree that is laid out lies within its array.
pub proof fn lemma_layout_within<K: SegmentTreeComputation>(
    values: Seq<K::Input>,
    nodes: Seq<K::Output>,
    index: int,
    lo: int,
    hi: int,
)
    requires
        layout::<K>(values, nodes, index, lo, hi),
    ensures
        within(nodes.len() as int, index, lo, hi),
    decreases hi - lo,
{
    if lo < hi {
        let mid = (lo + hi) / 2;
        lemma_layout_within::<K>(values, nodes, 2 * index, lo, mid);
        lemma_layout_within::<K>(values, nodes, 2 * index + 1, mid + 1, hi);
    }
}

/// A subtree's layout depends only on its own slots and on the elements
/// that it covers.
pub proof fn lemma_layout_frame<K: SegmentTreeComputation>(
    values_a: Seq<K::Input>,
    values_b: Seq<K::Input>,
    a: Seq<K::Output>,
    b: Seq<K::Output>,
    index: int,
    lo: int,
    hi: int,
)
    requires
        layout::<K>(values_a, a, index, lo, hi),
        a.len() == b.len(),
        forall|j: int| 0 <= j < a.len() && under(index, j) ==> a[j] == b[j],
        lo <= hi,
        forall|i: int| lo <= i <= hi ==> values_a[i] == values_b[i],
    ensures
        layout::<K>(values_b, b, index, lo, hi),
    decreases hi - lo,
{
    lemma_query_local::<K>(values_a, values_b, lo, hi, lo, hi);
    assert(under(index, index));
    if lo < hi {
        let mid = (lo + hi) / 2;
        assert forall|j: int| 0 <= j < a.len() && under(2 * index, j) implies a[j] == b[j] by {
            lemma_under_child(index, j);
        }
        assert forall|j: int| 0 <= j < a.len() && under(2 * index + 1, j) implies a[j]
            == b[j] by {
            lemma_under_child(index, j);
        }
        lemma_layout_frame::<K>(values_a, values_b, a, b, 2 * index, lo, mid);
        lemma_layout_frame::<K>(values_a, values_b, a, b, 2 * index + 1, mid + 1, hi);
    }
}

/// Rewriting the way down from a node keeps the array's length and leaves
/// every slot outside the node's subtree alone.
pub proof fn lemma_rewrite_frame<K: SegmentTreeComputation>(
    nodes: Seq<K::Output>,
    values: Seq<K::Input>,
    index: int,
    lo: int,
    hi: int,
    pos: int,
)
    requires
        within(nodes.len() as int, index, lo, hi),
    ensures
        rewrite::<K>(nodes, values, index, lo, hi, pos).len() == nodes.len(),
        forall|j: int|
            0 <= j < nodes.len() && !under(index, j) ==> rewrite::<K>(
                nodes,
                values,
                index,
                lo,
                hi,
                pos,
            )[j] == nodes[j],
    decreases hi - lo,
{
    assert(under(index, index));
    if lo < hi {
        let mid = (lo + hi) / 2;
        let (child, child_lo, child_hi) = if pos <= mid {
            (2 * index, lo, mid)
        } else {
            (2 * index + 1, mid + 1, hi)
        };
        lemma_rewrite_frame::<K>(nodes, values, child, child_lo, child_hi, pos);
        assert forall|j: int| 0 <= j < nodes.len() && !under(index, j) implies rewrite::<K>(
            nodes,
            values,
            index,
            lo,
            hi,
            pos,
        )[j] == nodes[j] by {
            if under(child, j) {
                lemma_under_child(index, j);
            }
        }
    }
}

/// Rewriting the way down to a changed element gives the layout of the
/// changed sequence: the nodes above the element hold the new aggregates of
/// their ranges, and the subtrees beside the way, untouched, still hold
/// theirs.
pub proof fn lemma_rewrite_layout<K: SegmentTreeComputation>(
    old_values: Seq<K::Input>,
    nodes: Seq<K::Output>,
    values: Seq<K::Input>,
    index: int,
    lo: int,
    hi: int,
    pos: int,
)
    requires
        layout::<K>(old_values, nodes, index, lo, hi),
        lo <= pos <= hi,
        forall|i: int| lo <= i <= hi && i != pos ==> old_values[i] == values[i],
    ensures
        rewrite::<K>(nodes, values, index, lo, hi, pos).len() == nodes.len(),
        layout::<K>(values, rewrite::<K>(nodes, values, index, lo, hi, pos), index, lo, hi),
    decreases hi - lo,
{
    let after = rewrite::<K>(nodes, values, index, lo, hi, pos);
    lemma_layout_within::<K>(old_values, nodes, index, lo, hi);
    lemma_rewrite_frame::<K>(nodes, values, index, lo, hi, pos);
    if lo < hi {
        let mid = (lo + hi) / 2;
        let left = 2 * index;
        let right = 2 * index + 1;
        if pos <= mid {
            let below = rewrite::<K>(nodes, values, left, lo, mid, pos);
            lemma_rewrite_layout::<K>(old_values, nodes, values, left, lo, mid, pos);
            lemma_rewrite_frame::<K>(nodes, values, left, lo, mid, pos);
            assert forall|j: int| 0 <= j < nodes.len() && under(right, j) implies nodes[j]
                == below[j] by {
                lemma_under_disjoint(index, j);
            }
            lemma_layout_frame::<K>(old_values, values, nodes, below, right, mid + 1, hi);
            lemma_layout_frame::<K>(values, values, below, after, left, lo, mid);
            lemma_layout_frame::<K>(values, values, below, after, right, mid + 1, hi);
        } else {
            let below = rewrite::<K>(nodes, values, right, mid + 1, hi, pos);
            lemma_rewrite_layout::<K>(old_values, nodes, values, right, mid + 1, hi, pos);
            lemma_rewrite_frame::<K>(nodes, values, right, mid + 1, hi, pos);
            assert forall|j: int| 0 <= j < nodes.len() && under(left, j) implies nodes[j]
                == below[j] by {
                lemma_under_disjoint(index, j);
            }
            lemma_layout_frame::<K>(old_values, values, nodes, below, left, lo, mid);
            lemma_layout_frame::<K>(values, values, below, after, left, lo, mid);
            lemma_layout_frame::<K>(values, values, below, after, right, mid + 1, hi);
        }
    }
}

/// What a rewrite leaves in a slot depends on what that slot held, not on
/// the other slots.
pub proof fn lemma_rewrite_pointwise<K: SegmentTreeComputation>(
    a: Seq<K::Output>,
    b: Seq<K::Output>,
    values: Seq<K::Input>,
    index: int,
    lo: int,
    hi: int,
    pos: int,
    j: int,
)
    requires
        within(a.len() as int, index, lo, hi),
        a.len() == b.len(),
        0 <= j < a.len(),
        a[j] == b[j],
    ensures
        rewrite::<K>(a, values, index, lo, hi, pos)[j] == rewrite::<K>(
            b,
            values,
            index,
            lo,
            hi,
            pos,
        )[j],
    decreases hi - lo,
{
    if lo < hi {
        let mid = (lo + hi) / 2;
        let (child, child_lo, child_hi) = if pos <= mid {
            (2 * index, lo, mid)
        } else {
            (2 * index + 1, mid + 1, hi)
        };
        lemma_rewrite_pointwise::<K>(a, b, values, child, child_lo, child_hi, pos, j);
        lemma_rewrite_frame::<K>(a, values, child, child_lo, child_hi, pos);
        lemma_rewrite_frame::<K>(b, values, child, child_lo, child_hi, pos);
    }
}

/// Rewriting the same way a second time changes nothing.
pub proof fn lemma_rewrite_twice<K: SegmentTreeComputation>(
    nodes: Seq<K::Output>,
    values: Seq<K::Input>,
    index: int,
    lo: int,
    hi: int,
    pos: int,
)
    requires
        within(nodes.len() as int, index, lo, hi),
    ensures
        rewrite::<K>(
            rewrite::<K>(nodes, values, index, lo, hi, pos),
            values,
            index,
            lo,
            hi,
            pos,
        ) == rewrite::<K>(nodes, values, index, lo, hi, pos),
    decreases hi - lo,
{
    let once = rewrite::<K>(nodes, values, index, lo, hi, pos);
    let twice = rewrite::<K>(once, values, index, lo, hi, pos);
    lemma_rewrite_frame::<K>(nodes, values, index, lo, hi, pos);
    if lo < hi {
        let mid = (lo + hi) / 2;
        let (child, child_lo, child_hi) = if pos <= mid {
            (2 * index, lo, mid)
        } else {
            (2 * index + 1, mid + 1, hi)
        };
        let below = rewrite::<K>(nodes, values, child, child_lo, child_hi, pos);
        lemma_rewrite_frame::<K>(nodes, values, child, child_lo, child_hi, pos);
        lemma_rewrite_frame::<K>(once, values, child, child_lo, child_hi, pos);
        lemma_rewrite_twice::<K>(nodes, values, child, child_lo, child_hi, pos);
        assert forall|j: int| 0 <= j < nodes.len() implies twice[j] == once[j] by {
            if j != index {
                lemma_rewrite_pointwise::<K>(
                    once,
                    below,
                    values,
                    child,
                    child_lo,
                    child_hi,
                    pos,
                    j,
                );
            }
        }
    }
    assert(twice =~= once);
}

/// Overwriting an element with the same value a second time leaves the
/// sequence and the array as the first write left them.
pub proof fn lemma_modify_twice<K: SegmentTreeComputation>(
    values: Seq<K::Input>,
    nodes: Seq<K::Output>,
    pos: int,
    value: K::Input,
)
    requires
        0 <= pos < values.len(),
        layout::<K>(values, nodes, 1, 0, values.len() - 1),
    ensures
        values.update(pos, value).update(pos, value) == values.update(pos, value),
        rewrite::<K>(
            rewrite::<K>(nodes, values.update(pos, value), 1, 0, values.len() - 1, pos),
            values.update(pos, value).update(pos, value),
            1,
            0,
            values.len() - 1,
            pos,
        ) == rewrite::<K>(nodes, values.update(pos, value), 1, 0, values.len() - 1, pos),
{
    let once = values.update(pos, value);
    assert(once.update(pos, value) =~= once);
    lemma_layout_within::<K>(values, nodes, 1, 0, values.len() - 1);
    lemma_rewrite_twice::<K>(nodes, once, 1, 0, values.len() - 1, pos);
}

} // verus!
