//! The segment tree: point update and range query in logarithmic time.

use crate::computation::{
    MaxComputation, MaxSliceSumComputation, SegmentTreeComputation, SumComputation,
};
use crate::errors::{SegmentTreeError, SegmentTreeResult};
use crate::layout::{
    layout, lemma_layout_frame, lemma_rewrite_layout, lemma_under_child, lemma_under_disjoint,
    rewrite, under,
};
use crate::shape::{buildable, combines_fit, query};
use std::marker::PhantomData;
use vstd::prelude::*;

verus! {

/// A sequence of elements, kept as a binary tree of aggregates in one array.
///
/// The view of a tree is the sequence that it stands for. Its length is
/// fixed when the tree is built; `modify` overwrites single elements.
pub struct SegmentTree<K: SegmentTreeComputation> {
    data: Vec<K::Output>,
    len: usize,
    values: Ghost<Seq<K::Input>>,
    phantom: PhantomData<K>,
}

/// A tree that answers the sum of a range.
pub type SumSegmentTree<T> = SegmentTree<SumComputation<T>>;

/// A tree that answers the greatest element of a range.
pub type MaxSegmentTree<T> = SegmentTree<MaxComputation<T>>;

/// A tree that answers the best sum of a run of neighbours in a range, as
/// far as its nodes keep it.
pub type MaxSliceSumSegmentTree<T> = SegmentTree<MaxSliceSumComputation<T>>;

impl<K: SegmentTreeComputation> View for SegmentTree<K> {
    type V = Seq<K::Input>;

    closed spec fn view(&self) -> Seq<K::Input> {
        self.values@
    }
}

impl<K: SegmentTreeComputation> SegmentTree<K> {
    #[verifier::type_invariant]
    spec fn well_formed(self) -> bool {
        &&& self.len == self.values@.len()
        &&& self.data@.len() == 4 * self.len
        &&& 4 * self.len <= usize::MAX
        &&& buildable::<K>(self.values@)
        &&& self.len > 0 ==> layout::<K>(self.values@, self.data@, 1, 0, self.len - 1)
    }

    /// The array of aggregates: slot 0 is unused, slot 1 holds the root.
    pub closed spec fn nodes(&self) -> Seq<K::Output> {
        self.data@
    }
}

impl<K> SegmentTree<K> where K: SegmentTreeComputation, K::Output: Default + Copy {
    /// Builds the tree over `arr`, which may be empty. The array gets four
    /// slots for each element, which is enough for any length.
    pub fn build(arr: &[K::Input]) -> (res: Self)
        requires
            4 * arr@.len() <= usize::MAX,
            buildable::<K>(arr@),
        ensures
            res@ == arr@,
            res.nodes().len() == 4 * arr@.len(),
            arr@.len() > 0 ==> layout::<K>(arr@, res.nodes(), 1, 0, arr@.len() - 1),
    {
        if arr.is_empty() {
            Self { data: vec![], len: 0, values: Ghost(arr@), phantom: PhantomData }
        } else {
            let len = arr.len();
            let mut data = vec![K::Output::default(); len * 4];

            Self::internal_build(arr, &mut data, 1, 0, len - 1);

            Self { data, len, values: Ghost(arr@), phantom: PhantomData }
        }
    }

    /// The aggregate of the elements from `left` to `right`, both included.
    /// A range whose ends are in the wrong order is refused first, then one
    /// that ends beyond the last element.
    pub fn get(&self, left: usize, right: usize) -> (res: SegmentTreeResult<K::Output>)
        requires
            left <= right < self@.len() ==> combines_fit::<K>(
                self@,
                0,
                self@.len() - 1,
                left as int,
                right as int,
            ),
        ensures
            left > right ==> res == Err::<K::Output, SegmentTreeError>(
                SegmentTreeError::InvalidRange { left, right },
            ),
            left <= right && right >= self@.len() ==> (res matches Err(
                SegmentTreeError::OutOfBounds { index, len },
            ) && index == right && len == self@.len()),
            left <= right < self@.len() ==> res == Ok::<K::Output, SegmentTreeError>(
                query::<K>(self@, 0, self@.len() - 1, left as int, right as int),
            ),
    {
        proof {
            use_type_invariant(self);
        }
        if left > right {
            Err(SegmentTreeError::InvalidRange { left, right })
        } else if right >= self.len {
            Err(SegmentTreeError::OutOfBounds { index: right, len: self.len })
        } else {
            Ok(self.internal_get(1, 0, self.len - 1, left, right))
        }
    }

    /// Overwrites the element at `pos` with `value`, and brings the
    /// aggregates above it up to date. A `pos` beyond the last element is
    /// refused, and the tree left as it was.
    pub fn modify(&mut self, pos: usize, value: K::Input) -> (res: SegmentTreeResult<()>)
        requires
            pos < old(self)@.len() ==> buildable::<K>(old(self)@.update(pos as int, value)),
        ensures
            pos >= old(self)@.len() ==> *final(self) == *old(self) && (res matches Err(
                SegmentTreeError::OutOfBounds { index, len },
            ) && index == pos && len == old(self)@.len()),
            pos < old(self)@.len() ==> res == Ok::<(), SegmentTreeError>(()) && final(self)@ == old(
                self,
            )@.update(pos as int, value) && final(self).nodes() == rewrite::<K>(
                old(self).nodes(),
                final(self)@,
                1,
                0,
                old(self)@.len() - 1,
                pos as int,
            ),
    {
        proof {
            use_type_invariant(&*self);
        }
        if pos >= self.len {
            Err(SegmentTreeError::OutOfBounds { index: pos, len: self.len })
        } else {
            let mut tree = Self::empty();
            std::mem::swap(self, &mut tree);
            let SegmentTree { data, len, values, phantom } = tree;
            let mut data = data;
            Self::internal_modify(&mut data, 1, 0, len - 1, pos, &value, Ghost(values@));
            *self = SegmentTree {
                data,
                len,
                values: Ghost(values@.update(pos as int, value)),
                phantom,
            };
            Ok(())
        }
    }

    /// The number of elements.
    pub fn len(&self) -> (res: usize)
        ensures
            res == self@.len(),
    {
        proof {
            use_type_invariant(self);
        }
        self.len
    }

    /// Whether the tree holds no element.
    pub fn is_empty(&self) -> (res: bool)
        ensures
            res == (self@.len() == 0),
    {
        proof {
            use_type_invariant(self);
        }
        self.len == 0
    }

    /// The array of aggregates, four slots for each element. The slots that
    /// no node of the tree uses keep the default aggregate.
    pub fn data(&self) -> (res: &Vec<K::Output>)
        ensures
            res@ == self.nodes(),
            res@.len() == 4 * self@.len(),
            self@.len() > 0 ==> layout::<K>(self@, res@, 1, 0, self@.len() - 1),
    {
        proof {
            use_type_invariant(self);
        }
        &self.data
    }

    fn empty() -> (res: Self)
        ensures
            res@.len() == 0,
    {
        Self { data: Vec::new(), len: 0, values: Ghost(Seq::empty()), phantom: PhantomData }
    }

    fn internal_build(
        input: &[K::Input],
        data: &mut Vec<K::Output>,
        index: usize,
        cur_left: usize,
        cur_right: usize,
    )
        requires
            old(data)@.len() == 4 * input@.len(),
            4 * input@.len() <= usize::MAX,
            cur_left <= cur_right < input@.len(),
            1 <= index < old(data)@.len(),
            (index + 1) * (cur_right - cur_left) <= 2 * (input@.len() - 1),
            combines_fit::<K>(
                input@,
                cur_left as int,
                cur_right as int,
                cur_left as int,
                cur_right as int,
            ),
        ensures
            final(data)@.len() == old(data)@.len(),
            layout::<K>(input@, final(data)@, index as int, cur_left as int, cur_right as int),
            forall|j: int|
                0 <= j < old(data)@.len() && !under(index as int, j) ==> final(data)@[j] == old(
                    data,
                )@[j],
        decreases cur_right - cur_left,
    {
        let ghost before = data@;
        let ghost bound = 2 * (input@.len() - 1);
        proof {
            assert(under(index as int, index as int));
        }
        if cur_left == cur_right {
            let value = K::init(&input[cur_left]);
            data[index] = value;
        } else {
            let mid = (cur_left + cur_right) / 2;
            proof {
                let width = cur_right - cur_left;
                let left_width = mid - cur_left;
                let right_width = cur_right - (mid + 1);
                assert(index + 1 <= (index + 1) * width) by (nonlinear_arith)
                    requires
                        width >= 1,
                        index >= 1,
                ;
                assert((2 * index + 1) * left_width <= bound) by (nonlinear_arith)
                    requires
                        (index + 1) * width <= bound,
                        0 <= 2 * left_width <= width,
                        index >= 1,
                ;
                assert((2 * index + 2) * right_width <= bound) by (nonlinear_arith)
                    requires
                        (index + 1) * width <= bound,
                        0 <= 2 * right_width <= width,
                        index >= 1,
                ;
            }
            Self::internal_build(input, data, index * 2, cur_left, mid);
            let ghost with_left = data@;
            Self::internal_build(input, data, index * 2 + 1, mid + 1, cur_right);
            let ghost with_both = data@;
            proof {
                assert forall|j: int|
                    0 <= j < with_left.len() && under(2 * index, j) implies with_left[j]
                    == with_both[j] by {
                    lemma_under_disjoint(index as int, j);
                }
                lemma_layout_frame::<K>(
                    input@,
                    input@,
                    with_left,
                    with_both,
                    2 * index,
                    cur_left as int,
                    mid as int,
                );
            }
            let value = K::combine(&data[index * 2], &data[index * 2 + 1]);
            data[index] = value;
            proof {
                lemma_layout_frame::<K>(
                    input@,
                    input@,
                    with_both,
                    data@,
                    2 * index,
                    cur_left as int,
                    mid as int,
                );
                lemma_layout_frame::<K>(
                    input@,
                    input@,
                    with_both,
                    data@,
                    2 * index + 1,
                    mid + 1,
                    cur_right as int,
                );
                assert forall|j: int|
                    0 <= j < before.len() && !under(index as int, j) implies data@[j]
                    == before[j] by {
                    if under(2 * index, j) || under(2 * index + 1, j) {
                        lemma_under_child(index as int, j);
                    }
                }
            }
        }
    }

    fn internal_get(
        &self,
        index: usize,
        cur_left: usize,
        cur_right: usize,
        left: usize,
        right: usize,
    ) -> (res: K::Output)
        requires
            layout::<K>(self@, self.nodes(), index as int, cur_left as int, cur_right as int),
            cur_left <= left <= right <= cur_right < self@.len(),
            combines_fit::<K>(
                self@,
                cur_left as int,
                cur_right as int,
                left as int,
                right as int,
            ),
        ensures
            res == query::<K>(
                self@,
                cur_left as int,
                cur_right as int,
                left as int,
                right as int,
            ),
        decreases cur_right - cur_left,
    {
        proof {
            use_type_invariant(self);
        }
        if left == cur_left && right == cur_right {
            self.data[index]
        } else {
            let mid = (cur_left + cur_right) / 2;
            proof {
                assert(layout::<K>(self@, self.nodes(), 2 * index, cur_left as int, mid as int));
            }

            if mid < left {
                self.internal_get(index * 2 + 1, mid + 1, cur_right, left, right)
            } else if mid + 1 > right {
                self.internal_get(index * 2, cur_left, mid, left, right)
            } else {
                let left_result = self.internal_get(index * 2, cur_left, mid, left, right.min(mid));
                let right_result = self.internal_get(
                    index * 2 + 1,
                    mid + 1,
                    cur_right,
                    left.max(mid + 1),
                    right,
                );

                K::combine(&left_result, &right_result)
            }
        }
    }

    fn internal_modify(
        data: &mut Vec<K::Output>,
        index: usize,
        cur_left: usize,
        cur_right: usize,
        pos: usize,
        value: &K::Input,
        Ghost(values): Ghost<Seq<K::Input>>,
    )
        requires
            layout::<K>(values, old(data)@, index as int, cur_left as int, cur_right as int),
            old(data)@.len() == 4 * values.len(),
            4 * values.len() <= usize::MAX,
            cur_left <= pos <= cur_right < values.len(),
            combines_fit::<K>(
                values.update(pos as int, *value),
                cur_left as int,
                cur_right as int,
                cur_left as int,
                cur_right as int,
            ),
        ensures
            final(data)@.len() == old(data)@.len(),
            final(data)@ == rewrite::<K>(
                old(data)@,
                values.update(pos as int, *value),
                index as int,
                cur_left as int,
                cur_right as int,
                pos as int,
            ),
            layout::<K>(
                values.update(pos as int, *value),
                final(data)@,
                index as int,
                cur_left as int,
                cur_right as int,
            ),
        decreases cur_right - cur_left,
    {
        let ghost before = data@;
        let ghost changed = values.update(pos as int, *value);
        proof {
            lemma_rewrite_layout::<K>(
                values,
                before,
                changed,
                index as int,
                cur_left as int,
                cur_right as int,
                pos as int,
            );
        }
        if cur_left == cur_right {
            let updated = K::update(&data[index], value);
            proof {
                K::update_replaces(before[index as int], *value);
            }
            data[index] = updated;
        } else {
            let mid = (cur_left + cur_right) / 2;
            proof {
                assert(layout::<K>(values, before, 2 * index, cur_left as int, mid as int));
            }

            if pos <= mid {
                Self::internal_modify(data, index * 2, cur_left, mid, pos, value, Ghost(values));
            } else {
                Self::internal_modify(
                    data,
                    index * 2 + 1,
                    mid + 1,
                    cur_right,
                    pos,
                    value,
                    Ghost(values),
                );
            }

            proof {
                let after = rewrite::<K>(
                    before,
                    changed,
                    index as int,
                    cur_left as int,
                    cur_right as int,
                    pos as int,
                );
                assert(layout::<K>(changed, after, 2 * index, cur_left as int, mid as int));
                assert(layout::<K>(changed, after, 2 * index + 1, mid + 1, cur_right as int));
            }
            let combined = K::combine(&data[index * 2], &data[index * 2 + 1]);
            data[index] = combined;
        }
    }
}

} // verus!
