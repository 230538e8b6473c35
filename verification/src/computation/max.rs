//! Range maximum.

use super::numeric::Numeric;
use super::SegmentTreeComputation;
use crate::shape::{associative, combines_fit, query};
use crate::sums::{as_ints, lemma_max_concat, lemma_sum_single, max_of};
use std::marker::PhantomData;
use vstd::prelude::*;

verus! {

/// Aggregates a range to the greatest of its elements.
pub struct MaxComputation<T> {
    phantom: PhantomData<T>,
}

impl<T: Numeric> SegmentTreeComputation for MaxComputation<T> {
    type Input = T;

    type Output = T;

    open spec fn spec_init(value: T) -> T {
        value
    }

    open spec fn spec_combine(left: T, right: T) -> T {
        if left.value() >= right.value() {
            left
        } else {
            right
        }
    }

    open spec fn spec_update(prev: T, new_value: T) -> T {
        new_value
    }

    open spec fn combinable(left: T, right: T) -> bool {
        true
    }

    proof fn update_replaces(prev: T, new_value: T) {
    }

    fn combine(left_result: &T, right_result: &T) -> (res: T) {
        let res = left_result.larger(right_result);
        proof {
            T::value_injective(res, Self::spec_combine(*left_result, *right_result));
        }
        res
    }

    fn update(prev_value: &T, new_value: &T) -> (res: T) {
        Self::init(new_value)
    }

    fn init(value: &T) -> (res: T) {
        *value
    }
}

impl<T: Numeric> MaxComputation<T> {
    /// Three aggregates of neighbouring ranges combine to the same
    /// aggregate whichever two are combined first.
    pub proof fn lemma_combine_associative(a: T, b: T, c: T)
        ensures
            Self::spec_combine(Self::spec_combine(a, b), c) == Self::spec_combine(
                a,
                Self::spec_combine(b, c),
            ),
    {
        if a.value() == b.value() {
            T::value_injective(a, b);
        }
        if b.value() == c.value() {
            T::value_injective(b, c);
        }
        if a.value() == c.value() {
            T::value_injective(a, c);
        }
    }

    /// Taking the greater of two is associative.
    pub proof fn lemma_associative()
        ensures
            associative::<Self>(),
    {
        assert forall|a: T, b: T, c: T| #[trigger]
            Self::spec_combine(Self::spec_combine(a, b), c) == Self::spec_combine(
                a,
                Self::spec_combine(b, c),
            ) by {
            Self::lemma_combine_associative(a, b, c);
        }
    }

    /// No query on any sequence meets a limit: a maximum is one of the
    /// elements.
    pub proof fn lemma_always_fits(values: Seq<T>, lo: int, hi: int, left: int, right: int)
        ensures
            combines_fit::<Self>(values, lo, hi, left, right),
        decreases hi - lo,
    {
        if lo < hi {
            let mid = (lo + hi) / 2;
            if mid < left {
                Self::lemma_always_fits(values, mid + 1, hi, left, right);
            } else if right <= mid {
                Self::lemma_always_fits(values, lo, mid, left, right);
            } else {
                Self::lemma_always_fits(values, lo, mid, left, mid);
                Self::lemma_always_fits(values, mid + 1, hi, mid + 1, right);
            }
        }
    }

    /// A query answers the greatest of the elements in its range.
    pub proof fn lemma_query_is_max(values: Seq<T>, lo: int, hi: int, left: int, right: int)
        requires
            0 <= lo <= left <= right <= hi < values.len(),
        ensures
            query::<Self>(values, lo, hi, left, right).value() == max_of(
                as_ints(values).subrange(left, right + 1),
            ),
        decreases hi - lo,
    {
        let ints = as_ints(values);
        if lo == hi {
            lemma_sum_single(ints.subrange(left, right + 1));
        } else {
            let mid = (lo + hi) / 2;
            if mid < left {
                Self::lemma_query_is_max(values, mid + 1, hi, left, right);
            } else if right <= mid {
                Self::lemma_query_is_max(values, lo, mid, left, right);
            } else {
                Self::lemma_query_is_max(values, lo, mid, left, mid);
                Self::lemma_query_is_max(values, mid + 1, hi, mid + 1, right);
                let first = ints.subrange(left, mid + 1);
                let rest = ints.subrange(mid + 1, right + 1);
                assert(first + rest =~= ints.subrange(left, right + 1));
                lemma_max_concat(first, rest);
            }
        }
    }
}

} // verus!
