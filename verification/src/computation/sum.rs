//! Range sum.

use super::numeric::Numeric;
use super::SegmentTreeComputation;
use crate::shape::{associative, combines_fit, fold, foldable, query};
use crate::sums::{all_sums_fit, as_ints, lemma_sum_concat, lemma_sum_single, sum};
use std::marker::PhantomData;
use vstd::prelude::*;

verus! {

/// Aggregates a range to the sum of its elements.
pub struct SumComputation<T> {
    phantom: PhantomData<T>,
}

impl<T: Numeric> SegmentTreeComputation for SumComputation<T> {
    type Input = T;

    type Output = T;

    open spec fn spec_init(value: T) -> T {
        value
    }

    open spec fn spec_combine(left: T, right: T) -> T {
        T::from_int(left.value() + right.value())
    }

    open spec fn spec_update(prev: T, new_value: T) -> T {
        new_value
    }

    open spec fn combinable(left: T, right: T) -> bool {
        T::fits(left.value() + right.value())
    }

    proof fn update_replaces(prev: T, new_value: T) {
    }

    fn combine(left_result: &T, right_result: &T) -> (res: T) {
        let res = left_result.plus(right_result);
        proof {
            T::from_int_value(left_result.value() + right_result.value());
            T::value_injective(res, Self::spec_combine(*left_result, *right_result));
        }
        res
    }

    fn update(prev_value: &T, new_value: &T) -> (res: T) {
        *new_value
    }

    fn init(value: &T) -> (res: T) {
        *value
    }
}

impl<T: Numeric> SumComputation<T> {
    /// Three aggregates of neighbouring ranges combine to the same
    /// aggregate whichever two are combined first.
    pub proof fn lemma_combine_associative(a: T, b: T, c: T)
        requires
            Self::combinable(a, b),
            Self::combinable(b, c),
        ensures
            Self::spec_combine(Self::spec_combine(a, b), c) == Self::spec_combine(
                a,
                Self::spec_combine(b, c),
            ),
    {
        T::from_int_value(a.value() + b.value());
        T::from_int_value(b.value() + c.value());
    }

    /// Addition is associative wherever the sums fit.
    pub proof fn lemma_associative()
        ensures
            associative::<Self>(),
    {
        assert forall|a: T, b: T, c: T|
            Self::combinable(a, b) && Self::combinable(b, c) implies #[trigger] Self::spec_combine(
            Self::spec_combine(a, b),
            c,
        ) == Self::spec_combine(a, Self::spec_combine(b, c)) by {
            Self::lemma_combine_associative(a, b, c);
        }
    }

    /// Taken from the left, the aggregate of a run is its arithmetic sum,
    /// where the sum of every run of neighbours fits.
    pub proof fn lemma_fold_is_sum(s: Seq<T>)
        requires
            s.len() > 0,
            all_sums_fit::<T>(as_ints(s)),
        ensures
            fold::<Self>(s).value() == sum(as_ints(s)),
        decreases s.len(),
    {
        let ints = as_ints(s);
        if s.len() == 1 {
            lemma_sum_single(ints);
        } else {
            let front = s.drop_last();
            assert(as_ints(front) =~= ints.drop_last());
            assert forall|i: int, j: int| 0 <= i < j <= front.len() implies T::fits(
                sum(#[trigger] as_ints(front).subrange(i, j)),
            ) by {
                assert(as_ints(front).subrange(i, j) =~= ints.subrange(i, j));
            }
            Self::lemma_fold_is_sum(front);
            assert(ints.subrange(0, s.len() as int) =~= ints);
            T::from_int_value(sum(ints));
        }
    }

    /// Where the sum of every run of neighbours fits, the aggregates of any
    /// two neighbouring runs can be combined.
    pub proof fn lemma_sums_foldable(values: Seq<T>)
        requires
            all_sums_fit::<T>(as_ints(values)),
        ensures
            foldable::<Self>(values),
    {
        let ints = as_ints(values);
        assert forall|i: int, j: int, k: int| 0 <= i < j < k <= values.len() implies Self::combinable(
            #[trigger] fold::<Self>(values.subrange(i, j)),
            #[trigger] fold::<Self>(values.subrange(j, k)),
        ) by {
            Self::lemma_run_sums_fit(values, i, j);
            Self::lemma_run_sums_fit(values, j, k);
            Self::lemma_fold_is_sum(values.subrange(i, j));
            Self::lemma_fold_is_sum(values.subrange(j, k));
            assert(as_ints(values.subrange(i, j)) =~= ints.subrange(i, j));
            assert(as_ints(values.subrange(j, k)) =~= ints.subrange(j, k));
            assert(ints.subrange(i, j) + ints.subrange(j, k) =~= ints.subrange(i, k));
            lemma_sum_concat(ints.subrange(i, j), ints.subrange(j, k));
        }
    }

    /// Where the sum of every run of neighbours fits, it does so in every
    /// part of the sequence.
    pub proof fn lemma_run_sums_fit(values: Seq<T>, i: int, j: int)
        requires
            0 <= i <= j <= values.len(),
            all_sums_fit::<T>(as_ints(values)),
        ensures
            all_sums_fit::<T>(as_ints(values.subrange(i, j))),
    {
        let ints = as_ints(values);
        let part = as_ints(values.subrange(i, j));
        assert forall|a: int, b: int| 0 <= a < b <= part.len() implies T::fits(
            sum(#[trigger] part.subrange(a, b)),
        ) by {
            assert(part.subrange(a, b) =~= ints.subrange(i + a, i + b));
        }
    }

    /// A query answers the arithmetic sum of the elements in its range.
    pub proof fn lemma_query_is_sum(values: Seq<T>, lo: int, hi: int, left: int, right: int)
        requires
            0 <= lo <= left <= right <= hi < values.len(),
            combines_fit::<Self>(values, lo, hi, left, right),
        ensures
            query::<Self>(values, lo, hi, left, right).value() == sum(
                as_ints(values).subrange(left, right + 1),
            ),
        decreases hi - lo,
    {
        let ints = as_ints(values);
        if lo == hi {
            lemma_sum_single(ints.subrange(left, right + 1));
        } else {
            let mid = (lo + hi) / 2;
            if mid < left {
                Self::lemma_query_is_sum(values, mid + 1, hi, left, right);
            } else if right <= mid {
                Self::lemma_query_is_sum(values, lo, mid, left, right);
            } else {
                Self::lemma_query_is_sum(values, lo, mid, left, mid);
                Self::lemma_query_is_sum(values, mid + 1, hi, mid + 1, right);
                let first = ints.subrange(left, mid + 1);
                let rest = ints.subrange(mid + 1, right + 1);
                assert(first + rest =~= ints.subrange(left, right + 1));
                lemma_sum_concat(first, rest);
                T::from_int_value(sum(first) + sum(rest));
            }
        }
    }

    /// Where the sum of every run of neighbours fits, every combination
    /// that a query makes fits.
    pub proof fn lemma_sums_fit(values: Seq<T>, lo: int, hi: int, left: int, right: int)
        requires
            0 <= lo <= left <= right <= hi < values.len(),
            all_sums_fit::<T>(as_ints(values)),
        ensures
            combines_fit::<Self>(values, lo, hi, left, right),
        decreases hi - lo,
    {
        let ints = as_ints(values);
        if lo < hi {
            let mid = (lo + hi) / 2;
            if mid < left {
                Self::lemma_sums_fit(values, mid + 1, hi, left, right);
            } else if right <= mid {
                Self::lemma_sums_fit(values, lo, mid, left, right);
            } else {
                Self::lemma_sums_fit(values, lo, mid, left, mid);
                Self::lemma_sums_fit(values, mid + 1, hi, mid + 1, right);
                Self::lemma_query_is_sum(values, lo, mid, left, mid);
                Self::lemma_query_is_sum(values, mid + 1, hi, mid + 1, right);
                let first = ints.subrange(left, mid + 1);
                let rest = ints.subrange(mid + 1, right + 1);
                assert(first + rest =~= ints.subrange(left, right + 1));
                lemma_sum_concat(first, rest);
            }
        }
    }
}

} // verus!
