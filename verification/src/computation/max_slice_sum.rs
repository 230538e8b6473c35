//! Maximum sum of a contiguous, non-empty run of elements.

use super::numeric::{spec_max, Numeric};
use super::SegmentTreeComputation;
use crate::shape::{combines_fit, query};
use crate::sums::{
    all_sums_fit, as_ints, lemma_max_prefix_concat, lemma_max_prefix_is_max,
    lemma_max_slice_concat, lemma_max_slice_dominates, lemma_max_suffix_concat,
    lemma_max_suffix_is_max, lemma_max_suffix_push, lemma_sum_concat, lemma_sum_single,
    lemma_sum_skip_prev, lemma_sum_take_next, max_prefix_sum, max_slice_sum, max_suffix_sum, sum,
};
use std::marker::PhantomData;
use vstd::prelude::*;

verus! {

/// What is kept of a range to answer maximum-slice-sum queries.
#[derive(Debug, PartialEq, Eq, Clone, Copy)]
pub struct MaxSliceSum<T> {
    /// The sum of the whole range.
    pub total_sum: T,
    /// The best sum of a non-empty run within the range that was kept:
    /// `from_slice` finds the best of all runs, a combination keeps the
    /// greatest of the sums that it is given.
    pub best_sum: T,
    /// The best sum of a non-empty run that starts where the range starts.
    pub best_prefix: T,
    /// The best sum of a non-empty run that ends where the range ends.
    pub best_suffix: T,
}

/// Aggregates a range to a [`MaxSliceSum`].
pub struct MaxSliceSumComputation<T> {
    phantom: PhantomData<T>,
}

impl<T: Numeric> MaxSliceSum<T> {
    /// The aggregate of the one-element range that holds `value`: the only
    /// run is the element itself.
    pub fn new(value: &T) -> (res: Self)
        ensures
            res == Self::single(*value),
    {
        Self { total_sum: *value, best_sum: *value, best_prefix: *value, best_suffix: *value }
    }

    /// The aggregate of a range of one element: all four sums are the
    /// element.
    pub open spec fn single(value: T) -> Self {
        MaxSliceSum { total_sum: value, best_sum: value, best_prefix: value, best_suffix: value }
    }

    /// Whether the four scans of `from_slice` stay within what `T` can hold:
    /// the sum of every prefix, the sum of every suffix, and the best sum of
    /// a run that ends at each position.
    pub open spec fn scans_fit(v: Seq<int>) -> bool {
        &&& forall|k: int| 0 < k <= v.len() ==> T::fits(sum(#[trigger] v.take(k)))
        &&& forall|k: int| 0 <= k < v.len() ==> T::fits(sum(#[trigger] v.skip(k)))
        &&& forall|k: int| 0 < k <= v.len() ==> T::fits(max_suffix_sum(#[trigger] v.take(k)))
    }

    /// Where the sum of every run of neighbours fits, the scans fit.
    pub proof fn lemma_scans_fit(v: Seq<int>)
        requires
            all_sums_fit::<T>(v),
        ensures
            Self::scans_fit(v),
    {
        let n = v.len() as int;
        assert forall|k: int| 0 < k <= n implies T::fits(sum(#[trigger] v.take(k))) by {
            assert(v.take(k) =~= v.subrange(0, k));
        }
        assert forall|k: int| 0 <= k < n implies T::fits(sum(#[trigger] v.skip(k))) by {
            assert(v.skip(k) =~= v.subrange(k, n));
        }
        assert forall|k: int| 0 < k <= n implies T::fits(
            max_suffix_sum(#[trigger] v.take(k)),
        ) by {
            lemma_max_suffix_is_max(v.take(k));
            let m = choose|m: int|
                0 <= m < k && sum(#[trigger] v.take(k).skip(m)) == max_suffix_sum(v.take(k));
            assert(v.take(k).skip(m) =~= v.subrange(m, k));
        }
    }

    /// The aggregate of a whole non-empty slice, computed by scanning it.
    pub fn from_slice(slice: &[T]) -> (res: Self)
        requires
            slice@.len() > 0,
            Self::scans_fit(as_ints(slice@)),
        ensures
            res.total_sum.value() == sum(as_ints(slice@)),
            res.best_sum.value() == max_slice_sum(as_ints(slice@)),
            res.best_prefix.value() == max_prefix_sum(as_ints(slice@)),
            res.best_suffix.value() == max_suffix_sum(as_ints(slice@)),
    {
        let n = slice.len();
        let ghost v = as_ints(slice@);
        proof {
            lemma_sum_single(v.take(1));
            assert(v.take(n as int) =~= v);
            assert(v.skip(0) =~= v);
        }

        let mut total_sum = slice[0];
        let mut i: usize = 1;
        while i < n
            invariant
                1 <= i <= n,
                n == slice@.len(),
                v == as_ints(slice@),
                Self::scans_fit(v),
                total_sum.value() == sum(v.take(i as int)),
            decreases n - i,
        {
            proof {
                lemma_sum_take_next(v, i as int);
                assert(T::fits(sum(v.take(i + 1))));
            }
            total_sum = total_sum.plus(&slice[i]);
            i += 1;
        }

        let mut ending_here = slice[0];
        let mut best_sum = slice[0];
        let mut i: usize = 1;
        while i < n
            invariant
                1 <= i <= n,
                n == slice@.len(),
                v == as_ints(slice@),
                Self::scans_fit(v),
                ending_here.value() == max_suffix_sum(v.take(i as int)),
                best_sum.value() == max_slice_sum(v.take(i as int)),
            decreases n - i,
        {
            proof {
                assert(v.take(i + 1) =~= v.take(i as int).push(v[i as int]));
                assert(v.take(i + 1).drop_last() =~= v.take(i as int));
                lemma_max_suffix_push(v.take(i as int), v[i as int]);
                assert(T::fits(max_suffix_sum(v.take(i + 1))));
            }
            ending_here = T::zero().larger(&ending_here).plus(&slice[i]);
            best_sum = best_sum.larger(&ending_here);
            i += 1;
        }

        let mut prefix = slice[0];
        let mut best_prefix = slice[0];
        let mut i: usize = 1;
        while i < n
            invariant
                1 <= i <= n,
                n == slice@.len(),
                v == as_ints(slice@),
                Self::scans_fit(v),
                prefix.value() == sum(v.take(i as int)),
                best_prefix.value() == max_prefix_sum(v.take(i as int)),
            decreases n - i,
        {
            proof {
                lemma_sum_take_next(v, i as int);
                assert(v.take(i + 1).drop_last() =~= v.take(i as int));
                assert(T::fits(sum(v.take(i + 1))));
            }
            prefix = prefix.plus(&slice[i]);
            best_prefix = best_prefix.larger(&prefix);
            i += 1;
        }

        proof {
            lemma_sum_single(v.skip(n - 1));
        }
        let mut suffix = slice[n - 1];
        let mut best_suffix = slice[n - 1];
        let mut i: usize = n - 1;
        while i > 0
            invariant
                0 <= i < n,
                n == slice@.len(),
                v == as_ints(slice@),
                Self::scans_fit(v),
                suffix.value() == sum(v.skip(i as int)),
                best_suffix.value() == max_suffix_sum(v.skip(i as int)),
            decreases i,
        {
            i -= 1;
            proof {
                lemma_sum_skip_prev(v, i as int);
                assert(v.skip(i as int).drop_first() =~= v.skip(i + 1));
                assert(T::fits(sum(v.skip(i as int))));
            }
            suffix = suffix.plus(&slice[i]);
            best_suffix = best_suffix.larger(&suffix);
        }

        Self { total_sum, best_sum, best_suffix, best_prefix }
    }

    /// The answer to the query: the best sum of a run.
    pub fn answer(&self) -> (res: &T)
        ensures
            *res == self.best_sum,
    {
        &self.best_sum
    }

    /// The sum of the range that `self` and then `right` cover together.
    pub open spec fn joined_total(self, right: Self) -> int {
        self.total_sum.value() + right.total_sum.value()
    }

    /// The best prefix of the joined range: a prefix of the left part, or
    /// all of the left part and a prefix of the right part.
    pub open spec fn joined_prefix(self, right: Self) -> int {
        spec_max(self.best_prefix.value(), self.total_sum.value() + right.best_prefix.value())
    }

    /// The best suffix of the joined range: a suffix of the right part, or
    /// all of the right part and a suffix of the left part.
    pub open spec fn joined_suffix(self, right: Self) -> int {
        spec_max(right.best_suffix.value(), right.total_sum.value() + self.best_suffix.value())
    }

    /// The best sum that is kept for the joined range: the greatest of its
    /// best prefix, its best suffix, its total, and the best sums of the two
    /// parts.
    pub open spec fn joined_best(self, right: Self) -> int {
        spec_max(
            spec_max(
                spec_max(
                    spec_max(self.joined_prefix(right), self.joined_suffix(right)),
                    self.joined_total(right),
                ),
                self.best_sum.value(),
            ),
            right.best_sum.value(),
        )
    }
}

impl<T: Numeric> Default for MaxSliceSum<T> {
    fn default() -> (res: Self)
        ensures
            res.total_sum.value() == 0,
            res.best_sum.value() == 0,
            res.best_prefix.value() == 0,
            res.best_suffix.value() == 0,
    {
        Self {
            total_sum: T::zero(),
            best_sum: T::zero(),
            best_prefix: T::zero(),
            best_suffix: T::zero(),
        }
    }
}

impl<T: Numeric> SegmentTreeComputation for MaxSliceSumComputation<T> {
    type Input = T;

    type Output = MaxSliceSum<T>;

    open spec fn spec_init(value: T) -> MaxSliceSum<T> {
        MaxSliceSum::single(value)
    }

    open spec fn spec_combine(left: MaxSliceSum<T>, right: MaxSliceSum<T>) -> MaxSliceSum<T> {
        MaxSliceSum {
            total_sum: T::from_int(left.joined_total(right)),
            best_sum: T::from_int(left.joined_best(right)),
            best_prefix: T::from_int(left.joined_prefix(right)),
            best_suffix: T::from_int(left.joined_suffix(right)),
        }
    }

    open spec fn spec_update(prev: MaxSliceSum<T>, new_value: T) -> MaxSliceSum<T> {
        MaxSliceSum::single(new_value)
    }

    open spec fn combinable(left: MaxSliceSum<T>, right: MaxSliceSum<T>) -> bool {
        &&& T::fits(left.total_sum.value() + right.total_sum.value())
        &&& T::fits(left.total_sum.value() + right.best_prefix.value())
        &&& T::fits(right.total_sum.value() + left.best_suffix.value())
    }

    proof fn update_replaces(prev: MaxSliceSum<T>, new_value: T) {
    }

    fn combine(left_result: &MaxSliceSum<T>, right_result: &MaxSliceSum<T>) -> (res:
        MaxSliceSum<T>) {
        let total_sum = left_result.total_sum.plus(&right_result.total_sum);
        let best_prefix = left_result.best_prefix.larger(
            &left_result.total_sum.plus(&right_result.best_prefix),
        );
        let best_suffix = right_result.best_suffix.larger(
            &right_result.total_sum.plus(&left_result.best_suffix),
        );
        let best_sum = best_prefix.larger(&best_suffix).larger(&total_sum).larger(
            &left_result.best_sum,
        ).larger(&right_result.best_sum);

        proof {
            let expected = Self::spec_combine(*left_result, *right_result);
            total_sum.value_fits();
            best_prefix.value_fits();
            best_suffix.value_fits();
            best_sum.value_fits();
            T::from_int_value(left_result.joined_total(*right_result));
            T::from_int_value(left_result.joined_prefix(*right_result));
            T::from_int_value(left_result.joined_suffix(*right_result));
            T::from_int_value(left_result.joined_best(*right_result));
            T::value_injective(total_sum, expected.total_sum);
            T::value_injective(best_prefix, expected.best_prefix);
            T::value_injective(best_suffix, expected.best_suffix);
            T::value_injective(best_sum, expected.best_sum);
        }
        MaxSliceSum { total_sum, best_sum, best_prefix, best_suffix }
    }

    fn update(prev_value: &MaxSliceSum<T>, new_value: &T) -> (res: MaxSliceSum<T>) {
        Self::init(new_value)
    }

    fn init(value: &T) -> (res: MaxSliceSum<T>) {
        MaxSliceSum::new(value)
    }
}

/// Whether, at every split that the query for `[left, right]` makes below
/// the node for `[lo, hi]`, the best run that crosses the split sums to at
/// most `bound`. Such a run is a suffix of the part before the split
/// followed by a prefix of the part after it.
pub open spec fn crossings_within(
    s: Seq<int>,
    lo: int,
    hi: int,
    left: int,
    right: int,
    bound: int,
) -> bool
    decreases hi - lo,
{
    if lo >= hi {
        true
    } else {
        let mid = (lo + hi) / 2;
        if mid < left {
            crossings_within(s, mid + 1, hi, left, right, bound)
        } else if right <= mid {
            crossings_within(s, lo, mid, left, right, bound)
        } else {
            &&& max_suffix_sum(s.subrange(left, mid + 1)) + max_prefix_sum(
                s.subrange(mid + 1, right + 1),
            ) <= bound
            &&& crossings_within(s, lo, mid, left, mid, bound)
            &&& crossings_within(s, mid + 1, hi, mid + 1, right, bound)
        }
    }
}

impl<T: Numeric> MaxSliceSumComputation<T> {
    /// The best sum that only the nesting `(a b) c` keeps: the best suffix
    /// of `a` and `b` together, or their total.
    pub open spec fn seen_left_first(a: MaxSliceSum<T>, b: MaxSliceSum<T>) -> int {
        spec_max(a.joined_suffix(b), a.joined_total(b))
    }

    /// The best sum that only the nesting `a (b c)` keeps: the best prefix
    /// of `b` and `c` together, or their total.
    pub open spec fn seen_right_first(b: MaxSliceSum<T>, c: MaxSliceSum<T>) -> int {
        spec_max(b.joined_prefix(c), b.joined_total(c))
    }

    /// The best sum that both nestings of `a`, `b`, `c` keep: the best
    /// prefix, the best suffix and the total of all three together, and the
    /// best sum of each.
    pub open spec fn seen_either_way(
        a: MaxSliceSum<T>,
        b: MaxSliceSum<T>,
        c: MaxSliceSum<T>,
    ) -> int {
        let prefix = spec_max(a.joined_prefix(b), a.joined_total(b) + c.best_prefix.value());
        let suffix = spec_max(b.joined_suffix(c), b.joined_total(c) + a.best_suffix.value());
        let total = a.joined_total(b) + c.total_sum.value();
        spec_max(
            spec_max(spec_max(prefix, suffix), total),
            spec_max(spec_max(a.best_sum.value(), b.best_sum.value()), c.best_sum.value()),
        )
    }

    /// Three aggregates of neighbouring ranges combine to the same total,
    /// best prefix and best suffix whichever two are combined first. The
    /// best sum, and so the whole aggregate, is the same exactly where what
    /// only one nesting keeps does not decide it: a run that starts in `a`
    /// and ends in `c` is kept by neither, and a run from `a` into `b`, or
    /// from `b` into `c`, by one of them.
    pub proof fn lemma_combine_associative(a: MaxSliceSum<T>, b: MaxSliceSum<T>, c: MaxSliceSum<T>)
        requires
            Self::combinable(a, b),
            Self::combinable(b, c),
            Self::combinable(Self::spec_combine(a, b), c),
            Self::combinable(a, Self::spec_combine(b, c)),
        ensures
            Self::spec_combine(Self::spec_combine(a, b), c).total_sum == Self::spec_combine(
                a,
                Self::spec_combine(b, c),
            ).total_sum,
            Self::spec_combine(Self::spec_combine(a, b), c).best_prefix == Self::spec_combine(
                a,
                Self::spec_combine(b, c),
            ).best_prefix,
            Self::spec_combine(Self::spec_combine(a, b), c).best_suffix == Self::spec_combine(
                a,
                Self::spec_combine(b, c),
            ).best_suffix,
            Self::spec_combine(Self::spec_combine(a, b), c) == Self::spec_combine(
                a,
                Self::spec_combine(b, c),
            ) <==> spec_max(Self::seen_either_way(a, b, c), Self::seen_left_first(a, b))
                == spec_max(Self::seen_either_way(a, b, c), Self::seen_right_first(b, c)),
    {
        let ab = Self::spec_combine(a, b);
        let bc = Self::spec_combine(b, c);
        Self::lemma_combine_values(a, b);
        Self::lemma_combine_values(b, c);
        Self::lemma_combine_values(ab, c);
        Self::lemma_combine_values(a, bc);
        let nested_left = Self::spec_combine(ab, c);
        let nested_right = Self::spec_combine(a, bc);
        T::value_injective(nested_left.total_sum, nested_right.total_sum);
        T::value_injective(nested_left.best_prefix, nested_right.best_prefix);
        T::value_injective(nested_left.best_suffix, nested_right.best_suffix);
        if nested_left.best_sum.value() == nested_right.best_sum.value() {
            T::value_injective(nested_left.best_sum, nested_right.best_sum);
        }
    }

    /// Where two aggregates can be combined, the integers that the combined
    /// fields stand for are those of the formulas.
    pub proof fn lemma_combine_values(left: MaxSliceSum<T>, right: MaxSliceSum<T>)
        requires
            Self::combinable(left, right),
        ensures
            Self::spec_combine(left, right).total_sum.value() == left.joined_total(right),
            Self::spec_combine(left, right).best_prefix.value() == left.joined_prefix(right),
            Self::spec_combine(left, right).best_suffix.value() == left.joined_suffix(right),
            Self::spec_combine(left, right).best_sum.value() == left.joined_best(right),
    {
        left.best_prefix.value_fits();
        left.best_sum.value_fits();
        right.best_suffix.value_fits();
        right.best_sum.value_fits();
        T::from_int_value(left.joined_total(right));
        T::from_int_value(left.joined_prefix(right));
        T::from_int_value(left.joined_suffix(right));
        T::from_int_value(left.joined_best(right));
    }

    /// A query answers the sum, the best prefix sum and the best suffix sum
    /// of the elements in its range.
    pub proof fn lemma_query_parts(values: Seq<T>, lo: int, hi: int, left: int, right: int)
        requires
            0 <= lo <= left <= right <= hi < values.len(),
            combines_fit::<Self>(values, lo, hi, left, right),
        ensures
            query::<Self>(values, lo, hi, left, right).total_sum.value() == sum(
                as_ints(values).subrange(left, right + 1),
            ),
            query::<Self>(values, lo, hi, left, right).best_prefix.value() == max_prefix_sum(
                as_ints(values).subrange(left, right + 1),
            ),
            query::<Self>(values, lo, hi, left, right).best_suffix.value() == max_suffix_sum(
                as_ints(values).subrange(left, right + 1),
            ),
        decreases hi - lo,
    {
        let ints = as_ints(values);
        if lo == hi {
            lemma_sum_single(ints.subrange(left, right + 1));
        } else {
            let mid = (lo + hi) / 2;
            if mid < left {
                Self::lemma_query_parts(values, mid + 1, hi, left, right);
            } else if right <= mid {
                Self::lemma_query_parts(values, lo, mid, left, right);
            } else {
                Self::lemma_query_parts(values, lo, mid, left, mid);
                Self::lemma_query_parts(values, mid + 1, hi, mid + 1, right);
                let first = ints.subrange(left, mid + 1);
                let rest = ints.subrange(mid + 1, right + 1);
                assert(first + rest =~= ints.subrange(left, right + 1));
                lemma_sum_concat(first, rest);
                lemma_max_prefix_concat(first, rest);
                lemma_max_suffix_concat(first, rest);
                Self::lemma_combine_values(
                    query::<Self>(values, lo, mid, left, mid),
                    query::<Self>(values, mid + 1, hi, mid + 1, right),
                );
            }
        }
    }

    /// Where the sum of every run of neighbours fits, every combination
    /// that a query makes fits.
    pub proof fn lemma_sums_fit(values: Seq<T>, lo: int, hi: int, left: int, right: int)
        requires
            0 <= lo <= left <= right <= hi < values.len(),
            all_sums_fit::<T>(as_ints(values)),
        ensures
            combines_fit::<Self>(values, lo, hi, left, right),
        decreases hi - lo,
    {
        let ints = as_ints(values);
        if lo < hi {
            let mid = (lo + hi) / 2;
            if mid < left {
                Self::lemma_sums_fit(values, mid + 1, hi, left, right);
            } else if right <= mid {
                Self::lemma_sums_fit(values, lo, mid, left, right);
            } else {
                Self::lemma_sums_fit(values, lo, mid, left, mid);
                Self::lemma_sums_fit(values, mid + 1, hi, mid + 1, right);
                Self::lemma_query_parts(values, lo, mid, left, mid);
                Self::lemma_query_parts(values, mid + 1, hi, mid + 1, right);
                let first = ints.subrange(left, mid + 1);
                let rest = ints.subrange(mid + 1, right + 1);
                assert(first + rest =~= ints.subrange(left, right + 1));
                lemma_sum_concat(first, rest);

                lemma_max_prefix_is_max(rest);
                let k = choose|k: int|
                    0 < k <= rest.len() && sum(#[trigger] rest.take(k)) == max_prefix_sum(rest);
                assert(first + rest.take(k) =~= ints.subrange(left, mid + 1 + k));
                lemma_sum_concat(first, rest.take(k));

                lemma_max_suffix_is_max(first);
                let m = choose|m: int|
                    0 <= m < first.len() && sum(#[trigger] first.skip(m)) == max_suffix_sum(
                        first,
                    );
                assert(first.skip(m) + rest =~= ints.subrange(left + m, right + 1));
                lemma_sum_concat(first.skip(m), rest);
            }
        }
    }

    /// The best sum that a query answers is at least the best prefix sum
    /// and the best suffix sum of its range, and at most the best sum of a
    /// run in it.
    pub proof fn lemma_query_best_bounds(
        values: Seq<T>,
        lo: int,
        hi: int,
        left: int,
        right: int,
    )
        requires
            0 <= lo <= left <= right <= hi < values.len(),
            combines_fit::<Self>(values, lo, hi, left, right),
        ensures
            max_prefix_sum(as_ints(values).subrange(left, right + 1)) <= query::<Self>(
                values,
                lo,
                hi,
                left,
                right,
            ).best_sum.value(),
            max_suffix_sum(as_ints(values).subrange(left, right + 1)) <= query::<Self>(
                values,
                lo,
                hi,
                left,
                right,
            ).best_sum.value(),
            query::<Self>(values, lo, hi, left, right).best_sum.value() <= max_slice_sum(
                as_ints(values).subrange(left, right + 1),
            ),
        decreases hi - lo,
    {
        let ints = as_ints(values);
        if lo == hi {
            lemma_sum_single(ints.subrange(left, right + 1));
        } else {
            let mid = (lo + hi) / 2;
            if mid < left {
                Self::lemma_query_best_bounds(values, mid + 1, hi, left, right);
            } else if right <= mid {
                Self::lemma_query_best_bounds(values, lo, mid, left, right);
            } else {
                Self::lemma_query_best_bounds(values, lo, mid, left, mid);
                Self::lemma_query_best_bounds(values, mid + 1, hi, mid + 1, right);
                Self::lemma_query_parts(values, lo, hi, left, right);
                let first = ints.subrange(left, mid + 1);
                let rest = ints.subrange(mid + 1, right + 1);
                assert(first + rest =~= ints.subrange(left, right + 1));
                lemma_max_slice_concat(first, rest);
                lemma_max_slice_dominates(first + rest);
                let first_part = query::<Self>(values, lo, mid, left, mid);
                let rest_part = query::<Self>(values, mid + 1, hi, mid + 1, right);
                Self::lemma_combine_values(first_part, rest_part);
            }
        }
    }

    /// Where no run across a split sums to more than `bound`, and the best
    /// sum that the query answers does not either, no run at all does.
    pub proof fn lemma_best_reaches(
        values: Seq<T>,
        lo: int,
        hi: int,
        left: int,
        right: int,
        bound: int,
    )
        requires
            0 <= lo <= left <= right <= hi < values.len(),
            combines_fit::<Self>(values, lo, hi, left, right),
            crossings_within(as_ints(values), lo, hi, left, right, bound),
            query::<Self>(values, lo, hi, left, right).best_sum.value() <= bound,
        ensures
            max_slice_sum(as_ints(values).subrange(left, right + 1)) <= bound,
        decreases hi - lo,
    {
        let ints = as_ints(values);
        if lo == hi {
            lemma_sum_single(ints.subrange(left, right + 1));
        } else {
            let mid = (lo + hi) / 2;
            if mid < left {
                Self::lemma_best_reaches(values, mid + 1, hi, left, right, bound);
            } else if right <= mid {
                Self::lemma_best_reaches(values, lo, mid, left, right, bound);
            } else {
                let first_part = query::<Self>(values, lo, mid, left, mid);
                let rest_part = query::<Self>(values, mid + 1, hi, mid + 1, right);
                Self::lemma_combine_values(first_part, rest_part);
                Self::lemma_best_reaches(values, lo, mid, left, mid, bound);
                Self::lemma_best_reaches(values, mid + 1, hi, mid + 1, right, bound);
                let first = ints.subrange(left, mid + 1);
                let rest = ints.subrange(mid + 1, right + 1);
                assert(first + rest =~= ints.subrange(left, right + 1));
                lemma_max_slice_concat(first, rest);
            }
        }
    }

    /// No run across a split sums to more than the best run of the range.
    pub proof fn lemma_crossings_bounded(
        values: Seq<T>,
        lo: int,
        hi: int,
        left: int,
        right: int,
        bound: int,
    )
        requires
            0 <= lo <= left <= right <= hi < values.len(),
            max_slice_sum(as_ints(values).subrange(left, right + 1)) <= bound,
        ensures
            crossings_within(as_ints(values), lo, hi, left, right, bound),
        decreases hi - lo,
    {
        let ints = as_ints(values);
        if lo < hi {
            let mid = (lo + hi) / 2;
            if mid < left {
                Self::lemma_crossings_bounded(values, mid + 1, hi, left, right, bound);
            } else if right <= mid {
                Self::lemma_crossings_bounded(values, lo, mid, left, right, bound);
            } else {
                let first = ints.subrange(left, mid + 1);
                let rest = ints.subrange(mid + 1, right + 1);
                assert(first + rest =~= ints.subrange(left, right + 1));
                lemma_max_slice_concat(first, rest);
                Self::lemma_crossings_bounded(values, lo, mid, left, mid, bound);
                Self::lemma_crossings_bounded(values, mid + 1, hi, mid + 1, right, bound);
            }
        }
    }

    /// The best sum that a query answers is the best sum of a run in its
    /// range exactly where no run across one of the query's splits sums
    /// to more than the answer.
    pub proof fn lemma_query_best(values: Seq<T>, lo: int, hi: int, left: int, right: int)
        requires
            0 <= lo <= left <= right <= hi < values.len(),
            combines_fit::<Self>(values, lo, hi, left, right),
        ensures
            query::<Self>(values, lo, hi, left, right).best_sum.value() == max_slice_sum(
                as_ints(values).subrange(left, right + 1),
            ) <==> crossings_within(
                as_ints(values),
                lo,
                hi,
                left,
                right,
                query::<Self>(values, lo, hi, left, right).best_sum.value(),
            ),
    {
        let best = query::<Self>(values, lo, hi, left, right).best_sum.value();
        Self::lemma_query_best_bounds(values, lo, hi, left, right);
        if crossings_within(as_ints(values), lo, hi, left, right, best) {
            Self::lemma_best_reaches(values, lo, hi, left, right, best);
        }
        if best == max_slice_sum(as_ints(values).subrange(left, right + 1)) {
            Self::lemma_crossings_bounded(values, lo, hi, left, right, best);
        }
    }
}

} // verus!
