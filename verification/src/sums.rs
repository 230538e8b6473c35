//! Sums and maxima over sequences of integers: the mathematical meaning of
//! what the shipped strategies compute.

use crate::computation::numeric::{spec_max, Numeric};
use vstd::prelude::*;

verus! {

/// The integers that the members of `s` stand for.
pub open spec fn as_ints<T: Numeric>(s: Seq<T>) -> Seq<int> {
    s.map_values(|x: T| x.value())
}

/// The sum of all members of `s`; zero for the empty sequence.
pub open spec fn sum(s: Seq<int>) -> int
    decreases s.len(),
{
    if s.len() == 0 {
        0
    } else {
        sum(s.drop_last()) + s.last()
    }
}

/// The greatest member of a non-empty `s`.
pub open spec fn max_of(s: Seq<int>) -> int
    decreases s.len(),
{
    if s.len() <= 1 {
        sum(s)
    } else {
        spec_max(max_of(s.drop_last()), s.last())
    }
}

/// The greatest sum of a non-empty prefix of a non-empty `s`.
pub open spec fn max_prefix_sum(s: Seq<int>) -> int
    decreases s.len(),
{
    if s.len() <= 1 {
        sum(s)
    } else {
        spec_max(max_prefix_sum(s.drop_last()), sum(s))
    }
}

/// The greatest sum of a non-empty suffix of a non-empty `s`.
pub open spec fn max_suffix_sum(s: Seq<int>) -> int
    decreases s.len(),
{
    if s.len() <= 1 {
        sum(s)
    } else {
        spec_max(max_suffix_sum(s.drop_first()), sum(s))
    }
}

/// The greatest sum of a non-empty run of neighbours in a non-empty `s`: such
/// a run either ends before the last member or is a suffix.
pub open spec fn max_slice_sum(s: Seq<int>) -> int
    decreases s.len(),
{
    if s.len() <= 1 {
        sum(s)
    } else {
        spec_max(max_slice_sum(s.drop_last()), max_suffix_sum(s))
    }
}

/// A one-member sequence sums to its member.
pub proof fn lemma_sum_single(s: Seq<int>)
    requires
        s.len() == 1,
    ensures
        sum(s) == s[0],
{
    assert(sum(s.drop_last()) == 0);
}

/// Taking one more member adds it to the sum.
pub proof fn lemma_sum_take_next(s: Seq<int>, i: int)
    requires
        0 <= i < s.len(),
    ensures
        sum(s.take(i + 1)) == sum(s.take(i)) + s[i],
{
    assert(s.take(i + 1).drop_last() =~= s.take(i));
}

/// The sum can be taken from the front as well as from the back.
pub proof fn lemma_sum_first(s: Seq<int>)
    requires
        s.len() > 0,
    ensures
        sum(s) == s[0] + sum(s.drop_first()),
    decreases s.len(),
{
    if s.len() == 1 {
        lemma_sum_single(s);
        assert(sum(s.drop_first()) == 0);
    } else {
        lemma_sum_first(s.drop_last());
        assert(s.drop_last().drop_first() =~= s.drop_first().drop_last());
    }
}

/// Skipping one member less adds it to the sum.
pub proof fn lemma_sum_skip_prev(s: Seq<int>, i: int)
    requires
        0 <= i < s.len(),
    ensures
        sum(s.skip(i)) == s[i] + sum(s.skip(i + 1)),
{
    lemma_sum_first(s.skip(i));
    assert(s.skip(i).drop_first() =~= s.skip(i + 1));
}

/// The sum of a concatenation is the sum of the sums.
pub proof fn lemma_sum_concat(a: Seq<int>, b: Seq<int>)
    ensures
        sum(a + b) == sum(a) + sum(b),
    decreases b.len(),
{
    if b.len() == 0 {
        assert(a + b =~= a);
    } else {
        lemma_sum_concat(a, b.drop_last());
        assert((a + b).drop_last() =~= a + b.drop_last());
    }
}

/// The best suffix of a sequence that grew by `x` at its end: the best
/// suffix so far, if it is worth keeping, and `x`.
pub proof fn lemma_max_suffix_push(s: Seq<int>, x: int)
    requires
        s.len() > 0,
    ensures
        max_suffix_sum(s.push(x)) == spec_max(max_suffix_sum(s), 0) + x,
    decreases s.len(),
{
    let t = s.push(x);
    assert(t.drop_last() =~= s);
    assert(t.drop_first() =~= s.drop_first().push(x));
    assert(sum(t) == sum(s) + x);
    assert(max_suffix_sum(t) == spec_max(max_suffix_sum(t.drop_first()), sum(t)));
    if s.len() == 1 {
        lemma_sum_single(t.drop_first());
    } else {
        lemma_max_suffix_push(s.drop_first(), x);
    }
}

/// Whether `T` can hold the sum of every non-empty run of neighbours in `s`.
pub open spec fn all_sums_fit<T: Numeric>(s: Seq<int>) -> bool {
    forall|i: int, j: int| 0 <= i < j <= s.len() ==> T::fits(sum(#[trigger] s.subrange(i, j)))
}

/// The greatest member of a concatenation is the greater of the two parts'
/// greatest members.
pub proof fn lemma_max_concat(a: Seq<int>, b: Seq<int>)
    requires
        a.len() > 0,
        b.len() > 0,
    ensures
        max_of(a + b) == spec_max(max_of(a), max_of(b)),
    decreases b.len(),
{
    assert((a + b).drop_last() =~= a + b.drop_last());
    if b.len() == 1 {
        assert(a + b.drop_last() =~= a);
        lemma_sum_single(b);
    } else {
        lemma_max_concat(a, b.drop_last());
    }
}

/// `max_of` is a member, and no member is greater.
pub proof fn lemma_max_of_is_max(s: Seq<int>)
    requires
        s.len() > 0,
    ensures
        forall|i: int| 0 <= i < s.len() ==> s[i] <= max_of(s),
        exists|i: int| 0 <= i < s.len() && s[i] == max_of(s),
    decreases s.len(),
{
    if s.len() == 1 {
        lemma_sum_single(s);
        assert(s[0] == max_of(s));
    } else {
        let front = s.drop_last();
        lemma_max_of_is_max(front);
        let i = choose|i: int| 0 <= i < front.len() && front[i] == max_of(front);
        assert(s[i] == front[i]);
        assert(s[s.len() - 1] == s.last());
        assert forall|k: int| 0 <= k < s.len() implies s[k] <= max_of(s) by {
            if k < front.len() {
                assert(s[k] == front[k]);
            }
        }
    }
}

/// The best prefix of a concatenation: a prefix of the first part, or all
/// of the first part and a prefix of the second.
pub proof fn lemma_max_prefix_concat(a: Seq<int>, b: Seq<int>)
    requires
        a.len() > 0,
        b.len() > 0,
    ensures
        max_prefix_sum(a + b) == spec_max(max_prefix_sum(a), sum(a) + max_prefix_sum(b)),
    decreases b.len(),
{
    assert((a + b).drop_last() =~= a + b.drop_last());
    lemma_sum_concat(a, b);
    if b.len() == 1 {
        assert(a + b.drop_last() =~= a);
    } else {
        lemma_max_prefix_concat(a, b.drop_last());
    }
}

/// The best suffix of a concatenation: a suffix of the second part, or all
/// of the second part and a suffix of the first.
pub proof fn lemma_max_suffix_concat(a: Seq<int>, b: Seq<int>)
    requires
        a.len() > 0,
        b.len() > 0,
    ensures
        max_suffix_sum(a + b) == spec_max(max_suffix_sum(b), sum(b) + max_suffix_sum(a)),
    decreases a.len(),
{
    assert((a + b).drop_first() =~= a.drop_first() + b);
    lemma_sum_concat(a, b);
    if a.len() == 1 {
        assert(a.drop_first() + b =~= b);
    } else {
        lemma_max_suffix_concat(a.drop_first(), b);
    }
}

/// The best run of a concatenation lies in the first part, or in the
/// second, or is a suffix of the first followed by a prefix of the second.
pub proof fn lemma_max_slice_concat(a: Seq<int>, b: Seq<int>)
    requires
        a.len() > 0,
        b.len() > 0,
    ensures
        max_slice_sum(a + b) == spec_max(
            spec_max(max_slice_sum(a), max_slice_sum(b)),
            max_suffix_sum(a) + max_prefix_sum(b),
        ),
    decreases b.len(),
{
    assert((a + b).drop_last() =~= a + b.drop_last());
    lemma_max_suffix_concat(a, b);
    if b.len() == 1 {
        assert(a + b.drop_last() =~= a);
    } else {
        lemma_max_slice_concat(a, b.drop_last());
    }
}

/// `max_prefix_sum` is the sum of a non-empty prefix, and no non-empty
/// prefix sums to more.
pub proof fn lemma_max_prefix_is_max(s: Seq<int>)
    requires
        s.len() > 0,
    ensures
        forall|k: int| 0 < k <= s.len() ==> sum(#[trigger] s.take(k)) <= max_prefix_sum(s),
        exists|k: int| 0 < k <= s.len() && sum(#[trigger] s.take(k)) == max_prefix_sum(s),
    decreases s.len(),
{
    let n = s.len() as int;
    assert(s.take(n) =~= s);
    if n > 1 {
        let front = s.drop_last();
        lemma_max_prefix_is_max(front);
        assert forall|k: int| 0 < k <= n implies sum(#[trigger] s.take(k)) <= max_prefix_sum(
            s,
        ) by {
            if k < n {
                assert(s.take(k) =~= front.take(k));
            }
        }
        if max_prefix_sum(s) != sum(s) {
            let k = choose|k: int|
                0 < k <= front.len() && sum(#[trigger] front.take(k)) == max_prefix_sum(front);
            assert(s.take(k) =~= front.take(k));
        }
    }
}

/// `max_suffix_sum` is the sum of a non-empty suffix, and no non-empty
/// suffix sums to more.
pub proof fn lemma_max_suffix_is_max(s: Seq<int>)
    requires
        s.len() > 0,
    ensures
        forall|k: int| 0 <= k < s.len() ==> sum(#[trigger] s.skip(k)) <= max_suffix_sum(s),
        exists|k: int| 0 <= k < s.len() && sum(#[trigger] s.skip(k)) == max_suffix_sum(s),
    decreases s.len(),
{
    let n = s.len() as int;
    assert(s.skip(0) =~= s);
    if n > 1 {
        let back = s.drop_first();
        lemma_max_suffix_is_max(back);
        assert forall|k: int| 0 <= k < n implies sum(#[trigger] s.skip(k)) <= max_suffix_sum(
            s,
        ) by {
            if k > 0 {
                assert(s.skip(k) =~= back.skip(k - 1));
            }
        }
        if max_suffix_sum(s) != sum(s) {
            let k = choose|k: int|
                0 <= k < back.len() && sum(#[trigger] back.skip(k)) == max_suffix_sum(back);
            assert(s.skip(k + 1) =~= back.skip(k));
        }
    }
}

/// `max_slice_sum` is the sum of a non-empty run of neighbours, and no such
/// run sums to more.
pub proof fn lemma_max_slice_is_max(s: Seq<int>)
    requires
        s.len() > 0,
    ensures
        forall|i: int, j: int|
            0 <= i < j <= s.len() ==> sum(#[trigger] s.subrange(i, j)) <= max_slice_sum(s),
        exists|i: int, j: int|
            0 <= i < j <= s.len() && sum(#[trigger] s.subrange(i, j)) == max_slice_sum(s),
    decreases s.len(),
{
    let n = s.len() as int;
    assert(s.subrange(0, n) =~= s);
    if n > 1 {
        let front = s.drop_last();
        lemma_max_slice_is_max(front);
        lemma_max_suffix_is_max(s);
        assert forall|i: int, j: int| 0 <= i < j <= n implies sum(#[trigger] s.subrange(i, j))
            <= max_slice_sum(s) by {
            if j < n {
                assert(s.subrange(i, j) =~= front.subrange(i, j));
            } else {
                assert(s.subrange(i, j) =~= s.skip(i));
            }
        }
        if max_slice_sum(s) == max_suffix_sum(s) {
            let k = choose|k: int|
                0 <= k < s.len() && sum(#[trigger] s.skip(k)) == max_suffix_sum(s);
            assert(s.subrange(k, n) =~= s.skip(k));
        } else {
            let (i, j) = choose|i: int, j: int|
                0 <= i < j <= front.len() && sum(#[trigger] front.subrange(i, j))
                    == max_slice_sum(front);
            assert(s.subrange(i, j) =~= front.subrange(i, j));
        }
    }
}

/// The whole is at most its best prefix and its best suffix, and these are
/// at most the best run.
pub proof fn lemma_max_slice_dominates(s: Seq<int>)
    requires
        s.len() > 0,
    ensures
        sum(s) <= max_prefix_sum(s) <= max_slice_sum(s),
        sum(s) <= max_suffix_sum(s) <= max_slice_sum(s),
{
    lemma_max_prefix_is_max(s);
    lemma_max_slice_is_max(s);
    let k = choose|k: int| 0 < k <= s.len() && sum(#[trigger] s.take(k)) == max_prefix_sum(s);
    assert(s.take(k) =~= s.subrange(0, k));
}

/// The sum of members that all lie between `low` and `high` lies between
/// as many times `low` and `high`.
pub proof fn lemma_sum_bounds(s: Seq<int>, low: int, high: int)
    requires
        forall|i: int| 0 <= i < s.len() ==> low <= #[trigger] s[i] <= high,
    ensures
        s.len() * low <= sum(s) <= s.len() * high,
    decreases s.len(),
{
    if s.len() > 0 {
        let front = s.drop_last();
        assert forall|i: int| 0 <= i < front.len() implies low <= #[trigger] front[i] <= high by {
            assert(front[i] == s[i]);
        }
        lemma_sum_bounds(front, low, high);
        assert(s.last() == s[s.len() - 1]);
        assert(s.len() * low == front.len() * low + low) by (nonlinear_arith)
            requires
                s.len() == front.len() + 1,
        ;
        assert(s.len() * high == front.len() * high + high) by (nonlinear_arith)
            requires
                s.len() == front.len() + 1,
        ;
    }
}

/// Where all members lie between `low` and `high`, and `T` can hold as
/// many times `low` and `high` as there are members, `T` can hold the sum
/// of every run.
pub proof fn lemma_bounded_sums_fit<T: Numeric>(s: Seq<int>, low: int, high: int)
    requires
        low <= 0 <= high,
        forall|i: int| 0 <= i < s.len() ==> low <= #[trigger] s[i] <= high,
        T::fits(s.len() * low),
        T::fits(s.len() * high),
    ensures
        all_sums_fit::<T>(s),
{
    assert forall|i: int, j: int| 0 <= i < j <= s.len() implies T::fits(
        sum(#[trigger] s.subrange(i, j)),
    ) by {
        let run = s.subrange(i, j);
        assert forall|k: int| 0 <= k < run.len() implies low <= #[trigger] run[k] <= high by {
            assert(run[k] == s[i + k]);
        }
        lemma_sum_bounds(run, low, high);
        assert(s.len() * low <= run.len() * low) by (nonlinear_arith)
            requires
                run.len() <= s.len(),
                low <= 0,
        ;
        assert(run.len() * high <= s.len() * high) by (nonlinear_arith)
            requires
                run.len() <= s.len(),
                0 <= high,
        ;
        T::fits_between(s.len() * low, sum(run), s.len() * high);
    }
}

} // verus!
