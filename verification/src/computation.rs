//! The aggregation strategy that a segment tree is generic over.

use vstd::prelude::*;

pub mod max;
pub mod max_slice_sum;
pub mod numeric;
pub mod sum;

pub use max::MaxComputation;
pub use max_slice_sum::{MaxSliceSum, MaxSliceSumComputation};
pub use numeric::Numeric;
pub use sum::SumComputation;

verus! {

/// A stateless policy that says how elements become aggregates and how the
/// aggregates of two adjacent ranges merge.
///
/// The three executable functions are the only places where a tree touches
/// the element type. Each is pinned to a `spec` function, so that what a
/// tree holds can be said without running anything.
pub trait SegmentTreeComputation {
    /// An element of the sequence that a tree is built from.
    type Input;

    /// The summary of a non-empty range of elements.
    type Output;

    /// The aggregate of the one-element range that holds `value`.
    spec fn spec_init(value: Self::Input) -> Self::Output;

    /// The aggregate of a range, given the aggregate `left` of its first part
    /// and the aggregate `right` of the rest. Operand order matters.
    spec fn spec_combine(left: Self::Output, right: Self::Output) -> Self::Output;

    /// The aggregate of a one-element range after its element was
    /// overwritten with `new_value`.
    spec fn spec_update(prev: Self::Output, new_value: Self::Input) -> Self::Output;

    /// Whether `combine` can merge `left` and `right` within the limits of
    /// the machine's integers.
    spec fn combinable(left: Self::Output, right: Self::Output) -> bool;

    /// Overwriting an element forgets the aggregate that was there: the
    /// outcome is that of a fresh `init`.
    proof fn update_replaces(prev: Self::Output, new_value: Self::Input)
        ensures
            Self::spec_update(prev, new_value) == Self::spec_init(new_value),
    ;

    fn combine(left_result: &Self::Output, right_result: &Self::Output) -> (res: Self::Output)
        requires
            Self::combinable(*left_result, *right_result),
        ensures
            res == Self::spec_combine(*left_result, *right_result),
    ;

    fn update(prev_value: &Self::Output, new_value: &Self::Input) -> (res: Self::Output)
        ensures
            res == Self::spec_update(*prev_value, *new_value),
    ;

    fn init(value: &Self::Input) -> (res: Self::Output)
        ensures
            res == Self::spec_init(*value),
    ;
}

} // verus!
