//! A segment tree: an array-backed binary tree that answers aggregate
//! queries over any range of a sequence, and takes point updates, in
//! logarithmic time.
//!
//! The tree is generic over a [`SegmentTreeComputation`], which says how
//! elements become aggregates and how aggregates merge. Three strategies are
//! at hand: [`SumComputation`], [`MaxComputation`] and
//! [`MaxSliceSumComputation`].
//!
//! - `computation`: the strategy trait, the three strategies, and the integer
//!   types they work on.
//! - `segment_tree`: the tree itself.
//! - `shape`: what a query answers, as a function of the sequence alone.
//! - `layout`: where the nodes lie in the array, and what an update does to it.
//! - `sums`: sums and maxima of integer sequences, by which the strategies'
//!   answers are stated.
//! - `errors`: why an operation was refused.

pub mod computation;
pub mod errors;
pub mod layout;
pub mod segment_tree;
pub mod shape;
pub mod sums;

pub use crate::computation::{
    MaxComputation, MaxSliceSum, MaxSliceSumComputation, Numeric, SegmentTreeComputation,
    SumComputation,
};
pub use crate::errors::{SegmentTreeError, SegmentTreeResult};
pub use crate::segment_tree::{MaxSegmentTree, MaxSliceSumSegmentTree, SegmentTree, SumSegmentTree};
