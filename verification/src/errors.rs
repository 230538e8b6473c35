use vstd::prelude::*;

verus! {

/// Why a query or an update was refused. The tree is unchanged whenever one
/// of these is returned.
#[derive(Debug, PartialEq, Eq, Clone, Copy, Structural)]
pub enum SegmentTreeError {
    /// `index` does not address an element of a tree that holds `len` of them.
    OutOfBounds { index: usize, len: usize },
    /// The ends of a closed range are in the wrong order: `left > right`.
    InvalidRange { left: usize, right: usize },
}

pub type SegmentTreeResult<T> = Result<T, SegmentTreeError>;

} // verus!
