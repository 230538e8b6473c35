use segment_tree::{MaxSegmentTree, SegmentTreeError, SegmentTreeResult, SumSegmentTree};
use segment_tree::Numeric;
use std::fmt::Debug;

#[test]
fn test_build() {
    let arr = [1, 3, 7, 27];
    let tree = SumSegmentTree::build(&arr);

    /*
              38
             /  \
            4   34
           / \  / \
           1 3  7 27
    */
    assert!(!tree.is_empty());
    assert_eq!(tree.len(), arr.len());
    assert_eq!(tree.data().len(), 16);
    assert_eq!(tree.data()[0], 0);
    assert_eq!(tree.data()[1], 38);
    assert_eq!(tree.data()[2], 4);
    assert_eq!(tree.data()[3], 34);
    assert_eq!(tree.data()[4], 1);
    assert_eq!(tree.data()[5], 3);
    assert_eq!(tree.data()[6], 7);
    assert_eq!(tree.data()[7], 27);
    assert_eq!(tree.data()[8..], vec![0; 8]);
}

#[test]
fn test_empty_tree() {
    let arr: [usize; 0] = [];
    let mut tree = SumSegmentTree::build(&arr);

    assert_eq!(tree.len(), arr.len());
    assert_eq!(tree.data().len(), 0);
    assert!(tree.is_empty());

    let values = [0, 1, 2, 100];
    for value in values {
        let expected = Err(SegmentTreeError::OutOfBounds {
            index: value,
            len: 0,
        });
        let actual = tree.get(value, value);

        assert_eq!(actual, expected);

        let expected = Err(SegmentTreeError::OutOfBounds { index: 0, len: 0 });
        let actual = tree.modify(0, value);

        assert_eq!(actual, expected);
    }
}

#[test]
fn test_get() {
    let arr = [1, 3, 7, 27, 73];
    let tree = SumSegmentTree::build(&arr);

    assert!(!tree.is_empty());
    assert_eq!(tree.len(), arr.len());

    for left in 0..arr.len() {
        for right in left..arr.len() {
            let expected: SegmentTreeResult<usize> = Ok(arr[left..=right].iter().sum());
            let actual = tree.get(left, right);

            assert_eq!(actual, expected);
        }
    }
}

#[test]
fn test_get_out_of_bounds() {
    let arr = [1, 3, 7, 27, 73];
    let tree = SumSegmentTree::build(&arr);

    assert!(!tree.is_empty());
    assert_eq!(tree.len(), arr.len());

    let values = [(0, 5), (1, 6), (6, 1234), (3, 435345)];

    for (left, right) in values {
        let expected = Err(SegmentTreeError::OutOfBounds {
            index: right,
            len: 5,
        });
        let actual = tree.get(left, right);

        assert_eq!(actual, expected);
    }
}

#[test]
fn test_get_invalid_range() {
    let arr = [1, 3, 7, 27, 73];
    let tree = SumSegmentTree::build(&arr);

    assert!(!tree.is_empty());
    assert_eq!(tree.len(), arr.len());

    let values = [(5, 4), (2, 1), (2, 0), (4, 1)];

    for (left, right) in values {
        let expected = Err(SegmentTreeError::InvalidRange { left, right });
        let actual = tree.get(left, right);

        assert_eq!(actual, expected);
    }
}

#[test]
fn test_modify() {
    let arr = [1, 3, 7, 27];
    let mut tree = SumSegmentTree::build(&arr);

    assert!(!tree.is_empty());
    assert_eq!(tree.modify(3, 10), Ok(()));
    assert_eq!(tree.modify(1, 73), Ok(()));

    /*
              91
             /  \
            74   17
           / \  / \
           1 73 7 10
    */
    assert_eq!(tree.data().len(), 16);
    assert_eq!(tree.len(), arr.len());
    assert_eq!(tree.data()[0], 0);
    assert_eq!(tree.data()[1], 91);
    assert_eq!(tree.data()[2], 74);
    assert_eq!(tree.data()[3], 17);
    assert_eq!(tree.data()[4], 1);
    assert_eq!(tree.data()[5], 73);
    assert_eq!(tree.data()[6], 7);
    assert_eq!(tree.data()[7], 10);
    assert_eq!(tree.data()[8..], vec![0; 8]);
}

#[test]
fn test_max_segment_tree() {
    let arr = [1, 3, 7, 27, 73, 7542, 1, -5, -543, 9];
    let tree = MaxSegmentTree::build(&arr);

    assert!(!tree.is_empty());
    assert_eq!(tree.len(), arr.len());

    verify_max_segment_tree(&tree, &arr);
}

fn verify_max_segment_tree<T>(tree: &MaxSegmentTree<T>, arr: &[T])
where
    T: Default + Clone + Copy + Ord + Debug + Numeric,
{
    for left in 0..arr.len() {
        for right in left..arr.len() {
            let expected: SegmentTreeResult<T> = Ok(*arr[left..=right].iter().max().unwrap());
            let actual = tree.get(left, right);

            assert_eq!(actual, expected);
        }
    }
}

#[test]
fn sum_tree_answers_ranges() {
    let arr: [i64; 4] = [1, 3, 7, 27];
    let tree = SumSegmentTree::build(&arr);

    assert_eq!(tree.get(0, 3), Ok(38));
    assert_eq!(tree.get(1, 2), Ok(10));
    assert_eq!(tree.get(0, 0), Ok(1));
    assert_eq!(tree.get(3, 3), Ok(27));
}

#[test]
fn sum_tree_after_two_writes() {
    let arr: [i64; 4] = [1, 3, 7, 27];
    let mut tree = SumSegmentTree::build(&arr);

    assert_eq!(tree.modify(3, 10), Ok(()));
    assert_eq!(tree.modify(1, 73), Ok(()));

    assert_eq!(tree.get(0, 3), Ok(91));
    assert_eq!(tree.get(0, 1), Ok(74));
    assert_eq!(tree.get(2, 3), Ok(17));
}

#[test]
fn single_element_tree() {
    let arr: [i32; 1] = [-7];
    let mut tree = MaxSegmentTree::build(&arr);

    assert!(!tree.is_empty());
    assert_eq!(tree.len(), 1);
    assert_eq!(tree.data().len(), 4);
    assert_eq!(tree.data()[1], -7);
    assert_eq!(tree.get(0, 0), Ok(-7));
    assert_eq!(
        tree.get(0, 1),
        Err(SegmentTreeError::OutOfBounds { index: 1, len: 1 })
    );
    assert_eq!(tree.modify(0, 12), Ok(()));
    assert_eq!(tree.get(0, 0), Ok(12));
}

#[test]
fn invalid_range_is_reported_before_bounds() {
    let arr: [u32; 3] = [4, 5, 6];
    let tree = SumSegmentTree::build(&arr);

    assert_eq!(
        tree.get(9, 7),
        Err(SegmentTreeError::InvalidRange { left: 9, right: 7 })
    );
    assert_eq!(
        tree.get(7, 9),
        Err(SegmentTreeError::OutOfBounds { index: 9, len: 3 })
    );

    let empty: [u32; 0] = [];
    let tree = SumSegmentTree::build(&empty);
    assert_eq!(
        tree.get(1, 0),
        Err(SegmentTreeError::InvalidRange { left: 1, right: 0 })
    );
}

#[test]
fn refused_write_changes_nothing() {
    let arr: [u64; 3] = [4, 5, 6];
    let mut tree = SumSegmentTree::build(&arr);
    let before = tree.data().clone();

    assert_eq!(
        tree.modify(3, 100),
        Err(SegmentTreeError::OutOfBounds { index: 3, len: 3 })
    );

    assert_eq!(tree.data(), &before);
    assert_eq!(tree.len(), 3);
    assert_eq!(tree.get(0, 2), Ok(15));
}

#[test]
fn write_then_read_one_position() {
    let arr: [isize; 6] = [5, -2, 9, 0, 3, -8];

    for pos in 0..arr.len() {
        let mut sum = SumSegmentTree::build(&arr);
        let mut max = MaxSegmentTree::build(&arr);

        assert_eq!(sum.modify(pos, 41), Ok(()));
        assert_eq!(max.modify(pos, -41), Ok(()));

        assert_eq!(sum.get(pos, pos), Ok(41));
        assert_eq!(max.get(pos, pos), Ok(-41));
    }
}

#[test]
fn same_write_twice_is_one_write() {
    let arr: [i64; 7] = [5, -2, 9, 0, 3, -8, 1];

    for pos in 0..arr.len() {
        let mut once = SumSegmentTree::build(&arr);
        let mut twice = SumSegmentTree::build(&arr);

        assert_eq!(once.modify(pos, 100), Ok(()));
        assert_eq!(twice.modify(pos, 100), Ok(()));
        assert_eq!(twice.modify(pos, 100), Ok(()));

        assert_eq!(once.data(), twice.data());
        assert_eq!(once.len(), twice.len());
    }
}

#[test]
fn writes_keep_range_sums_right() {
    let mut arr: [i64; 7] = [5, -2, 9, 0, 3, -8, 1];
    let mut tree = SumSegmentTree::build(&arr);
    let writes = [(0, 11), (6, -4), (3, 7), (3, 8), (5, 0)];

    for (pos, value) in writes {
        arr[pos] = value;
        assert_eq!(tree.modify(pos, value), Ok(()));

        for left in 0..arr.len() {
            for right in left..arr.len() {
                let expected: i64 = arr[left..=right].iter().sum();
                assert_eq!(tree.get(left, right), Ok(expected));
            }
        }
    }
}

#[test]
fn lengths_that_are_no_power_of_two() {
    for len in 1..40usize {
        let arr: Vec<u64> = (0..len).map(|i| (i * 7 + 3) as u64).collect();
        let tree = SumSegmentTree::build(&arr);

        assert_eq!(tree.len(), len);
        assert_eq!(tree.data().len(), 4 * len);
        assert_eq!(tree.get(0, len - 1), Ok(arr.iter().sum()));
        assert_eq!(tree.get(len - 1, len - 1), Ok(arr[len - 1]));
    }
}
