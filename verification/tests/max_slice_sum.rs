use segment_tree::{
    MaxSliceSum, MaxSliceSumComputation, MaxSliceSumSegmentTree, SegmentTreeComputation,
    SegmentTreeError,
};

fn best_run(arr: &[i64]) -> i64 {
    let mut best = arr[0];
    for i in 0..arr.len() {
        for j in i..arr.len() {
            best = best.max(arr[i..=j].iter().sum());
        }
    }
    best
}

#[test]
fn whole_range_of_the_example() {
    let arr: [i64; 9] = [-2, 1, 2, 1, -10, 7, 2, -11, 4];
    let tree = MaxSliceSumSegmentTree::build(&arr);

    let whole = tree.get(0, 8).unwrap();
    assert_eq!(*whole.answer(), 9);
    assert_eq!(whole.best_sum, 9);
    assert_eq!(whole.best_prefix, 2);
    assert_eq!(whole.best_suffix, 4);
    assert_eq!(whole.total_sum, -6);
    assert_eq!(best_run(&arr), 9);
}

#[test]
fn from_slice_is_the_brute_force_answer() {
    let arr: [i64; 9] = [-2, 1, 2, 1, -10, 7, 2, -11, 4];

    for left in 0..arr.len() {
        for right in left..arr.len() {
            let run = &arr[left..=right];
            let scanned = MaxSliceSum::from_slice(run);

            assert_eq!(scanned.total_sum, run.iter().sum::<i64>());
            assert_eq!(scanned.best_sum, best_run(run));
            let best_prefix = (0..run.len()).map(|k| run[..=k].iter().sum::<i64>()).max();
            let best_suffix = (0..run.len()).map(|k| run[k..].iter().sum::<i64>()).max();
            assert_eq!(Some(scanned.best_prefix), best_prefix);
            assert_eq!(Some(scanned.best_suffix), best_suffix);
        }
    }
}

#[test]
fn from_slice_of_one_element() {
    let actual = MaxSliceSum::from_slice(&[-4i32]);

    assert_eq!(actual, MaxSliceSum::new(&-4));
    assert_eq!(*actual.answer(), -4);
}

#[test]
fn from_slice_of_negative_elements() {
    let actual = MaxSliceSum::from_slice(&[-3i64, -1, -2]);
    let expected = MaxSliceSum {
        total_sum: -6,
        best_sum: -1,
        best_prefix: -3,
        best_suffix: -2,
    };

    assert_eq!(actual, expected);
}

#[test]
fn from_slice_of_unsigned_elements() {
    let actual = MaxSliceSum::from_slice(&[3usize, 0, 4]);
    let expected = MaxSliceSum {
        total_sum: 7,
        best_sum: 7,
        best_prefix: 7,
        best_suffix: 7,
    };

    assert_eq!(actual, expected);
}

#[test]
fn combine_follows_the_formulas() {
    let left = MaxSliceSum {
        total_sum: -2,
        best_sum: 3,
        best_prefix: -2,
        best_suffix: 3,
    };
    let right = MaxSliceSum {
        total_sum: -1,
        best_sum: 4,
        best_prefix: 4,
        best_suffix: -1,
    };
    let expected = MaxSliceSum {
        total_sum: -3,
        best_sum: 4,
        best_prefix: 2,
        best_suffix: 2,
    };

    assert_eq!(MaxSliceSumComputation::combine(&left, &right), expected);
}

#[test]
fn combine_of_two_elements() {
    let tests = [(1, 2, 3, 3, 3, 3), (-1, 2, 1, 2, 1, 2), (5, -7, -2, 5, 5, -2)];

    for (a, b, total, best, prefix, suffix) in tests {
        let actual = MaxSliceSumComputation::combine(&MaxSliceSum::new(&a), &MaxSliceSum::new(&b));
        let expected = MaxSliceSum {
            total_sum: total,
            best_sum: best,
            best_prefix: prefix,
            best_suffix: suffix,
        };

        assert_eq!(actual, expected);
    }
}

#[test]
fn nesting_keeps_total_prefix_and_suffix() {
    let a = MaxSliceSum::from_slice(&[-5i64, 3]);
    let b = MaxSliceSum::new(&4i64);
    let c = MaxSliceSum::new(&-5i64);

    let left_first = MaxSliceSumComputation::combine(&MaxSliceSumComputation::combine(&a, &b), &c);
    let right_first = MaxSliceSumComputation::combine(&a, &MaxSliceSumComputation::combine(&b, &c));

    assert_eq!(left_first.total_sum, right_first.total_sum);
    assert_eq!(left_first.best_prefix, right_first.best_prefix);
    assert_eq!(left_first.best_suffix, right_first.best_suffix);
    assert_eq!(left_first.best_sum, 7);
    assert_eq!(right_first.best_sum, 4);
}

#[test]
fn nesting_of_single_elements_agrees() {
    let values = [-5i64, 3, 4, -5, 0, 9];

    for x in values {
        for y in values {
            for z in values {
                let a = MaxSliceSum::new(&x);
                let b = MaxSliceSum::new(&y);
                let c = MaxSliceSum::new(&z);
                let left_first =
                    MaxSliceSumComputation::combine(&MaxSliceSumComputation::combine(&a, &b), &c);
                let right_first =
                    MaxSliceSumComputation::combine(&a, &MaxSliceSumComputation::combine(&b, &c));

                assert_eq!(left_first, right_first);
                assert_eq!(left_first, MaxSliceSum::from_slice(&[x, y, z]));
            }
        }
    }
}

#[test]
fn tree_answers_sum_prefix_and_suffix_of_every_range() {
    let arr: [i64; 9] = [-2, 1, 2, 1, -10, 7, 2, -11, 4];
    let tree = MaxSliceSumSegmentTree::build(&arr);

    for left in 0..arr.len() {
        for right in left..arr.len() {
            let expected = MaxSliceSum::from_slice(&arr[left..=right]);
            let actual = tree.get(left, right).unwrap();

            assert_eq!(actual.total_sum, expected.total_sum);
            assert_eq!(actual.best_prefix, expected.best_prefix);
            assert_eq!(actual.best_suffix, expected.best_suffix);
            assert!(actual.best_sum <= expected.best_sum);
            assert!(actual.best_sum >= expected.best_prefix);
            assert!(actual.best_sum >= expected.best_suffix);
        }
    }
}

#[test]
fn tree_misses_a_run_across_the_middle() {
    let arr: [i64; 4] = [-5, 3, 4, -5];
    let tree = MaxSliceSumSegmentTree::build(&arr);

    let whole = tree.get(0, 3).unwrap();
    assert_eq!(whole.best_sum, 4);
    assert_eq!(whole.best_prefix, 2);
    assert_eq!(whole.best_suffix, 2);
    assert_eq!(whole.total_sum, -3);
    assert_eq!(MaxSliceSum::from_slice(&arr).best_sum, 7);
    assert_eq!(*tree.get(0, 2).unwrap().answer(), 7);
}

#[test]
fn tree_write_then_read() {
    let arr: [i64; 5] = [4, -9, 2, 2, -1];
    let mut tree = MaxSliceSumSegmentTree::build(&arr);

    assert_eq!(*tree.get(0, 4).unwrap().answer(), 4);
    assert_eq!(tree.modify(1, 3), Ok(()));
    assert_eq!(tree.get(1, 1), Ok(MaxSliceSum::new(&3)));
    assert_eq!(*tree.get(0, 4).unwrap().answer(), 11);
    assert_eq!(
        tree.modify(5, 3),
        Err(SegmentTreeError::OutOfBounds { index: 5, len: 5 })
    );
}

#[test]
fn unused_slots_hold_the_default() {
    let arr: [i64; 2] = [6, -6];
    let tree = MaxSliceSumSegmentTree::build(&arr);
    let zero = MaxSliceSum {
        total_sum: 0,
        best_sum: 0,
        best_prefix: 0,
        best_suffix: 0,
    };

    assert_eq!(MaxSliceSum::<i64>::default(), zero);
    assert_eq!(tree.data().len(), 8);
    assert_eq!(tree.data()[0], zero);
    assert_eq!(tree.data()[2], MaxSliceSum::new(&6));
    assert_eq!(tree.data()[3], MaxSliceSum::new(&-6));
    assert_eq!(tree.data()[4..], vec![zero; 4]);
}
