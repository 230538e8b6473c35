use segment_tree::{
    MaxComputation, MaxSliceSum, MaxSliceSumComputation, Numeric, SegmentTreeComputation,
    SumComputation,
};

#[test]
fn max_test_init() {
    let tests = [0, 1, 12345, 5463455];

    for value in tests {
        let expected = value;
        let actual = MaxComputation::init(&value);

        assert_eq!(expected, actual);
    }
}

#[test]
fn max_test_update() {
    let tests = [(353, 0), (5435, 1), (0, 12345), (645345, 5463455), (1, 1)];

    for (prev, cur) in tests {
        let expected = cur;
        let actual = MaxComputation::update(&prev, &cur);

        assert_eq!(expected, actual);
    }
}

#[test]
fn max_test_combine() {
    let tests = [
        (353, 0, 353),
        (5435, 1, 5435),
        (0, 12345, 12345),
        (645345, 5463455, 5463455),
        (1, 1, 1),
    ];

    for (prev, cur, expected) in tests {
        let actual = MaxComputation::combine(&prev, &cur);

        assert_eq!(expected, actual);
    }
}

#[test]
fn sum_test_init() {
    let tests = [0, 1, 12345, 5463455];

    for value in tests {
        let expected = value;
        let actual = SumComputation::init(&value);

        assert_eq!(expected, actual);
    }
}

#[test]
fn sum_test_update() {
    let tests = [(353, 0), (5435, 1), (0, 12345), (645345, 5463455), (1, 1)];

    for (prev, cur) in tests {
        let expected = cur;
        let actual = SumComputation::update(&prev, &cur);

        assert_eq!(expected, actual);
    }
}

#[test]
fn sum_test_combine() {
    let tests = [
        (353, 0, 353),
        (5435, 1, 5436),
        (0, 12345, 12345),
        (645345, 5463455, 6108800),
        (1, 1, 2),
    ];

    for (prev, cur, expected) in tests {
        let actual = SumComputation::combine(&prev, &cur);

        assert_eq!(expected, actual);
    }
}

#[test]
fn test_new_max_slice_sum() {
    let tests = [5, 0, 1, -4, -1];

    for value in tests {
        let expected = MaxSliceSum {
            total_sum: value,
            best_prefix: value,
            best_suffix: value,
            best_sum: value,
        };
        let actual = MaxSliceSum::new(&value);

        assert_eq!(expected, actual);
    }
}

#[test]
fn test_from_slice() {
    let arr = [-2, 1, 2, 1, -10, 7, 2, -11, 4];
    let expected = MaxSliceSum {
        total_sum: arr.iter().sum(),
        best_prefix: 2,
        best_suffix: 4,
        best_sum: 9,
    };
    let actual = MaxSliceSum::from_slice(&arr);

    assert_eq!(expected, actual);
}

#[test]
fn max_slice_sum_test_init() {
    let tests = [0, 1, 12345, 5463455];

    for value in tests {
        let expected = MaxSliceSum::new(&value);
        let actual = MaxSliceSumComputation::init(&value);

        assert_eq!(expected, actual);
    }
}

#[test]
fn max_slice_sum_test_update() {
    let tests = [(353, 0), (5435, 1), (0, 12345), (645345, 5463455), (1, 1)];

    for (prev, cur) in tests {
        let prev = MaxSliceSum::new(&prev);
        let expected = MaxSliceSum::new(&cur);
        let actual = MaxSliceSumComputation::update(&prev, &cur);

        assert_eq!(expected, actual);
    }
}

#[test]
fn sum_combine_on_each_integer_type() {
    assert_eq!(SumComputation::combine(&-5i32, &7i32), 2);
    assert_eq!(SumComputation::combine(&-5i64, &-7i64), -12);
    assert_eq!(SumComputation::combine(&-5isize, &5isize), 0);
    assert_eq!(SumComputation::combine(&5u32, &7u32), 12);
    assert_eq!(SumComputation::combine(&5u64, &7u64), 12);
    assert_eq!(SumComputation::combine(&5usize, &0usize), 5);
    assert_eq!(SumComputation::combine(&i64::MAX, &i64::MIN), -1);
}

#[test]
fn max_combine_on_each_integer_type() {
    assert_eq!(MaxComputation::combine(&-5i32, &7i32), 7);
    assert_eq!(MaxComputation::combine(&-5i64, &-7i64), -5);
    assert_eq!(MaxComputation::combine(&-5isize, &5isize), 5);
    assert_eq!(MaxComputation::combine(&5u32, &7u32), 7);
    assert_eq!(MaxComputation::combine(&u64::MAX, &7u64), u64::MAX);
    assert_eq!(MaxComputation::combine(&5usize, &0usize), 5);
}

#[test]
fn sum_and_max_combine_in_either_nesting() {
    let values = [-9i64, -1, 0, 4, 4, 100];

    for a in values {
        for b in values {
            for c in values {
                assert_eq!(
                    SumComputation::combine(&SumComputation::combine(&a, &b), &c),
                    SumComputation::combine(&a, &SumComputation::combine(&b, &c))
                );
                assert_eq!(
                    MaxComputation::combine(&MaxComputation::combine(&a, &b), &c),
                    MaxComputation::combine(&a, &MaxComputation::combine(&b, &c))
                );
            }
        }
    }
}

#[test]
fn numeric_operations() {
    assert_eq!(<i32 as Numeric>::zero(), 0);
    assert_eq!(<usize as Numeric>::zero(), 0);
    assert_eq!(3i64.plus(&-8), -5);
    assert_eq!(3i64.larger(&-8), 3);
    assert_eq!((-8i64).larger(&3), 3);
    assert_eq!(7u32.larger(&7), 7);
}
