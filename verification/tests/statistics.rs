use tsfile_writer::float_bits::{double_lt, float_lt};
use tsfile_writer::statistics::{Statistics, StatisticsStruct};
use tsfile_writer::{IoTDBValue, TSDataType};

fn int_statistics(samples: &[(i64, i32)]) -> Statistics {
    let mut statistics = Statistics::new(TSDataType::INT32);
    for (t, v) in samples {
        statistics.update(*t, &IoTDBValue::INT(*v));
    }
    statistics
}

#[test]
fn new_statistics_are_those_of_no_values() {
    match Statistics::new(TSDataType::INT32) {
        Statistics::INT32(s) => {
            assert_eq!(s.ts_first, i64::MAX);
            assert_eq!(s.ts_last, i64::MIN);
            assert_eq!(s.min_value, i32::MAX);
            assert_eq!(s.max_value, i32::MIN);
            assert_eq!(s.first_value, 0);
            assert_eq!(s.last_value, 0);
            assert_eq!(s.count, 0);
            assert_eq!(s.sum_value, 0);
        }
        _ => panic!("wrong kind of statistics"),
    }
    match Statistics::new(TSDataType::FLOAT) {
        Statistics::FLOAT(s) => {
            assert_eq!(f32::from_bits(s.min_value), f32::MAX);
            assert_eq!(f32::from_bits(s.max_value), f32::MIN);
            assert_eq!(f64::from_bits(s.sum_value), 0.0);
        }
        _ => panic!("wrong kind of statistics"),
    }
    match Statistics::new(TSDataType::DOUBLE) {
        Statistics::DOUBLE(s) => {
            assert_eq!(f64::from_bits(s.min_value), f64::MAX);
            assert_eq!(f64::from_bits(s.max_value), f64::MIN);
        }
        _ => panic!("wrong kind of statistics"),
    }
    assert_eq!(Statistics::new(TSDataType::INT64).count(), 0);
}

#[test]
fn update_keeps_range_extremes_count_and_sum() {
    let statistics = int_statistics(&[(1, 13), (10, 14), (100, 15)]);
    match statistics {
        Statistics::INT32(s) => {
            assert_eq!(s.ts_first, 1);
            assert_eq!(s.ts_last, 100);
            assert_eq!(s.min_value, 13);
            assert_eq!(s.max_value, 15);
            assert_eq!(s.first_value, 13);
            assert_eq!(s.last_value, 15);
            assert_eq!(s.count, 3);
            assert_eq!(s.sum_value, 42);
        }
        _ => panic!("wrong kind of statistics"),
    }
    let mut bytes: Vec<u8> = vec![];
    statistics.serialize(&mut bytes);
    assert_eq!(
        bytes,
        [
            3, 0, 0, 0, 0, 0, 0, 0, 1, 0, 0, 0, 0, 0, 0, 0, 100, 0, 0, 0, 13, 0, 0, 0, 15, 0, 0,
            0, 13, 0, 0, 0, 15, 0, 0, 0, 0, 0, 0, 0, 42
        ]
    );
}

#[test]
fn first_and_last_go_by_timestamps_not_by_order() {
    let statistics = int_statistics(&[(50, 5), (10, 1), (90, 9), (20, 2)]);
    match statistics {
        Statistics::INT32(s) => {
            assert_eq!((s.ts_first, s.first_value), (10, 1));
            assert_eq!((s.ts_last, s.last_value), (90, 9));
        }
        _ => panic!("wrong kind of statistics"),
    }
}

#[test]
fn merged_statistics_are_those_of_all_samples() {
    let all: Vec<(i64, i32)> = (0..200).map(|i| (i as i64 * 3, (i * 37 % 101) - 50)).collect();
    let whole = int_statistics(&all);
    for split in [0usize, 1, 77, 199, 200] {
        let mut left = int_statistics(&all[..split]);
        let right = int_statistics(&all[split..]);
        left.merge(&right);
        match (left, whole) {
            (Statistics::INT32(a), Statistics::INT32(b)) => {
                assert_eq!(a.ts_first, b.ts_first);
                assert_eq!(a.ts_last, b.ts_last);
                assert_eq!(a.min_value, b.min_value);
                assert_eq!(a.max_value, b.max_value);
                assert_eq!(a.first_value, b.first_value);
                assert_eq!(a.last_value, b.last_value);
                assert_eq!(a.count, b.count);
                assert_eq!(a.sum_value, b.sum_value);
            }
            _ => panic!("wrong kind of statistics"),
        }
    }
}

#[test]
fn merging_is_associative_for_integers() {
    let a = int_statistics(&[(5, 1), (6, -7)]);
    let b = int_statistics(&[(1, 100)]);
    let c = int_statistics(&[(9, 3), (2, 4)]);
    let mut left = a;
    left.merge(&b);
    left.merge(&c);
    let mut bc = b;
    bc.merge(&c);
    let mut right = a;
    right.merge(&bc);
    let mut left_bytes: Vec<u8> = vec![];
    left.serialize(&mut left_bytes);
    let mut right_bytes: Vec<u8> = vec![];
    right.serialize(&mut right_bytes);
    assert_eq!(left_bytes, right_bytes);
}

#[test]
fn count_and_sum_wrap() {
    let mut s = StatisticsStruct::<i64, i64>::new();
    s.update(1, i64::MAX);
    s.update(2, 1);
    assert_eq!(s.sum_value, i64::MIN);
    s.count = u32::MAX;
    s.update(3, 0);
    assert_eq!(s.count, 0);
}

#[test]
fn long_statistics_bytes() {
    let mut statistics = Statistics::new(TSDataType::INT64);
    statistics.update(7, &IoTDBValue::LONG(-2));
    statistics.update(8, &IoTDBValue::LONG(5));
    let mut bytes: Vec<u8> = vec![];
    statistics.serialize(&mut bytes);
    let mut expected: Vec<u8> = vec![2];
    for v in [7i64, 8, -2, 5, -2, 5, 3] {
        expected.extend_from_slice(&v.to_be_bytes());
    }
    assert_eq!(bytes, expected);
}

#[test]
fn float_statistics_sum_in_double_precision() {
    let values = [1.5f32, 2.25, -3.0, 0.1, 1.0e30, -1.0e30, 7.0];
    let mut statistics = Statistics::new(TSDataType::FLOAT);
    let mut sum = 0.0f64;
    for (i, v) in values.iter().enumerate() {
        statistics.update(i as i64, &IoTDBValue::FLOAT(v.to_bits()));
        sum += *v as f64;
    }
    match statistics {
        Statistics::FLOAT(s) => {
            assert_eq!(s.sum_value, sum.to_bits());
            assert_eq!(f32::from_bits(s.min_value), -1.0e30);
            assert_eq!(f32::from_bits(s.max_value), 1.0e30);
            assert_eq!(f32::from_bits(s.first_value), 1.5);
            assert_eq!(f32::from_bits(s.last_value), 7.0);
            assert_eq!(s.count, 7);
        }
        _ => panic!("wrong kind of statistics"),
    }
    let mut bytes: Vec<u8> = vec![];
    statistics.serialize(&mut bytes);
    let mut expected: Vec<u8> = vec![7];
    expected.extend_from_slice(&0i64.to_be_bytes());
    expected.extend_from_slice(&6i64.to_be_bytes());
    for v in [-1.0e30f32, 1.0e30, 1.5, 7.0] {
        expected.extend_from_slice(&v.to_be_bytes());
    }
    expected.extend_from_slice(&sum.to_be_bytes());
    assert_eq!(bytes, expected);
}

#[test]
fn float_widening_is_exact_for_small_and_odd_numbers() {
    for v in [
        0.0f32,
        -0.0,
        1.0,
        f32::MIN_POSITIVE,
        f32::MIN_POSITIVE / 8.0,
        f32::from_bits(1),
        f32::MAX,
        f32::MIN,
        f32::INFINITY,
        f32::NEG_INFINITY,
        3.141,
    ] {
        let mut statistics = Statistics::new(TSDataType::FLOAT);
        statistics.update(0, &IoTDBValue::FLOAT(v.to_bits()));
        match statistics {
            Statistics::FLOAT(s) => assert_eq!(s.sum_value, (0.0f64 + v as f64).to_bits()),
            _ => panic!("wrong kind of statistics"),
        }
    }
}

#[test]
fn double_statistics_sum_like_the_machine() {
    let values = [0.1f64, 0.2, 0.3, -1.0e300, 1.0e300, 5.0e-324, f64::MAX, f64::MAX];
    let mut statistics = Statistics::new(TSDataType::DOUBLE);
    let mut sum = 0.0f64;
    for (i, v) in values.iter().enumerate() {
        statistics.update(i as i64, &IoTDBValue::DOUBLE(v.to_bits()));
        sum += *v;
    }
    assert!(sum.is_infinite());
    match statistics {
        Statistics::DOUBLE(s) => {
            assert_eq!(s.sum_value, sum.to_bits());
            assert_eq!(f64::from_bits(s.min_value), -1.0e300);
            assert_eq!(f64::from_bits(s.max_value), f64::MAX);
        }
        _ => panic!("wrong kind of statistics"),
    }
    let mut a = Statistics::new(TSDataType::DOUBLE);
    a.update(0, &IoTDBValue::DOUBLE(0.1f64.to_bits()));
    let mut b = Statistics::new(TSDataType::DOUBLE);
    b.update(1, &IoTDBValue::DOUBLE(0.2f64.to_bits()));
    a.merge(&b);
    match a {
        Statistics::DOUBLE(s) => {
            assert_eq!(s.sum_value, ((0.0f64 + 0.1) + (0.0f64 + 0.2)).to_bits())
        }
        _ => panic!("wrong kind of statistics"),
    }
}

#[test]
fn a_nan_is_never_the_least_or_largest() {
    let mut statistics = Statistics::new(TSDataType::FLOAT);
    statistics.update(0, &IoTDBValue::FLOAT(f32::NAN.to_bits()));
    statistics.update(1, &IoTDBValue::FLOAT(2.0f32.to_bits()));
    statistics.update(2, &IoTDBValue::FLOAT(f32::NAN.to_bits()));
    match statistics {
        Statistics::FLOAT(s) => {
            assert_eq!(f32::from_bits(s.min_value), 2.0);
            assert_eq!(f32::from_bits(s.max_value), 2.0);
            assert!(f64::from_bits(s.sum_value).is_nan());
        }
        _ => panic!("wrong kind of statistics"),
    }
}

#[test]
fn bit_patterns_are_ordered_like_the_numbers() {
    let singles = [
        0.0f32,
        -0.0,
        1.0,
        -1.0,
        f32::MIN_POSITIVE,
        -f32::MIN_POSITIVE,
        f32::from_bits(1),
        f32::from_bits(0x8000_0001),
        f32::MAX,
        f32::MIN,
        f32::INFINITY,
        f32::NEG_INFINITY,
        f32::NAN,
        f32::from_bits(0xFFC0_0001),
        3.141,
        -2.5e-7,
    ];
    for a in singles {
        for b in singles {
            assert_eq!(float_lt(a.to_bits(), b.to_bits()), a < b, "{} < {}", a, b);
        }
    }
    let doubles = [
        0.0f64,
        -0.0,
        1.0,
        -1.0,
        f64::MIN_POSITIVE,
        -f64::MIN_POSITIVE,
        f64::from_bits(1),
        f64::from_bits(0x8000_0000_0000_0001),
        f64::MAX,
        f64::MIN,
        f64::INFINITY,
        f64::NEG_INFINITY,
        f64::NAN,
        f64::from_bits(0xFFF8_0000_0000_0001),
        3.141,
        -2.5e-7,
    ];
    for a in doubles {
        for b in doubles {
            assert_eq!(double_lt(a.to_bits(), b.to_bits()), a < b, "{} < {}", a, b);
        }
    }
}

#[test]
fn reckoned_sizes() {
    assert_eq!(Statistics::new(TSDataType::INT32).get_serialized_size(), 1 + 16 + 24);
    assert_eq!(Statistics::new(TSDataType::INT64).get_serialized_size(), 1 + 16 + 40);
    assert_eq!(Statistics::new(TSDataType::FLOAT).get_serialized_size(), 1 + 16 + 40);
    assert_eq!(Statistics::new(TSDataType::DOUBLE).get_serialized_size(), 1 + 16 + 40);
    let mut s = StatisticsStruct::<i32, i64>::new();
    s.count = 128;
    assert_eq!(s.get_serialized_size(), 2 + 16 + 24);
}
