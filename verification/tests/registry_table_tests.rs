use datafusion_fuzzer::{
    days_to_date_string, decimal_from_draws, interval_from_draws, nanoseconds_to_timestamp_string,
    safe_char_at, timestamp_from_draws,
};
use datafusion_fuzzer::{
    clamp_signed_range, clamp_unsigned_range, generate_value, get_available_data_types,
    get_numeric_data_types, get_time_data_types, init_available_data_types, AvailableDataTypes,
    FuzzerDataType, GeneratedValue, IntegerRanges, LogicalColumn, LogicalTable,
};
use rand::rngs::StdRng;
use rand::SeedableRng;

#[test]
fn available_types_after_initialization() {
    let mut available = AvailableDataTypes::new();
    init_available_data_types(&mut available);
    let types = get_available_data_types(&available).clone();
    assert_eq!(types.len(), 20);
    assert_eq!(types[0], FuzzerDataType::Int8);
    assert_eq!(types[19], FuzzerDataType::Int64Array);
    init_available_data_types(&mut available);
    assert_eq!(get_available_data_types(&available), &types);
}

#[test]
fn numeric_and_time_type_groups() {
    let mut available = AvailableDataTypes::new();
    init_available_data_types(&mut available);
    assert_eq!(
        get_numeric_data_types(&available),
        vec![
            FuzzerDataType::Int8,
            FuzzerDataType::Int16,
            FuzzerDataType::Int32,
            FuzzerDataType::Int64,
            FuzzerDataType::UInt8,
            FuzzerDataType::UInt16,
            FuzzerDataType::UInt32,
            FuzzerDataType::UInt64,
            FuzzerDataType::Float32,
            FuzzerDataType::Float64,
            FuzzerDataType::Decimal,
        ]
    );
    assert!(!get_numeric_data_types(&available).contains(&FuzzerDataType::Boolean));
    assert_eq!(
        get_time_data_types(&available),
        vec![
            FuzzerDataType::Date32,
            FuzzerDataType::Time64Nanosecond,
            FuzzerDataType::Timestamp,
            FuzzerDataType::IntervalMonthDayNano,
        ]
    );
}

#[test]
fn logical_tables() {
    let empty = LogicalTable::new("t0".to_string());
    assert_eq!(empty.name, "t0");
    assert!(empty.columns.is_empty());
    let column = LogicalColumn {
        name: "col_t1_1_int32".to_string(),
        data_type: FuzzerDataType::Int32,
    };
    let table = LogicalTable::with_columns("t1".to_string(), vec![column]);
    assert_eq!(table.name, "t1");
    assert_eq!(table.columns.len(), 1);
    assert_eq!(table.columns[0].data_type, FuzzerDataType::Int32);
}

#[test]
fn clamping_inside_and_across_the_type_range() {
    assert_eq!(clamp_signed_range((-100, 100), -128, 127), (-100, 100));
    assert_eq!(clamp_signed_range((-1000, 1000), -128, 127), (-128, 127));
    assert_eq!(clamp_signed_range((-1000, 0), -32768, 32767), (-1000, 0));
    assert_eq!(clamp_unsigned_range((0, 200), 255), (0, 200));
    assert_eq!(clamp_unsigned_range((100, 300), 255), (100, 255));
}

#[test]
fn default_ranges() {
    let ranges = IntegerRanges::default();
    assert_eq!(ranges.int_range, (-100, 100));
    assert_eq!(ranges.uint_range, (0, 200));
}

#[test]
fn float_types_are_not_generated_here() {
    let mut rng = StdRng::seed_from_u64(1);
    let ranges = IntegerRanges::default();
    assert!(generate_value(&mut rng, &FuzzerDataType::Float32, &ranges).is_none());
    assert!(generate_value(&mut rng, &FuzzerDataType::Float64, &ranges).is_none());
}

#[test]
fn generated_values_stay_in_narrow_ranges() {
    let mut rng = StdRng::seed_from_u64(3);
    let ranges = IntegerRanges {
        int_range: (5, 7),
        uint_range: (300, 70_000),
    };
    for _ in 0..50 {
        match generate_value(&mut rng, &FuzzerDataType::Int64, &ranges) {
            Some(GeneratedValue::Int64(v)) => assert!((5..=7).contains(&v)),
            other => panic!("unexpected {other:?}"),
        }
        match generate_value(&mut rng, &FuzzerDataType::UInt8, &ranges) {
            Some(GeneratedValue::UInt8(v)) => assert_eq!(v, 255),
            other => panic!("unexpected {other:?}"),
        }
        match generate_value(&mut rng, &FuzzerDataType::UInt16, &ranges) {
            Some(GeneratedValue::UInt16(v)) => assert!(v >= 300),
            other => panic!("unexpected {other:?}"),
        }
        match generate_value(&mut rng, &FuzzerDataType::UInt64, &ranges) {
            Some(GeneratedValue::UInt64(v)) => assert!((300..=70_000).contains(&v)),
            other => panic!("unexpected {other:?}"),
        }
    }
}

#[test]
fn booleans_take_both_values() {
    let mut rng = StdRng::seed_from_u64(11);
    let ranges = IntegerRanges::default();
    let mut seen = [false, false];
    for _ in 0..100 {
        match generate_value(&mut rng, &FuzzerDataType::Boolean, &ranges) {
            Some(GeneratedValue::Boolean(b)) => seen[b as usize] = true,
            other => panic!("unexpected {other:?}"),
        }
    }
    assert_eq!(seen, [true, true]);
}

#[test]
fn generated_times_and_dates_in_range() {
    let mut rng = StdRng::seed_from_u64(5);
    let ranges = IntegerRanges::default();
    for _ in 0..200 {
        match generate_value(&mut rng, &FuzzerDataType::Time64Nanosecond, &ranges) {
            Some(GeneratedValue::Time64Nanosecond(v)) => {
                assert!((0..86_400_000_000_000).contains(&v))
            }
            other => panic!("unexpected {other:?}"),
        }
        match generate_value(&mut rng, &FuzzerDataType::Date32, &ranges) {
            Some(GeneratedValue::Date32(v)) => assert!((0..=36500).contains(&v)),
            other => panic!("unexpected {other:?}"),
        }
        match generate_value(&mut rng, &FuzzerDataType::String, &ranges) {
            Some(GeneratedValue::String(s)) => {
                let n = s.chars().count();
                assert!((1..=50).contains(&n));
                assert!(s.chars().all(|c| (' '..='~').contains(&c) && c != '\'' && c != '\\'));
            }
            other => panic!("unexpected {other:?}"),
        }
    }
}

#[test]
fn safe_characters_by_index() {
    assert_eq!(safe_char_at(0), ' ');
    assert_eq!(safe_char_at(6), '&');
    assert_eq!(safe_char_at(7), '(');
    assert_eq!(safe_char_at(58), '[');
    assert_eq!(safe_char_at(59), ']');
    assert_eq!(safe_char_at(92), '~');
    let all: String = (0..93).map(safe_char_at).collect();
    assert_eq!(all.len(), 93);
    assert!(!all.contains('\'') && !all.contains('\\'));
}

#[test]
fn values_from_draws() {
    match decimal_from_draws(10, 2, -5) {
        GeneratedValue::Decimal { value, precision, scale } => {
            assert_eq!((value, precision, scale), (-500, 10, 2))
        }
        other => panic!("unexpected {other:?}"),
    }
    match decimal_from_draws(76, 40, 3) {
        GeneratedValue::Decimal { value, .. } => assert_eq!(value, 3 * 10_i128.pow(30)),
        other => panic!("unexpected {other:?}"),
    }
    match interval_from_draws(-1, 2, -3) {
        GeneratedValue::IntervalMonthDayNano(v) => {
            assert_eq!(((v >> 32) & 0xFFFFFFFF) as i32, -1);
            assert_eq!((v & 0xFFFFFFFF) as i32, 2);
            assert_eq!(((v >> 64) & 0xFFFFFFFFFFFFFFFF) as i64, -3);
        }
        other => panic!("unexpected {other:?}"),
    }
    match timestamp_from_draws(5, 3) {
        GeneratedValue::Timestamp(ns, tz) => {
            assert_eq!(ns, 5);
            assert_eq!(tz.as_deref(), Some("-09"));
        }
        other => panic!("unexpected {other:?}"),
    }
    match timestamp_from_draws(7, 0) {
        GeneratedValue::Timestamp(ns, tz) => {
            assert_eq!(ns, 7);
            assert_eq!(tz, None);
        }
        other => panic!("unexpected {other:?}"),
    }
}

#[test]
fn date_and_timestamp_literals_keep_order() {
    let mut previous = days_to_date_string(0);
    for days in (1..2_932_897).step_by(997) {
        let current = days_to_date_string(days);
        assert!(previous < current);
        previous = current;
    }
    assert_eq!(days_to_date_string(2_932_896), "'9999-12-31'");
    let mut previous = nanoseconds_to_timestamp_string(0);
    for step in 1..2000i64 {
        let current = nanoseconds_to_timestamp_string(step * 4_611_686_018_427_387);
        assert!(previous < current);
        previous = current;
    }
}
