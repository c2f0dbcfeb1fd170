use datafusion_fuzzer::{
    clamp_signed_range, clamp_unsigned_range, generate_value, safe_power_of_10, FuzzerDataType,
    GeneratedValue, IntegerRanges, ScalarLiteral,
};
use rand::rngs::StdRng;
use rand::{Rng, SeedableRng};

fn rng_from_seed(seed: u64) -> StdRng {
    StdRng::seed_from_u64(seed)
}

/// A value as the fuzzer draws it with its default configuration: NULL
/// one time in ten, otherwise a value of the type.
fn generate_with_default_config(rng: &mut StdRng, fuzzer_type: &FuzzerDataType) -> GeneratedValue {
    if rng.random_bool(0.1) {
        return GeneratedValue::Null;
    }
    generate_value(rng, fuzzer_type, &IntegerRanges::default()).expect("not a float type")
}

/// A value drawn with nulls switched off.
fn generate_non_null(rng: &mut StdRng, fuzzer_type: &FuzzerDataType) -> GeneratedValue {
    generate_value(rng, fuzzer_type, &IntegerRanges::default()).expect("not a float type")
}

#[test]
fn test_decimal_value_generation() {
    let mut rng = rng_from_seed(42);

    for _ in 0..10 {
        let value = generate_non_null(&mut rng, &FuzzerDataType::Decimal);

        match value {
            GeneratedValue::Decimal {
                value,
                precision,
                scale,
            } => {
                assert!(precision >= 1 && precision <= 76);
                assert!(scale >= 0 && scale <= precision as i8);
                assert!(
                    value >= -99999 * safe_power_of_10(scale)
                        && value <= 99999 * safe_power_of_10(scale)
                );
            }
            other => panic!("Expected Decimal value, got: {:?}", other),
        }
    }
}

#[test]
fn test_integer_value_generation_and_conversions() {
    let mut rng = rng_from_seed(42);

    for _ in 0..100 {
        let int8 = generate_non_null(&mut rng, &FuzzerDataType::Int8);
        match int8 {
            GeneratedValue::Int8(v) => {
                assert!((-100..=100).contains(&v));
                assert_eq!(int8.to_sql_string(), v.to_string());
                assert_eq!(int8.to_scalar_value(), ScalarLiteral::Int8(Some(v)));
            }
            other => panic!("Expected Int8 value, got: {other:?}"),
        }

        let int16 = generate_non_null(&mut rng, &FuzzerDataType::Int16);
        match int16 {
            GeneratedValue::Int16(v) => {
                assert!((-100..=100).contains(&v));
                assert_eq!(int16.to_sql_string(), v.to_string());
                assert_eq!(int16.to_scalar_value(), ScalarLiteral::Int16(Some(v)));
            }
            other => panic!("Expected Int16 value, got: {other:?}"),
        }

        let uint8 = generate_non_null(&mut rng, &FuzzerDataType::UInt8);
        match uint8 {
            GeneratedValue::UInt8(v) => {
                assert!((0..=200).contains(&v));
                assert_eq!(uint8.to_sql_string(), v.to_string());
                assert_eq!(uint8.to_scalar_value(), ScalarLiteral::UInt8(Some(v)));
            }
            other => panic!("Expected UInt8 value, got: {other:?}"),
        }

        let uint16 = generate_non_null(&mut rng, &FuzzerDataType::UInt16);
        match uint16 {
            GeneratedValue::UInt16(v) => {
                assert!((0..=200).contains(&v));
                assert_eq!(uint16.to_sql_string(), v.to_string());
                assert_eq!(uint16.to_scalar_value(), ScalarLiteral::UInt16(Some(v)));
            }
            other => panic!("Expected UInt16 value, got: {other:?}"),
        }
    }
}

#[test]
fn test_array_value_generation_and_conversions() {
    let mut rng = rng_from_seed(42);
    let config = IntegerRanges::default();
    let int_range = config.int_range.0 as i64..=config.int_range.1 as i64;

    let cases = [
        FuzzerDataType::Int8Array,
        FuzzerDataType::Int32Array,
        FuzzerDataType::Int64Array,
    ];

    for array_type in cases {
        for _ in 0..100 {
            let value = generate_non_null(&mut rng, &array_type);

            let elements: Vec<i64> = match &value {
                GeneratedValue::Int8Array(values) => values.iter().map(|v| *v as i64).collect(),
                GeneratedValue::Int32Array(values) => values.iter().map(|v| *v as i64).collect(),
                GeneratedValue::Int64Array(values) => values.clone(),
                other => panic!("Expected array value, got: {other:?}"),
            };

            assert!((1..=5).contains(&elements.len()));
            assert!(elements.iter().all(|v| int_range.contains(v)));

            let expected_sql = format!(
                "[{}]",
                elements
                    .iter()
                    .map(|v| v.to_string())
                    .collect::<Vec<_>>()
                    .join(", ")
            );
            assert_eq!(value.to_sql_string(), expected_sql);

            match (value.to_scalar_value(), &array_type) {
                (ScalarLiteral::Int8List(list), FuzzerDataType::Int8Array) => {
                    assert_eq!(list.len(), elements.len());
                }
                (ScalarLiteral::Int32List(list), FuzzerDataType::Int32Array) => {
                    assert_eq!(list.len(), elements.len());
                }
                (ScalarLiteral::Int64List(list), FuzzerDataType::Int64Array) => {
                    assert_eq!(list.len(), elements.len());
                }
                (other, _) => panic!("Expected List scalar, got: {other:?}"),
            }
        }
    }
}

#[test]
fn test_integer_ranges_outside_target_type_clamp_to_nearest_boundary() {
    assert_eq!(
        clamp_signed_range((200, 300), i8::MIN as i32, i8::MAX as i32),
        (i8::MAX as i32, i8::MAX as i32)
    );
    assert_eq!(
        clamp_signed_range((-300, -200), i8::MIN as i32, i8::MAX as i32),
        (i8::MIN as i32, i8::MIN as i32)
    );
    assert_eq!(
        clamp_unsigned_range((300, 400), u8::MAX as u32),
        (u8::MAX as u32, u8::MAX as u32)
    );
    assert_eq!(
        clamp_unsigned_range((70_000, 80_000), u16::MAX as u32),
        (u16::MAX as u32, u16::MAX as u32)
    );
}

#[test]
fn test_generate_value_with_cached_config() {
    let mut rng = rng_from_seed(42);
    let fuzzer_type = FuzzerDataType::Int32;

    let value = generate_with_default_config(&mut rng, &fuzzer_type);

    match value {
        GeneratedValue::Int32(v) => {
            assert!(v >= -100 && v <= 100, "Value should be in expected range");
        }
        _ => panic!("Expected Int32 value, got: {:?}", value),
    }
}

#[test]
fn test_timestamp_generation() {
    let mut rng = rng_from_seed(42);
    let fuzzer_type = FuzzerDataType::Timestamp;

    let value = generate_with_default_config(&mut rng, &fuzzer_type);

    match value {
        GeneratedValue::Timestamp(v, _) => {
            assert!(v >= 0, "Timestamp should be non-negative");
            let max_ns = 24 * 60 * 60 * 1_000_000_000i64 * 36500;
            assert!(v <= max_ns, "Timestamp should be within reasonable range");
        }
        _ => panic!("Expected Timestamp value, got: {:?}", value),
    }

    let sql_string = value.to_sql_string();
    assert!(sql_string.starts_with("'"), "SQL string should start with quote");
    assert!(sql_string.ends_with("'"), "SQL string should end with quote");
    assert!(sql_string.contains("-"), "SQL string should contain date separators");
    assert!(sql_string.contains(":"), "SQL string should contain time separators");

    let scalar_value = value.to_scalar_value();
    assert!(
        matches!(scalar_value, ScalarLiteral::TimestampNanosecond(Some(_), _)),
        "Should convert to Timestamp ScalarValue (timezone may or may not be present)"
    );
}

#[test]
fn test_timestamp_tz_generation() {
    let mut rng = rng_from_seed(42);
    let fuzzer_type = FuzzerDataType::Timestamp;

    let value = generate_with_default_config(&mut rng, &fuzzer_type);

    match value {
        GeneratedValue::Timestamp(v, _) => {
            assert!(v >= 0, "Timestamp should be non-negative");
            let max_ns = 24 * 60 * 60 * 1_000_000_000i64 * 36500;
            assert!(v <= max_ns, "Timestamp should be within reasonable range");
        }
        _ => panic!("Expected TimestampTz value, got: {:?}", value),
    }

    let sql_string = value.to_sql_string();
    assert!(sql_string.starts_with("'"), "SQL string should start with quote");
    assert!(
        sql_string.ends_with("'"),
        "SQL string should end with a single quote (timezone present)"
    );
    let timezones = [
        "UTC",
        "+08:00",
        "-05:00",
        "+02:00",
        "America/New_York",
        "Europe/London",
        "Asia/Tokyo",
        "Australia/Sydney",
    ];
    assert!(
        timezones.iter().any(|tz| sql_string.contains(tz)),
        "SQL string should contain a known timezone"
    );
    assert!(sql_string.contains("-"), "SQL string should contain date separators");
    assert!(sql_string.contains(":"), "SQL string should contain time separators");

    let scalar_value = value.to_scalar_value();
    assert!(
        matches!(scalar_value, ScalarLiteral::TimestampNanosecond(Some(_), _)),
        "Should convert to Timestamp ScalarValue (timezone may or may not be present)"
    );
}

fn check_date_fields(date_part: &str) {
    let parts: Vec<&str> = date_part.split('-').collect();
    assert_eq!(parts.len(), 3, "Date should have 3 parts: year-month-day");

    let year: i32 = parts[0].parse().expect("Year should be parseable");
    let month: i32 = parts[1].parse().expect("Month should be parseable");
    let day: i32 = parts[2].parse().expect("Day should be parseable");

    assert!(year >= 1970, "Year should be >= 1970");
    assert!(year <= 2070, "Year should be <= 2070");
    assert!(month >= 1, "Month should be >= 1");
    assert!(month <= 12, "Month should be <= 12");
    assert!(day >= 1, "Day should be >= 1");
    assert!(day <= 31, "Day should be <= 31");

    let max_days = match month {
        2 => 29,
        4 | 6 | 9 | 11 => 30,
        _ => 31,
    };
    assert!(day <= max_days, "Day {} is invalid for month {}", day, month);
}

#[test]
fn test_date_generation_validity() {
    let mut rng = rng_from_seed(42);
    let fuzzer_type = FuzzerDataType::Date32;

    for _ in 0..100 {
        let value = generate_non_null(&mut rng, &fuzzer_type);

        match value {
            GeneratedValue::Date32(_) => {
                let sql_string = value.to_sql_string();
                assert!(sql_string.starts_with("'"), "Date should start with quote");
                assert!(sql_string.ends_with("'"), "Date should end with quote");

                let date_part = &sql_string[1..sql_string.len() - 1];
                check_date_fields(date_part);
            }
            _ => panic!("Expected Date32 value, got: {:?}", value),
        }
    }
}

#[test]
fn test_timestamp_generation_validity() {
    let mut rng = rng_from_seed(42);
    let fuzzer_type = FuzzerDataType::Timestamp;

    for _ in 0..100 {
        let value = generate_non_null(&mut rng, &fuzzer_type);

        match value {
            GeneratedValue::Timestamp(_, _) => {
                let sql_string = value.to_sql_string();
                assert!(sql_string.starts_with("'"), "Timestamp should start with quote");
                assert!(sql_string.ends_with("'"), "Timestamp should end with quote");

                let datetime_part = &sql_string[1..sql_string.len() - 1];
                let space_parts: Vec<&str> = datetime_part.split(' ').collect();
                assert!(space_parts.len() >= 2, "Timestamp should have date and time parts");

                let date_part = space_parts[0];
                let time_part_with_tz = space_parts[1..].join(" ");

                let time_part = if time_part_with_tz.contains('+')
                    || time_part_with_tz.contains('-')
                {
                    if let Some(tz_sep_pos) = time_part_with_tz.rfind(' ') {
                        &time_part_with_tz[..tz_sep_pos]
                    } else {
                        let mut tz_start = None;
                        for (i, ch) in time_part_with_tz.chars().enumerate() {
                            if (ch == '+' || ch == '-') && i > 8 {
                                tz_start = Some(i);
                                break;
                            }
                        }
                        if let Some(start) = tz_start {
                            &time_part_with_tz[..start]
                        } else {
                            &time_part_with_tz
                        }
                    }
                } else if time_part_with_tz.contains('/') {
                    if let Some(tz_sep_pos) = time_part_with_tz.find(' ') {
                        &time_part_with_tz[..tz_sep_pos]
                    } else {
                        let mut tz_start = None;
                        for (i, ch) in time_part_with_tz.chars().enumerate() {
                            if ch == '/' && i > 8 {
                                tz_start = Some(i);
                                break;
                            }
                        }
                        if let Some(start) = tz_start {
                            &time_part_with_tz[..start]
                        } else {
                            &time_part_with_tz
                        }
                    }
                } else {
                    &time_part_with_tz
                };

                check_date_fields(date_part);

                let time_parts: Vec<&str> = time_part.split(':').collect();
                assert_eq!(
                    time_parts.len(),
                    3,
                    "Time should have 3 parts: hour:minute:second.nanosecond"
                );

                let hour: i32 = time_parts[0].parse().expect("Hour should be parseable");
                let minute: i32 = time_parts[1].parse().expect("Minute should be parseable");
                let second_part = time_parts[2];

                assert!(hour >= 0, "Hour should be >= 0");
                assert!(hour <= 23, "Hour should be <= 23");
                assert!(minute >= 0, "Minute should be >= 0");
                assert!(minute <= 59, "Minute should be <= 59");

                let second_parts: Vec<&str> = second_part.split('.').collect();
                assert_eq!(
                    second_parts.len(),
                    2,
                    "Second part should have seconds and nanoseconds"
                );

                let second: i32 = second_parts[0].parse().expect("Second should be parseable");
                let ns_digits: String = second_parts[1]
                    .chars()
                    .take_while(|c| c.is_ascii_digit())
                    .collect();
                let nanosecond: i32 = ns_digits.parse().expect("Nanosecond should be parseable");

                assert!(second >= 0, "Second should be >= 0");
                assert!(second <= 59, "Second should be <= 59");
                assert!(nanosecond >= 0, "Nanosecond should be >= 0");
                assert!(nanosecond <= 999_999_999, "Nanosecond should be <= 999999999");
            }
            _ => panic!("Expected Timestamp value, got: {:?}", value),
        }
    }
}

#[test]
fn test_interval_month_day_nano_generation() {
    let mut rng = rng_from_seed(42);
    let fuzzer_type = FuzzerDataType::IntervalMonthDayNano;

    let value = generate_with_default_config(&mut rng, &fuzzer_type);

    match value {
        GeneratedValue::IntervalMonthDayNano(v) => {
            let months = ((v >> 32) & 0xFFFFFFFF) as i32;
            let days = (v & 0xFFFFFFFF) as i32;
            let nanoseconds = ((v >> 64) & 0xFFFFFFFFFFFFFFFF) as i64;

            assert!(months >= -12 && months <= 12, "Months should be in reasonable range");
            assert!(days >= -30 && days <= 30, "Days should be in reasonable range");
            assert!(
                nanoseconds >= -1_000_000_000 && nanoseconds <= 1_000_000_000,
                "Nanoseconds should be in reasonable range"
            );
        }
        _ => panic!("Expected IntervalMonthDayNano value, got: {:?}", value),
    }

    let sql_string = value.to_sql_string();
    assert!(
        sql_string.starts_with("INTERVAL '"),
        "SQL string should start with INTERVAL '"
    );
    assert!(sql_string.ends_with("'"), "SQL string should end with quote");

    let scalar_value = value.to_scalar_value();
    assert!(
        matches!(scalar_value, ScalarLiteral::IntervalMonthDayNano(Some(_))),
        "Should convert to IntervalMonthDayNano ScalarValue"
    );
}

#[test]
fn test_string_generation_sql_safety() {
    let mut rng = rng_from_seed(42);
    let fuzzer_type = FuzzerDataType::String;

    for _ in 0..100 {
        let value = generate_non_null(&mut rng, &fuzzer_type);

        match &value {
            GeneratedValue::String(s) => {
                assert!(!s.contains('\''), "String should not contain single quotes");
                assert!(!s.contains('\\'), "String should not contain backslashes");

                let sql_string = value.to_sql_string();
                assert!(sql_string.starts_with("'"), "SQL string should start with quote");
                assert!(sql_string.ends_with("'"), "SQL string should end with quote");

                let content = &sql_string[1..sql_string.len() - 1];
                assert!(
                    !content.contains("'"),
                    "SQL string content should not contain unescaped single quotes"
                );
            }
            _ => panic!("Expected String value, got: {:?}", value),
        }
    }
}

#[test]
fn test_string_escaping() {
    let test_string = "test'string";
    let value = GeneratedValue::String(test_string.to_string());
    let sql_string = value.to_sql_string();

    assert_eq!(sql_string, "'test''string'");

    let test_string2 = "test'string'with'quotes";
    let value2 = GeneratedValue::String(test_string2.to_string());
    let sql_string2 = value2.to_sql_string();

    assert_eq!(sql_string2, "'test''string''with''quotes'");
}
