use datafusion_fuzzer::{ArrowIntervalUnit, ArrowTimeUnit, ArrowType, FuzzerDataType};

#[test]
fn test_int8_type_properties() {
    let int8_type = FuzzerDataType::Int8;

    assert_eq!(int8_type.to_datafusion_type(), ArrowType::Int8);
    assert_eq!(
        FuzzerDataType::from_datafusion_type(&ArrowType::Int8),
        Some(FuzzerDataType::Int8)
    );
    assert_eq!(int8_type.display_name(), "int8");
    assert_eq!(int8_type.to_sql_type(), "TINYINT");
    assert!(int8_type.is_numeric());
    assert!(!int8_type.is_time());
}

#[test]
fn test_array_type_properties() {
    let cases = [
        (FuzzerDataType::Int8Array, 8, "int8_array", "TINYINT[]"),
        (FuzzerDataType::Int32Array, 32, "int32_array", "INT[]"),
        (FuzzerDataType::Int64Array, 64, "int64_array", "BIGINT[]"),
    ];

    for (array_type, bits, display_name, sql_type) in cases {
        let element_type = match bits {
            8 => ArrowType::Int8,
            32 => ArrowType::Int32,
            _ => ArrowType::Int64,
        };
        let list_type = ArrowType::new_list(element_type, true);

        assert_eq!(array_type.to_datafusion_type(), list_type);
        assert_eq!(
            FuzzerDataType::from_datafusion_type(&list_type),
            Some(array_type.clone())
        );
        assert_eq!(array_type.display_name(), display_name);
        assert_eq!(array_type.to_sql_type(), sql_type);
        assert!(!array_type.is_numeric());
        assert!(!array_type.is_time());
    }
}

#[test]
fn test_simplified_decimal_type() {
    let decimal_type = FuzzerDataType::Decimal;

    assert_eq!(decimal_type.display_name(), "decimal128");
    assert!(decimal_type.is_numeric());
    assert!(!decimal_type.is_time());
    assert_eq!(decimal_type.to_sql_type(), "DECIMAL");

    let df_type = decimal_type.to_datafusion_type();
    match df_type {
        ArrowType::Decimal128(precision, scale) => {
            assert_eq!(precision, 10);
            assert_eq!(scale, 2);
        }
        _ => panic!("Expected Decimal128 type"),
    }
}

#[test]
fn test_remaining_integer_type_properties() {
    let cases = [
        (FuzzerDataType::Int16, ArrowType::Int16, "int16", "SMALLINT"),
        (FuzzerDataType::UInt8, ArrowType::UInt8, "uint8", "TINYINT UNSIGNED"),
        (
            FuzzerDataType::UInt16,
            ArrowType::UInt16,
            "uint16",
            "SMALLINT UNSIGNED",
        ),
    ];

    for (fuzzer_type, datafusion_type, display_name, sql_type) in cases {
        assert_eq!(fuzzer_type.to_datafusion_type(), datafusion_type);
        assert_eq!(
            FuzzerDataType::from_datafusion_type(&datafusion_type),
            Some(fuzzer_type.clone())
        );
        assert_eq!(fuzzer_type.display_name(), display_name);
        assert_eq!(fuzzer_type.to_sql_type(), sql_type);
        assert!(fuzzer_type.is_numeric());
        assert!(!fuzzer_type.is_time());
    }
}

#[test]
fn test_timestamp_type_conversions() {
    let fuzzer_type = FuzzerDataType::Timestamp;

    let df_type = fuzzer_type.to_datafusion_type();
    assert!(
        matches!(df_type, ArrowType::Timestamp(ArrowTimeUnit::Nanosecond, None)),
        "Should convert to Timestamp(Nanosecond, None)"
    );

    let back_to_fuzzer = FuzzerDataType::from_datafusion_type(&df_type);
    assert_eq!(
        back_to_fuzzer,
        Some(fuzzer_type.clone()),
        "Round-trip conversion should work"
    );

    assert_eq!(fuzzer_type.display_name(), "timestamp");
    assert_eq!(fuzzer_type.to_sql_type(), "TIMESTAMP");
    assert!(fuzzer_type.is_time());
    assert!(!fuzzer_type.is_numeric());
}

#[test]
fn test_timestamp_tz_type_conversions() {
    let fuzzer_type = FuzzerDataType::Timestamp;

    let df_type = fuzzer_type.to_datafusion_type();
    assert!(
        matches!(df_type, ArrowType::Timestamp(ArrowTimeUnit::Nanosecond, None)),
        "Should convert to Timestamp(Nanosecond, None)"
    );

    let back_to_fuzzer = FuzzerDataType::from_datafusion_type(&df_type);
    assert_eq!(
        back_to_fuzzer,
        Some(fuzzer_type.clone()),
        "Round-trip conversion should work"
    );

    assert_eq!(fuzzer_type.display_name(), "timestamp");
    assert_eq!(fuzzer_type.to_sql_type(), "TIMESTAMP");
    assert!(fuzzer_type.is_time());
    assert!(!fuzzer_type.is_numeric());
}

#[test]
fn test_interval_month_day_nano_type_conversions() {
    let fuzzer_type = FuzzerDataType::IntervalMonthDayNano;

    let df_type = fuzzer_type.to_datafusion_type();
    assert!(
        matches!(df_type, ArrowType::Interval(ArrowIntervalUnit::MonthDayNano)),
        "Should convert to Interval(MonthDayNano)"
    );

    let back_to_fuzzer = FuzzerDataType::from_datafusion_type(&df_type);
    assert_eq!(
        back_to_fuzzer,
        Some(fuzzer_type.clone()),
        "Round-trip conversion should work"
    );

    assert_eq!(fuzzer_type.display_name(), "interval_month_day_nano");
    assert_eq!(fuzzer_type.to_sql_type(), "INTERVAL");
    assert!(fuzzer_type.is_time());
    assert!(!fuzzer_type.is_numeric());
}

const ALL_TYPES: [FuzzerDataType; 20] = [
    FuzzerDataType::Int8,
    FuzzerDataType::Int16,
    FuzzerDataType::Int32,
    FuzzerDataType::Int64,
    FuzzerDataType::UInt8,
    FuzzerDataType::UInt16,
    FuzzerDataType::UInt32,
    FuzzerDataType::UInt64,
    FuzzerDataType::Float32,
    FuzzerDataType::Float64,
    FuzzerDataType::Boolean,
    FuzzerDataType::Decimal,
    FuzzerDataType::Date32,
    FuzzerDataType::Time64Nanosecond,
    FuzzerDataType::Timestamp,
    FuzzerDataType::IntervalMonthDayNano,
    FuzzerDataType::String,
    FuzzerDataType::Int8Array,
    FuzzerDataType::Int32Array,
    FuzzerDataType::Int64Array,
];

#[test]
fn every_type_round_trips_through_its_arrow_type() {
    for t in ALL_TYPES {
        assert_eq!(FuzzerDataType::from_datafusion_type(&t.to_datafusion_type()), Some(t));
    }
}

#[test]
fn no_type_is_both_numeric_and_temporal() {
    for t in ALL_TYPES {
        assert!(!(t.is_numeric() && t.is_time()));
    }
}

#[test]
fn display_names_are_distinct() {
    for (i, a) in ALL_TYPES.iter().enumerate() {
        for b in ALL_TYPES.iter().skip(i + 1) {
            assert_ne!(a.display_name(), b.display_name());
        }
    }
}

#[test]
fn arrow_types_the_fuzzer_does_not_support() {
    assert_eq!(FuzzerDataType::from_datafusion_type(&ArrowType::Other), None);
    assert_eq!(
        FuzzerDataType::from_datafusion_type(&ArrowType::Time64(ArrowTimeUnit::Microsecond)),
        None
    );
    assert_eq!(
        FuzzerDataType::from_datafusion_type(&ArrowType::Interval(ArrowIntervalUnit::DayTime)),
        None
    );
    assert_eq!(
        FuzzerDataType::from_datafusion_type(&ArrowType::new_list(ArrowType::Int16, true)),
        None
    );
    assert_eq!(
        FuzzerDataType::from_datafusion_type(&ArrowType::Timestamp(ArrowTimeUnit::Second, None)),
        None
    );
}

#[test]
fn arrow_types_read_loosely() {
    assert_eq!(
        FuzzerDataType::from_datafusion_type(&ArrowType::Decimal256(50, 3)),
        Some(FuzzerDataType::Decimal)
    );
    assert_eq!(
        FuzzerDataType::from_datafusion_type(&ArrowType::Decimal128(38, 0)),
        Some(FuzzerDataType::Decimal)
    );
    assert_eq!(
        FuzzerDataType::from_datafusion_type(&ArrowType::Timestamp(
            ArrowTimeUnit::Nanosecond,
            Some("UTC".to_string())
        )),
        Some(FuzzerDataType::Timestamp)
    );
    assert_eq!(
        FuzzerDataType::from_datafusion_type(&ArrowType::new_list(ArrowType::Int32, false)),
        Some(FuzzerDataType::Int32Array)
    );
}

#[test]
fn random_decimal_is_decimal() {
    let mut seed = 7u32;
    assert_eq!(FuzzerDataType::random_decimal(&mut seed), FuzzerDataType::Decimal);
}

#[test]
fn sql_type_names() {
    assert_eq!(FuzzerDataType::UInt64.to_sql_type(), "BIGINT UNSIGNED");
    assert_eq!(FuzzerDataType::Float32.to_sql_type(), "FLOAT");
    assert_eq!(FuzzerDataType::Float64.to_sql_type(), "DOUBLE");
    assert_eq!(FuzzerDataType::Date32.to_sql_type(), "DATE");
    assert_eq!(FuzzerDataType::Time64Nanosecond.to_sql_type(), "TIME");
    assert_eq!(FuzzerDataType::String.to_sql_type(), "VARCHAR");
    assert_eq!(FuzzerDataType::Boolean.to_sql_type(), "BOOLEAN");
}
