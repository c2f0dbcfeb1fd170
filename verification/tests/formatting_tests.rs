use datafusion_fuzzer::{
    days_to_date_string, nanoseconds_to_timestamp_string, safe_power_of_10, GeneratedValue,
    ScalarLiteral,
};

fn pack_interval(months: i32, days: i32, nanoseconds: i64) -> i128 {
    (((months as i128) & 0xFFFFFFFF) << 32)
        | ((days as i128) & 0xFFFFFFFF)
        | ((nanoseconds as i128) << 64)
}

#[test]
fn dates_from_day_counts() {
    assert_eq!(days_to_date_string(0), "'1970-01-01'");
    assert_eq!(days_to_date_string(31), "'1970-02-01'");
    assert_eq!(days_to_date_string(59), "'1970-03-01'");
    assert_eq!(days_to_date_string(365), "'1971-01-01'");
    assert_eq!(days_to_date_string(789), "'1972-02-29'");
    assert_eq!(days_to_date_string(10957), "'2000-01-01'");
    assert_eq!(days_to_date_string(11016), "'2000-02-29'");
    assert_eq!(days_to_date_string(19000), "'2022-01-08'");
    assert_eq!(days_to_date_string(36500), "'2069-12-07'");
}

#[test]
fn dates_before_the_epoch_keep_the_day_offset() {
    assert_eq!(days_to_date_string(-1), "'1970-01-00'");
    assert_eq!(days_to_date_string(-10), "'1970-01--9'");
}

#[test]
fn every_day_of_a_century_is_a_valid_date() {
    let month_lengths = [31, 28, 31, 30, 31, 30, 31, 31, 30, 31, 30, 31];
    let (mut year, mut month, mut day) = (1970, 1, 1);
    for days in 0..=36500 {
        let expected = format!("'{:04}-{:02}-{:02}'", year, month, day);
        assert_eq!(days_to_date_string(days), expected);
        let leap = year % 4 == 0 && (year % 100 != 0 || year % 400 == 0);
        let length = if month == 2 && leap { 29 } else { month_lengths[month - 1] };
        day += 1;
        if day > length {
            day = 1;
            month += 1;
            if month > 12 {
                month = 1;
                year += 1;
            }
        }
    }
}

#[test]
fn timestamps_from_nanosecond_counts() {
    assert_eq!(nanoseconds_to_timestamp_string(0), "'1970-01-01 00:00:00.000000000'");
    let one_day = 86_400_000_000_000i64;
    let time = 3_723_000_000_004i64;
    assert_eq!(
        nanoseconds_to_timestamp_string(one_day + time),
        "'1970-01-02 01:02:03.000000004'"
    );
    assert_eq!(
        nanoseconds_to_timestamp_string(10957 * one_day + one_day - 1),
        "'2000-01-01 23:59:59.999999999'"
    );
    assert_eq!(nanoseconds_to_timestamp_string(-1), "'1970-01-01 00:00:00.-00000001'");
}

#[test]
fn time_of_day_literal() {
    let value = GeneratedValue::Time64Nanosecond(3_723_000_000_004);
    assert_eq!(value.to_sql_string(), "'01:02:03.000000004'");
    let value = GeneratedValue::Time64Nanosecond(0);
    assert_eq!(value.to_sql_string(), "'00:00:00.000000000'");
}

#[test]
fn timestamp_literal_with_zone() {
    let value = GeneratedValue::Timestamp(0, Some("UTC".to_string()));
    assert_eq!(value.to_sql_string(), "'1970-01-01 00:00:00.000000000UTC'");
    let value = GeneratedValue::Timestamp(0, Some("America/New_York".to_string()));
    assert_eq!(value.to_sql_string(), "'1970-01-01 00:00:00.000000000America/New_York'");
    let value = GeneratedValue::Timestamp(0, None);
    assert_eq!(value.to_sql_string(), "'1970-01-01 00:00:00.000000000'");
}

#[test]
fn interval_literals() {
    let value = GeneratedValue::IntervalMonthDayNano(pack_interval(14, -3, 3_723_000_000_000));
    assert_eq!(
        value.to_sql_string(),
        "INTERVAL '1 year 2 months -3 days 1 hour 2 minutes 3 seconds'"
    );
    let value = GeneratedValue::IntervalMonthDayNano(0);
    assert_eq!(value.to_sql_string(), "INTERVAL '0'");
    let value = GeneratedValue::IntervalMonthDayNano(pack_interval(1, 1, 1_000_000_000));
    assert_eq!(value.to_sql_string(), "INTERVAL '1 month 1 day 1 second'");
    let value = GeneratedValue::IntervalMonthDayNano(pack_interval(0, 0, 500_000_000));
    assert_eq!(value.to_sql_string(), "INTERVAL '0.500000000 seconds'");
    let value = GeneratedValue::IntervalMonthDayNano(pack_interval(24, 0, 0));
    assert_eq!(value.to_sql_string(), "INTERVAL '2 years'");
    let value = GeneratedValue::IntervalMonthDayNano(pack_interval(-14, 0, -1_500_000_000));
    assert_eq!(
        value.to_sql_string(),
        "INTERVAL '-1 year -2 months -1.500000000 seconds'"
    );
    let value = GeneratedValue::IntervalMonthDayNano(pack_interval(-1, 0, 0));
    assert_eq!(value.to_sql_string(), "INTERVAL '-1 month'");
    let value = GeneratedValue::IntervalMonthDayNano(pack_interval(i32::MIN, i32::MIN, 0));
    assert_eq!(
        value.to_sql_string(),
        "INTERVAL '-178956970 years -8 months -2147483648 days'"
    );
}

#[test]
fn interval_unpacking_keeps_every_sign() {
    let value = GeneratedValue::IntervalMonthDayNano(pack_interval(5, -7, 123));
    assert_eq!(
        value.to_scalar_value(),
        ScalarLiteral::IntervalMonthDayNano(Some((5, -7, 123)))
    );
    let value = GeneratedValue::IntervalMonthDayNano(pack_interval(-1, 2, 123));
    assert_eq!(
        value.to_scalar_value(),
        ScalarLiteral::IntervalMonthDayNano(Some((-1, 2, 123)))
    );
    assert_eq!(
        value.to_sql_string(),
        "INTERVAL '-1 month 2 days 0.000000123 seconds'"
    );
    let value = GeneratedValue::IntervalMonthDayNano(pack_interval(-3, -4, -5));
    assert_eq!(
        value.to_scalar_value(),
        ScalarLiteral::IntervalMonthDayNano(Some((-3, -4, -5)))
    );
}

#[test]
fn decimal_literals() {
    let decimal = |value: i128, scale: i8| GeneratedValue::Decimal {
        value,
        precision: 20,
        scale,
    };
    assert_eq!(decimal(12345, 2).to_sql_string(), "123.45");
    assert_eq!(decimal(-12345, 2).to_sql_string(), "-123.45");
    assert_eq!(decimal(-5, 2).to_sql_string(), "-0.05");
    assert_eq!(decimal(100, 3).to_sql_string(), "0.100");
    assert_eq!(decimal(7, 0).to_sql_string(), "7");
    assert_eq!(decimal(5, -1).to_sql_string(), "5");
    assert_eq!(
        decimal(123, 35).to_sql_string(),
        format!("0.{}123", "0".repeat(32))
    );
    assert_eq!(
        decimal(10_i128.pow(37), 36).to_sql_string(),
        format!("10.{}", "0".repeat(36))
    );
    assert_eq!(
        decimal(i128::MIN, 40).to_sql_string(),
        "-0.0170141183460469231731687303715884105728"
    );
}

#[test]
fn decimal_scalars_by_precision() {
    let value = GeneratedValue::Decimal {
        value: 42,
        precision: 38,
        scale: 1,
    };
    assert_eq!(value.to_scalar_value(), ScalarLiteral::Decimal128(Some(42), 38, 1));
    let value = GeneratedValue::Decimal {
        value: 42,
        precision: 39,
        scale: 1,
    };
    assert_eq!(value.to_scalar_value(), ScalarLiteral::Decimal256(Some(42), 39, 1));
}

#[test]
fn powers_of_ten() {
    assert_eq!(safe_power_of_10(0), 1);
    assert_eq!(safe_power_of_10(1), 10);
    assert_eq!(safe_power_of_10(5), 100_000);
    assert_eq!(safe_power_of_10(30), 10_i128.pow(30));
    assert_eq!(safe_power_of_10(31), 10_i128.pow(30));
    assert_eq!(safe_power_of_10(76), 10_i128.pow(30));
    assert_eq!(safe_power_of_10(-3), 10_i128.pow(30));
}

#[test]
fn scalar_literals_of_plain_values() {
    assert_eq!(GeneratedValue::Boolean(true).to_scalar_value(), ScalarLiteral::Boolean(Some(true)));
    assert_eq!(GeneratedValue::Date32(12).to_scalar_value(), ScalarLiteral::Date32(Some(12)));
    assert_eq!(
        GeneratedValue::String("ab".to_string()).to_scalar_value(),
        ScalarLiteral::Utf8(Some("ab".to_string()))
    );
    assert_eq!(
        GeneratedValue::Timestamp(9, Some("UTC".to_string())).to_scalar_value(),
        ScalarLiteral::TimestampNanosecond(Some(9), Some("UTC".to_string()))
    );
    assert_eq!(
        GeneratedValue::Int32Array(vec![1, 2]).to_scalar_value(),
        ScalarLiteral::Int32List(vec![1, 2])
    );
    assert_eq!(GeneratedValue::Null.to_scalar_value(), ScalarLiteral::Null);
}

#[test]
fn plain_literals() {
    assert_eq!(GeneratedValue::Boolean(true).to_sql_string(), "TRUE");
    assert_eq!(GeneratedValue::Boolean(false).to_sql_string(), "FALSE");
    assert_eq!(GeneratedValue::Null.to_sql_string(), "NULL");
    assert_eq!(GeneratedValue::Int64(i64::MIN).to_sql_string(), "-9223372036854775808");
    assert_eq!(GeneratedValue::UInt64(u64::MAX).to_sql_string(), "18446744073709551615");
    assert_eq!(GeneratedValue::Int32(0).to_sql_string(), "0");
    assert_eq!(GeneratedValue::Date32(0).to_sql_string(), "'1970-01-01'");
    assert_eq!(GeneratedValue::Int8Array(vec![1, -2, 3]).to_sql_string(), "[1, -2, 3]");
    assert_eq!(GeneratedValue::Int64Array(vec![]).to_sql_string(), "[]");
    assert_eq!(GeneratedValue::String("plain".to_string()).to_sql_string(), "'plain'");
    assert_eq!(GeneratedValue::String("''".to_string()).to_sql_string(), "''''''");
}
