//! Generated values, their SQL literals and their DataFusion scalar form.
use vstd::prelude::*;
use crate::calendar::{
    clock_reading, date_reading, date_text, days_to_date_string, is_clock_layout, is_date_layout,
    lemma_date_literal_value, lemma_time_literal_value, lemma_timestamp_literal_value, NANOS_PER_DAY, nanoseconds_to_timestamp_string, push_clock_body, time_text,
    timestamp_text, trunc_div, trunc_rem, NANOS_PER_HOUR, NANOS_PER_MINUTE, NANOS_PER_SECOND,
};
use crate::data_type::{ArrowIntervalUnit, ArrowTimeUnit, ArrowType};
use crate::text::{
    abs_int, all_digits, decimal_digits, escape_quotes, fixed_digits, int_text, is_signed_digits,
    join_texts, lemma_int_text_value, lemma_padded_is_fixed, lemma_read_decimal_digits, lemma_read_digits_append,
    lemma_read_fixed_digits, lemma_u128_below_pow10, magnitude, padded_digits, pow10, push_digits,
    push_escaped, push_int, push_padded_digits, push_str, read_digits, read_signed,
    string_from_chars,
};

verus! {

/// A generated value of a non-floating-point fuzzer type, or NULL.
#[derive(Debug, Clone)]
pub enum GeneratedValue {
    Int8(i8),
    Int16(i16),
    Int32(i32),
    Int64(i64),
    UInt8(u8),
    UInt16(u16),
    UInt32(u32),
    UInt64(u64),
    Boolean(bool),
    Decimal { value: i128, precision: u8, scale: i8 },
    /// Days since 1970-01-01.
    Date32(i32),
    /// Nanoseconds since midnight.
    Time64Nanosecond(i64),
    /// Nanoseconds since 1970-01-01 00:00:00 UTC, with an optional time zone.
    Timestamp(i64, Option<String>),
    /// Months in bits 32..64, days in bits 0..32, nanoseconds in bits 64..128.
    IntervalMonthDayNano(i128),
    String(String),
    Int8Array(Vec<i8>),
    Int32Array(Vec<i32>),
    Int64Array(Vec<i64>),
    Null,
}

/// A DataFusion scalar value, as plain values: the variants that generated
/// values convert to. A list variant stands for a one-row list array of its
/// element type.
#[derive(Debug, Clone, PartialEq, Eq)]
pub enum ScalarLiteral {
    Int8(Option<i8>),
    Int16(Option<i16>),
    Int32(Option<i32>),
    Int64(Option<i64>),
    UInt8(Option<u8>),
    UInt16(Option<u16>),
    UInt32(Option<u32>),
    UInt64(Option<u64>),
    Boolean(Option<bool>),
    /// Value, precision, scale.
    Decimal128(Option<i128>, u8, i8),
    /// Value (held in 256 bits by DataFusion), precision, scale.
    Decimal256(Option<i128>, u8, i8),
    Date32(Option<i32>),
    Time64Nanosecond(Option<i64>),
    TimestampNanosecond(Option<i64>, Option<String>),
    /// Months, days, nanoseconds.
    IntervalMonthDayNano(Option<(i32, i32, i64)>),
    Utf8(Option<String>),
    Int8List(Vec<i8>),
    Int32List(Vec<i32>),
    Int64List(Vec<i64>),
    Null,
}

/// The Arrow data type of a scalar, as DataFusion reports it: lists are
/// nullable lists of their element type, and a typeless NULL has no type
/// the fuzzer names (`Other`).
pub open spec fn scalar_data_type(s: ScalarLiteral) -> ArrowType {
    match s {
        ScalarLiteral::Int8(_) => ArrowType::Int8,
        ScalarLiteral::Int16(_) => ArrowType::Int16,
        ScalarLiteral::Int32(_) => ArrowType::Int32,
        ScalarLiteral::Int64(_) => ArrowType::Int64,
        ScalarLiteral::UInt8(_) => ArrowType::UInt8,
        ScalarLiteral::UInt16(_) => ArrowType::UInt16,
        ScalarLiteral::UInt32(_) => ArrowType::UInt32,
        ScalarLiteral::UInt64(_) => ArrowType::UInt64,
        ScalarLiteral::Boolean(_) => ArrowType::Boolean,
        ScalarLiteral::Decimal128(_, precision, scale) => ArrowType::Decimal128(precision, scale),
        ScalarLiteral::Decimal256(_, precision, scale) => ArrowType::Decimal256(precision, scale),
        ScalarLiteral::Date32(_) => ArrowType::Date32,
        ScalarLiteral::Time64Nanosecond(_) => ArrowType::Time64(ArrowTimeUnit::Nanosecond),
        ScalarLiteral::TimestampNanosecond(_, tz) => ArrowType::Timestamp(ArrowTimeUnit::Nanosecond, tz),
        ScalarLiteral::IntervalMonthDayNano(_) => ArrowType::Interval(ArrowIntervalUnit::MonthDayNano),
        ScalarLiteral::Utf8(_) => ArrowType::Utf8,
        ScalarLiteral::Int8List(_) => ArrowType::List(Box::new(ArrowType::Int8), true),
        ScalarLiteral::Int32List(_) => ArrowType::List(Box::new(ArrowType::Int32), true),
        ScalarLiteral::Int64List(_) => ArrowType::List(Box::new(ArrowType::Int64), true),
        ScalarLiteral::Null => ArrowType::Other,
    }
}

/// The exponent `safe_power_of_10` uses: the scale itself from 0 to 30, and
/// 30 for any other scale.
pub open spec fn safe_exponent(scale: i8) -> nat {
    if 0 <= scale <= 30 {
        scale as nat
    } else {
        30
    }
}

/// The months packed in an interval value (bits 32..64).
pub open spec fn interval_months(v: i128) -> i32 {
    ((v >> 32u32) & 0xFFFFFFFFi128) as i32
}

/// The days packed in an interval value (bits 0..32).
pub open spec fn interval_days(v: i128) -> i32 {
    (v & 0xFFFFFFFFi128) as i32
}

/// The nanoseconds packed in an interval value (bits 64..128).
pub open spec fn interval_nanos(v: i128) -> i64 {
    ((v >> 64u32) & 0xFFFFFFFFFFFFFFFFi128) as i64
}

/// Packs months, days and nanoseconds into one value: the 32 bits of the
/// months in bits 32..64, the 32 bits of the days in bits 0..32, the
/// nanoseconds in bits 64..128.
pub open spec fn pack_interval(months: i32, days: i32, nanoseconds: i64) -> i128 {
    (((months as i128) & 0xFFFFFFFFi128) << 32u32) | ((days as i128) & 0xFFFFFFFFi128) | ((
    nanoseconds as i128) << 64u32)
}

/// `"<n> <unit>"`, with an `s` unless `n` is 1 or -1.
pub open spec fn unit_part(n: int, unit: Seq<char>) -> Seq<char> {
    int_text(n) + seq![' '] + unit + (if abs_int(n) == 1 {
        seq![]
    } else {
        seq!['s']
    })
}

pub open spec fn optional_part(present: bool, n: int, unit: Seq<char>) -> Seq<Seq<char>> {
    if present {
        seq![unit_part(n, unit)]
    } else {
        seq![]
    }
}

/// Years and months of the months, each with its sign, where non-zero.
pub open spec fn month_parts(months: int) -> Seq<Seq<char>> {
    let years = trunc_div(months, 12);
    let rest = trunc_rem(months, 12);
    optional_part(years != 0, years, "year"@) + optional_part(rest != 0, rest, "month"@)
}

/// The days with their sign, where non-zero.
pub open spec fn day_parts(days: int) -> Seq<Seq<char>> {
    optional_part(days != 0, days, "day"@)
}

/// The seconds of an interval: whole seconds as a count of seconds, or,
/// where a fraction of a second is left, `[-]S.nnnnnnnnn seconds`.
pub open spec fn second_parts(seconds: int, fraction: int) -> Seq<Seq<char>> {
    if fraction == 0 {
        optional_part(seconds != 0, seconds, "second"@)
    } else {
        seq![
            (if fraction < 0 {
                seq!['-']
            } else {
                seq![]
            }) + decimal_digits(abs_int(seconds)) + seq!['.'] + padded_digits(abs_int(fraction), 9)
                + " seconds"@,
        ]
    }
}

/// Hours, minutes and seconds of the nanoseconds, each with the sign of the
/// nanoseconds, where non-zero; seconds keep their fraction.
pub open spec fn nano_parts(nanos: int) -> Seq<Seq<char>> {
    let hours = trunc_div(nanos, NANOS_PER_HOUR as int);
    let r1 = trunc_rem(nanos, NANOS_PER_HOUR as int);
    let minutes = trunc_div(r1, NANOS_PER_MINUTE as int);
    let r2 = trunc_rem(r1, NANOS_PER_MINUTE as int);
    let seconds = trunc_div(r2, NANOS_PER_SECOND as int);
    let fraction = trunc_rem(r2, NANOS_PER_SECOND as int);
    optional_part(hours != 0, hours, "hour"@) + optional_part(minutes != 0, minutes, "minute"@)
        + second_parts(seconds, fraction)
}

/// The words of an interval literal: years and months, days, then hours,
/// minutes and seconds; each only where it is non-zero, each with its sign.
pub open spec fn interval_parts(v: i128) -> Seq<Seq<char>> {
    month_parts(interval_months(v) as int) + day_parts(interval_days(v) as int) + nano_parts(
        interval_nanos(v) as int,
    )
}

/// The SQL interval literal of a packed interval.
pub open spec fn interval_text(v: i128) -> Seq<char> {
    let parts = interval_parts(v);
    if parts.len() == 0 {
        "INTERVAL '0'"@
    } else {
        "INTERVAL '"@ + join_texts(parts, seq![' ']) + seq!['\'']
    }
}

/// The SQL literal of a decimal: the value divided by `10^scale`, as
/// `[-]integer.fraction` with the fraction zero-padded to `scale` digits,
/// when the scale is positive; the plain integer otherwise.
pub open spec fn decimal_text(value: i128, scale: i8) -> Seq<char> {
    if scale > 0 {
        let magnitude = abs_int(value as int) as int;
        let factor = pow10(scale as nat);
        (if value < 0 {
            seq!['-']
        } else {
            seq![]
        }) + decimal_digits((magnitude / factor) as nat) + seq!['.'] + padded_digits(
            (magnitude % factor) as nat,
            scale as nat,
        )
    } else {
        int_text(value as int)
    }
}

/// The SQL array literal `[a, b, c]` of integers.
pub open spec fn array_text(values: Seq<int>) -> Seq<char> {
    seq!['['] + join_texts(values.map_values(|x: int| int_text(x)), seq![',', ' ']) + seq![']']
}

pub open spec fn timestamp_with_zone_text(ns: i64, tz: Option<String>) -> Seq<char> {
    match tz {
        Some(zone) => timestamp_text(ns as int).drop_last() + zone@ + seq!['\''],
        None => timestamp_text(ns as int),
    }
}

/// The SQL literal of a generated value.
pub open spec fn sql_text(v: GeneratedValue) -> Seq<char> {
    match v {
        GeneratedValue::Int8(x) => int_text(x as int),
        GeneratedValue::Int16(x) => int_text(x as int),
        GeneratedValue::Int32(x) => int_text(x as int),
        GeneratedValue::Int64(x) => int_text(x as int),
        GeneratedValue::UInt8(x) => int_text(x as int),
        GeneratedValue::UInt16(x) => int_text(x as int),
        GeneratedValue::UInt32(x) => int_text(x as int),
        GeneratedValue::UInt64(x) => int_text(x as int),
        GeneratedValue::Boolean(b) => if b {
            "TRUE"@
        } else {
            "FALSE"@
        },
        GeneratedValue::Decimal { value, precision: _, scale } => decimal_text(value, scale),
        GeneratedValue::Date32(days) => date_text(days as int),
        GeneratedValue::Time64Nanosecond(ns) => time_text(ns as int),
        GeneratedValue::Timestamp(ns, tz) => timestamp_with_zone_text(ns, tz),
        GeneratedValue::IntervalMonthDayNano(v) => interval_text(v),
        GeneratedValue::String(s) => seq!['\''] + escape_quotes(s@) + seq!['\''],
        GeneratedValue::Int8Array(values) => array_text(values@.map_values(|x: i8| x as int)),
        GeneratedValue::Int32Array(values) => array_text(values@.map_values(|x: i32| x as int)),
        GeneratedValue::Int64Array(values) => array_text(values@.map_values(|x: i64| x as int)),
        GeneratedValue::Null => "NULL"@,
    }
}

/// The scalar a generated value converts to: the same value, wrapped in
/// `Some`; decimals of precision up to 38 as Decimal128 and wider ones as
/// Decimal256; intervals unpacked into their three components.
pub open spec fn scalar_of(v: GeneratedValue) -> ScalarLiteral {
    match v {
        GeneratedValue::Int8(x) => ScalarLiteral::Int8(Some(x)),
        GeneratedValue::Int16(x) => ScalarLiteral::Int16(Some(x)),
        GeneratedValue::Int32(x) => ScalarLiteral::Int32(Some(x)),
        GeneratedValue::Int64(x) => ScalarLiteral::Int64(Some(x)),
        GeneratedValue::UInt8(x) => ScalarLiteral::UInt8(Some(x)),
        GeneratedValue::UInt16(x) => ScalarLiteral::UInt16(Some(x)),
        GeneratedValue::UInt32(x) => ScalarLiteral::UInt32(Some(x)),
        GeneratedValue::UInt64(x) => ScalarLiteral::UInt64(Some(x)),
        GeneratedValue::Boolean(b) => ScalarLiteral::Boolean(Some(b)),
        GeneratedValue::Decimal { value, precision, scale } => if precision <= 38 {
            ScalarLiteral::Decimal128(Some(value), precision, scale)
        } else {
            ScalarLiteral::Decimal256(Some(value), precision, scale)
        },
        GeneratedValue::Date32(d) => ScalarLiteral::Date32(Some(d)),
        GeneratedValue::Time64Nanosecond(ns) => ScalarLiteral::Time64Nanosecond(Some(ns)),
        GeneratedValue::Timestamp(ns, tz) => ScalarLiteral::TimestampNanosecond(Some(ns), tz),
        GeneratedValue::IntervalMonthDayNano(x) => ScalarLiteral::IntervalMonthDayNano(
            Some((interval_months(x), interval_days(x), interval_nanos(x))),
        ),
        GeneratedValue::String(s) => ScalarLiteral::Utf8(Some(s)),
        GeneratedValue::Int8Array(values) => ScalarLiteral::Int8List(values),
        GeneratedValue::Int32Array(values) => ScalarLiteral::Int32List(values),
        GeneratedValue::Int64Array(values) => ScalarLiteral::Int64List(values),
        GeneratedValue::Null => ScalarLiteral::Null,
    }
}

/// A scalar stands for a value: it is `scalar_of` the value, list contents
/// compared by their elements.
pub open spec fn scalar_matches(r: ScalarLiteral, v: GeneratedValue) -> bool {
    match (r, v) {
        (ScalarLiteral::Int8List(xs), GeneratedValue::Int8Array(ys)) => xs@ == ys@,
        (ScalarLiteral::Int32List(xs), GeneratedValue::Int32Array(ys)) => xs@ == ys@,
        (ScalarLiteral::Int64List(xs), GeneratedValue::Int64Array(ys)) => xs@ == ys@,
        _ => r == scalar_of(v),
    }
}

proof fn lemma_pow10_monotone(a: nat, b: nat)
    requires
        a <= b,
    ensures
        1 <= pow10(a) <= pow10(b),
    decreases b,
{
    if a < b {
        lemma_pow10_monotone(a, (b - 1) as nat);
    } else if a > 0 {
        lemma_pow10_monotone((a - 1) as nat, (a - 1) as nat);
    }
}

/// `10^scale` for scales 0 to 30, and `10^30` for every other scale, so
/// that the result and products with small values stay within `i128`.
pub fn safe_power_of_10(scale: i8) -> (r: i128)
    ensures
        r == pow10(safe_exponent(scale)),
        1 <= r <= 1_000_000_000_000_000_000_000_000_000_000,
{
    let exponent: u32 = if scale < 0 || scale > 30 {
        30
    } else {
        scale as u32
    };
    proof {
        reveal_with_fuel(pow10, 31);
        assert(pow10(30) == 1_000_000_000_000_000_000_000_000_000_000int);
        lemma_pow10_monotone(exponent as nat, 30);
    }
    let mut r: i128 = 1;
    let mut i: u32 = 0;
    while i < exponent
        invariant
            i <= exponent <= 30,
            r == pow10(i as nat),
            pow10(30) == 1_000_000_000_000_000_000_000_000_000_000int,
        decreases exponent - i,
    {
        proof {
            lemma_pow10_monotone((i + 1) as nat, 30);
        }
        r = r * 10;
        i = i + 1;
    }
    r
}

/// Ten to the power `k`, for `k` up to 38.
fn power_of_ten_u128(k: u32) -> (r: u128)
    requires
        k <= 38,
    ensures
        r == pow10(k as nat),
        r >= 1,
{
    proof {
        lemma_pow10_monotone(0, k as nat);
        reveal_with_fuel(pow10, 39);
        assert(pow10(38) == 100_000_000_000_000_000_000_000_000_000_000_000_000int);
    }
    let mut r: u128 = 1;
    let mut i: u32 = 0;
    while i < k
        invariant
            i <= k <= 38,
            r == pow10(i as nat),
            pow10(38) == 100_000_000_000_000_000_000_000_000_000_000_000_000int,
        decreases k - i,
    {
        proof {
            lemma_pow10_monotone((i + 1) as nat, 38);
        }
        r = r * 10;
        i = i + 1;
    }
    r
}

/// Appends the decimal literal.
fn push_decimal(out: &mut Vec<char>, value: i128, scale: i8)
    ensures
        final(out)@ == old(out)@ + decimal_text(value, scale),
{
    let ghost start = out@;
    if scale > 0 {
        let m = magnitude(value);
        let ghost factor = pow10(scale as nat);
        let (whole, fraction) = if scale <= 38 {
            let f = power_of_ten_u128(scale as u32);
            (m / f, m % f)
        } else {
            proof {
                lemma_u128_below_pow10();
                lemma_pow10_monotone(39, scale as nat);
                vstd::arithmetic::div_mod::lemma_basic_div(m as int, factor);
                vstd::arithmetic::div_mod::lemma_small_mod(m as nat, factor as nat);
            }
            (0u128, m)
        };
        assert(whole as int == (abs_int(value as int) as int) / factor);
        assert(fraction as int == (abs_int(value as int) as int) % factor);
        if value < 0 {
            out.push('-');
        }
        push_digits(out, whole);
        out.push('.');
        push_padded_digits(out, fraction, scale as usize);
        assert(out@ =~= start + decimal_text(value, scale));
    } else {
        push_int(out, value);
    }
}

/// A decimal of positive scale `s` is written with a point followed by
/// exactly `s` digits, after an integer part of one or more digits with an
/// optional minus sign; read without the point, the literal is the unscaled
/// value, so the literal stands for `value / 10^s`.
/// A decimal of scale zero or below is written as its unscaled value: one
/// or more digits with a minus sign for a negative value, reading back as
/// the value.
pub proof fn lemma_decimal_literal_unscaled(value: i128, precision: u8, scale: i8)
    requires
        scale <= 0,
    ensures
        is_signed_digits(sql_text(GeneratedValue::Decimal { value, precision, scale })),
        read_signed(sql_text(GeneratedValue::Decimal { value, precision, scale })) == value as int,
{
    lemma_int_text_value(value as int);
}

pub proof fn lemma_decimal_literal_value(value: i128, precision: u8, scale: i8)
    requires
        scale > 0,
    ensures
        ({
            let t = sql_text(GeneratedValue::Decimal { value, precision, scale });
            let point = t.len() - scale as int - 1;
            &&& point >= 1
            &&& t[point] == '.'
            &&& is_signed_digits(t.take(point))
            &&& all_digits(t.skip(point + 1))
            &&& t.skip(point + 1).len() == scale as int
            &&& read_signed(t.take(point) + t.skip(point + 1)) == value as int
        }),
{
    let s = scale as nat;
    let m = abs_int(value as int) as int;
    let factor = pow10(s);
    lemma_pow10_monotone(0, s);
    vstd::arithmetic::div_mod::lemma_fundamental_div_mod(m, factor);
    vstd::arithmetic::div_mod::lemma_div_pos_is_pos(m, factor);
    vstd::arithmetic::div_mod::lemma_mod_pos_bound(m, factor);
    let q = (m / factor) as nat;
    let r = (m % factor) as nat;
    assert(m == q * factor + r) by (nonlinear_arith)
        requires
            m == factor * (m / factor) + m % factor,
            q == m / factor,
            r == m % factor,
    ;
    lemma_padded_is_fixed(r, s);
    lemma_read_decimal_digits(q);
    lemma_read_fixed_digits(r, s);
    lemma_read_digits_append(decimal_digits(q), fixed_digits(r, s));
    let sg: Seq<char> = if value < 0 {
        seq!['-']
    } else {
        seq![]
    };
    let d = decimal_digits(q);
    let f = fixed_digits(r, s);
    let t = sql_text(GeneratedValue::Decimal { value, precision, scale });
    assert(t == sg + d + seq!['.'] + f);
    let point = t.len() - scale as int - 1;
    assert(point == sg.len() + d.len());
    assert(t.take(point) =~= sg + d);
    assert(t.skip(point + 1) =~= f);
    assert(t[point] == '.');
    let joined = t.take(point) + t.skip(point + 1);
    assert(joined =~= sg + (d + f));
    if value < 0 {
        assert(joined.skip(1) =~= d + f);
        assert((sg + d).skip(1) =~= d);
    } else {
        assert(joined =~= d + f);
        assert(sg + d =~= d);
    }
}

proof fn lemma_join_push(parts: Seq<Seq<char>>, sep: Seq<char>, p: Seq<char>)
    ensures
        join_texts(parts.push(p), sep) == if parts.len() == 0 {
            p
        } else {
            join_texts(parts, sep) + sep + p
        },
{
    assert(parts.push(p).drop_last() =~= parts);
}

/// Appends the array literal of the values.
fn push_i64_list(out: &mut Vec<char>, values: &Vec<i64>)
    ensures
        final(out)@ == old(out)@ + array_text(values@.map_values(|x: i64| x as int)),
{
    let ghost start = out@;
    let ghost texts = values@.map_values(|x: i64| x as int).map_values(|x: int| int_text(x));
    out.push('[');
    let n = values.len();
    let mut i: usize = 0;
    while i < n
        invariant
            n == values@.len(),
            i <= n,
            texts.len() == n,
            forall|j: int| 0 <= j < n ==> #[trigger] texts[j] == int_text(values@[j] as int),
            out@ =~= start + seq!['['] + join_texts(texts.take(i as int), seq![',', ' ']),
        decreases n - i,
    {
        proof {
            lemma_join_push(texts.take(i as int), seq![',', ' '], texts[i as int]);
            assert(texts.take(i + 1) =~= texts.take(i as int).push(texts[i as int]));
        }
        if i > 0 {
            out.push(',');
            out.push(' ');
        }
        push_int(out, values[i] as i128);
        i = i + 1;
    }
    out.push(']');
    assert(texts.take(n as int) =~= texts);
    assert(out@ =~= start + array_text(values@.map_values(|x: i64| x as int)));
}

/// Appends the array literal of the values.
fn push_i32_list(out: &mut Vec<char>, values: &Vec<i32>)
    ensures
        final(out)@ == old(out)@ + array_text(values@.map_values(|x: i32| x as int)),
{
    let ghost start = out@;
    let ghost texts = values@.map_values(|x: i32| x as int).map_values(|x: int| int_text(x));
    out.push('[');
    let n = values.len();
    let mut i: usize = 0;
    while i < n
        invariant
            n == values@.len(),
            i <= n,
            texts.len() == n,
            forall|j: int| 0 <= j < n ==> #[trigger] texts[j] == int_text(values@[j] as int),
            out@ =~= start + seq!['['] + join_texts(texts.take(i as int), seq![',', ' ']),
        decreases n - i,
    {
        proof {
            lemma_join_push(texts.take(i as int), seq![',', ' '], texts[i as int]);
            assert(texts.take(i + 1) =~= texts.take(i as int).push(texts[i as int]));
        }
        if i > 0 {
            out.push(',');
            out.push(' ');
        }
        push_int(out, values[i] as i128);
        i = i + 1;
    }
    out.push(']');
    assert(texts.take(n as int) =~= texts);
    assert(out@ =~= start + array_text(values@.map_values(|x: i32| x as int)));
}

/// Appends the array literal of the values.
fn push_i8_list(out: &mut Vec<char>, values: &Vec<i8>)
    ensures
        final(out)@ == old(out)@ + array_text(values@.map_values(|x: i8| x as int)),
{
    let ghost start = out@;
    let ghost texts = values@.map_values(|x: i8| x as int).map_values(|x: int| int_text(x));
    out.push('[');
    let n = values.len();
    let mut i: usize = 0;
    while i < n
        invariant
            n == values@.len(),
            i <= n,
            texts.len() == n,
            forall|j: int| 0 <= j < n ==> #[trigger] texts[j] == int_text(values@[j] as int),
            out@ =~= start + seq!['['] + join_texts(texts.take(i as int), seq![',', ' ']),
        decreases n - i,
    {
        proof {
            lemma_join_push(texts.take(i as int), seq![',', ' '], texts[i as int]);
            assert(texts.take(i + 1) =~= texts.take(i as int).push(texts[i as int]));
        }
        if i > 0 {
            out.push(',');
            out.push(' ');
        }
        push_int(out, values[i] as i128);
        i = i + 1;
    }
    out.push(']');
    assert(texts.take(n as int) =~= texts);
    assert(out@ =~= start + array_text(values@.map_values(|x: i8| x as int)));
}

/// Appends one word of an interval literal where `present` holds, a space
/// before it unless it is the first.
fn push_optional_part(
    out: &mut Vec<char>,
    Ghost(parts): Ghost<Seq<Seq<char>>>,
    present: bool,
    n: i64,
    unit: &str,
) -> (new_parts: Ghost<Seq<Seq<char>>>)
    requires
        old(out)@ == join_texts(parts, seq![' ']),
        parts.len() == 0 <==> old(out)@.len() == 0,
    ensures
        new_parts@ == parts + optional_part(present, n as int, unit@),
        final(out)@ == join_texts(new_parts@, seq![' ']),
        new_parts@.len() == 0 <==> final(out)@.len() == 0,
{
    if present {
        proof {
            lemma_join_push(parts, seq![' '], unit_part(n as int, unit@));
        }
        if out.len() > 0 {
            out.push(' ');
        }
        push_int(out, n as i128);
        out.push(' ');
        push_str(out, unit);
        if n != 1 && n != -1 {
            out.push('s');
        }
        assert(parts + optional_part(present, n as int, unit@) =~= parts.push(
            unit_part(n as int, unit@),
        ));
        assert(out@ =~= join_texts(parts.push(unit_part(n as int, unit@)), seq![' ']));
    } else {
        assert(parts + optional_part(present, n as int, unit@) =~= parts);
    }
    Ghost(parts + optional_part(present, n as int, unit@))
}

/// Appends the characters of `chars`.
fn push_chars(out: &mut Vec<char>, chars: &Vec<char>)
    ensures
        final(out)@ == old(out)@ + chars@,
{
    let ghost start = out@;
    let n = chars.len();
    let mut i: usize = 0;
    while i < n
        invariant
            n == chars@.len(),
            i <= n,
            out@ =~= start + chars@.take(i as int),
        decreases n - i,
    {
        out.push(chars[i]);
        assert(chars@.take(i + 1) =~= chars@.take(i as int).push(chars@[i as int]));
        i = i + 1;
    }
    assert(chars@.take(n as int) =~= chars@);
}

/// Appends a word to the words of an interval literal, a space before it
/// unless it is the first.
fn push_part(out: &mut Vec<char>, Ghost(parts): Ghost<Seq<Seq<char>>>, word: &Vec<char>) -> (new_parts: Ghost<Seq<Seq<char>>>)
    requires
        old(out)@ == join_texts(parts, seq![' ']),
        parts.len() == 0 <==> old(out)@.len() == 0,
        word@.len() > 0,
    ensures
        new_parts@ == parts.push(word@),
        final(out)@ == join_texts(new_parts@, seq![' ']),
        new_parts@.len() == 0 <==> final(out)@.len() == 0,
{
    let ghost start = out@;
    proof {
        lemma_join_push(parts, seq![' '], word@);
    }
    if out.len() > 0 {
        out.push(' ');
    }
    push_chars(out, word);
    assert(out@ =~= join_texts(parts.push(word@), seq![' ']));
    Ghost(parts.push(word@))
}

/// Appends the year and month words of an interval.
fn push_month_parts(out: &mut Vec<char>, Ghost(parts): Ghost<Seq<Seq<char>>>, months: i32) -> (new_parts: Ghost<Seq<Seq<char>>>)
    requires
        old(out)@ == join_texts(parts, seq![' ']),
        parts.len() == 0 <==> old(out)@.len() == 0,
    ensures
        new_parts@ == parts + month_parts(months as int),
        final(out)@ == join_texts(new_parts@, seq![' ']),
        new_parts@.len() == 0 <==> final(out)@.len() == 0,
{
    let years = months / 12;
    let rest = months % 12;
    let Ghost(p0) = push_optional_part(out, Ghost(parts), years != 0, years as i64, "year");
    let Ghost(p1) = push_optional_part(out, Ghost(p0), rest != 0, rest as i64, "month");
    assert(p1 =~= parts + month_parts(months as int));
    Ghost(p1)
}

/// Appends the day word of an interval.
fn push_day_parts(out: &mut Vec<char>, Ghost(parts): Ghost<Seq<Seq<char>>>, days: i32) -> (new_parts: Ghost<Seq<Seq<char>>>)
    requires
        old(out)@ == join_texts(parts, seq![' ']),
        parts.len() == 0 <==> old(out)@.len() == 0,
    ensures
        new_parts@ == parts + day_parts(days as int),
        final(out)@ == join_texts(new_parts@, seq![' ']),
        new_parts@.len() == 0 <==> final(out)@.len() == 0,
{
    push_optional_part(out, Ghost(parts), days != 0, days as i64, "day")
}

/// Appends the seconds word of an interval.
fn push_second_parts(
    out: &mut Vec<char>,
    Ghost(parts): Ghost<Seq<Seq<char>>>,
    seconds: i64,
    fraction: i64,
) -> (new_parts: Ghost<Seq<Seq<char>>>)
    requires
        old(out)@ == join_texts(parts, seq![' ']),
        parts.len() == 0 <==> old(out)@.len() == 0,
        -1_000_000_000 < fraction < 1_000_000_000,
    ensures
        new_parts@ == parts + second_parts(seconds as int, fraction as int),
        final(out)@ == join_texts(new_parts@, seq![' ']),
        new_parts@.len() == 0 <==> final(out)@.len() == 0,
{
    if fraction == 0 {
        push_optional_part(out, Ghost(parts), seconds != 0, seconds, "second")
    } else {
        let mut word: Vec<char> = Vec::new();
        if fraction < 0 {
            word.push('-');
        }
        push_digits(&mut word, magnitude(seconds as i128));
        word.push('.');
        push_padded_digits(&mut word, magnitude(fraction as i128), 9);
        push_str(&mut word, " seconds");
        let ghost expected = second_parts(seconds as int, fraction as int)[0];
        assert(word@ =~= expected);
        let Ghost(p) = push_part(out, Ghost(parts), &word);
        assert(p =~= parts + second_parts(seconds as int, fraction as int));
        Ghost(p)
    }
}

/// Appends the hour, minute and second words of an interval.
#[verifier::rlimit(40)]
fn push_nano_parts(out: &mut Vec<char>, Ghost(parts): Ghost<Seq<Seq<char>>>, nanoseconds: i64) -> (new_parts: Ghost<Seq<Seq<char>>>)
    requires
        old(out)@ == join_texts(parts, seq![' ']),
        parts.len() == 0 <==> old(out)@.len() == 0,
    ensures
        new_parts@ == parts + nano_parts(nanoseconds as int),
        final(out)@ == join_texts(new_parts@, seq![' ']),
        new_parts@.len() == 0 <==> final(out)@.len() == 0,
{
    let hours = nanoseconds / NANOS_PER_HOUR;
    let r1 = nanoseconds % NANOS_PER_HOUR;
    let minutes = r1 / NANOS_PER_MINUTE;
    let r2 = r1 % NANOS_PER_MINUTE;
    let seconds = r2 / NANOS_PER_SECOND;
    let fraction = r2 % NANOS_PER_SECOND;
    assert(hours == trunc_div(nanoseconds as int, NANOS_PER_HOUR as int));
    assert(r1 == trunc_rem(nanoseconds as int, NANOS_PER_HOUR as int));
    assert(minutes == trunc_div(r1 as int, NANOS_PER_MINUTE as int));
    assert(r2 == trunc_rem(r1 as int, NANOS_PER_MINUTE as int));
    assert(seconds == trunc_div(r2 as int, NANOS_PER_SECOND as int));
    assert(fraction == trunc_rem(r2 as int, NANOS_PER_SECOND as int));
    let Ghost(p0) = push_optional_part(out, Ghost(parts), hours != 0, hours, "hour");
    let Ghost(p1) = push_optional_part(out, Ghost(p0), minutes != 0, minutes, "minute");
    let Ghost(p2) = push_second_parts(out, Ghost(p1), seconds, fraction);
    assert(p2 =~= parts + nano_parts(nanoseconds as int));
    Ghost(p2)
}

/// The words of an interval literal joined by spaces.
fn interval_words(months: i32, days: i32, nanoseconds: i64) -> (body: Vec<char>)
    ensures
        body@ == join_texts(
            month_parts(months as int) + day_parts(days as int) + nano_parts(nanoseconds as int),
            seq![' '],
        ),
        body@.len() == 0 <==> (month_parts(months as int) + day_parts(days as int) + nano_parts(
            nanoseconds as int,
        )).len() == 0,
{
    let mut body: Vec<char> = Vec::new();
    let ghost none: Seq<Seq<char>> = seq![];
    assert(body@ =~= join_texts(none, seq![' ']));
    let Ghost(p0) = push_month_parts(&mut body, Ghost(none), months);
    let Ghost(p1) = push_day_parts(&mut body, Ghost(p0), days);
    let Ghost(p2) = push_nano_parts(&mut body, Ghost(p1), nanoseconds);
    assert(p2 =~= month_parts(months as int) + day_parts(days as int) + nano_parts(
        nanoseconds as int,
    ));
    body
}

/// Appends the interval literal of a packed interval.
fn push_interval(out: &mut Vec<char>, interval_value: i128)
    ensures
        final(out)@ == old(out)@ + interval_text(interval_value),
{
    let months = ((interval_value >> 32) & 0xFFFFFFFF) as i32;
    let days = (interval_value & 0xFFFFFFFF) as i32;
    let nanoseconds = ((interval_value >> 64) & 0xFFFFFFFFFFFFFFFF) as i64;
    let body = interval_words(months, days, nanoseconds);
    let ghost start = out@;
    if body.len() == 0 {
        push_str(out, "INTERVAL '0'");
    } else {
        push_str(out, "INTERVAL '");
        push_chars(out, &body);
        out.push('\'');
    }
    assert(out@ =~= start + interval_text(interval_value));
}

/// Appends the first `count` characters of `s`.
fn push_str_prefix(out: &mut Vec<char>, s: &str, count: usize)
    requires
        count <= s@.len(),
    ensures
        final(out)@ == old(out)@ + s@.take(count as int),
{
    let ghost start = out@;
    let mut i: usize = 0;
    while i < count
        invariant
            count <= s@.len(),
            i <= count,
            out@ =~= start + s@.take(i as int),
        decreases count - i,
    {
        out.push(s.get_char(i));
        assert(s@.take(i + 1) =~= s@.take(i as int).push(s@[i as int]));
        i = i + 1;
    }
}

impl GeneratedValue {
    /// The SQL literal of the value: integers in decimal, booleans as
    /// TRUE/FALSE, decimals with their scale, dates, times and timestamps as
    /// quoted literals (a time zone appended to the timestamp), intervals as
    /// `INTERVAL '...'`, strings quoted with quotes doubled, arrays as
    /// `[a, b]`, and NULL.
    pub fn to_sql_string(&self) -> (s: String)
        ensures
            s@ == sql_text(*self),
    {
        match self {
            GeneratedValue::Boolean(v) => {
                if *v {
                    String::from_str("TRUE")
                } else {
                    String::from_str("FALSE")
                }
            },
            GeneratedValue::Date32(days_since_epoch) => days_to_date_string(*days_since_epoch),
            GeneratedValue::Timestamp(nanoseconds_since_epoch, tz) => {
                let timestamp_str = nanoseconds_to_timestamp_string(*nanoseconds_since_epoch);
                match tz {
                    Some(zone) => {
                        let text = timestamp_str.as_str();
                        let len = text.unicode_len();
                        let mut out: Vec<char> = Vec::new();
                        push_str_prefix(&mut out, text, len - 1);
                        push_str(&mut out, zone.as_str());
                        out.push('\'');
                        assert(timestamp_str@.take(len - 1) =~= timestamp_str@.drop_last());
                        string_from_chars(out)
                    },
                    None => timestamp_str,
                }
            },
            GeneratedValue::Null => String::from_str("NULL"),
            _ => {
                let mut out: Vec<char> = Vec::new();
                self.push_sql_text(&mut out);
                assert(out@ =~= sql_text(*self));
                string_from_chars(out)
            },
        }
    }

    /// Appends the SQL literal of a value that is not a boolean, date,
    /// timestamp or NULL.
    fn push_sql_text(&self, out: &mut Vec<char>)
        requires
            !(*self is Boolean || *self is Date32 || *self is Timestamp || *self is Null),
        ensures
            final(out)@ == old(out)@ + sql_text(*self),
    {
        let ghost start = out@;
        match self {
            GeneratedValue::Int8(v) => push_int(out, *v as i128),
            GeneratedValue::Int16(v) => push_int(out, *v as i128),
            GeneratedValue::Int32(v) => push_int(out, *v as i128),
            GeneratedValue::Int64(v) => push_int(out, *v as i128),
            GeneratedValue::UInt8(v) => push_int(out, *v as i128),
            GeneratedValue::UInt16(v) => push_int(out, *v as i128),
            GeneratedValue::UInt32(v) => push_int(out, *v as i128),
            GeneratedValue::UInt64(v) => push_int(out, *v as i128),
            GeneratedValue::Decimal { value, precision: _, scale } => push_decimal(
                out,
                *value,
                *scale,
            ),
            GeneratedValue::Time64Nanosecond(nanoseconds) => {
                out.push('\'');
                push_clock_body(out, *nanoseconds);
                out.push('\'');
                assert(out@ =~= start + sql_text(*self));
            },
            GeneratedValue::IntervalMonthDayNano(interval_value) => push_interval(
                out,
                *interval_value,
            ),
            GeneratedValue::String(s) => {
                out.push('\'');
                push_escaped(out, s.as_str());
                out.push('\'');
                assert(out@ =~= start + sql_text(*self));
            },
            GeneratedValue::Int8Array(values) => push_i8_list(out, values),
            GeneratedValue::Int32Array(values) => push_i32_list(out, values),
            GeneratedValue::Int64Array(values) => push_i64_list(out, values),
            _ => {},
        }
    }

    /// The DataFusion scalar of the value.
    pub fn to_scalar_value(&self) -> (r: ScalarLiteral)
        ensures
            scalar_matches(r, *self),
    {
        match self {
            GeneratedValue::Int8(v) => ScalarLiteral::Int8(Some(*v)),
            GeneratedValue::Int16(v) => ScalarLiteral::Int16(Some(*v)),
            GeneratedValue::Int32(v) => ScalarLiteral::Int32(Some(*v)),
            GeneratedValue::Int64(v) => ScalarLiteral::Int64(Some(*v)),
            GeneratedValue::UInt8(v) => ScalarLiteral::UInt8(Some(*v)),
            GeneratedValue::UInt16(v) => ScalarLiteral::UInt16(Some(*v)),
            GeneratedValue::UInt32(v) => ScalarLiteral::UInt32(Some(*v)),
            GeneratedValue::UInt64(v) => ScalarLiteral::UInt64(Some(*v)),
            GeneratedValue::Boolean(v) => ScalarLiteral::Boolean(Some(*v)),
            GeneratedValue::Decimal { value, precision, scale } => {
                if *precision <= 38 {
                    ScalarLiteral::Decimal128(Some(*value), *precision, *scale)
                } else {
                    ScalarLiteral::Decimal256(Some(*value), *precision, *scale)
                }
            },
            GeneratedValue::Date32(v) => ScalarLiteral::Date32(Some(*v)),
            GeneratedValue::Time64Nanosecond(v) => ScalarLiteral::Time64Nanosecond(Some(*v)),
            GeneratedValue::Timestamp(v, tz) => ScalarLiteral::TimestampNanosecond(
                Some(*v),
                tz.clone(),
            ),
            GeneratedValue::IntervalMonthDayNano(v) => {
                let months = ((*v >> 32) & 0xFFFFFFFF) as i32;
                let days = (*v & 0xFFFFFFFF) as i32;
                let nanoseconds = ((*v >> 64) & 0xFFFFFFFFFFFFFFFF) as i64;
                ScalarLiteral::IntervalMonthDayNano(Some((months, days, nanoseconds)))
            },
            GeneratedValue::String(s) => ScalarLiteral::Utf8(Some(s.clone())),
            GeneratedValue::Int8Array(values) => ScalarLiteral::Int8List(values.clone()),
            GeneratedValue::Int32Array(values) => ScalarLiteral::Int32List(values.clone()),
            GeneratedValue::Int64Array(values) => ScalarLiteral::Int64List(values.clone()),
            GeneratedValue::Null => ScalarLiteral::Null,
        }
    }
}

/// Unpacking a packed interval gives back its months, days and
/// nanoseconds, whatever their signs.
pub proof fn lemma_interval_unpack_pack(months: i32, days: i32, nanoseconds: i64)
    ensures
        interval_months(pack_interval(months, days, nanoseconds)) == months,
        interval_days(pack_interval(months, days, nanoseconds)) == days,
        interval_nanos(pack_interval(months, days, nanoseconds)) == nanoseconds,
{
    assert((((((((months as i128) & 0xFFFFFFFFi128) << 32u32) | ((days as i128)
        & 0xFFFFFFFFi128) | ((nanoseconds as i128) << 64u32)) >> 32u32) & 0xFFFFFFFFi128)
        as i32) == months) by (bit_vector);
    assert((((((months as i128) & 0xFFFFFFFFi128) << 32u32) | ((days as i128)
        & 0xFFFFFFFFi128) | ((nanoseconds as i128) << 64u32)) & 0xFFFFFFFFi128) as i32 == days)
        by (bit_vector);
    assert((((((((months as i128) & 0xFFFFFFFFi128) << 32u32) | ((days as i128)
        & 0xFFFFFFFFi128) | ((nanoseconds as i128) << 64u32)) >> 64u32)
        & 0xFFFFFFFFFFFFFFFFi128) as i64) == nanoseconds) by (bit_vector);
}

/// Packing the unpacked components of any interval value gives the value
/// back: every packed value stands for exactly one interval.
pub proof fn lemma_interval_pack_unpack(v: i128)
    ensures
        pack_interval(interval_months(v), interval_days(v), interval_nanos(v)) == v,
{
    assert((((((((v >> 32u32) & 0xFFFFFFFFi128) as i32) as i128) & 0xFFFFFFFFi128) << 32u32)
        | ((((v & 0xFFFFFFFFi128) as i32) as i128) & 0xFFFFFFFFi128) | (((((v >> 64u32)
        & 0xFFFFFFFFFFFFFFFFi128) as i64) as i128) << 64u32)) == v) by (bit_vector);
}

/// Array literals are built element by element: no elements give `[]`,
/// one gives `[x]`, and appending an element to a non-empty array adds
/// `, x` before the closing bracket.
pub proof fn lemma_array_literal_push(values: Seq<int>, x: int)
    ensures
        array_text(seq![]) == seq!['[', ']'],
        array_text(seq![x]) == seq!['['] + int_text(x) + seq![']'],
        values.len() > 0 ==> array_text(values.push(x)) == array_text(values).drop_last() + seq![
            ',',
            ' ',
        ] + int_text(x) + seq![']'],
{
    let texts = values.map_values(|y: int| int_text(y));
    let sep = seq![',', ' '];
    assert(seq![x].map_values(|y: int| int_text(y)) =~= seq![int_text(x)]);
    assert(Seq::<int>::empty().map_values(|y: int| int_text(y)) =~= Seq::<Seq<char>>::empty());
    assert(array_text(seq![]) =~= seq!['[', ']']);
    assert(array_text(seq![x]) =~= seq!['['] + int_text(x) + seq![']']);
    if values.len() > 0 {
        assert(values.push(x).map_values(|y: int| int_text(y)) =~= texts.push(int_text(x)));
        lemma_join_push(texts, sep, int_text(x));
        assert(array_text(values).drop_last() =~= seq!['['] + join_texts(texts, sep));
        assert(array_text(values.push(x)) =~= array_text(values).drop_last() + sep + int_text(x)
            + seq![']']);
    }
}

/// The SQL literal of a date reads back as its day count since
/// 1970-01-01.
pub proof fn lemma_date_value_literal(days: i32)
    requires
        0 <= days <= 2932896,
    ensures
        ({
            let t = sql_text(GeneratedValue::Date32(days));
            &&& t.len() == 12
            &&& t[0] == '\'' && t[11] == '\''
            &&& is_date_layout(t.subrange(1, 11))
            &&& date_reading(t.subrange(1, 11)) == days
        }),
{
    lemma_date_literal_value(days as int);
}

/// The SQL literal of a time of day reads back as its nanoseconds since
/// midnight.
pub proof fn lemma_time_value_literal(ns: i64)
    requires
        0 <= ns < NANOS_PER_DAY,
    ensures
        ({
            let t = sql_text(GeneratedValue::Time64Nanosecond(ns));
            &&& t.len() == 20
            &&& t[0] == '\'' && t[19] == '\''
            &&& is_clock_layout(t.subrange(1, 19))
            &&& clock_reading(t.subrange(1, 19)) == ns
        }),
{
    lemma_time_literal_value(ns as int);
}

/// The SQL literal of a timestamp reads back as its date and time of day,
/// followed by its zone, if any, just before the closing quote.
pub proof fn lemma_timestamp_value_literal(ns: i64, tz: Option<String>)
    requires
        0 <= ns,
    ensures
        ({
            let t = sql_text(GeneratedValue::Timestamp(ns, tz));
            let zone: Seq<char> = match tz {
                Some(z) => z@,
                None => seq![],
            };
            &&& t.len() == 31 + zone.len()
            &&& t[0] == '\'' && t[11] == ' ' && t[t.len() - 1] == '\''
            &&& is_date_layout(t.subrange(1, 11))
            &&& is_clock_layout(t.subrange(12, 30))
            &&& date_reading(t.subrange(1, 11)) * NANOS_PER_DAY + clock_reading(t.subrange(12, 30))
                == ns
            &&& t.subrange(30, t.len() - 1) == zone
        }),
{
    lemma_timestamp_literal_value(ns);
    let base = timestamp_text(ns as int);
    let t = sql_text(GeneratedValue::Timestamp(ns, tz));
    match tz {
        Some(z) => {
            assert(t.subrange(1, 11) =~= base.subrange(1, 11));
            assert(t.subrange(12, 30) =~= base.subrange(12, 30));
            assert(t.subrange(30, t.len() - 1) =~= z@);
        },
        None => {
            assert(t.subrange(30, t.len() - 1) =~= Seq::<char>::empty());
        },
    }
}

} // verus!
