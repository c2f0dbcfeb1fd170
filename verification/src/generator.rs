//! Random values of each fuzzer type, drawn with a seeded `StdRng` so that a
//! run can be replayed from its seed.
use rand::rngs::StdRng;
use rand::Rng;
use vstd::prelude::*;
use crate::calendar::NANOS_PER_DAY;
use crate::data_type::{arrow_type_of, fuzzer_type_of, ArrowTimeUnit, ArrowType, FuzzerDataType};
use crate::text::{
    abs_int, decimal_digits, is_signed_digits, lemma_int_text_value, lemma_read_decimal_digits,
    padded_digits, pow10, read_signed, string_from_chars, zeros,
};
use crate::value::{
    interval_days, interval_months, interval_nanos, lemma_interval_unpack_pack, pack_interval,
    lemma_interval_pack_unpack, safe_exponent, safe_power_of_10, scalar_data_type, scalar_matches,
    array_text, sql_text, GeneratedValue, ScalarLiteral,
};

verus! {

#[verifier::external_type_specification]
#[verifier::external_body]
pub struct ExStdRng(StdRng);

/// Calls `rand::Rng::random_range` on `low..=high` of `i32`. The crate
/// returns a value of the range and panics on an empty one; which value comes
/// out depends on the generator's state and is not stated.
#[verifier::external_body]
fn random_i32_in(rng: &mut StdRng, low: i32, high: i32) -> (r: i32)
    requires
        low <= high,
    ensures
        low <= r <= high,
{
    rng.random_range(low..=high)
}

/// Calls `rand::Rng::random_range` on `low..=high` of `u32`: a value of the
/// range, which one not stated.
#[verifier::external_body]
fn random_u32_in(rng: &mut StdRng, low: u32, high: u32) -> (r: u32)
    requires
        low <= high,
    ensures
        low <= r <= high,
{
    rng.random_range(low..=high)
}

/// Calls `rand::Rng::random_range` on `low..=high` of `i64`: a value of the
/// range, which one not stated.
#[verifier::external_body]
fn random_i64_in(rng: &mut StdRng, low: i64, high: i64) -> (r: i64)
    requires
        low <= high,
    ensures
        low <= r <= high,
{
    rng.random_range(low..=high)
}

/// Calls `rand::Rng::random_range` on `low..high` of `i64`: a value of the
/// half-open range, which one not stated.
#[verifier::external_body]
fn random_i64_below(rng: &mut StdRng, low: i64, high: i64) -> (r: i64)
    requires
        low < high,
    ensures
        low <= r < high,
{
    rng.random_range(low..high)
}

/// Calls `rand::Rng::random_range` on `low..=high` of `u64`: a value of the
/// range, which one not stated.
#[verifier::external_body]
fn random_u64_in(rng: &mut StdRng, low: u64, high: u64) -> (r: u64)
    requires
        low <= high,
    ensures
        low <= r <= high,
{
    rng.random_range(low..=high)
}

/// Calls `rand::Rng::random_range` on `low..=high` of `u8`: a value of the
/// range, which one not stated.
#[verifier::external_body]
fn random_u8_in(rng: &mut StdRng, low: u8, high: u8) -> (r: u8)
    requires
        low <= high,
    ensures
        low <= r <= high,
{
    rng.random_range(low..=high)
}

/// Calls `rand::Rng::random_range` on `low..=high` of `i8`: a value of the
/// range, which one not stated.
#[verifier::external_body]
fn random_i8_in(rng: &mut StdRng, low: i8, high: i8) -> (r: i8)
    requires
        low <= high,
    ensures
        low <= r <= high,
{
    rng.random_range(low..=high)
}

/// Calls `rand::Rng::random_range` on `low..=high` of `i128`: a value of
/// the range, which one not stated.
#[verifier::external_body]
fn random_i128_in(rng: &mut StdRng, low: i128, high: i128) -> (r: i128)
    requires
        low <= high,
    ensures
        low <= r <= high,
{
    rng.random_range(low..=high)
}

/// Calls `rand::Rng::random_range` on `low..high` of `usize`: a value of
/// the half-open range, which one not stated.
#[verifier::external_body]
fn random_usize_below(rng: &mut StdRng, low: usize, high: usize) -> (r: usize)
    requires
        low < high,
    ensures
        low <= r < high,
{
    rng.random_range(low..high)
}

/// Calls `rand::Rng::random_ratio(numerator, denominator)`: true with that
/// probability; the crate panics when the numerator exceeds the
/// denominator or the denominator is zero. Nothing is stated of the outcome.
/// `random_ratio(1, 2)` builds the same Bernoulli threshold as
/// `random_bool(0.5)` and so draws the same bits.
#[verifier::external_body]
fn random_ratio(rng: &mut StdRng, numerator: u32, denominator: u32) -> (r: bool)
    requires
        0 < denominator,
        numerator <= denominator,
{
    rng.random_ratio(numerator, denominator)
}

/// The integer ranges that bound generated integers.
#[derive(Debug, Clone, Copy, PartialEq, Eq)]
pub struct IntegerRanges {
    /// Bounds (inclusive) of signed integers, clamped to each type.
    pub int_range: (i32, i32),
    /// Bounds (inclusive) of unsigned integers, clamped to each type.
    pub uint_range: (u32, u32),
}

impl Default for IntegerRanges {
    /// -100 to 100 for signed integers, 0 to 200 for unsigned ones.
    fn default() -> (r: Self)
        ensures
            r.int_range == (-100i32, 100i32),
            r.uint_range == (0u32, 200u32),
    {
        IntegerRanges { int_range: (-100, 100), uint_range: (0, 200) }
    }
}

pub open spec fn clamp_int(v: int, low: int, high: int) -> int {
    if v < low {
        low
    } else if v > high {
        high
    } else {
        v
    }
}

pub open spec fn min_int(a: int, b: int) -> int {
    if a <= b {
        a
    } else {
        b
    }
}

/// Clamps both bounds of a configured signed range into the target type's
/// range; a range wholly outside it collapses onto the nearest boundary.
pub fn clamp_signed_range(configured: (i32, i32), type_min: i32, type_max: i32) -> (r: (i32, i32))
    requires
        configured.0 <= configured.1,
        type_min <= type_max,
    ensures
        r.0 == clamp_int(configured.0 as int, type_min as int, type_max as int),
        r.1 == clamp_int(configured.1 as int, type_min as int, type_max as int),
{
    let low = if configured.0 < type_min {
        type_min
    } else if configured.0 > type_max {
        type_max
    } else {
        configured.0
    };
    let high = if configured.1 < type_min {
        type_min
    } else if configured.1 > type_max {
        type_max
    } else {
        configured.1
    };
    (low, high)
}

/// Caps both bounds of a configured unsigned range at the target type's
/// maximum; a range wholly above it collapses onto the maximum.
pub fn clamp_unsigned_range(configured: (u32, u32), type_max: u32) -> (r: (u32, u32))
    requires
        configured.0 <= configured.1,
    ensures
        r.0 == min_int(configured.0 as int, type_max as int),
        r.1 == min_int(configured.1 as int, type_max as int),
{
    let low = if configured.0 < type_max {
        configured.0
    } else {
        type_max
    };
    let high = if configured.1 < type_max {
        configured.1
    } else {
        type_max
    };
    (low, high)
}

/// Printable ASCII except the single quote and the backslash.
pub open spec fn is_sql_safe_char(c: char) -> bool {
    ' ' <= c <= '~' && c != '\'' && c != '\\'
}

/// The time zones a generated timestamp may carry.
pub open spec fn is_generated_zone(tz: Option<String>) -> bool {
    match tz {
        None => true,
        Some(zone) => {
            ||| zone@ == "UTC"@
            ||| zone@ == "+09:00"@
            ||| zone@ == "-09"@
            ||| zone@ == "+0930"@
            ||| zone@ == "America/New_York"@
        },
    }
}

/// Bound on generated timestamps: about 100 years of nanoseconds.
pub open spec fn max_timestamp_nanos() -> int {
    NANOS_PER_DAY * 36500
}

/// The ranges that generating a value of the type draws from are not empty.
pub open spec fn ranges_usable(t: FuzzerDataType, ranges: IntegerRanges) -> bool {
    match t {
        FuzzerDataType::Int8
        | FuzzerDataType::Int16
        | FuzzerDataType::Int32
        | FuzzerDataType::Int64
        | FuzzerDataType::Int8Array
        | FuzzerDataType::Int32Array
        | FuzzerDataType::Int64Array => ranges.int_range.0 <= ranges.int_range.1,
        FuzzerDataType::UInt8
        | FuzzerDataType::UInt16
        | FuzzerDataType::UInt32
        | FuzzerDataType::UInt64 => ranges.uint_range.0 <= ranges.uint_range.1,
        _ => true,
    }
}

/// `x` lies in the signed range clamped to `[low, high]`.
pub open spec fn in_clamped(x: int, range: (i32, i32), low: int, high: int) -> bool {
    clamp_int(range.0 as int, low, high) <= x <= clamp_int(range.1 as int, low, high)
}

/// `x` lies in the unsigned range capped at `max`.
pub open spec fn in_capped(x: int, range: (u32, u32), max: int) -> bool {
    min_int(range.0 as int, max) <= x <= min_int(range.1 as int, max)
}

/// An unscaled decimal multiplied by the power of ten of its scale.
pub open spec fn scaled_decimal(simple: int, scale: i8) -> int {
    simple * pow10(safe_exponent(scale))
}

/// What a generated value of each type satisfies, whatever the draws: the
/// matching variant, integers within the configured ranges clamped to the
/// type, decimals of precision 1 to 76 and scale 0 to the precision whose
/// value is at most 99999 in magnitude times the scale's power of ten,
/// dates within 100 years of 1970, times within the day, timestamps within
/// 100 years with one of the listed zones, intervals packed from months in
/// -12..=12, days in -30..=30 and nanoseconds in -10^9..=10^9, strings of
/// 1 to 50 SQL-safe characters, arrays of 1 to 5 elements in range.
pub open spec fn is_generated_value(t: FuzzerDataType, ranges: IntegerRanges, v: GeneratedValue) -> bool {
    let int_range = ranges.int_range;
    let uint_range = ranges.uint_range;
    match (t, v) {
        (FuzzerDataType::Int8, GeneratedValue::Int8(x)) => in_clamped(x as int, int_range, -128, 127),
        (FuzzerDataType::Int16, GeneratedValue::Int16(x)) => in_clamped(
            x as int,
            int_range,
            -32768,
            32767,
        ),
        (FuzzerDataType::Int32, GeneratedValue::Int32(x)) => int_range.0 <= x <= int_range.1,
        (FuzzerDataType::Int64, GeneratedValue::Int64(x)) => int_range.0 <= x <= int_range.1,
        (FuzzerDataType::UInt8, GeneratedValue::UInt8(x)) => in_capped(x as int, uint_range, 255),
        (FuzzerDataType::UInt16, GeneratedValue::UInt16(x)) => in_capped(
            x as int,
            uint_range,
            65535,
        ),
        (FuzzerDataType::UInt32, GeneratedValue::UInt32(x)) => uint_range.0 <= x <= uint_range.1,
        (FuzzerDataType::UInt64, GeneratedValue::UInt64(x)) => uint_range.0 <= x <= uint_range.1,
        (FuzzerDataType::Boolean, GeneratedValue::Boolean(_)) => true,
        (FuzzerDataType::Decimal, GeneratedValue::Decimal { value, precision, scale }) => {
            &&& 1 <= precision <= 76
            &&& 0 <= scale <= precision
            &&& exists|simple: int|
                -99999 <= simple <= 99999 && value == #[trigger] scaled_decimal(simple, scale)
        },
        (FuzzerDataType::Date32, GeneratedValue::Date32(days)) => 0 <= days <= 36500,
        (FuzzerDataType::Time64Nanosecond, GeneratedValue::Time64Nanosecond(ns)) => 0 <= ns
            < NANOS_PER_DAY,
        (FuzzerDataType::Timestamp, GeneratedValue::Timestamp(ns, tz)) => {
            &&& 0 <= ns <= max_timestamp_nanos()
            &&& is_generated_zone(tz)
        },
        (FuzzerDataType::IntervalMonthDayNano, GeneratedValue::IntervalMonthDayNano(x)) => exists|
            months: i32,
            days: i32,
            nanoseconds: i64,
        |
            -12 <= months <= 12 && -30 <= days <= 30 && -1_000_000_000 <= nanoseconds
                <= 1_000_000_000 && x == pack_interval(months, days, nanoseconds),
        (FuzzerDataType::String, GeneratedValue::String(s)) => {
            &&& 1 <= s@.len() <= 50
            &&& forall|i: int| 0 <= i < s@.len() ==> is_sql_safe_char(#[trigger] s@[i])
        },
        (FuzzerDataType::Int8Array, GeneratedValue::Int8Array(xs)) => {
            &&& 1 <= xs@.len() <= 5
            &&& forall|i: int| 0 <= i < xs@.len() ==> in_clamped(#[trigger] xs@[i] as int, int_range, -128, 127)
        },
        (FuzzerDataType::Int32Array, GeneratedValue::Int32Array(xs)) => {
            &&& 1 <= xs@.len() <= 5
            &&& forall|i: int| 0 <= i < xs@.len() ==> int_range.0 <= #[trigger] xs@[i] <= int_range.1
        },
        (FuzzerDataType::Int64Array, GeneratedValue::Int64Array(xs)) => {
            &&& 1 <= xs@.len() <= 5
            &&& forall|i: int| 0 <= i < xs@.len() ==> int_range.0 <= #[trigger] xs@[i] <= int_range.1
        },
        _ => false,
    }
}

/// The character of index `i` among the SQL-safe characters in code
/// order: codes 32 to 38, 40 to 91 and 93 to 126.
pub open spec fn safe_char_spec(i: int) -> char {
    (if i < 7 {
        32 + i
    } else if i < 59 {
        33 + i
    } else {
        34 + i
    }) as char
}

/// The 93 indices name the SQL-safe characters in increasing code order,
/// each of them exactly once: every index gives a safe character, later
/// indices give later characters, and every safe character has an index.
pub proof fn lemma_safe_chars_enumerated(c: char)
    ensures
        forall|i: int| 0 <= i < 93 ==> is_sql_safe_char(#[trigger] safe_char_spec(i)),
        forall|i: int, j: int|
            0 <= i < j < 93 ==> (#[trigger] safe_char_spec(i) as int) < (
            #[trigger] safe_char_spec(j) as int),
        is_sql_safe_char(c) ==> exists|i: int| 0 <= i < 93 && #[trigger] safe_char_spec(i) == c,
{
    if is_sql_safe_char(c) {
        let code = c as int;
        let i = if code < 39 {
            code - 32
        } else if code < 92 {
            code - 33
        } else {
            code - 34
        };
        assert(safe_char_spec(i) == c);
    }
}

/// The zone listed at `index` among the zones a generated timestamp may
/// carry (none at index 0).
pub open spec fn zone_at(index: int) -> Option<Seq<char>> {
    if index == 0 {
        None
    } else if index == 1 {
        Some("UTC"@)
    } else if index == 2 {
        Some("+09:00"@)
    } else if index == 3 {
        Some("-09"@)
    } else if index == 4 {
        Some("+0930"@)
    } else {
        Some("America/New_York"@)
    }
}

/// The text of an optional zone.
pub open spec fn zone_view(tz: Option<String>) -> Option<Seq<char>> {
    match tz {
        Some(zone) => Some(zone@),
        None => None,
    }
}

/// The SQL-safe character with the drawn index.
pub fn safe_char_at(i: usize) -> (c: char)
    requires
        i < 93,
    ensures
        c == safe_char_spec(i as int),
        is_sql_safe_char(c),
{
    let code: u8 = if i < 7 {
        32 + i as u8
    } else if i < 59 {
        33 + i as u8
    } else {
        34 + i as u8
    };
    code as char
}

/// The decimal of the drawn precision and scale whose unscaled value is the
/// drawn value times the scale's power of ten (capped at `10^30`).
pub fn decimal_from_draws(precision: u8, scale: i8, simple: i128) -> (v: GeneratedValue)
    requires
        -99999 <= simple <= 99999,
    ensures
        v matches GeneratedValue::Decimal { value, precision: p, scale: s } && value
            == scaled_decimal(simple as int, scale) && p == precision && s == scale,
{
    let scale_factor = safe_power_of_10(scale);
    assert(-99999 * 1_000_000_000_000_000_000_000_000_000_000 <= simple * scale_factor
        <= 99999 * 1_000_000_000_000_000_000_000_000_000_000) by (nonlinear_arith)
        requires
            -99999 <= simple <= 99999,
            1 <= scale_factor <= 1_000_000_000_000_000_000_000_000_000_000,
    ;
    let value = simple * scale_factor;
    GeneratedValue::Decimal { value, precision, scale }
}

fn generate_decimal(rng: &mut StdRng) -> (v: GeneratedValue)
    ensures
        is_generated_value(FuzzerDataType::Decimal, IntegerRanges::default_ranges(), v),
{
    let precision = random_u8_in(rng, 1, 76);
    let scale = random_i8_in(rng, 0, precision as i8);
    let simple_value = random_i128_in(rng, -99999, 99999);
    let v = decimal_from_draws(precision, scale, simple_value);
    assert(-99999 <= simple_value as int <= 99999);
    v
}

/// The timestamp of the drawn nanoseconds with the zone of the drawn index.
pub fn timestamp_from_draws(nanoseconds: i64, zone_index: usize) -> (v: GeneratedValue)
    requires
        zone_index < 6,
    ensures
        v matches GeneratedValue::Timestamp(ns, tz) && ns == nanoseconds && zone_view(tz)
            == zone_at(zone_index as int),
{
    let timezones: Vec<Option<String>> = vec![
        None,
        Some(String::from_str("UTC")),
        Some(String::from_str("+09:00")),
        Some(String::from_str("-09")),
        Some(String::from_str("+0930")),
        Some(String::from_str("America/New_York")),
    ];
    let final_tz = timezones[zone_index].clone();
    GeneratedValue::Timestamp(nanoseconds, final_tz)
}

fn generate_timestamp(rng: &mut StdRng) -> (v: GeneratedValue)
    ensures
        is_generated_value(FuzzerDataType::Timestamp, IntegerRanges::default_ranges(), v),
{
    let nanoseconds_per_day = NANOS_PER_DAY;
    let days_in_100_years = 36500i64;
    let max_nanoseconds = nanoseconds_per_day * days_in_100_years;
    let nanoseconds_since_epoch = random_i64_in(rng, 0, max_nanoseconds);
    let timezone_index = random_usize_below(rng, 0, 6);
    timestamp_from_draws(nanoseconds_since_epoch, timezone_index)
}

/// The interval packed from the drawn months, days and nanoseconds.
pub fn interval_from_draws(months: i32, days: i32, nanoseconds: i64) -> (v: GeneratedValue)
    ensures
        v == GeneratedValue::IntervalMonthDayNano(pack_interval(months, days, nanoseconds)),
{
    let interval_value = (((months as i128) & 0xFFFFFFFF) << 32) | ((days as i128) & 0xFFFFFFFF)
        | ((nanoseconds as i128) << 64);
    GeneratedValue::IntervalMonthDayNano(interval_value)
}

fn generate_interval(rng: &mut StdRng) -> (v: GeneratedValue)
    ensures
        is_generated_value(FuzzerDataType::IntervalMonthDayNano, IntegerRanges::default_ranges(), v),
{
    let months = random_i32_in(rng, -12, 12);
    let days = random_i32_in(rng, -30, 30);
    let nanoseconds = random_i32_in(rng, -1_000_000_000, 1_000_000_000);
    let v = interval_from_draws(months, days, nanoseconds as i64);
    assert(-12 <= months <= 12 && -30 <= days <= 30 && -1_000_000_000 <= nanoseconds as i64
        <= 1_000_000_000);
    v
}

fn generate_string(rng: &mut StdRng) -> (v: GeneratedValue)
    ensures
        is_generated_value(FuzzerDataType::String, IntegerRanges::default_ranges(), v),
{
    let length = random_i32_in(rng, 1, 50);
    let mut chars: Vec<char> = Vec::new();
    let mut k: i32 = 0;
    while k < length
        invariant
            0 <= k <= length <= 50,
            chars@.len() == k,
            forall|i: int| 0 <= i < chars@.len() ==> is_sql_safe_char(#[trigger] chars@[i]),
        decreases length - k,
    {
        let index = random_usize_below(rng, 0, 93);
        chars.push(safe_char_at(index));
        k = k + 1;
    }
    let string_value = string_from_chars(chars);
    GeneratedValue::String(string_value)
}

fn generate_int8_array(rng: &mut StdRng, int_range: (i32, i32)) -> (v: GeneratedValue)
    requires
        int_range.0 <= int_range.1,
    ensures
        is_generated_value(
            FuzzerDataType::Int8Array,
            IntegerRanges { int_range, uint_range: (0, 0) },
            v,
        ),
{
    let (start, end) = clamp_signed_range(int_range, -128, 127);
    let length = random_i32_in(rng, 1, 5);
    let mut values: Vec<i8> = Vec::new();
    let mut k: i32 = 0;
    while k < length
        invariant
            0 <= k <= length <= 5,
            start == clamp_int(int_range.0 as int, -128, 127),
            end == clamp_int(int_range.1 as int, -128, 127),
            start <= end,
            values@.len() == k,
            forall|i: int| 0 <= i < values@.len() ==> in_clamped(#[trigger] values@[i] as int, int_range, -128, 127),
        decreases length - k,
    {
        values.push(random_i32_in(rng, start, end) as i8);
        k = k + 1;
    }
    GeneratedValue::Int8Array(values)
}

fn generate_int32_array(rng: &mut StdRng, int_range: (i32, i32)) -> (v: GeneratedValue)
    requires
        int_range.0 <= int_range.1,
    ensures
        is_generated_value(
            FuzzerDataType::Int32Array,
            IntegerRanges { int_range, uint_range: (0, 0) },
            v,
        ),
{
    let length = random_i32_in(rng, 1, 5);
    let mut values: Vec<i32> = Vec::new();
    let mut k: i32 = 0;
    while k < length
        invariant
            0 <= k <= length <= 5,
            int_range.0 <= int_range.1,
            values@.len() == k,
            forall|i: int| 0 <= i < values@.len() ==> int_range.0 <= #[trigger] values@[i] <= int_range.1,
        decreases length - k,
    {
        values.push(random_i32_in(rng, int_range.0, int_range.1));
        k = k + 1;
    }
    GeneratedValue::Int32Array(values)
}

fn generate_int64_array(rng: &mut StdRng, int_range: (i32, i32)) -> (v: GeneratedValue)
    requires
        int_range.0 <= int_range.1,
    ensures
        is_generated_value(
            FuzzerDataType::Int64Array,
            IntegerRanges { int_range, uint_range: (0, 0) },
            v,
        ),
{
    let length = random_i32_in(rng, 1, 5);
    let mut values: Vec<i64> = Vec::new();
    let mut k: i32 = 0;
    while k < length
        invariant
            0 <= k <= length <= 5,
            int_range.0 <= int_range.1,
            values@.len() == k,
            forall|i: int| 0 <= i < values@.len() ==> int_range.0 <= #[trigger] values@[i] <= int_range.1,
        decreases length - k,
    {
        values.push(random_i64_in(rng, int_range.0 as i64, int_range.1 as i64));
        k = k + 1;
    }
    GeneratedValue::Int64Array(values)
}

impl IntegerRanges {
    pub open spec fn default_ranges() -> IntegerRanges {
        IntegerRanges { int_range: (-100i32, 100i32), uint_range: (0u32, 200u32) }
    }
}

/// Draws a non-null value of the type, or `None` for the floating-point
/// types, which are drawn elsewhere. Which values come out depends on the
/// generator's state; a generator seeded alike gives the same values.
pub fn generate_value(rng: &mut StdRng, fuzzer_type: &FuzzerDataType, ranges: &IntegerRanges) -> (r: Option<GeneratedValue>)
    requires
        ranges_usable(*fuzzer_type, *ranges),
    ensures
        (*fuzzer_type is Float32 || *fuzzer_type is Float64) <==> r is None,
        r matches Some(v) ==> is_generated_value(*fuzzer_type, *ranges, v),
{
    let int_range = ranges.int_range;
    let uint_range = ranges.uint_range;
    let value = match fuzzer_type {
        FuzzerDataType::Int8 => {
            let (start, end) = clamp_signed_range(int_range, -128, 127);
            GeneratedValue::Int8(random_i32_in(rng, start, end) as i8)
        },
        FuzzerDataType::Int16 => {
            let (start, end) = clamp_signed_range(int_range, -32768, 32767);
            GeneratedValue::Int16(random_i32_in(rng, start, end) as i16)
        },
        FuzzerDataType::Int32 => GeneratedValue::Int32(random_i32_in(rng, int_range.0, int_range.1)),
        FuzzerDataType::Int64 => GeneratedValue::Int64(
            random_i64_in(rng, int_range.0 as i64, int_range.1 as i64),
        ),
        FuzzerDataType::UInt8 => {
            let (start, end) = clamp_unsigned_range(uint_range, 255);
            GeneratedValue::UInt8(random_u32_in(rng, start, end) as u8)
        },
        FuzzerDataType::UInt16 => {
            let (start, end) = clamp_unsigned_range(uint_range, 65535);
            GeneratedValue::UInt16(random_u32_in(rng, start, end) as u16)
        },
        FuzzerDataType::UInt32 => GeneratedValue::UInt32(
            random_u32_in(rng, uint_range.0, uint_range.1),
        ),
        FuzzerDataType::UInt64 => GeneratedValue::UInt64(
            random_u64_in(rng, uint_range.0 as u64, uint_range.1 as u64),
        ),
        FuzzerDataType::Float32 | FuzzerDataType::Float64 => {
            return None;
        },
        FuzzerDataType::Boolean => GeneratedValue::Boolean(random_ratio(rng, 1, 2)),
        FuzzerDataType::Decimal => generate_decimal(rng),
        FuzzerDataType::Int8Array => generate_int8_array(rng, int_range),
        FuzzerDataType::Int32Array => generate_int32_array(rng, int_range),
        FuzzerDataType::Int64Array => generate_int64_array(rng, int_range),
        FuzzerDataType::Date32 => GeneratedValue::Date32(random_i32_in(rng, 0, 36500)),
        FuzzerDataType::Time64Nanosecond => GeneratedValue::Time64Nanosecond(
            random_i64_below(rng, 0, NANOS_PER_DAY),
        ),
        FuzzerDataType::Timestamp => generate_timestamp(rng),
        FuzzerDataType::IntervalMonthDayNano => generate_interval(rng),
        FuzzerDataType::String => generate_string(rng),
    };
    Some(value)
}

/// A generated interval unpacks into months in -12..=12, days in -30..=30
/// and nanoseconds in -10^9..=10^9.
pub proof fn lemma_generated_interval_components(ranges: IntegerRanges, x: i128)
    requires
        is_generated_value(
            FuzzerDataType::IntervalMonthDayNano,
            ranges,
            GeneratedValue::IntervalMonthDayNano(x),
        ),
    ensures
        -12 <= interval_months(x) <= 12,
        -30 <= interval_days(x) <= 30,
        -1_000_000_000 <= interval_nanos(x) <= 1_000_000_000,
{
    let (m, d, n) = choose|months: i32, days: i32, nanoseconds: i64|
        -12 <= months <= 12 && -30 <= days <= 30 && -1_000_000_000 <= nanoseconds
            <= 1_000_000_000 && x == pack_interval(months, days, nanoseconds);
    lemma_interval_unpack_pack(m, d, n);
}

/// A generated string holds no single quote or backslash, so its SQL
/// literal is the string itself between single quotes.
pub proof fn lemma_generated_string_literal(ranges: IntegerRanges, s: String)
    requires
        is_generated_value(FuzzerDataType::String, ranges, GeneratedValue::String(s)),
    ensures
        sql_text(GeneratedValue::String(s)) == seq!['\''] + s@ + seq!['\''],
        forall|i: int| 0 <= i < s@.len() ==> s@[i] != '\'' && s@[i] != '\\',
{
    assert forall|i: int| 0 <= i < s@.len() implies s@[i] != '\'' && s@[i] != '\\' by {
        assert(is_sql_safe_char(s@[i]));
    }
    crate::text::lemma_escape_no_quotes(s@);
}

/// The integers a generated value holds: the value itself for an integer
/// type, the elements for an integer array, none otherwise.
pub open spec fn generated_integers(v: GeneratedValue) -> Seq<int> {
    match v {
        GeneratedValue::Int8(x) => seq![x as int],
        GeneratedValue::Int16(x) => seq![x as int],
        GeneratedValue::Int32(x) => seq![x as int],
        GeneratedValue::Int64(x) => seq![x as int],
        GeneratedValue::UInt8(x) => seq![x as int],
        GeneratedValue::UInt16(x) => seq![x as int],
        GeneratedValue::UInt32(x) => seq![x as int],
        GeneratedValue::UInt64(x) => seq![x as int],
        GeneratedValue::Int8Array(xs) => xs@.map_values(|x: i8| x as int),
        GeneratedValue::Int32Array(xs) => xs@.map_values(|x: i32| x as int),
        GeneratedValue::Int64Array(xs) => xs@.map_values(|x: i64| x as int),
        _ => seq![],
    }
}

/// The least and greatest value of the integer type that a fuzzer type
/// holds (its element type, for an array), if it holds integers.
pub open spec fn integer_type_bounds(t: FuzzerDataType) -> Option<(int, int)> {
    match t {
        FuzzerDataType::Int8 | FuzzerDataType::Int8Array => Some((i8::MIN as int, i8::MAX as int)),
        FuzzerDataType::Int16 => Some((i16::MIN as int, i16::MAX as int)),
        FuzzerDataType::Int32 | FuzzerDataType::Int32Array => Some((i32::MIN as int, i32::MAX as int)),
        FuzzerDataType::Int64 | FuzzerDataType::Int64Array => Some((i64::MIN as int, i64::MAX as int)),
        FuzzerDataType::UInt8 => Some((0, u8::MAX as int)),
        FuzzerDataType::UInt16 => Some((0, u16::MAX as int)),
        FuzzerDataType::UInt32 => Some((0, u32::MAX as int)),
        FuzzerDataType::UInt64 => Some((0, u64::MAX as int)),
        _ => None,
    }
}

/// The configured range that applies to a fuzzer type's integers: the
/// unsigned one for unsigned types, the signed one otherwise.
pub open spec fn configured_range(t: FuzzerDataType, ranges: IntegerRanges) -> (int, int) {
    match t {
        FuzzerDataType::UInt8
        | FuzzerDataType::UInt16
        | FuzzerDataType::UInt32
        | FuzzerDataType::UInt64 => (ranges.uint_range.0 as int, ranges.uint_range.1 as int),
        _ => (ranges.int_range.0 as int, ranges.int_range.1 as int),
    }
}

/// A generated value of an integer type (or integer array) holds at least
/// one integer, each within its type's bounds and, whenever the configured
/// range is non-empty and lies within those bounds, within the configured range itself: the
/// clamping to the type only ever cuts off what the type cannot hold.
pub proof fn lemma_generated_integers_in_range(
    t: FuzzerDataType,
    ranges: IntegerRanges,
    v: GeneratedValue,
)
    requires
        is_generated_value(t, ranges, v),
        integer_type_bounds(t) is Some,
    ensures
        ({
            let xs = generated_integers(v);
            let (low, high) = integer_type_bounds(t).unwrap();
            let (start, end) = configured_range(t, ranges);
            &&& xs.len() >= 1
            &&& forall|i: int| 0 <= i < xs.len() ==> low <= #[trigger] xs[i] <= high
            &&& (low <= start <= end <= high) ==> forall|i: int|
                0 <= i < xs.len() ==> start <= #[trigger] xs[i] <= end
        }),
{
    let xs = generated_integers(v);
    let (low, high) = integer_type_bounds(t).unwrap();
    let (start, end) = configured_range(t, ranges);
    match v {
        GeneratedValue::Int8Array(ys) => {
            assert forall|i: int| 0 <= i < xs.len() implies low <= #[trigger] xs[i] <= high && (
            (low <= start <= end <= high) ==> start <= xs[i] <= end) by {
                assert(t == FuzzerDataType::Int8Array);
                assert(low == -128 && high == 127);
                assert(start == ranges.int_range.0 && end == ranges.int_range.1);
                assert(xs[i] == ys@[i] as int);
                assert(in_clamped(ys@[i] as int, ranges.int_range, -128, 127));
                assert(low <= xs[i] <= high);
                if low <= start <= end <= high {
                    assert(clamp_int(start, -128, 127) == start);
                    assert(clamp_int(end, -128, 127) == end);
                    assert(start <= xs[i] <= end);
                }
            }
        },
        GeneratedValue::Int32Array(ys) => {
            assert forall|i: int| 0 <= i < xs.len() implies low <= #[trigger] xs[i] <= high && (
            (low <= start <= end <= high) ==> start <= xs[i] <= end) by {
                assert(xs[i] == ys@[i] as int);
                assert(ranges.int_range.0 <= ys@[i] <= ranges.int_range.1);
            }
        },
        GeneratedValue::Int64Array(ys) => {
            assert forall|i: int| 0 <= i < xs.len() implies low <= #[trigger] xs[i] <= high && (
            (low <= start <= end <= high) ==> start <= xs[i] <= end) by {
                assert(xs[i] == ys@[i] as int);
                assert(ranges.int_range.0 <= ys@[i] <= ranges.int_range.1);
            }
        },
        _ => {},
    }
}

/// Clamping a non-empty range into a type's bounds gives a non-empty range
/// within those bounds that keeps every bound already inside them, and
/// every value of the range clamps into the clamped range.
pub proof fn lemma_clamp_range(start: int, end: int, low: int, high: int, x: int)
    requires
        start <= end,
        low <= high,
    ensures
        low <= clamp_int(start, low, high) <= clamp_int(end, low, high) <= high,
        low <= start <= high ==> clamp_int(start, low, high) == start,
        low <= end <= high ==> clamp_int(end, low, high) == end,
        start <= x <= end ==> clamp_int(start, low, high) <= clamp_int(x, low, high) <= clamp_int(
            end,
            low,
            high,
        ),
{
}

/// Capping a non-empty range at a maximum gives a non-empty range below it
/// that keeps every bound already below it.
pub proof fn lemma_cap_range(start: int, end: int, max: int)
    requires
        0 <= start <= end,
        0 <= max,
    ensures
        0 <= min_int(start, max) <= min_int(end, max) <= max,
        start <= max ==> min_int(start, max) == start,
        end <= max ==> min_int(end, max) == end,
{
}

/// The value of an integer fuzzer type that holds `x`.
pub open spec fn integer_value(t: FuzzerDataType, x: int) -> GeneratedValue {
    match t {
        FuzzerDataType::Int8 => GeneratedValue::Int8(x as i8),
        FuzzerDataType::Int16 => GeneratedValue::Int16(x as i16),
        FuzzerDataType::Int32 => GeneratedValue::Int32(x as i32),
        FuzzerDataType::Int64 => GeneratedValue::Int64(x as i64),
        FuzzerDataType::UInt8 => GeneratedValue::UInt8(x as u8),
        FuzzerDataType::UInt16 => GeneratedValue::UInt16(x as u16),
        FuzzerDataType::UInt32 => GeneratedValue::UInt32(x as u32),
        _ => GeneratedValue::UInt64(x as u64),
    }
}

/// Conversely, when the configured range lies within an integer type's
/// bounds, every integer of that range is a value of the type that
/// generation may give: the clamping cuts nothing off.
pub proof fn lemma_integer_range_admitted(t: FuzzerDataType, ranges: IntegerRanges, x: int)
    requires
        t is Int8 || t is Int16 || t is Int32 || t is Int64 || t is UInt8 || t is UInt16
            || t is UInt32 || t is UInt64,
        integer_type_bounds(t).unwrap().0 <= configured_range(t, ranges).0,
        configured_range(t, ranges).1 <= integer_type_bounds(t).unwrap().1,
        configured_range(t, ranges).0 <= x <= configured_range(t, ranges).1,
    ensures
        is_generated_value(t, ranges, integer_value(t, x)),
        generated_integers(integer_value(t, x)) == seq![x],
{
}

/// The scalar of a generated value has a data type that stands for the
/// value's fuzzer type; it is the type's own Arrow type, except that a
/// decimal keeps its precision and scale and a timestamp its zone.
pub proof fn lemma_generated_scalar_type(
    t: FuzzerDataType,
    ranges: IntegerRanges,
    v: GeneratedValue,
    r: ScalarLiteral,
)
    requires
        is_generated_value(t, ranges, v),
        scalar_matches(r, v),
    ensures
        fuzzer_type_of(scalar_data_type(r)) == Some(t),
        !(t is Decimal) && !(t is Timestamp) ==> scalar_data_type(r) == arrow_type_of(t),
        v matches GeneratedValue::Timestamp(_, tz) ==> scalar_data_type(r)
            == ArrowType::Timestamp(ArrowTimeUnit::Nanosecond, tz),
        v matches GeneratedValue::Decimal { value: _, precision, scale } ==> (scalar_data_type(r)
            == if precision <= 38 {
            ArrowType::Decimal128(precision, scale)
        } else {
            ArrowType::Decimal256(precision, scale)
        }),
{
}

/// The integers a scalar holds: its value for an integer scalar that is
/// not NULL, the elements for a list, none otherwise.
pub open spec fn scalar_integers(s: ScalarLiteral) -> Seq<int> {
    match s {
        ScalarLiteral::Int8(Some(x)) => seq![x as int],
        ScalarLiteral::Int16(Some(x)) => seq![x as int],
        ScalarLiteral::Int32(Some(x)) => seq![x as int],
        ScalarLiteral::Int64(Some(x)) => seq![x as int],
        ScalarLiteral::UInt8(Some(x)) => seq![x as int],
        ScalarLiteral::UInt16(Some(x)) => seq![x as int],
        ScalarLiteral::UInt32(Some(x)) => seq![x as int],
        ScalarLiteral::UInt64(Some(x)) => seq![x as int],
        ScalarLiteral::Int8List(xs) => xs@.map_values(|x: i8| x as int),
        ScalarLiteral::Int32List(xs) => xs@.map_values(|x: i32| x as int),
        ScalarLiteral::Int64List(xs) => xs@.map_values(|x: i64| x as int),
        _ => seq![],
    }
}

/// The count a value of a counted kind holds: the unscaled decimal, the
/// days of a date, the nanoseconds of a time or a timestamp.
pub open spec fn value_count(v: GeneratedValue) -> Option<int> {
    match v {
        GeneratedValue::Decimal { value, precision: _, scale: _ } => Some(value as int),
        GeneratedValue::Date32(d) => Some(d as int),
        GeneratedValue::Time64Nanosecond(ns) => Some(ns as int),
        GeneratedValue::Timestamp(ns, _) => Some(ns as int),
        _ => None,
    }
}

/// The count a scalar of a counted kind holds, if it is not NULL.
pub open spec fn scalar_count(s: ScalarLiteral) -> Option<int> {
    match s {
        ScalarLiteral::Decimal128(Some(value), _, _) => Some(value as int),
        ScalarLiteral::Decimal256(Some(value), _, _) => Some(value as int),
        ScalarLiteral::Date32(Some(d)) => Some(d as int),
        ScalarLiteral::Time64Nanosecond(Some(ns)) => Some(ns as int),
        ScalarLiteral::TimestampNanosecond(Some(ns), _) => Some(ns as int),
        _ => None,
    }
}

/// The scalar of a value holds the value itself: the same integers, the
/// same count, the same truth value and text, an interval whose components
/// pack back into the value, and NULL only for NULL.
pub proof fn lemma_scalar_holds_value(v: GeneratedValue, r: ScalarLiteral)
    requires
        scalar_matches(r, v),
    ensures
        scalar_integers(r) == generated_integers(v),
        scalar_count(r) == value_count(v),
        v matches GeneratedValue::Boolean(b) ==> r == ScalarLiteral::Boolean(Some(b)),
        v matches GeneratedValue::String(text) ==> (r matches ScalarLiteral::Utf8(Some(u)) && u@
            == text@),
        v matches GeneratedValue::IntervalMonthDayNano(x) ==> (r matches ScalarLiteral::IntervalMonthDayNano(
            Some((months, days, nanoseconds)),
        ) && pack_interval(months, days, nanoseconds) == x),
        (r is Null) == (v is Null),
{
    if let GeneratedValue::IntervalMonthDayNano(x) = v {
        lemma_interval_pack_unpack(x);
    }
    match (r, v) {
        (ScalarLiteral::Int8List(xs), GeneratedValue::Int8Array(ys)) => {
            assert(scalar_integers(r) =~= generated_integers(v));
        },
        (ScalarLiteral::Int32List(xs), GeneratedValue::Int32Array(ys)) => {
            assert(scalar_integers(r) =~= generated_integers(v));
        },
        (ScalarLiteral::Int64List(xs), GeneratedValue::Int64Array(ys)) => {
            assert(scalar_integers(r) =~= generated_integers(v));
        },
        _ => {},
    }
}


/// The SQL literal of an integer value is its digits, with a minus sign
/// for a negative value, and reads back as the value.
pub proof fn lemma_integer_literal_value(v: GeneratedValue)
    requires
        v is Int8 || v is Int16 || v is Int32 || v is Int64 || v is UInt8 || v is UInt16
            || v is UInt32 || v is UInt64,
    ensures
        is_signed_digits(sql_text(v)),
        read_signed(sql_text(v)) == generated_integers(v)[0],
{
    lemma_int_text_value(generated_integers(v)[0]);
}

/// The SQL literal of an integer array is the array literal of its
/// elements, in their order.
pub proof fn lemma_integer_array_literal(v: GeneratedValue)
    requires
        v is Int8Array || v is Int32Array || v is Int64Array,
    ensures
        sql_text(v) == array_text(generated_integers(v)),
{
}

/// A generated decimal of scale 1 to 30 is a whole number from -99999 to
/// 99999 at that scale: its literal has only zeros after the point, and
/// the part before the point reads as that number.
pub proof fn lemma_generated_decimal_whole(ranges: IntegerRanges, value: i128, precision: u8, scale: i8)
    requires
        is_generated_value(
            FuzzerDataType::Decimal,
            ranges,
            GeneratedValue::Decimal { value, precision, scale },
        ),
        1 <= scale <= 30,
    ensures
        ({
            let t = sql_text(GeneratedValue::Decimal { value, precision, scale });
            let point = t.len() - scale as int - 1;
            &&& point >= 1
            &&& t[point] == '.'
            &&& forall|i: int| point < i < t.len() ==> t[i] == '0'
            &&& -99999 <= read_signed(t.take(point)) <= 99999
            &&& read_signed(t.take(point)) * pow10(scale as nat) == value as int
        }),
{
    let simple = choose|simple: int|
        -99999 <= simple <= 99999 && value == #[trigger] scaled_decimal(simple, scale);
    let s = scale as nat;
    let p = pow10(s);
    crate::value::lemma_decimal_literal_value(value, precision, scale);
    assert(p >= 1) by {
        lemma_pow10_positive(s);
    }
    let a = abs_int(simple) as int;
    let m = abs_int(value as int) as int;
    assert(m == a * p) by (nonlinear_arith)
        requires
            value == simple * p,
            a == abs_int(simple),
            m == abs_int(value as int),
            p >= 1,
    ;
    vstd::arithmetic::div_mod::lemma_mod_multiples_basic(a, p);
    vstd::arithmetic::div_mod::lemma_div_multiples_vanish(a, p);
    assert(a * p == p * a) by (nonlinear_arith);
    assert(m / p == a && m % p == 0);
    let sg: Seq<char> = if value < 0 {
        seq!['-']
    } else {
        seq![]
    };
    let d = decimal_digits(a as nat);
    assert(decimal_digits(0) == seq!['0']);
    assert(padded_digits(0, s) =~= zeros(s as int));
    let t = sql_text(GeneratedValue::Decimal { value, precision, scale });
    assert(t == sg + d + seq!['.'] + zeros(s as int));
    let point = t.len() - scale as int - 1;
    lemma_read_decimal_digits(a as nat);
    assert(point == sg.len() + d.len());
    assert(t.take(point) =~= sg + d);
    assert forall|i: int| point < i < t.len() implies t[i] == '0' by {
        assert(t[i] == zeros(s as int)[i - point - 1]);
    }
    assert((value < 0) == (simple < 0)) by (nonlinear_arith)
        requires
            value == simple * p,
            p >= 1,
    ;
    if value < 0 {
        assert((sg + d).skip(1) =~= d);
        assert(read_signed(t.take(point)) == -a);
    } else {
        assert(sg + d =~= d);
        assert(read_signed(t.take(point)) == a);
    }
    assert(read_signed(t.take(point)) == simple);
}

proof fn lemma_pow10_positive(k: nat)
    ensures
        pow10(k) >= 1,
    decreases k,
{
    if k > 0 {
        lemma_pow10_positive((k - 1) as nat);
    }
}

} // verus!
