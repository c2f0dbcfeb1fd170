//! Proleptic Gregorian calendar dates counted from 1970-01-01, and the SQL
//! date, time and timestamp literals built from them.
use vstd::prelude::*;
use crate::text::{
    all_digits, lemma_padded_order, lemma_padded_value, lemma_text_less_distinct,
    lemma_text_less_segment, padded_int_text, pow10, push_padded_int, read_digits,
    string_from_chars, text_less,
};

verus! {

pub const NANOS_PER_SECOND: i64 = 1_000_000_000;

pub const NANOS_PER_MINUTE: i64 = 60_000_000_000;

pub const NANOS_PER_HOUR: i64 = 3_600_000_000_000;

pub const NANOS_PER_DAY: i64 = 86_400_000_000_000;

pub open spec fn is_leap_year(y: int) -> bool {
    y % 4 == 0 && (y % 100 != 0 || y % 400 == 0)
}

pub open spec fn year_length(y: int) -> int {
    if is_leap_year(y) {
        366
    } else {
        365
    }
}

/// Length of the month with the given index (0 is January).
pub open spec fn month_length(index: int, leap: bool) -> int {
    if index == 1 {
        if leap {
            29
        } else {
            28
        }
    } else if index == 3 || index == 5 || index == 8 || index == 10 {
        30
    } else {
        31
    }
}

/// Skips whole years from `year` on while `days` covers them; gives the year
/// reached and the days left over.
pub open spec fn locate_year(days: int, year: int) -> (int, int)
    decreases days,
{
    if days >= year_length(year) && days > 0 {
        locate_year(days - year_length(year), year + 1)
    } else {
        (year, days)
    }
}

/// Skips whole months from the month with index `index` on while the
/// 1-based `day` lies past them; gives the 1-based month reached and the day
/// in it.
pub open spec fn locate_month(day: int, index: int, leap: bool) -> (int, int)
    decreases 12 - index,
{
    if index >= 12 || day <= month_length(index, leap) {
        (index + 1, day)
    } else {
        locate_month(day - month_length(index, leap), index + 1, leap)
    }
}

/// Year, month and day of the date `days` days after 1970-01-01.
pub open spec fn civil_date(days: int) -> (int, int, int) {
    let (year, rest) = locate_year(days, 1970);
    let (month, day) = locate_month(rest + 1, 0, is_leap_year(year));
    (year, month, day)
}

/// `YYYY-MM-DD` of a day count.
pub open spec fn date_body(days: int) -> Seq<char> {
    let (y, m, d) = civil_date(days);
    padded_int_text(y, 4) + seq!['-'] + padded_int_text(m, 2) + seq!['-'] + padded_int_text(d, 2)
}

/// The SQL date literal `'YYYY-MM-DD'` of a day count.
pub open spec fn date_text(days: int) -> Seq<char> {
    seq!['\''] + date_body(days) + seq!['\'']
}

/// Quotient rounded toward zero, as Rust's `/` on integers.
pub open spec fn trunc_div(a: int, b: int) -> int {
    if a >= 0 {
        a / b
    } else {
        -((-a) / b)
    }
}

/// Remainder of `trunc_div`, with the sign of `a`, as Rust's `%`.
pub open spec fn trunc_rem(a: int, b: int) -> int {
    a - b * trunc_div(a, b)
}

/// Hours, minutes, seconds and nanoseconds of a nanosecond count.
pub open spec fn clock_fields(ns: int) -> (int, int, int, int) {
    let hours = trunc_div(ns, NANOS_PER_HOUR as int);
    let r1 = trunc_rem(ns, NANOS_PER_HOUR as int);
    let minutes = trunc_div(r1, NANOS_PER_MINUTE as int);
    let r2 = trunc_rem(r1, NANOS_PER_MINUTE as int);
    let seconds = trunc_div(r2, NANOS_PER_SECOND as int);
    let nanos = trunc_rem(r2, NANOS_PER_SECOND as int);
    (hours, minutes, seconds, nanos)
}

/// `HH:MM:SS.nnnnnnnnn` of a nanosecond count.
pub open spec fn clock_body(ns: int) -> Seq<char> {
    let (h, m, s, n) = clock_fields(ns);
    clock_text(h, m, s, n)
}

/// `HH:MM:SS.nnnnnnnnn` of the given fields.
pub open spec fn clock_text(h: int, m: int, s: int, n: int) -> Seq<char> {
    padded_int_text(h, 2) + seq![':'] + padded_int_text(m, 2) + seq![':'] + padded_int_text(s, 2)
        + seq!['.'] + padded_int_text(n, 9)
}

/// The SQL time literal `'HH:MM:SS.nnnnnnnnn'` of nanoseconds since midnight.
pub open spec fn time_text(ns: int) -> Seq<char> {
    seq!['\''] + clock_body(ns) + seq!['\'']
}

/// The SQL timestamp literal `'YYYY-MM-DD HH:MM:SS.nnnnnnnnn'` of
/// nanoseconds since 1970-01-01 00:00:00.
pub open spec fn timestamp_text(ns: int) -> Seq<char> {
    seq!['\''] + date_body(trunc_div(ns, NANOS_PER_DAY as int)) + seq![' '] + clock_body(
        trunc_rem(ns, NANOS_PER_DAY as int),
    ) + seq!['\'']
}

fn is_leap(year: i32) -> (r: bool)
    requires
        year >= 0,
    ensures
        r == is_leap_year(year as int),
{
    (year % 4 == 0) && (year % 100 != 0 || year % 400 == 0)
}

fn year_days(year: i32) -> (r: i32)
    requires
        year >= 0,
    ensures
        r == year_length(year as int),
{
    if is_leap(year) {
        366
    } else {
        365
    }
}

fn month_days(index: usize, leap: bool) -> (r: i32)
    ensures
        r == month_length(index as int, leap),
{
    if index == 1 {
        if leap {
            29
        } else {
            28
        }
    } else if index == 3 || index == 5 || index == 8 || index == 10 {
        30
    } else {
        31
    }
}

/// Year, month and day of a day count.
fn civil_date_of(days_since_epoch: i32) -> (r: (i32, i32, i32))
    ensures
        (r.0 as int, r.1 as int, r.2 as int) == civil_date(days_since_epoch as int),
{
    let mut days = days_since_epoch;
    let mut year: i32 = 1970;
    while days >= year_days(year)
        invariant
            1970 <= year,
            days <= days_since_epoch,
            365 * (year - 1970) <= days_since_epoch - days,
            locate_year(days as int, year as int) == locate_year(days_since_epoch as int, 1970),
        decreases days,
    {
        days = days - year_days(year);
        year = year + 1;
    }
    let leap = is_leap(year);
    let mut month: i32 = 1;
    let mut day: i32 = days + 1;
    let mut i: usize = 0;
    assert(locate_year(days_since_epoch as int, 1970) == (year as int, days as int));
    while i < 12 && day > month_days(i, leap)
        invariant
            i <= 12,
            month == i + 1,
            day <= 367,
            locate_month(day as int, i as int, leap) == locate_month(days + 1, 0, leap),
        decreases 12 - i,
    {
        day = day - month_days(i, leap);
        month = month + 1;
        i = i + 1;
    }
    (year, month, day)
}

/// Appends `YYYY-MM-DD` of a day count.
fn push_date_body(out: &mut Vec<char>, days_since_epoch: i32)
    ensures
        final(out)@ == old(out)@ + date_body(days_since_epoch as int),
{
    let (year, month, day) = civil_date_of(days_since_epoch);
    let ghost start = out@;
    push_padded_int(out, year as i128, 4);
    out.push('-');
    push_padded_int(out, month as i128, 2);
    out.push('-');
    push_padded_int(out, day as i128, 2);
    assert(out@ =~= start + date_body(days_since_epoch as int));
}

/// Hours, minutes, seconds and nanoseconds of a nanosecond count.
fn clock_fields_of(ns: i64) -> (r: (i64, i64, i64, i64))
    ensures
        (r.0 as int, r.1 as int, r.2 as int, r.3 as int) == clock_fields(ns as int),
{
    let hours = ns / NANOS_PER_HOUR;
    let r1 = ns % NANOS_PER_HOUR;
    let minutes = r1 / NANOS_PER_MINUTE;
    let r2 = r1 % NANOS_PER_MINUTE;
    let seconds = r2 / NANOS_PER_SECOND;
    let nanos = r2 % NANOS_PER_SECOND;
    (hours, minutes, seconds, nanos)
}

/// Appends `HH:MM:SS.nnnnnnnnn` of a nanosecond count.
pub fn push_clock_body(out: &mut Vec<char>, ns: i64)
    ensures
        final(out)@ == old(out)@ + clock_body(ns as int),
{
    let ghost start = out@;
    let (hours, minutes, seconds, nanos) = clock_fields_of(ns);
    push_padded_int(out, hours as i128, 2);
    out.push(':');
    push_padded_int(out, minutes as i128, 2);
    out.push(':');
    push_padded_int(out, seconds as i128, 2);
    out.push('.');
    push_padded_int(out, nanos as i128, 9);
    assert(out@ =~= start + clock_body(ns as int));
}

/// The SQL date literal of a day count since 1970-01-01, leap years and
/// month lengths included.
pub fn days_to_date_string(days_since_epoch: i32) -> (s: String)
    ensures
        s@ == date_text(days_since_epoch as int),
{
    let mut out: Vec<char> = Vec::new();
    out.push('\'');
    push_date_body(&mut out, days_since_epoch);
    out.push('\'');
    assert(out@ =~= date_text(days_since_epoch as int));
    string_from_chars(out)
}

/// The SQL timestamp literal of nanoseconds since 1970-01-01 00:00:00.
pub fn nanoseconds_to_timestamp_string(nanoseconds_since_epoch: i64) -> (s: String)
    ensures
        s@ == timestamp_text(nanoseconds_since_epoch as int),
{
    let days_since_epoch = nanoseconds_since_epoch / NANOS_PER_DAY;
    let remaining_ns = nanoseconds_since_epoch % NANOS_PER_DAY;
    assert(-200000 < days_since_epoch < 200000);
    let mut out: Vec<char> = Vec::new();
    out.push('\'');
    push_date_body(&mut out, days_since_epoch as i32);
    out.push(' ');
    push_clock_body(&mut out, remaining_ns);
    out.push('\'');
    assert(out@ =~= timestamp_text(nanoseconds_since_epoch as int));
    string_from_chars(out)
}

/// Days from 1970-01-01 to January 1st of `y` (for `y >= 1970`).
pub open spec fn days_before_year(y: int) -> int
    decreases y - 1970,
{
    if y <= 1970 {
        0
    } else {
        days_before_year(y - 1) + year_length(y - 1)
    }
}

/// Days of a year before the first of the 1-based month `m`.
pub open spec fn days_before_month(m: int, leap: bool) -> int
    decreases m,
{
    if m <= 1 {
        0
    } else {
        days_before_month(m - 1, leap) + month_length(m - 2, leap)
    }
}

proof fn lemma_year_of_months(leap: bool)
    ensures
        days_before_month(13, leap) == if leap { 366int } else { 365int },
{
    reveal_with_fuel(days_before_month, 13);
}

proof fn lemma_locate_month(day: int, index: int, leap: bool)
    requires
        0 <= index < 12,
        1 <= day,
        day + days_before_month(index + 1, leap) <= days_before_month(13, leap),
    ensures
        index + 1 <= locate_month(day, index, leap).0 <= 12,
        1 <= locate_month(day, index, leap).1 <= month_length(
            locate_month(day, index, leap).0 - 1,
            leap,
        ),
        days_before_month(locate_month(day, index, leap).0, leap) + locate_month(
            day,
            index,
            leap,
        ).1 == days_before_month(index + 1, leap) + day,
    decreases 12 - index,
{
    if day > month_length(index, leap) {
        if index == 11 {
            assert(days_before_month(13, leap) == days_before_month(12, leap) + month_length(
                11,
                leap,
            ));
        }
        assert(days_before_month(index + 2, leap) == days_before_month(index + 1, leap)
            + month_length(index, leap));
        lemma_locate_month(day - month_length(index, leap), index + 1, leap);
    }
}

proof fn lemma_locate_year(days: int, year: int)
    requires
        days >= 0,
        year >= 1970,
    ensures
        locate_year(days, year).0 >= year,
        0 <= locate_year(days, year).1 < year_length(locate_year(days, year).0),
        days_before_year(locate_year(days, year).0) + locate_year(days, year).1
            == days_before_year(year) + days,
    decreases days,
{
    if days >= year_length(year) && days > 0 {
        assert(days_before_year(year + 1) == days_before_year(year) + year_length(year));
        lemma_locate_year(days - year_length(year), year + 1);
    }
}

proof fn lemma_days_before_year_grows(y: int)
    requires
        y >= 1970,
    ensures
        days_before_year(y) >= 365 * (y - 1970),
    decreases y - 1970,
{
    if y > 1970 {
        lemma_days_before_year_grows(y - 1);
    }
}

/// Every day count from 1970-01-01 on names a valid date from 1970 on
/// (month 1 to 12, day within the month's length, February of leap years
/// included), and counting the days back from that date gives the day count.
pub proof fn lemma_civil_date_valid(days: int)
    requires
        days >= 0,
    ensures
        ({
            let (y, m, d) = civil_date(days);
            &&& 1970 <= y
            &&& 1 <= m <= 12
            &&& 1 <= d <= month_length(m - 1, is_leap_year(y))
            &&& days_before_year(y) + days_before_month(m, is_leap_year(y)) + d - 1 == days
        }),
{
    lemma_locate_year(days, 1970);
    let (y, rest) = locate_year(days, 1970);
    lemma_year_of_months(is_leap_year(y));
    assert(days_before_month(1, is_leap_year(y)) == 0);
    lemma_locate_month(rest + 1, 0, is_leap_year(y));
}

/// The year of a day count is at most 1970 plus the number of 365-day
/// spans in it; so day counts 0 to 36500 give years 1970 to 2070.
pub proof fn lemma_civil_year_bound(days: int)
    requires
        days >= 0,
    ensures
        1970 <= civil_date(days).0 <= 1970 + days / 365,
{
    lemma_locate_year(days, 1970);
    let y = civil_date(days).0;
    lemma_days_before_year_grows(y);
}

/// A nanosecond count within a day splits into an hour below 24, a minute
/// and second below 60 and nanoseconds below one second, which add up to it.
pub proof fn lemma_clock_fields(ns: int)
    requires
        0 <= ns < NANOS_PER_DAY,
    ensures
        ({
            let (h, m, s, n) = clock_fields(ns);
            &&& 0 <= h < 24
            &&& 0 <= m < 60
            &&& 0 <= s < 60
            &&& 0 <= n < NANOS_PER_SECOND
            &&& h * NANOS_PER_HOUR + m * NANOS_PER_MINUTE + s * NANOS_PER_SECOND + n == ns
        }),
{
    let (h, m, s, n) = clock_fields(ns);
    let r1 = trunc_rem(ns, NANOS_PER_HOUR as int);
    let r2 = trunc_rem(r1, NANOS_PER_MINUTE as int);
    assert(0 <= r1 < NANOS_PER_HOUR);
    assert(0 <= r2 < NANOS_PER_MINUTE);
}

/// The timestamp literal of a non-negative nanosecond count is its date
/// (whole days) followed by its time of day (the rest).
pub proof fn lemma_timestamp_splits(ns: int)
    requires
        ns >= 0,
    ensures
        timestamp_text(ns) == seq!['\''] + date_body(ns / (NANOS_PER_DAY as int)) + seq![' ']
            + clock_body(ns % (NANOS_PER_DAY as int)) + seq!['\''],
        0 <= ns % (NANOS_PER_DAY as int) < NANOS_PER_DAY,
{
}

proof fn lemma_days_before_year_increases(y1: int, y2: int)
    requires
        1970 <= y1 < y2,
    ensures
        days_before_year(y1) + year_length(y1) <= days_before_year(y2),
    decreases y2 - y1,
{
    if y2 > y1 + 1 {
        lemma_days_before_year_increases(y1, y2 - 1);
    }
}

proof fn lemma_days_before_month_increases(m1: int, m2: int, leap: bool)
    requires
        1 <= m1 < m2,
    ensures
        days_before_month(m1, leap) + month_length(m1 - 1, leap) <= days_before_month(m2, leap),
    decreases m2 - m1,
{
    if m2 > m1 + 1 {
        lemma_days_before_month_increases(m1, m2 - 1, leap);
    }
}

proof fn lemma_days_before_month_nonnegative(m: int, leap: bool)
    ensures
        days_before_month(m, leap) >= 0,
    decreases m,
{
    if m > 1 {
        lemma_days_before_month_nonnegative(m - 1, leap);
    }
}

/// Leap years before `y` counted from year 1.
spec fn leap_years_before(y: int) -> int {
    (y - 1) / 4 - (y - 1) / 100 + (y - 1) / 400
}

proof fn lemma_days_before_year_closed(y: int)
    requires
        y >= 1970,
    ensures
        days_before_year(y) == 365 * (y - 1970) + leap_years_before(y) - leap_years_before(1970),
    decreases y - 1970,
{
    if y > 1970 {
        lemma_days_before_year_closed(y - 1);
        let x = y - 1;
        assert(x / 4 - (x - 1) / 4 == if x % 4 == 0 { 1int } else { 0int });
        assert(x / 100 - (x - 1) / 100 == if x % 100 == 0 { 1int } else { 0int });
        assert(x / 400 - (x - 1) / 400 == if x % 400 == 0 { 1int } else { 0int });
    }
}

/// Day counts up to 2932896 (9999-12-31) have years of at most four digits.
proof fn lemma_year_below_ten_thousand(days: int)
    requires
        0 <= days <= 2932896,
    ensures
        civil_date(days).0 <= 9999,
{
    lemma_civil_date_valid(days);
    let (y, m, d) = civil_date(days);
    lemma_days_before_month_nonnegative(m, is_leap_year(y));
    lemma_days_before_year_closed(10000);
    if y > 10000 {
        lemma_days_before_year_increases(10000, y);
    }
}

/// Within a year, a date's offset from January 1st is below the year's
/// length.
proof fn lemma_offset_in_year(y: int, m: int, d: int)
    requires
        1 <= m <= 12,
        1 <= d <= month_length(m - 1, is_leap_year(y)),
    ensures
        0 <= days_before_month(m, is_leap_year(y)) + d - 1 < year_length(y),
{
    lemma_days_before_month_nonnegative(m, is_leap_year(y));
    lemma_year_of_months(is_leap_year(y));
    if m < 13 {
        lemma_days_before_month_increases(m, 13, is_leap_year(y));
    }
}

/// Later days have later dates: the dates of day counts from 0 to 2932896
/// are in the order of the counts.
proof fn lemma_civil_date_order(a: int, b: int)
    requires
        0 <= a < b,
    ensures
        ({
            let (ya, ma, da) = civil_date(a);
            let (yb, mb, db) = civil_date(b);
            ||| ya < yb
            ||| ya == yb && ma < mb
            ||| ya == yb && ma == mb && da < db
        }),
{
    lemma_civil_date_valid(a);
    lemma_civil_date_valid(b);
    let (ya, ma, da) = civil_date(a);
    let (yb, mb, db) = civil_date(b);
    lemma_offset_in_year(ya, ma, da);
    lemma_offset_in_year(yb, mb, db);
    if yb < ya {
        lemma_days_before_year_increases(yb, ya);
    } else if ya == yb {
        if mb < ma {
            lemma_days_before_month_increases(mb, ma, is_leap_year(ya));
        }
    }
}

/// Later day counts, up to 2932896 (9999-12-31), give date literals that
/// come later in dictionary order; in particular different day counts give
/// different literals.
pub proof fn lemma_date_text_order(a: int, b: int)
    requires
        0 <= a < b <= 2932896,
    ensures
        text_less(date_body(a), date_body(b)),
        text_less(date_text(a), date_text(b)),
        date_text(a) != date_text(b),
{
    lemma_civil_date_valid(a);
    lemma_civil_date_valid(b);
    lemma_year_below_ten_thousand(a);
    lemma_year_below_ten_thousand(b);
    lemma_civil_date_order(a, b);
    lemma_small_powers();
    let (ya, ma, da) = civil_date(a);
    let (yb, mb, db) = civil_date(b);
    let dash = seq!['-'];
    let empty: Seq<char> = seq![];
    let ya_text = padded_int_text(ya, 4);
    let yb_text = padded_int_text(yb, 4);
    let ma_text = padded_int_text(ma, 2);
    let mb_text = padded_int_text(mb, 2);
    let da_text = padded_int_text(da, 2);
    let db_text = padded_int_text(db, 2);
    if ya < yb {
        lemma_padded_order(ya, yb, 4);
        lemma_text_less_segment(
            empty,
            ya_text,
            yb_text,
            dash + ma_text + dash + da_text,
            dash + mb_text + dash + db_text,
        );
        assert(date_body(a) =~= empty + ya_text + (dash + ma_text + dash + da_text));
        assert(date_body(b) =~= empty + yb_text + (dash + mb_text + dash + db_text));
    } else if ma < mb {
        lemma_padded_order(ma, mb, 2);
        lemma_text_less_segment(ya_text + dash, ma_text, mb_text, dash + da_text, dash + db_text);
        assert(date_body(a) =~= ya_text + dash + ma_text + (dash + da_text));
        assert(date_body(b) =~= ya_text + dash + mb_text + (dash + db_text));
    } else {
        lemma_padded_order(da, db, 2);
        lemma_text_less_segment(ya_text + dash + ma_text + dash, da_text, db_text, empty, empty);
        assert(date_body(a) =~= ya_text + dash + ma_text + dash + da_text + empty);
        assert(date_body(b) =~= ya_text + dash + ma_text + dash + db_text + empty);
    }
    lemma_text_less_segment(seq!['\''], date_body(a), date_body(b), seq!['\''], seq!['\'']);
    lemma_text_less_distinct(date_text(a), date_text(b));
}

proof fn lemma_small_powers()
    ensures
        pow10(2) == 100,
        pow10(4) == 10000,
        pow10(9) == 1_000_000_000,
{
    reveal_with_fuel(pow10, 10);
}

proof fn lemma_clock_fields_order(r1: int, r2: int)
    requires
        0 <= r1 < r2 < NANOS_PER_DAY,
    ensures
        ({
            let (h1, m1, s1, n1) = clock_fields(r1);
            let (h2, m2, s2, n2) = clock_fields(r2);
            &&& 0 <= h1 < 24 && 0 <= h2 < 24 && 0 <= m1 < 60 && 0 <= m2 < 60
            &&& 0 <= s1 < 60 && 0 <= s2 < 60 && 0 <= n1 < NANOS_PER_SECOND && 0 <= n2
                < NANOS_PER_SECOND
            &&& (h1 < h2 || (h1 == h2 && m1 < m2) || (h1 == h2 && m1 == m2 && s1 < s2) || (h1
                == h2 && m1 == m2 && s1 == s2 && n1 < n2))
        }),
{
    lemma_clock_fields(r1);
    lemma_clock_fields(r2);
}

/// Texts `a:b:c.d` made of four parts are ordered by the first part that
/// differs.
proof fn lemma_four_parts_order(
    a1: Seq<char>,
    b1: Seq<char>,
    c1: Seq<char>,
    d1: Seq<char>,
    a2: Seq<char>,
    b2: Seq<char>,
    c2: Seq<char>,
    d2: Seq<char>,
)
    requires
        text_less(a1, a2) || (a1 == a2 && text_less(b1, b2)) || (a1 == a2 && b1 == b2
            && text_less(c1, c2)) || (a1 == a2 && b1 == b2 && c1 == c2 && text_less(d1, d2)),
    ensures
        text_less(
            a1 + seq![':'] + b1 + seq![':'] + c1 + seq!['.'] + d1,
            a2 + seq![':'] + b2 + seq![':'] + c2 + seq!['.'] + d2,
        ),
{
    let colon = seq![':'];
    let dot = seq!['.'];
    let empty: Seq<char> = seq![];
    if text_less(a1, a2) {
        lemma_text_less_segment(
            empty,
            a1,
            a2,
            colon + b1 + colon + c1 + dot + d1,
            colon + b2 + colon + c2 + dot + d2,
        );
        assert(a1 + colon + b1 + colon + c1 + dot + d1 =~= empty + a1 + (colon + b1 + colon + c1
            + dot + d1));
        assert(a2 + colon + b2 + colon + c2 + dot + d2 =~= empty + a2 + (colon + b2 + colon + c2
            + dot + d2));
    } else if text_less(b1, b2) {
        lemma_text_less_segment(a1 + colon, b1, b2, colon + c1 + dot + d1, colon + c2 + dot + d2);
        assert(a1 + colon + b1 + colon + c1 + dot + d1 =~= a1 + colon + b1 + (colon + c1 + dot
            + d1));
        assert(a2 + colon + b2 + colon + c2 + dot + d2 =~= a1 + colon + b2 + (colon + c2 + dot
            + d2));
    } else if text_less(c1, c2) {
        lemma_text_less_segment(a1 + colon + b1 + colon, c1, c2, dot + d1, dot + d2);
        assert(a1 + colon + b1 + colon + c1 + dot + d1 =~= a1 + colon + b1 + colon + c1 + (dot
            + d1));
        assert(a2 + colon + b2 + colon + c2 + dot + d2 =~= a1 + colon + b1 + colon + c2 + (dot
            + d2));
    } else {
        lemma_text_less_segment(a1 + colon + b1 + colon + c1 + dot, d1, d2, empty, empty);
        assert(a1 + colon + b1 + colon + c1 + dot + d1 =~= a1 + colon + b1 + colon + c1 + dot + d1
            + empty);
        assert(a2 + colon + b2 + colon + c2 + dot + d2 =~= a1 + colon + b1 + colon + c1 + dot + d2
            + empty);
    }
}

/// Later times within a day give time texts that come later in dictionary
/// order.
pub proof fn lemma_clock_text_order(r1: int, r2: int)
    requires
        0 <= r1 < r2 < NANOS_PER_DAY,
    ensures
        text_less(clock_body(r1), clock_body(r2)),
{
    lemma_clock_fields_order(r1, r2);
    let (h1, m1, s1, n1) = clock_fields(r1);
    let (h2, m2, s2, n2) = clock_fields(r2);
    lemma_small_powers();
    if h1 < h2 {
        lemma_padded_order(h1, h2, 2);
    } else if m1 < m2 {
        lemma_padded_order(m1, m2, 2);
    } else if s1 < s2 {
        lemma_padded_order(s1, s2, 2);
    } else {
        lemma_padded_order(n1, n2, 9);
    }
    lemma_four_parts_order(
        padded_int_text(h1, 2),
        padded_int_text(m1, 2),
        padded_int_text(s1, 2),
        padded_int_text(n1, 9),
        padded_int_text(h2, 2),
        padded_int_text(m2, 2),
        padded_int_text(s2, 2),
        padded_int_text(n2, 9),
    );
}

/// Literals made of an opening quote, a date, a space, a time and a
/// closing quote are ordered by the dates, then by the times.
proof fn lemma_stamp_order(d1: Seq<char>, d2: Seq<char>, c1: Seq<char>, c2: Seq<char>)
    requires
        text_less(d1, d2) || (d1 == d2 && text_less(c1, c2)),
    ensures
        text_less(
            seq!['\''] + d1 + seq![' '] + c1 + seq!['\''],
            seq!['\''] + d2 + seq![' '] + c2 + seq!['\''],
        ),
{
    let q = seq!['\''];
    let space = seq![' '];
    if text_less(d1, d2) {
        lemma_text_less_segment(q, d1, d2, space + c1 + q, space + c2 + q);
        assert(q + d1 + space + c1 + q =~= q + d1 + (space + c1 + q));
        assert(q + d2 + space + c2 + q =~= q + d2 + (space + c2 + q));
    } else {
        lemma_text_less_segment(q + d1 + space, c1, c2, q, q);
    }
}

/// Later nanosecond counts give timestamp literals that come later in
/// dictionary order; in particular different counts give different
/// literals.
pub proof fn lemma_timestamp_text_order(a: int, b: int)
    requires
        0 <= a < b <= i64::MAX,
    ensures
        text_less(timestamp_text(a), timestamp_text(b)),
        timestamp_text(a) != timestamp_text(b),
{
    lemma_timestamp_splits(a);
    lemma_timestamp_splits(b);
    let day = NANOS_PER_DAY as int;
    assert(a / day <= b / day <= 106752);
    if a / day < b / day {
        lemma_date_text_order(a / day, b / day);
    } else {
        lemma_clock_text_order(a % day, b % day);
    }
    lemma_stamp_order(
        date_body(a / day),
        date_body(b / day),
        clock_body(a % day),
        clock_body(b % day),
    );
    lemma_text_less_distinct(timestamp_text(a), timestamp_text(b));
}

/// `HH:MM:SS.nnnnnnnnn`: two-digit hours below 24, minutes and seconds
/// below 60, and nine digits of nanoseconds.
pub open spec fn is_clock_layout(b: Seq<char>) -> bool {
    &&& b.len() == 18
    &&& b[2] == ':' && b[5] == ':' && b[8] == '.'
    &&& all_digits(b.subrange(0, 2)) && all_digits(b.subrange(3, 5))
    &&& all_digits(b.subrange(6, 8)) && all_digits(b.subrange(9, 18))
    &&& read_digits(b.subrange(0, 2)) < 24
    &&& read_digits(b.subrange(3, 5)) < 60
    &&& read_digits(b.subrange(6, 8)) < 60
}

/// The nanoseconds since midnight that a `HH:MM:SS.nnnnnnnnn` text stands for.
pub open spec fn clock_reading(b: Seq<char>) -> int {
    read_digits(b.subrange(0, 2)) * NANOS_PER_HOUR + read_digits(b.subrange(3, 5))
        * NANOS_PER_MINUTE + read_digits(b.subrange(6, 8)) * NANOS_PER_SECOND + read_digits(
        b.subrange(9, 18),
    )
}

/// The time of day of a nanosecond count within a day is written as
/// `HH:MM:SS.nnnnnnnnn` and reads back as the count.
pub proof fn lemma_clock_body_value(ns: int)
    requires
        0 <= ns < NANOS_PER_DAY,
    ensures
        is_clock_layout(clock_body(ns)),
        clock_reading(clock_body(ns)) == ns,
{
    lemma_clock_fields(ns);
    let (h, m, s, n) = clock_fields(ns);
    reveal_with_fuel(pow10, 10);
    lemma_padded_value(h, 2);
    lemma_padded_value(m, 2);
    lemma_padded_value(s, 2);
    lemma_padded_value(n, 9);
    let b = clock_body(ns);
    assert(b.subrange(0, 2) =~= padded_int_text(h, 2));
    assert(b.subrange(3, 5) =~= padded_int_text(m, 2));
    assert(b.subrange(6, 8) =~= padded_int_text(s, 2));
    assert(b.subrange(9, 18) =~= padded_int_text(n, 9));
}

/// The SQL time literal of nanoseconds since midnight is
/// `'HH:MM:SS.nnnnnnnnn'` and reads back as the nanoseconds.
pub proof fn lemma_time_literal_value(ns: int)
    requires
        0 <= ns < NANOS_PER_DAY,
    ensures
        ({
            let t = time_text(ns);
            &&& t.len() == 20
            &&& t[0] == '\'' && t[19] == '\''
            &&& is_clock_layout(t.subrange(1, 19))
            &&& clock_reading(t.subrange(1, 19)) == ns
        }),
{
    lemma_clock_body_value(ns);
    assert(time_text(ns).subrange(1, 19) =~= clock_body(ns));
}

/// `YYYY-MM-DD`: a four-digit year from 1970 on, a two-digit month from 1
/// to 12 and a two-digit day within that month.
pub open spec fn is_date_layout(b: Seq<char>) -> bool {
    let y = read_digits(b.subrange(0, 4));
    let m = read_digits(b.subrange(5, 7));
    let d = read_digits(b.subrange(8, 10));
    &&& b.len() == 10
    &&& b[4] == '-' && b[7] == '-'
    &&& all_digits(b.subrange(0, 4)) && all_digits(b.subrange(5, 7)) && all_digits(b.subrange(8, 10))
    &&& 1970 <= y
    &&& 1 <= m <= 12
    &&& 1 <= d <= month_length(m - 1, is_leap_year(y))
}

/// The days from 1970-01-01 to the date a `YYYY-MM-DD` text names.
pub open spec fn date_reading(b: Seq<char>) -> int {
    let y = read_digits(b.subrange(0, 4));
    let m = read_digits(b.subrange(5, 7));
    let d = read_digits(b.subrange(8, 10));
    days_before_year(y) + days_before_month(m, is_leap_year(y)) + d - 1
}

/// A day count up to 2932896 (9999-12-31) is written as a valid
/// `YYYY-MM-DD` date that lies that many days after 1970-01-01.
pub proof fn lemma_date_body_value(days: int)
    requires
        0 <= days <= 2932896,
    ensures
        is_date_layout(date_body(days)),
        date_reading(date_body(days)) == days,
{
    lemma_civil_date_valid(days);
    lemma_year_below_ten_thousand(days);
    let (y, m, d) = civil_date(days);
    reveal_with_fuel(pow10, 5);
    assert(month_length(m - 1, is_leap_year(y)) <= 31);
    lemma_padded_value(y, 4);
    lemma_padded_value(m, 2);
    lemma_padded_value(d, 2);
    let b = date_body(days);
    assert(b.subrange(0, 4) =~= padded_int_text(y, 4));
    assert(b.subrange(5, 7) =~= padded_int_text(m, 2));
    assert(b.subrange(8, 10) =~= padded_int_text(d, 2));
}

/// The SQL date literal of a day count up to 2932896 is `'YYYY-MM-DD'`,
/// naming the date that many days after 1970-01-01.
pub proof fn lemma_date_literal_value(days: int)
    requires
        0 <= days <= 2932896,
    ensures
        ({
            let t = date_text(days);
            &&& t.len() == 12
            &&& t[0] == '\'' && t[11] == '\''
            &&& is_date_layout(t.subrange(1, 11))
            &&& date_reading(t.subrange(1, 11)) == days
        }),
{
    lemma_date_body_value(days);
    assert(date_text(days).subrange(1, 11) =~= date_body(days));
}

/// The SQL timestamp literal of a non-negative nanosecond count is
/// `'YYYY-MM-DD HH:MM:SS.nnnnnnnnn'`, whose date and time of day add up to
/// the count.
pub proof fn lemma_timestamp_literal_value(ns: i64)
    requires
        ns >= 0,
    ensures
        ({
            let t = timestamp_text(ns as int);
            &&& t.len() == 31
            &&& t[0] == '\'' && t[11] == ' ' && t[30] == '\''
            &&& is_date_layout(t.subrange(1, 11))
            &&& is_clock_layout(t.subrange(12, 30))
            &&& date_reading(t.subrange(1, 11)) * NANOS_PER_DAY + clock_reading(t.subrange(12, 30))
                == ns
        }),
{
    let days = ns / NANOS_PER_DAY;
    let rest = ns % NANOS_PER_DAY;
    lemma_timestamp_splits(ns as int);
    lemma_date_body_value(days as int);
    lemma_clock_body_value(rest as int);
    let t = timestamp_text(ns as int);
    assert(t.subrange(1, 11) =~= date_body(days as int));
    assert(t.subrange(12, 30) =~= clock_body(rest as int));
}

} // verus!
