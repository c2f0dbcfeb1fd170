//! What an interval literal says: a list of terms, each an amount of one
//! unit, whose amounts add up to the interval's months, days and
//! nanoseconds.
use vstd::prelude::*;
use crate::calendar::{trunc_div, trunc_rem, NANOS_PER_HOUR, NANOS_PER_MINUTE, NANOS_PER_SECOND};
use crate::text::{abs_int, int_text, join_texts};
use crate::value::{
    day_parts, decimal_text, interval_days, interval_months, interval_nanos, interval_parts,
    interval_text, month_parts, nano_parts, optional_part, second_parts, unit_part,
};

verus! {

/// The unit words, from the largest unit to the smallest: year, month,
/// day, hour, minute, second.
pub open spec fn unit_word(unit: int) -> Seq<char> {
    if unit == 0 {
        "year"@
    } else if unit == 1 {
        "month"@
    } else if unit == 2 {
        "day"@
    } else if unit == 3 {
        "hour"@
    } else if unit == 4 {
        "minute"@
    } else {
        "second"@
    }
}

/// The component a unit counts in: months (0) for years and months, days
/// (1) for days, nanoseconds (2) for hours, minutes and seconds.
pub open spec fn unit_component(unit: int) -> int {
    if unit <= 1 {
        0
    } else if unit == 2 {
        1
    } else {
        2
    }
}

/// How many of its component one of the unit is.
pub open spec fn unit_size(unit: int) -> int {
    if unit == 0 {
        12
    } else if unit == 3 {
        NANOS_PER_HOUR as int
    } else if unit == 4 {
        NANOS_PER_MINUTE as int
    } else if unit == 5 {
        NANOS_PER_SECOND as int
    } else {
        1
    }
}

/// The text of a term `(unit, amount)`, the amount counted in the unit's
/// component: the number of units and the unit word, plural unless the
/// number is 1 or -1; seconds with a fraction are written with nine
/// decimals, as the amount of nanoseconds over 10^9.
pub open spec fn term_text(term: (int, int)) -> Seq<char> {
    let (unit, amount) = term;
    if unit == 5 && amount % (NANOS_PER_SECOND as int) != 0 {
        decimal_text(amount as i128, 9) + " seconds"@
    } else {
        let n = amount / unit_size(unit);
        int_text(n) + seq![' '] + unit_word(unit) + (if abs_int(n) == 1 {
            seq![]
        } else {
            seq!['s']
        })
    }
}

/// The texts of the terms, in their order.
pub open spec fn term_texts(terms: Seq<(int, int)>) -> Seq<Seq<char>> {
    terms.map_values(|t: (int, int)| term_text(t))
}

/// The sum of the amounts of the terms that count in `component`.
pub open spec fn component_total(terms: Seq<(int, int)>, component: int) -> int
    decreases terms.len(),
{
    if terms.len() == 0 {
        0
    } else {
        component_total(terms.drop_last(), component) + if unit_component(terms.last().0)
            == component {
            terms.last().1
        } else {
            0
        }
    }
}

/// Units from 0 to 5, each appearing after the larger ones and at most
/// once, every amount non-zero, and a whole number of units except for
/// seconds.
pub open spec fn well_formed_terms(terms: Seq<(int, int)>) -> bool {
    &&& forall|i: int, j: int| 0 <= i < j < terms.len() ==> #[trigger] terms[i].0 < #[trigger] terms[j].0
    &&& forall|i: int|
        0 <= i < terms.len() ==> {
            &&& 0 <= #[trigger] terms[i].0 <= 5
            &&& terms[i].1 != 0
            &&& terms[i].0 != 5 ==> terms[i].1 % unit_size(terms[i].0) == 0
        }
}

pub open spec fn optional_term(present: bool, term: (int, int)) -> Seq<(int, int)> {
    if present {
        seq![term]
    } else {
        seq![]
    }
}

/// The terms of a count of months: whole years, then the months left.
pub open spec fn month_terms(months: int) -> Seq<(int, int)> {
    let years = trunc_div(months, 12);
    let rest = trunc_rem(months, 12);
    optional_term(years != 0, (0, years * 12)) + optional_term(rest != 0, (1, rest))
}

/// The terms of a count of nanoseconds: whole hours, whole minutes, then
/// the seconds left, fraction included.
pub open spec fn nano_terms(nanos: int) -> Seq<(int, int)> {
    let hours = trunc_div(nanos, NANOS_PER_HOUR as int);
    let r1 = trunc_rem(nanos, NANOS_PER_HOUR as int);
    let minutes = trunc_div(r1, NANOS_PER_MINUTE as int);
    let r2 = trunc_rem(r1, NANOS_PER_MINUTE as int);
    optional_term(hours != 0, (3, hours * (NANOS_PER_HOUR as int))) + optional_term(
        minutes != 0,
        (4, minutes * (NANOS_PER_MINUTE as int)),
    ) + optional_term(r2 != 0, (5, r2))
}

/// The terms of a packed interval, largest unit first, each where it is
/// non-zero.
pub open spec fn interval_terms(v: i128) -> Seq<(int, int)> {
    month_terms(interval_months(v) as int) + optional_term(
        interval_days(v) != 0,
        (2, interval_days(v) as int),
    ) + nano_terms(interval_nanos(v) as int)
}

proof fn lemma_total_append(a: Seq<(int, int)>, b: Seq<(int, int)>, component: int)
    ensures
        component_total(a + b, component) == component_total(a, component) + component_total(
            b,
            component,
        ),
    decreases b.len(),
{
    if b.len() == 0 {
        assert(a + b =~= a);
    } else {
        assert((a + b).drop_last() =~= a + b.drop_last());
        lemma_total_append(a, b.drop_last(), component);
    }
}

proof fn lemma_optional_total(present: bool, term: (int, int), component: int)
    ensures
        component_total(optional_term(present, term), component) == if present && unit_component(
            term.0,
        ) == component {
            term.1
        } else {
            0
        },
{
    let s = optional_term(present, term);
    if present {
        assert(s.drop_last() =~= Seq::<(int, int)>::empty());
        assert(component_total(s.drop_last(), component) == 0);
        assert(s.last() == term);
    } else {
        assert(s.len() == 0);
    }
}

/// Appending a well-formed optional term of a smaller unit than every
/// unit present keeps the terms well formed.
proof fn lemma_append_optional(a: Seq<(int, int)>, present: bool, term: (int, int))
    requires
        well_formed_terms(a),
        forall|i: int| 0 <= i < a.len() ==> #[trigger] a[i].0 < term.0,
        0 <= term.0 <= 5,
        present ==> term.1 != 0,
        present && term.0 != 5 ==> term.1 % unit_size(term.0) == 0,
    ensures
        well_formed_terms(a + optional_term(present, term)),
        forall|i: int|
            0 <= i < (a + optional_term(present, term)).len() ==> #[trigger] (a + optional_term(
                present,
                term,
            ))[i].0 <= term.0,
{
    let c = a + optional_term(present, term);
    if present {
        assert(c =~= a.push(term));
        assert forall|i: int, j: int| 0 <= i < j < c.len() implies #[trigger] c[i].0 < #[trigger] c[j].0 by {
            assert(c[i] == a[i]);
            if j < a.len() {
                assert(c[j] == a[j]);
            }
        }
        assert forall|i: int| 0 <= i < c.len() implies c[i].0 <= term.0 by {
            if i < a.len() {
                assert(c[i] == a[i]);
            }
        }
    } else {
        assert(c =~= a);
    }
}

/// A term of a unit other than seconds reads as the number of units it
/// counts.
proof fn lemma_unit_term(unit: int, n: int, present: bool)
    requires
        0 <= unit <= 4,
    ensures
        term_texts(optional_term(present, (unit, n * unit_size(unit))))
            == optional_part(present, n, unit_word(unit)),
{
    vstd::arithmetic::div_mod::lemma_div_multiples_vanish(n, unit_size(unit));
    assert(n * unit_size(unit) == unit_size(unit) * n) by (nonlinear_arith);
    assert(term_text((unit, n * unit_size(unit))) == unit_part(n, unit_word(unit)));
    assert(term_texts(optional_term(present, (unit, n * unit_size(unit)))) =~= optional_part(present, n, unit_word(unit)));
}

/// The seconds term of the nanoseconds left below a minute reads as whole
/// seconds, or as seconds with nine decimals.
proof fn lemma_second_term(r2: int)
    requires
        -(NANOS_PER_MINUTE as int) < r2 < NANOS_PER_MINUTE,
    ensures
        term_texts(optional_term(r2 != 0, (5, r2))) == second_parts(
            trunc_div(r2, NANOS_PER_SECOND as int),
            trunc_rem(r2, NANOS_PER_SECOND as int),
        ),
{
    let second = NANOS_PER_SECOND as int;
    let seconds = trunc_div(r2, second);
    let fraction = trunc_rem(r2, second);
    assert(r2 == seconds * second + fraction);
    assert(-second < fraction < second);
    assert(r2 >= 0 ==> fraction >= 0 && seconds >= 0);
    assert(r2 < 0 ==> fraction <= 0 && seconds <= 0);
    let terms = optional_term(r2 != 0, (5, r2));
    if r2 == 0 {
        assert(term_texts(terms) =~= second_parts(seconds, fraction));
    } else if fraction == 0 {
        vstd::arithmetic::div_mod::lemma_mod_multiples_basic(seconds, second);
        vstd::arithmetic::div_mod::lemma_div_multiples_vanish(seconds, second);
        assert(seconds * second == second * seconds) by (nonlinear_arith);
        assert(r2 % second == 0);
        assert(r2 / unit_size(5) == seconds);
        assert(term_text((5, r2)) == unit_part(seconds, "second"@));
        assert(term_texts(terms) =~= second_parts(seconds, fraction));
    } else {
        assert(r2 % second != 0);
        assert((r2 as i128) as int == r2);
        reveal_with_fuel(crate::text::pow10, 10);
        assert(crate::text::pow10(9) == second);
        assert(abs_int(r2) as int / second == abs_int(seconds));
        assert(abs_int(r2) as int % second == abs_int(fraction));
        assert(term_text((5, r2)) =~= (if fraction < 0 {
            seq!['-']
        } else {
            seq![]
        }) + crate::text::decimal_digits(abs_int(seconds)) + seq!['.'] + crate::text::padded_digits(
            abs_int(fraction),
            9,
        ) + " seconds"@);
        assert(term_texts(terms) =~= second_parts(seconds, fraction));
    }
}

/// The terms of every interval are well formed.
proof fn lemma_interval_terms_well_formed(v: i128)
    ensures
        well_formed_terms(interval_terms(v)),
{
    let months = interval_months(v) as int;
    let days = interval_days(v) as int;
    let nanos = interval_nanos(v) as int;
    let years = trunc_div(months, 12);
    let rest = trunc_rem(months, 12);
    let hours = trunc_div(nanos, NANOS_PER_HOUR as int);
    let r1 = trunc_rem(nanos, NANOS_PER_HOUR as int);
    let minutes = trunc_div(r1, NANOS_PER_MINUTE as int);
    let r2 = trunc_rem(r1, NANOS_PER_MINUTE as int);
    vstd::arithmetic::div_mod::lemma_mod_multiples_basic(years, 12);
    vstd::arithmetic::div_mod::lemma_mod_multiples_basic(hours, NANOS_PER_HOUR as int);
    vstd::arithmetic::div_mod::lemma_mod_multiples_basic(minutes, NANOS_PER_MINUTE as int);
    let e = Seq::<(int, int)>::empty();
    let t0 = optional_term(years != 0, (0, years * 12));
    let t1 = optional_term(rest != 0, (1, rest));
    let t2 = optional_term(days != 0, (2, days));
    let t3 = optional_term(hours != 0, (3, hours * (NANOS_PER_HOUR as int)));
    let t4 = optional_term(minutes != 0, (4, minutes * (NANOS_PER_MINUTE as int)));
    let t5 = optional_term(r2 != 0, (5, r2));
    assert(interval_terms(v) =~= t0 + t1 + t2 + t3 + t4 + t5);
    lemma_append_optional(e, years != 0, (0, years * 12));
    assert(e + t0 =~= t0);
    lemma_append_optional(t0, rest != 0, (1, rest));
    lemma_append_optional(t0 + t1, days != 0, (2, days));
    lemma_append_optional(t0 + t1 + t2, hours != 0, (3, hours * (NANOS_PER_HOUR as int)));
    lemma_append_optional(
        t0 + t1 + t2 + t3,
        minutes != 0,
        (4, minutes * (NANOS_PER_MINUTE as int)),
    );
    lemma_append_optional(t0 + t1 + t2 + t3 + t4, r2 != 0, (5, r2));
}

proof fn lemma_month_totals(months: int, c: int)
    ensures
        component_total(month_terms(months), c) == if c == 0 {
            months
        } else {
            0
        },
{
    let years = trunc_div(months, 12);
    let rest = trunc_rem(months, 12);
    let t0 = optional_term(years != 0, (0, years * 12));
    let t1 = optional_term(rest != 0, (1, rest));
    lemma_total_append(t0, t1, c);
    lemma_optional_total(years != 0, (0, years * 12), c);
    lemma_optional_total(rest != 0, (1, rest), c);
}

proof fn lemma_nano_totals(nanos: int, c: int)
    ensures
        component_total(nano_terms(nanos), c) == if c == 2 {
            nanos
        } else {
            0
        },
{
    let hours = trunc_div(nanos, NANOS_PER_HOUR as int);
    let r1 = trunc_rem(nanos, NANOS_PER_HOUR as int);
    let minutes = trunc_div(r1, NANOS_PER_MINUTE as int);
    let r2 = trunc_rem(r1, NANOS_PER_MINUTE as int);
    let t3 = optional_term(hours != 0, (3, hours * (NANOS_PER_HOUR as int)));
    let t4 = optional_term(minutes != 0, (4, minutes * (NANOS_PER_MINUTE as int)));
    let t5 = optional_term(r2 != 0, (5, r2));
    lemma_total_append(t3, t4, c);
    lemma_total_append(t3 + t4, t5, c);
    lemma_optional_total(hours != 0, (3, hours * (NANOS_PER_HOUR as int)), c);
    lemma_optional_total(minutes != 0, (4, minutes * (NANOS_PER_MINUTE as int)), c);
    lemma_optional_total(r2 != 0, (5, r2), c);
}

/// The amounts of an interval's terms add up to its months, days and
/// nanoseconds.
proof fn lemma_interval_terms_totals(v: i128, c: int)
    ensures
        component_total(interval_terms(v), c) == if c == 0 {
            interval_months(v) as int
        } else if c == 1 {
            interval_days(v) as int
        } else if c == 2 {
            interval_nanos(v) as int
        } else {
            0
        },
{
    let m = month_terms(interval_months(v) as int);
    let d = optional_term(interval_days(v) != 0, (2, interval_days(v) as int));
    let n = nano_terms(interval_nanos(v) as int);
    lemma_total_append(m, d, c);
    lemma_total_append(m + d, n, c);
    lemma_month_totals(interval_months(v) as int, c);
    lemma_optional_total(interval_days(v) != 0, (2, interval_days(v) as int), c);
    lemma_nano_totals(interval_nanos(v) as int, c);
}

proof fn lemma_texts_append(a: Seq<(int, int)>, b: Seq<(int, int)>)
    ensures
        term_texts(a + b) == term_texts(a) + term_texts(b),
{
    assert(term_texts(a + b) =~= term_texts(a) + term_texts(b));
}

proof fn lemma_month_terms_text(months: int)
    ensures
        term_texts(month_terms(months)) == month_parts(months),
{
    let years = trunc_div(months, 12);
    let rest = trunc_rem(months, 12);
    let t0 = optional_term(years != 0, (0, years * 12));
    let t1 = optional_term(rest != 0, (1, rest));
    lemma_unit_term(0, years, years != 0);
    assert(rest * 1 == rest);
    lemma_unit_term(1, rest, rest != 0);
    lemma_texts_append(t0, t1);
}

proof fn lemma_day_terms_text(days: int)
    ensures
        term_texts(optional_term(days != 0, (2, days))) == day_parts(days),
{
    assert(days * 1 == days);
    lemma_unit_term(2, days, days != 0);
}

proof fn lemma_nano_terms_text(nanos: int)
    ensures
        term_texts(nano_terms(nanos)) == nano_parts(nanos),
{
    let hours = trunc_div(nanos, NANOS_PER_HOUR as int);
    let r1 = trunc_rem(nanos, NANOS_PER_HOUR as int);
    let minutes = trunc_div(r1, NANOS_PER_MINUTE as int);
    let r2 = trunc_rem(r1, NANOS_PER_MINUTE as int);
    let t3 = optional_term(hours != 0, (3, hours * (NANOS_PER_HOUR as int)));
    let t4 = optional_term(minutes != 0, (4, minutes * (NANOS_PER_MINUTE as int)));
    let t5 = optional_term(r2 != 0, (5, r2));
    lemma_unit_term(3, hours, hours != 0);
    lemma_unit_term(4, minutes, minutes != 0);
    assert(-(NANOS_PER_MINUTE as int) < r2 < NANOS_PER_MINUTE);
    lemma_second_term(r2);
    lemma_texts_append(t3, t4);
    lemma_texts_append(t3 + t4, t5);
}

/// The words of an interval literal are the texts of its terms.
proof fn lemma_interval_terms_text(v: i128)
    ensures
        interval_parts(v) == term_texts(interval_terms(v)),
{
    let m = month_terms(interval_months(v) as int);
    let d = optional_term(interval_days(v) != 0, (2, interval_days(v) as int));
    let n = nano_terms(interval_nanos(v) as int);
    lemma_month_terms_text(interval_months(v) as int);
    lemma_day_terms_text(interval_days(v) as int);
    lemma_nano_terms_text(interval_nanos(v) as int);
    lemma_texts_append(m, d);
    lemma_texts_append(m + d, n);
}

/// An interval literal reads as its interval: it is `INTERVAL '0'` when
/// there is nothing to say, else `INTERVAL '...'` around the texts of its
/// terms, separated by spaces; the terms name each unit at most once,
/// largest first, each with a non-zero amount, and their amounts add up to
/// the interval's months, days and nanoseconds, whatever their signs.
pub proof fn lemma_interval_literal_reading(v: i128)
    ensures
        well_formed_terms(interval_terms(v)),
        component_total(interval_terms(v), 0) == interval_months(v) as int,
        component_total(interval_terms(v), 1) == interval_days(v) as int,
        component_total(interval_terms(v), 2) == interval_nanos(v) as int,
        interval_text(v) == if interval_terms(v).len() == 0 {
            "INTERVAL '0'"@
        } else {
            "INTERVAL '"@ + join_texts(
                term_texts(interval_terms(v)),
                seq![' '],
            ) + seq!['\'']
        },
{
    lemma_interval_terms_well_formed(v);
    lemma_interval_terms_totals(v, 0);
    lemma_interval_terms_totals(v, 1);
    lemma_interval_terms_totals(v, 2);
    lemma_interval_terms_text(v);
}

} // verus!
