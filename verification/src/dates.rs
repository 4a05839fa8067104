//! Calendar days: day numbers, ISO dates and the masks of the date boxes.
use vstd::arithmetic::div_mod::{
    lemma_fundamental_div_mod, lemma_fundamental_div_mod_converse, lemma_mod_bound,
};
use vstd::prelude::*;
use crate::text::{
    all_digits, chars_of, decimal, decimal_round_trip, decimal_text, digit, digits_value, is_digit,
    lemma_precedes_at, lemma_precedes_irreflexive, lemma_precedes_transitive, parse_signed,
    parsed_integer, precedes, push_decimal, trim, trimmed,
};

verus! {

broadcast use {vstd::string::group_string_axioms, vstd::utf8::char_is_scalar};

/// Whether `y` is a leap year of the proleptic Gregorian calendar.
pub open spec fn leap(y: int) -> bool {
    y % 4 == 0 && (y % 100 != 0 || y % 400 == 0)
}

/// How many leap years lie in the years 1 to `y`, continued below year 1.
pub open spec fn leaps_through(y: int) -> int {
    y / 4 - y / 100 + y / 400
}

/// Days from 1970-01-01 to the first of January of year `y`.
pub open spec fn days_before_year(y: int) -> int {
    365 * (y - 1970) + leaps_through(y - 1) - leaps_through(1969)
}

pub open spec fn days_in_month(y: int, m: int) -> int {
    if m == 2 {
        if leap(y) {
            29
        } else {
            28
        }
    } else if m == 4 || m == 6 || m == 9 || m == 11 {
        30
    } else {
        31
    }
}

/// Days of year `y` before its month `m`.
pub open spec fn days_before_month(y: int, m: int) -> int
    decreases m,
{
    if m <= 1 {
        0
    } else {
        days_before_month(y, m - 1) + days_in_month(y, m - 1)
    }
}

/// Days from 1970-01-01 to day `d` of month `m` of year `y`.
pub open spec fn day_number(y: int, m: int, d: int) -> int {
    days_before_year(y) + days_before_month(y, m) + d - 1
}

/// Whether month `m` of year `y` has a day `d`.
pub open spec fn is_date(y: int, m: int, d: int) -> bool {
    1 <= m <= 12 && 1 <= d <= days_in_month(y, m)
}

proof fn lemma_months(y: int)
    ensures
        days_before_month(y, 1) == 0,
        days_before_month(y, 2) == 31,
        days_before_month(y, 3) == 31 + days_in_month(y, 2),
        days_before_month(y, 4) == 62 + days_in_month(y, 2),
        days_before_month(y, 5) == 92 + days_in_month(y, 2),
        days_before_month(y, 6) == 123 + days_in_month(y, 2),
        days_before_month(y, 7) == 153 + days_in_month(y, 2),
        days_before_month(y, 8) == 184 + days_in_month(y, 2),
        days_before_month(y, 9) == 215 + days_in_month(y, 2),
        days_before_month(y, 10) == 245 + days_in_month(y, 2),
        days_before_month(y, 11) == 276 + days_in_month(y, 2),
        days_before_month(y, 12) == 306 + days_in_month(y, 2),
        days_before_month(y, 13) == 337 + days_in_month(y, 2),
{
    reveal_with_fuel(days_before_month, 14);
}

/// Passing a year adds its leap day and nothing else.
proof fn lemma_leap_step(y: int)
    ensures
        leaps_through(y) == leaps_through(y - 1) + (if leap(y) {
            1int
        } else {
            0int
        }),
{
    lemma_quotient_step(y, 4);
    lemma_quotient_step(y, 100);
    lemma_quotient_step(y, 400);
    lemma_fundamental_div_mod(y, 400);
    lemma_fundamental_div_mod(y, 100);
    if y % 400 == 0 {
        lemma_fundamental_div_mod_converse(y, 100, 4 * (y / 400), 0);
    }
    if y % 100 == 0 {
        lemma_fundamental_div_mod_converse(y, 4, 25 * (y / 100), 0);
    }
}

/// A quotient grows by one at each multiple.
proof fn lemma_quotient_step(y: int, k: int)
    requires
        1 < k,
    ensures
        y / k == (y - 1) / k + (if y % k == 0 {
            1int
        } else {
            0int
        }),
{
    lemma_fundamental_div_mod(y, k);
    lemma_mod_bound(y, k);
    let (q, r) = (y / k, y % k);
    assert(q * k == k * q) by (nonlinear_arith);
    if r == 0 {
        assert((q - 1) * k + (k - 1) == k * q - 1) by (nonlinear_arith);
        lemma_fundamental_div_mod_converse(y - 1, k, q - 1, k - 1);
    } else {
        lemma_fundamental_div_mod_converse(y - 1, k, q, r - 1);
    }
}

/// A year split into its span of 400 years and its place in the span.
proof fn lemma_span(era: int, yoe: int)
    requires
        0 <= yoe < 400,
    ensures
        (era * 400 + yoe) / 4 == era * 100 + yoe / 4,
        (era * 400 + yoe) / 100 == era * 4 + yoe / 100,
        (era * 400 + yoe) / 400 == era,
        365 * (era * 400 + yoe) + leaps_through(era * 400 + yoe) == era * 146097 + yoe * 365 + yoe / 4
            - yoe / 100,
{
}

/// Days since 1970-01-01.
pub fn days_from_civil(y: i64, m: i64, d: i64) -> (n: i64)
    requires
        1 <= m <= 12,
        1 <= d <= 31,
        i64::MIN <= day_number(y as int, m as int, d as int) <= i64::MAX - 719468,
    ensures
        n == day_number(y as int, m as int, d as int),
{
    proof {
        lemma_months(y as int);
        lemma_leap_step(y as int);
    }
    let y: i64 = if m <= 2 {
        y - 1
    } else {
        y
    };
    let era: i64 = (if y >= 0 {
        y
    } else {
        y - 399
    }) / 400;
    assert(era == y as int / 400);
    let yoe: i64 = y - era * 400;
    proof {
        lemma_span(era as int, yoe as int);
    }
    let mp: i64 = if m > 2 {
        m - 3
    } else {
        m + 9
    };
    let doy: i64 = (153 * mp + 2) / 5 + d - 1;
    let doe: i64 = yoe * 365 + yoe / 4 - yoe / 100 + doy;
    era * 146097 + doe - 719468
}

/// The place of a day within a span of 400 years that starts on a first of
/// March: the year that holds it, and how far into that year it lies.
#[verifier::spinoff_prover]
#[verifier::rlimit(60)]
proof fn lemma_year_of_span(doe: int, yoe: int)
    requires
        0 <= doe <= 146096,
        yoe == (doe - doe / 1460 + doe / 36524 - doe / 146096) / 365,
    ensures
        0 <= yoe <= 399,
        0 <= doe - (365 * yoe + yoe / 4 - yoe / 100) <= 365,
        doe - (365 * yoe + yoe / 4 - yoe / 100) == 365 ==> (yoe + 1) % 4 == 0 && ((yoe + 1) % 100 != 0
            || yoe == 399),
{
}

/// The month and day of a day of a year that starts on the first of March.
#[verifier::spinoff_prover]
proof fn lemma_month_of_day(doy: int, mp: int, d: int)
    requires
        0 <= doy <= 365,
        mp == (5 * doy + 2) / 153,
        d == doy - (153 * mp + 2) / 5 + 1,
    ensures
        0 <= mp <= 11,
        1 <= d <= 31,
        mp == 1 || mp == 3 || mp == 6 || mp == 8 ==> d <= 30,
        mp == 11 ==> d <= 29 && (d == 29 ==> doy == 365),
        mp == 0 ==> doy == d - 1,
        mp == 1 ==> doy == 30 + d,
        mp == 2 ==> doy == 60 + d,
        mp == 3 ==> doy == 91 + d,
        mp == 4 ==> doy == 121 + d,
        mp == 5 ==> doy == 152 + d,
        mp == 6 ==> doy == 183 + d,
        mp == 7 ==> doy == 213 + d,
        mp == 8 ==> doy == 244 + d,
        mp == 9 ==> doy == 274 + d,
        mp == 10 ==> doy == 305 + d,
        mp == 11 ==> doy == 336 + d,
{
}

/// The parts of a day number, put together as a date.
#[verifier::spinoff_prover]
proof fn lemma_date_of_parts(era: int, yoe: int, doy: int, mp: int, d: int, y: int, m: int)
    requires
        0 <= yoe <= 399,
        0 <= doy <= 365,
        doy == 365 ==> (yoe + 1) % 4 == 0 && ((yoe + 1) % 100 != 0 || yoe == 399),
        mp == (5 * doy + 2) / 153,
        d == doy - (153 * mp + 2) / 5 + 1,
        m == (if mp < 10 {
            mp + 3
        } else {
            mp - 9
        }),
        y == era * 400 + yoe + (if m <= 2 {
            1int
        } else {
            0int
        }),
    ensures
        is_date(y, m, d),
        day_number(y, m, d) == era * 146097 + yoe * 365 + yoe / 4 - yoe / 100 + doy - 719468,
{
    lemma_month_of_day(doy, mp, d);
    lemma_span(era, yoe);
    lemma_months(y);
    lemma_leap_step(y);
    if mp == 11 && d == 29 {
        assert(y == era * 400 + yoe + 1);
        assert(y % 4 == 0) by {
            assert((yoe + 1) % 4 == 0);
        }
        if yoe == 399 {
            assert(y % 400 == 0);
        } else {
            assert(y % 100 == (yoe + 1) % 100);
        }
        assert(leap(y));
    }
}

/// The date `(y, m, d)` of a day number.
pub open spec fn date_of(z: int) -> (int, int, int) {
    choose|t: (int, int, int)| is_date(t.0, t.1, t.2) && #[trigger] day_number(t.0, t.1, t.2) == z
}

proof fn lemma_leaps_grow(a: int, b: int)
    requires
        a <= b,
    ensures
        leaps_through(a) <= leaps_through(b),
    decreases b - a,
{
    if a < b {
        lemma_leaps_grow(a, b - 1);
        lemma_leap_step(b);
    }
}

/// Of two dates the later has the larger day number.
pub proof fn later_dates_have_larger_numbers(a: (int, int, int), b: (int, int, int))
    requires
        is_date(a.0, a.1, a.2),
        is_date(b.0, b.1, b.2),
        a.0 < b.0 || (a.0 == b.0 && (a.1 < b.1 || (a.1 == b.1 && a.2 < b.2))),
    ensures
        day_number(a.0, a.1, a.2) < day_number(b.0, b.1, b.2),
{
    lemma_months(a.0);
    lemma_months(b.0);
    lemma_leap_step(a.0);
    if a.0 < b.0 {
        lemma_leaps_grow(a.0, b.0 - 1);
    }
}

/// A day number has one date.
pub proof fn dates_are_unique(a: (int, int, int), b: (int, int, int))
    requires
        is_date(a.0, a.1, a.2),
        is_date(b.0, b.1, b.2),
        day_number(a.0, a.1, a.2) == day_number(b.0, b.1, b.2),
    ensures
        a == b,
{
    if a.0 < b.0 || (a.0 == b.0 && (a.1 < b.1 || (a.1 == b.1 && a.2 < b.2))) {
        later_dates_have_larger_numbers(a, b);
    } else if b.0 < a.0 || (b.0 == a.0 && (b.1 < a.1 || (b.1 == a.1 && b.2 < a.2))) {
        later_dates_have_larger_numbers(b, a);
    }
}

/// Every day number has a date.
pub proof fn every_number_is_a_date(z: int)
    ensures
        is_date(date_of(z).0, date_of(z).1, date_of(z).2),
        day_number(date_of(z).0, date_of(z).1, date_of(z).2) == z,
{
    let era = (z + 719468) / 146097;
    let doe = (z + 719468) % 146097;
    let yoe = (doe - doe / 1460 + doe / 36524 - doe / 146096) / 365;
    lemma_year_of_span(doe, yoe);
    let doy = doe - (365 * yoe + yoe / 4 - yoe / 100);
    let mp = (5 * doy + 2) / 153;
    let d = doy - (153 * mp + 2) / 5 + 1;
    let m = if mp < 10 {
        mp + 3
    } else {
        mp - 9
    };
    let y = era * 400 + yoe + (if m <= 2 {
        1int
    } else {
        0int
    });
    lemma_date_of_parts(era, yoe, doy, mp, d, y, m);
    let t = (y, m, d);
    assert(is_date(t.0, t.1, t.2) && day_number(t.0, t.1, t.2) == z);
}

/// The date of the day number of a date is that date.
pub proof fn date_of_inverts_day_number(y: int, m: int, d: int)
    requires
        is_date(y, m, d),
    ensures
        date_of(day_number(y, m, d)) == (y, m, d),
{
    let t = (y, m, d);
    assert(is_date(t.0, t.1, t.2) && day_number(t.0, t.1, t.2) == day_number(y, m, d));
    dates_are_unique(date_of(day_number(y, m, d)), t);
}

/// The day that follows a date.
pub open spec fn day_after(y: int, m: int, d: int) -> (int, int, int) {
    if d < days_in_month(y, m) {
        (y, m, d + 1)
    } else if m < 12 {
        (y, m + 1, 1)
    } else {
        (y + 1, 1, 1)
    }
}

/// From one day to the next the day number grows by one.
pub proof fn day_steps_are_one(y: int, m: int, d: int)
    requires
        is_date(y, m, d),
    ensures
        is_date(day_after(y, m, d).0, day_after(y, m, d).1, day_after(y, m, d).2),
        day_number(day_after(y, m, d).0, day_after(y, m, d).1, day_after(y, m, d).2) == day_number(
            y,
            m,
            d,
        ) + 1,
{
    lemma_months(y);
    lemma_months(y + 1);
    lemma_leap_step(y);
}

/// The date of a day number.
pub fn civil_from_days(z: i64) -> (r: (i64, i64, i64))
    requires
        z <= i64::MAX - 719468,
    ensures
        is_date(r.0 as int, r.1 as int, r.2 as int),
        day_number(r.0 as int, r.1 as int, r.2 as int) == z,
        (r.0 as int, r.1 as int, r.2 as int) == date_of(z as int),
{
    let z: i64 = z + 719468;
    let era: i64 = (if z >= 0 {
        z
    } else {
        z - 146096
    }) / 146097;
    assert(era == z as int / 146097);
    let doe: i64 = z - era * 146097;
    let yoe: i64 = (doe - doe / 1460 + doe / 36524 - doe / 146096) / 365;
    proof {
        lemma_year_of_span(doe as int, yoe as int);
    }
    let y: i64 = yoe + era * 400;
    let doy: i64 = doe - (365 * yoe + yoe / 4 - yoe / 100);
    let mp: i64 = (5 * doy + 2) / 153;
    let d: i64 = doy - (153 * mp + 2) / 5 + 1;
    proof {
        lemma_month_of_day(doy as int, mp as int, d as int);
    }
    let m: i64 = if mp < 10 {
        mp + 3
    } else {
        mp - 9
    };
    let year: i64 = if m <= 2 {
        y + 1
    } else {
        y
    };
    proof {
        lemma_date_of_parts(
            era as int,
            yoe as int,
            doy as int,
            mp as int,
            d as int,
            year as int,
            m as int,
        );
        date_of_inverts_day_number(year as int, m as int, d as int);
    }
    (year, m, d)
}

// ---------------------------------------------------------------------- text

/// The date that text starts with, as `(y, m, d)`: four characters for the
/// year, two for the month and two for the day, parted by `-`.
pub open spec fn iso_ymd(s: Seq<char>) -> Option<(int, int, int)> {
    if s.len() < 10 || s[4] != '-' || s[7] != '-' {
        None
    } else {
        match (
            parsed_integer(s.subrange(0, 4)),
            parsed_integer(s.subrange(5, 7)),
            parsed_integer(s.subrange(8, 10)),
        ) {
            (Some(y), Some(m), Some(d)) => if 1 <= m <= 12 && 1 <= d <= 31 {
                Some((y, m, d))
            } else {
                None
            },
            _ => None,
        }
    }
}

/// The day number of the date that text starts with.
pub open spec fn text_ordinal(s: Seq<char>) -> Option<int> {
    match iso_ymd(s) {
        Some((y, m, d)) => Some(day_number(y, m, d)),
        None => None,
    }
}

proof fn lemma_short_digits(s: Seq<char>)
    requires
        all_digits(s),
        s.len() <= 4,
    ensures
        digits_value(s) <= 9999,
{
    reveal_with_fuel(digits_value, 6);
    assert forall|i: int| 0 <= i < s.len() implies 48 <= (#[trigger] s[i]) as u32 <= 57 by {
        assert(is_digit(s[i]));
    }
    if s.len() > 0 {
        let a = s.drop_last();
        assert(s.last() == s[s.len() - 1]);
        if a.len() > 0 {
            let b = a.drop_last();
            assert(a.last() == s[s.len() - 2]);
            if b.len() > 0 {
                let c = b.drop_last();
                assert(b.last() == s[s.len() - 3]);
                if c.len() > 0 {
                    assert(c.last() == s[s.len() - 4]);
                }
            }
        }
    }
}

proof fn lemma_short_integer(s: Seq<char>)
    requires
        s.len() <= 4,
    ensures
        parsed_integer(s) matches Some(n) ==> -9999 <= n <= 9999,
{
    if s.len() > 0 && (s[0] == '-' || s[0] == '+') {
        if all_digits(s.skip(1)) {
            lemma_short_digits(s.skip(1));
        }
    } else if all_digits(s) {
        lemma_short_digits(s);
    }
}

/// Reads the date that text starts with.
pub fn parse_iso_ymd(s: &str) -> (r: Option<(i64, i64, i64)>)
    ensures
        match r {
            Some((y, m, d)) => iso_ymd(s@) == Some((y as int, m as int, d as int)) && -9999 <= y
                <= 9999 && 1 <= m <= 12 && 1 <= d <= 31,
            None => iso_ymd(s@) is None,
        },
{
    let v = chars_of(s);
    if v.len() < 10 || v[4] != '-' || v[7] != '-' {
        return None;
    }
    let limit: u64 = 0x7fff_ffff_ffff_ffff;
    proof {
        lemma_short_integer(s@.subrange(0, 4));
        lemma_short_integer(s@.subrange(5, 7));
        lemma_short_integer(s@.subrange(8, 10));
    }
    let y = match parse_signed(vstd::slice::slice_subrange(v.as_slice(), 0, 4), limit) {
        Some(y) => y as i64,
        None => return None,
    };
    let m = match parse_signed(vstd::slice::slice_subrange(v.as_slice(), 5, 7), limit) {
        Some(m) => m as i64,
        None => return None,
    };
    let d = match parse_signed(vstd::slice::slice_subrange(v.as_slice(), 8, 10), limit) {
        Some(d) => d as i64,
        None => return None,
    };
    if 1 <= m && m <= 12 && 1 <= d && d <= 31 {
        Some((y, m, d))
    } else {
        None
    }
}

proof fn lemma_small_year(y: int, m: int, d: int)
    requires
        -9999 <= y <= 9999,
        1 <= m <= 12,
        1 <= d <= 31,
    ensures
        -5_000_000 <= day_number(y, m, d) <= 5_000_000,
{
    lemma_months(y);
}

/// The day number of the date that text starts with.
pub fn date_to_ordinal(s: &str) -> (r: Option<i64>)
    ensures
        match r {
            Some(z) => text_ordinal(s@) == Some(z as int) && -5_000_000 <= z <= 5_000_000,
            None => text_ordinal(s@) is None,
        },
{
    match parse_iso_ymd(s) {
        Some((y, m, d)) => {
            proof {
                lemma_small_year(y as int, m as int, d as int);
            }
            Some(days_from_civil(y, m, d))
        },
        None => None,
    }
}

pub open spec fn zeros(n: int) -> Seq<char> {
    Seq::new(
        if n < 0 {
            0
        } else {
            n as nat
        },
        |i: int| '0',
    )
}

/// An integer in decimal, filled with zeros behind its sign up to a width.
pub open spec fn padded(i: int, width: int) -> Seq<char> {
    if i < 0 {
        seq!['-'] + zeros(width - 1 - decimal_text((-i) as nat).len()) + decimal_text((-i) as nat)
    } else {
        zeros(width - decimal_text(i as nat).len()) + decimal_text(i as nat)
    }
}

/// A date as `YYYY-MM-DD`.
pub open spec fn date_text(y: int, m: int, d: int) -> Seq<char> {
    padded(y, 4) + "-"@ + padded(m, 2) + "-"@ + padded(d, 2)
}

pub fn push_padded(out: &mut String, i: i64, width: usize)
    ensures
        final(out)@ == old(out)@ + padded(i as int, width as int),
{
    let ghost before = out@;
    let negative: bool = i < 0;
    let size: u128 = if negative {
        (-(i as i128)) as u128
    } else {
        i as u128
    };
    let digits = decimal(size);
    let taken: usize = digits.as_str().unicode_len();
    if negative {
        out.push('-');
    }
    let ghost head = out@;
    let mut k: usize = if negative {
        1
    } else {
        0
    };
    let ghost k0: int = k as int;
    while k < width && taken < width - k
        invariant
            k0 <= k,
            k0 <= 1,
            taken == decimal_text(size as nat).len(),
            out@ == head + zeros(k - k0),
            k == k0 || k + taken <= width,
        decreases width - k,
    {
        out.push('0');
        assert(zeros(k + 1 - k0) =~= zeros(k - k0).push('0'));
        assert(head + zeros(k + 1 - k0) =~= (head + zeros(k - k0)).push('0'));
        k += 1;
    }
    assert(zeros(k - k0) =~= zeros(width - k0 - taken));
    out.append(digits.as_str());
    assert(out@ =~= before + padded(i as int, width as int));
}

/// A day number as `YYYY-MM-DD`.
pub fn ordinal_to_date(z: i64) -> (r: String)
    requires
        z <= i64::MAX - 719468,
    ensures
        r@ == date_text(date_of(z as int).0, date_of(z as int).1, date_of(z as int).2),
{
    let (y, m, d) = civil_from_days(z);
    let mut out = String::new();
    push_padded(&mut out, y, 4);
    assert(out@ =~= padded(y as int, 4));
    out.append("-");
    push_padded(&mut out, m, 2);
    out.append("-");
    push_padded(&mut out, d, 2);
    out
}

proof fn lemma_decimal_lengths(n: nat)
    requires
        n <= 9999,
    ensures
        decimal_text(n).len() == (if n < 10 {
            1int
        } else if n < 100 {
            2
        } else if n < 1000 {
            3
        } else {
            4
        }),
{
    reveal_with_fuel(decimal_text, 5);
}

proof fn lemma_zeros_add_nothing(k: int, s: Seq<char>)
    requires
        all_digits(s),
    ensures
        all_digits(zeros(k) + s),
        digits_value(zeros(k) + s) == digits_value(s),
    decreases zeros(k).len() + s.len(),
{
    let t = zeros(k) + s;
    assert forall|i: int| 0 <= i < t.len() implies is_digit(#[trigger] t[i]) by {
        if i >= zeros(k).len() {
            assert(t[i] == s[i - zeros(k).len()]);
        }
    }
    if s.len() > 0 {
        lemma_zeros_add_nothing(k, s.drop_last());
        assert(t.drop_last() =~= zeros(k) + s.drop_last());
    } else if k > 0 {
        lemma_zeros_add_nothing(k - 1, s);
        assert(t.drop_last() =~= zeros(k - 1) + s);
    } else {
        assert(t =~= s);
    }
}

proof fn lemma_padded_reads_back(i: int, width: int)
    requires
        (width == 2 && 0 <= i <= 99) || (width == 4 && -999 <= i <= 9999),
    ensures
        padded(i, width).len() == width,
        parsed_integer(padded(i, width)) == Some(i),
{
    let size: nat = if i < 0 {
        (-i) as nat
    } else {
        i as nat
    };
    let digits = decimal_text(size);
    lemma_decimal_lengths(size);
    decimal_round_trip(size);
    let k = if i < 0 {
        width - 1 - digits.len()
    } else {
        width - digits.len()
    };
    lemma_zeros_add_nothing(k, digits);
    let t = zeros(k) + digits;
    if i < 0 {
        assert(padded(i, width) =~= seq!['-'] + t);
        assert(padded(i, width).skip(1) =~= t);
    } else {
        assert(is_digit(t[0]));
    }
}

/// A date written out is ten characters that read back as the same date.
pub proof fn written_dates_read_back(y: int, m: int, d: int)
    requires
        is_date(y, m, d),
        -999 <= y <= 9999,
    ensures
        date_text(y, m, d).len() == 10,
        iso_ymd(date_text(y, m, d)) == Some((y, m, d)),
{
    lemma_padded_reads_back(y, 4);
    lemma_padded_reads_back(m, 2);
    lemma_padded_reads_back(d, 2);
    reveal_strlit("-");
    let t = date_text(y, m, d);
    assert(t.subrange(0, 4) =~= padded(y, 4));
    assert(t.subrange(5, 7) =~= padded(m, 2));
    assert(t.subrange(8, 10) =~= padded(d, 2));
}

proof fn lemma_padded_digits(i: int)
    requires
        0 <= i <= 9999,
    ensures
        padded(i, 4) == seq![
            digit((i / 1000) as nat),
            digit((i / 100 % 10) as nat),
            digit((i / 10 % 10) as nat),
            digit((i % 10) as nat),
        ],
        i <= 99 ==> padded(i, 2) == seq![digit((i / 10) as nat), digit((i % 10) as nat)],
{
    reveal_with_fuel(decimal_text, 5);
    lemma_decimal_lengths(i as nat);
    let all = seq![
        digit((i / 1000) as nat),
        digit((i / 100 % 10) as nat),
        digit((i / 10 % 10) as nat),
        digit((i % 10) as nat),
    ];
    assert(padded(i, 4) =~= all);
    if i <= 99 {
        assert(padded(i, 2) =~= seq![digit((i / 10) as nat), digit((i % 10) as nat)]);
    }
}

/// The ten characters of a date, as numbers.
spec fn date_places(y: int, m: int, d: int) -> Seq<int> {
    seq![
        48 + y / 1000,
        48 + y / 100 % 10,
        48 + y / 10 % 10,
        48 + y % 10,
        45,
        48 + m / 10,
        48 + m % 10,
        45,
        48 + d / 10,
        48 + d % 10,
    ]
}

proof fn lemma_date_places(y: int, m: int, d: int)
    requires
        is_date(y, m, d),
        0 <= y <= 9999,
    ensures
        date_text(y, m, d).len() == 10,
        forall|i: int|
            0 <= i < 10 ==> (#[trigger] date_text(y, m, d)[i]) as u32 == date_places(y, m, d)[i],
{
    reveal_strlit("-");
    lemma_padded_digits(y);
    lemma_padded_digits(m);
    lemma_padded_digits(d);
    let t = date_text(y, m, d);
    assert(t =~= padded(y, 4) + seq!['-'] + padded(m, 2) + seq!['-'] + padded(d, 2));
}

proof fn lemma_places_decide(s: Seq<char>, t: Seq<char>, x: Seq<int>, y: Seq<int>, k: int)
    requires
        s.len() == 10,
        t.len() == 10,
        x.len() == 10,
        y.len() == 10,
        forall|i: int| 0 <= i < 10 ==> (#[trigger] s[i]) as u32 == x[i],
        forall|i: int| 0 <= i < 10 ==> (#[trigger] t[i]) as u32 == y[i],
        0 <= k < 10,
        forall|i: int| 0 <= i < k ==> x[i] == y[i],
        x[k] < y[k],
    ensures
        precedes(s, t),
{
    assert forall|i: int| 0 <= i < k implies s[i] == t[i] by {
        vstd::utf8::char_u32_cast(s[i], s[i] as u32);
        vstd::utf8::char_u32_cast(t[i], t[i] as u32);
    }
    lemma_precedes_at(s, t, k);
}

proof fn lemma_last_digit_decides(a: int, b: int)
    requires
        0 <= a <= b,
    ensures
        a / 10 <= b / 10,
        a / 10 == b / 10 ==> a % 10 <= b % 10 && (a < b ==> a % 10 < b % 10),
        a / 10 / 10 == a / 100,
        a / 100 / 10 == a / 1000,
{
}

proof fn lemma_earlier_places(a: (int, int, int), b: (int, int, int)) -> (k: int)
    requires
        0 <= a.0 <= 9999,
        0 <= b.0 <= 9999,
        0 <= a.1 <= 99,
        0 <= b.1 <= 99,
        0 <= a.2 <= 99,
        0 <= b.2 <= 99,
        a.0 < b.0 || (a.0 == b.0 && (a.1 < b.1 || (a.1 == b.1 && a.2 < b.2))),
    ensures
        0 <= k < 10,
        forall|i: int|
            0 <= i < k ==> date_places(a.0, a.1, a.2)[i] == date_places(b.0, b.1, b.2)[i],
        date_places(a.0, a.1, a.2)[k] < date_places(b.0, b.1, b.2)[k],
{
    if a.0 < b.0 {
        lemma_last_digit_decides(a.0, b.0);
        lemma_last_digit_decides(a.0 / 10, b.0 / 10);
        lemma_last_digit_decides(a.0 / 100, b.0 / 100);
        lemma_last_digit_decides(b.0, b.0);
        if a.0 / 1000 != b.0 / 1000 {
            0
        } else if a.0 / 100 % 10 != b.0 / 100 % 10 {
            1
        } else if a.0 / 10 % 10 != b.0 / 10 % 10 {
            2
        } else {
            3
        }
    } else if a.1 < b.1 {
        lemma_last_digit_decides(a.1, b.1);
        if a.1 / 10 != b.1 / 10 {
            5
        } else {
            6
        }
    } else {
        lemma_last_digit_decides(a.2, b.2);
        if a.2 / 10 != b.2 / 10 {
            8
        } else {
            9
        }
    }
}

proof fn lemma_earlier_date_precedes(a: (int, int, int), b: (int, int, int))
    requires
        is_date(a.0, a.1, a.2),
        is_date(b.0, b.1, b.2),
        0 <= a.0 <= 9999,
        0 <= b.0 <= 9999,
        a.0 < b.0 || (a.0 == b.0 && (a.1 < b.1 || (a.1 == b.1 && a.2 < b.2))),
    ensures
        precedes(date_text(a.0, a.1, a.2), date_text(b.0, b.1, b.2)),
{
    lemma_date_places(a.0, a.1, a.2);
    lemma_date_places(b.0, b.1, b.2);
    let k = lemma_earlier_places(a, b);
    lemma_places_decide(
        date_text(a.0, a.1, a.2),
        date_text(b.0, b.1, b.2),
        date_places(a.0, a.1, a.2),
        date_places(b.0, b.1, b.2),
        k,
    );
}

/// Dates of the years 0 to 9999, written out, stand in the order of their days.
pub proof fn written_dates_sort_by_day(a: (int, int, int), b: (int, int, int))
    requires
        is_date(a.0, a.1, a.2),
        is_date(b.0, b.1, b.2),
        0 <= a.0 <= 9999,
        0 <= b.0 <= 9999,
    ensures
        precedes(date_text(a.0, a.1, a.2), date_text(b.0, b.1, b.2)) <==> day_number(a.0, a.1, a.2)
            < day_number(b.0, b.1, b.2),
{
    if a.0 < b.0 || (a.0 == b.0 && (a.1 < b.1 || (a.1 == b.1 && a.2 < b.2))) {
        lemma_earlier_date_precedes(a, b);
        later_dates_have_larger_numbers(a, b);
    } else {
        let (s, t) = (date_text(a.0, a.1, a.2), date_text(b.0, b.1, b.2));
        lemma_precedes_irreflexive(s);
        if a != b {
            lemma_earlier_date_precedes(b, a);
            later_dates_have_larger_numbers(b, a);
            if precedes(s, t) {
                lemma_precedes_transitive(s, t, s);
            }
        }
    }
}

/// A date written out has no white space at its ends.
pub proof fn lemma_dates_are_trimmed(y: int, m: int, d: int)
    requires
        is_date(y, m, d),
        0 <= y <= 9999,
    ensures
        date_text(y, m, d).len() == 10,
        trimmed(date_text(y, m, d)) == date_text(y, m, d),
{
    lemma_date_places(y, m, d);
    assert(date_text(y, m, d)[0] as u32 == 48 + y / 1000);
    assert(date_text(y, m, d)[9] as u32 == 48 + d % 10);
}

/// A day number written as a date and read again is the same number.
pub proof fn ordinals_round_trip(z: int)
    requires
        -999 <= date_of(z).0 <= 9999,
    ensures
        text_ordinal(date_text(date_of(z).0, date_of(z).1, date_of(z).2)) == Some(z),
{
    every_number_is_a_date(z);
    written_dates_read_back(date_of(z).0, date_of(z).1, date_of(z).2);
}

/// A date read as a day number and written again is the same text.
pub proof fn date_texts_round_trip(y: int, m: int, d: int)
    requires
        is_date(y, m, d),
        -999 <= y <= 9999,
    ensures
        ({
            let z = day_number(y, m, d);
            &&& text_ordinal(date_text(y, m, d)) == Some(z)
            &&& date_text(date_of(z).0, date_of(z).1, date_of(z).2) == date_text(y, m, d)
        }),
{
    written_dates_read_back(y, m, d);
    date_of_inverts_day_number(y, m, d);
}

// ------------------------------------------------------------- date text boxes

/// The digits of a text, in order.
pub open spec fn only_digits(s: Seq<char>) -> Seq<char> {
    s.filter(|c: char| is_digit(c))
}

/// At most `n` items from the front.
pub open spec fn front<T>(s: Seq<T>, n: int) -> Seq<T> {
    if s.len() <= n {
        s
    } else {
        s.take(n)
    }
}

/// Digits grouped as year, month and day, parted by `-`.
pub open spec fn masked(d: Seq<char>) -> Seq<char> {
    if d.len() <= 4 {
        d
    } else if d.len() <= 6 {
        d.take(4) + seq!['-'] + d.skip(4)
    } else {
        d.take(4) + seq!['-'] + d.subrange(4, 6) + seq!['-'] + d.skip(6)
    }
}

/// Up to eight digits of free-form input, grouped as `YYYY-MM-DD`.
pub fn autoformat_ymd(s: &str) -> (r: String)
    ensures
        r@ == masked(front(only_digits(s@), 8)),
{
    let v = chars_of(s);
    let ghost f = |c: char| is_digit(c);
    let mut out = String::new();
    let mut n: usize = 0;
    let mut i: usize = 0;
    assert(s@.take(0) =~= Seq::<char>::empty());
    proof {
        reveal(Seq::filter);
    }
    while i < v.len() && n < 8
        invariant
            v@ == s@,
            i <= v.len(),
            n <= 8,
            f == (|c: char| is_digit(c)),
            n == s@.take(i as int).filter(f).len(),
            out@ == masked(s@.take(i as int).filter(f)),
        decreases v.len() - i,
    {
        let ghost d = s@.take(i as int).filter(f);
        let c: char = v[i];
        proof {
            reveal(Seq::filter);
            assert(s@.take(i + 1).drop_last() =~= s@.take(i as int));
        }
        let code: u32 = c as u32;
        if 48 <= code && code <= 57 {
            assert(s@.take(i + 1).filter(f) == d.push(c));
            if n == 4 || n == 6 {
                out.push('-');
            }
            out.push(c);
            n += 1;
            assert(out@ =~= masked(d.push(c)));
        } else {
            assert(s@.take(i + 1).filter(f) == d);
        }
        i += 1;
    }
    proof {
        lemma_filter_front(s@, i as int);
        if i == v.len() {
            assert(s@.take(i as int) =~= s@);
        }
        assert(front(only_digits(s@), 8) =~= s@.take(i as int).filter(f));
    }
    out
}

/// The digits of a prefix are a prefix of the digits.
proof fn lemma_filter_front(s: Seq<char>, i: int)
    requires
        0 <= i <= s.len(),
    ensures
        ({
            let d = only_digits(s.take(i));
            d.len() <= only_digits(s).len() && d == only_digits(s).take(d.len() as int)
        }),
    decreases s.len() - i,
{
    reveal(Seq::filter);
    let d = only_digits(s.take(i));
    if i < s.len() {
        lemma_filter_front(s, i + 1);
        assert(s.take(i + 1).drop_last() =~= s.take(i));
        let e = only_digits(s.take(i + 1));
        assert(d =~= e.take(d.len() as int));
        assert(d =~= only_digits(s).take(d.len() as int));
    } else {
        assert(s.take(i) =~= s);
        assert(d =~= only_digits(s).take(d.len() as int));
    }
}

proof fn lemma_digits_of_digits(d: Seq<char>)
    requires
        all_digits(d),
    ensures
        only_digits(d) == d,
    decreases d.len(),
{
    reveal(Seq::filter);
    if d.len() > 0 {
        assert(is_digit(d.last()));
        lemma_digits_of_digits(d.drop_last());
        assert(d.drop_last().push(d.last()) =~= d);
    } else {
        assert(only_digits(d) =~= d);
    }
}

proof fn lemma_digits_of_dash()
    ensures
        only_digits(seq!['-']) == Seq::<char>::empty(),
{
    reveal(Seq::filter);
    let t = seq!['-'];
    assert(t.drop_last() =~= Seq::<char>::empty());
    assert(only_digits(t.drop_last()) =~= Seq::<char>::empty());
    assert(!is_digit(t.last()));
}

proof fn lemma_only_digits_is_digits(s: Seq<char>)
    ensures
        all_digits(only_digits(s)),
    decreases s.len(),
{
    reveal(Seq::filter);
    if s.len() > 0 {
        lemma_only_digits_is_digits(s.drop_last());
    }
}

proof fn lemma_digits_of_mask(d: Seq<char>)
    requires
        all_digits(d),
    ensures
        only_digits(masked(d)) == d,
{
    let f = |c: char| is_digit(c);
    let dash = seq!['-'];
    lemma_digits_of_digits(d);
    lemma_digits_of_dash();
    if d.len() > 4 {
        let a = d.take(4);
        lemma_digits_of_digits(a);
        if d.len() <= 6 {
            let b = d.skip(4);
            lemma_digits_of_digits(b);
            Seq::filter_distributes_over_add(a, dash, f);
            Seq::filter_distributes_over_add(a + dash, b, f);
            assert(only_digits(masked(d)) =~= d);
        } else {
            let b = d.subrange(4, 6);
            let c = d.skip(6);
            lemma_digits_of_digits(b);
            lemma_digits_of_digits(c);
            Seq::filter_distributes_over_add(a, dash, f);
            Seq::filter_distributes_over_add(a + dash, b, f);
            Seq::filter_distributes_over_add(a + dash + b, dash, f);
            Seq::filter_distributes_over_add(a + dash + b + dash, c, f);
            assert(only_digits(masked(d)) =~= d);
        }
    }
}

/// Formatting a formatted date changes nothing.
pub proof fn autoformat_is_idempotent(s: Seq<char>)
    ensures
        ({
            let once = masked(front(only_digits(s), 8));
            masked(front(only_digits(once), 8)) == once
        }),
{
    let d = front(only_digits(s), 8);
    lemma_only_digits_is_digits(s);
    lemma_digits_of_mask(d);
}

// ------------------------------------------------------------------- the rest

/// The text that a total play time reads as.
pub open spec fn playtime_text(total_seconds: int) -> Seq<char> {
    let total = if total_seconds < 0 {
        0
    } else {
        total_seconds
    };
    let hours = total / 3600;
    let minutes = (total % 3600) / 60;
    if total == 0 {
        "0m"@
    } else if total < 60 {
        "<1m"@
    } else if hours == 0 {
        decimal_text(minutes as nat) + "m"@
    } else if minutes == 0 {
        decimal_text(hours as nat) + "h"@
    } else {
        decimal_text(hours as nat) + "h "@ + decimal_text(minutes as nat) + "m"@
    }
}

/// A total play time in hours and minutes.
pub fn fmt_playtime(total_seconds: i64) -> (r: String)
    ensures
        r@ == playtime_text(total_seconds as int),
{
    let total: i64 = if total_seconds < 0 {
        0
    } else {
        total_seconds
    };
    let hours: i64 = total / 3600;
    let minutes: i64 = (total % 3600) / 60;
    if hours == 0 && minutes == 0 {
        return if total > 0 {
            "<1m".to_owned()
        } else {
            "0m".to_owned()
        };
    }
    if hours == 0 {
        decimal(minutes as u128).concat("m")
    } else if minutes == 0 {
        decimal(hours as u128).concat("h")
    } else {
        let mut out = decimal(hours as u128);
        out.append("h ");
        push_decimal(&mut out, minutes as u128);
        out.append("m");
        out
    }
}

/// Whether `lo` and `hi` are the least and the greatest of some numbers.
pub open spec fn spans(s: Seq<i64>, lo: i64, hi: i64) -> bool {
    &&& s.contains(lo)
    &&& s.contains(hi)
    &&& forall|i: int| 0 <= i < s.len() ==> lo <= #[trigger] s[i] <= hi
}

/// The least and the greatest day number, where there is one.
pub fn ordinal_domain(ordinals: &[i64]) -> (r: Option<(i64, i64)>)
    ensures
        match r {
            Some((lo, hi)) => spans(ordinals@, lo, hi),
            None => ordinals@.len() == 0,
        },
{
    if ordinals.len() == 0 {
        return None;
    }
    let mut lo: i64 = ordinals[0];
    let mut hi: i64 = ordinals[0];
    let mut i: usize = 1;
    assert(ordinals@[0] == lo);
    while i < ordinals.len()
        invariant
            1 <= i <= ordinals.len(),
            ordinals@.contains(lo),
            ordinals@.contains(hi),
            forall|k: int| 0 <= k < i ==> lo <= #[trigger] ordinals@[k] <= hi,
        decreases ordinals.len() - i,
    {
        let v: i64 = ordinals[i];
        assert(ordinals@.contains(v));
        if v < lo {
            lo = v;
        }
        if v > hi {
            hi = v;
        }
        i += 1;
    }
    Some((lo, hi))
}

/// The ends of a slider over the days from `lo` to `hi`: a single day is
/// widened by a week on each side.
pub open spec fn slider_ends(lo: int, hi: int) -> (int, int) {
    if hi > lo {
        (lo, hi)
    } else {
        (lo - 7, hi + 7)
    }
}

/// The ends of the slider over a span of days.
pub fn slider_span(lo: i64, hi: i64) -> (r: (i64, i64))
    requires
        lo <= hi,
        i64::MIN + 7 <= lo,
        hi <= i64::MAX - 7,
    ensures
        (r.0 as int, r.1 as int) == slider_ends(lo as int, hi as int),
        r.0 < r.1,
{
    if hi > lo {
        (lo, hi)
    } else {
        (lo - 7, hi + 7)
    }
}

pub open spec fn clamped(v: int, min: int, max: int) -> int {
    if v < min {
        min
    } else if v > max {
        max
    } else {
        v
    }
}

/// Where a thumb stands for the text of its box.
pub open spec fn thumb(s: Seq<char>, otherwise: int, min: int, max: int) -> int {
    match text_ordinal(trimmed(s)) {
        Some(z) => clamped(z, min, max),
        None => clamped(otherwise, min, max),
    }
}

fn clamp(v: i64, min: i64, max: i64) -> (r: i64)
    ensures
        r == clamped(v as int, min as int, max as int),
{
    if v < min {
        min
    } else if v > max {
        max
    } else {
        v
    }
}

/// The two thumbs of a date slider, from the text of the two boxes: a box
/// without a date stands for its end of the slider, and the lower thumb comes
/// first.
pub fn slider_thumbs(from: &str, to: &str, min: i64, max: i64) -> (r: (i64, i64))
    requires
        min <= max,
    ensures
        ({
            let a = thumb(from@, min as int, min as int, max as int);
            let b = thumb(to@, max as int, min as int, max as int);
            (r.0 as int, r.1 as int) == (if a > b {
                (b, a)
            } else {
                (a, b)
            })
        }),
        min <= r.0 <= r.1 <= max,
{
    let lo: i64 = match date_to_ordinal(trim(from)) {
        Some(z) => clamp(z, min, max),
        None => clamp(min, min, max),
    };
    let hi: i64 = match date_to_ordinal(trim(to)) {
        Some(z) => clamp(z, min, max),
        None => clamp(max, min, max),
    };
    if lo > hi {
        (hi, lo)
    } else {
        (lo, hi)
    }
}

/// Moves one thumb of a slider to `v`, held between its end of the slider and
/// the other thumb. Says whether it moved.
pub fn drag_thumb(lo: &mut i64, hi: &mut i64, lower: bool, v: i64, min: i64, max: i64) -> (moved:
    bool)
    requires
        min <= *old(lo) <= *old(hi) <= max,
    ensures
        *final(lo) == (if lower {
            clamped(v as int, min as int, *old(hi) as int)
        } else {
            *old(lo) as int
        }),
        *final(hi) == (if lower {
            *old(hi) as int
        } else {
            clamped(v as int, *old(lo) as int, max as int)
        }),
        min <= *final(lo) <= *final(hi) <= max,
        moved <==> *final(lo) != *old(lo) || *final(hi) != *old(hi),
{
    if lower {
        let nv: i64 = clamp(v, min, *hi);
        let moved: bool = nv != *lo;
        *lo = nv;
        moved
    } else {
        let nv: i64 = clamp(v, *lo, max);
        let moved: bool = nv != *hi;
        *hi = nv;
        moved
    }
}

/// How many days the bars of a domain cover.
pub open spec fn bar_span(min: int, max: int) -> int {
    if max - min > 1 {
        max - min
    } else {
        1
    }
}

/// How many bars a domain has: one for a day, but no more than forty-eight.
pub open spec fn bar_count(min: int, max: int) -> int {
    clamped(bar_span(min, max) + 1, 1, 48)
}

/// The bar of a day. All bars are equally wide.
pub open spec fn bar_of(day: int, min: int, max: int) -> int {
    let bar = (day - min) * bar_count(min, max) / bar_span(min, max);
    if bar < bar_count(min, max) {
        bar
    } else {
        bar_count(min, max) - 1
    }
}

/// How many of the days fall into a bar.
pub open spec fn days_in_bar(days: Seq<i64>, bar: int, min: int, max: int) -> nat
    decreases days.len(),
{
    if days.len() == 0 {
        0
    } else {
        let day = days.last() as int;
        days_in_bar(days.drop_last(), bar, min, max) + (if min <= day <= max && bar_of(day, min, max)
            == bar {
            1nat
        } else {
            0nat
        })
    }
}

proof fn lemma_bar_in_range(day: int, min: int, max: int)
    requires
        min <= day <= max,
    ensures
        0 <= bar_of(day, min, max) < bar_count(min, max),
{
    let product = (day - min) * bar_count(min, max);
    assert(product >= 0) by (nonlinear_arith)
        requires
            day - min >= 0,
            bar_count(min, max) >= 0,
            product == (day - min) * bar_count(min, max),
    ;
    vstd::arithmetic::div_mod::lemma_div_pos_is_pos(product, bar_span(min, max));
}

proof fn lemma_days_in_bar_bound(days: Seq<i64>, bar: int, min: int, max: int)
    ensures
        days_in_bar(days, bar, min, max) <= days.len(),
    decreases days.len(),
{
    if days.len() > 0 {
        lemma_days_in_bar_bound(days.drop_last(), bar, min, max);
    }
}

/// How many days fall into each bar of the domain from `min` to `max`.
pub fn date_histogram(days: &[i64], min: i64, max: i64) -> (r: Vec<u32>)
    requires
        min <= max,
        days@.len() <= u32::MAX,
    ensures
        r@.len() == bar_count(min as int, max as int),
        forall|b: int|
            0 <= b < r@.len() ==> #[trigger] r@[b] == days_in_bar(
                days@,
                b,
                min as int,
                max as int,
            ),
{
    let width: i128 = max as i128 - min as i128;
    let span: i128 = if width > 1 {
        width
    } else {
        1
    };
    let bars: i128 = if span + 1 > 48 {
        48
    } else {
        span + 1
    };
    let mut counts: Vec<u32> = Vec::new();
    while counts.len() < bars as usize
        invariant
            bars == bar_count(min as int, max as int),
            1 <= bars <= 48,
            counts@.len() <= bars,
            forall|b: int| 0 <= b < counts@.len() ==> #[trigger] counts@[b] == 0,
        decreases bars - counts.len(),
    {
        counts.push(0);
    }
    let mut i: usize = 0;
    while i < days.len()
        invariant
            i <= days@.len() <= u32::MAX,
            min <= max,
            span == bar_span(min as int, max as int),
            bars == bar_count(min as int, max as int),
            1 <= bars <= 48,
            counts@.len() == bars,
            forall|b: int|
                0 <= b < counts@.len() ==> #[trigger] counts@[b] == days_in_bar(
                    days@.take(i as int),
                    b,
                    min as int,
                    max as int,
                ),
        decreases days.len() - i,
    {
        let day: i64 = days[i];
        proof {
            assert(days@.take(i + 1).drop_last() =~= days@.take(i as int));
            assert(days@.take(i + 1).last() == day);
        }
        if min <= day && day <= max {
            proof {
                lemma_bar_in_range(day as int, min as int, max as int);
                assert(0 <= (day - min) * bars <= (max - min) * 48) by (nonlinear_arith)
                    requires
                        min <= day <= max,
                        1 <= bars <= 48,
                ;
                vstd::arithmetic::div_mod::lemma_div_pos_is_pos((day - min) * bars, span as int);
            }
            let product: i128 = (day as i128 - min as i128) * bars;
            let at: i128 = product / span;
            let bar: usize = if at < bars {
                at as usize
            } else {
                (bars - 1) as usize
            };
            assert(bar == bar_of(day as int, min as int, max as int));
            proof {
                lemma_days_in_bar_bound(days@.take(i as int), bar as int, min as int, max as int);
            }
            let count: u32 = counts[bar];
            counts.set(bar, count + 1);
        }
        i += 1;
    }
    assert(days@.take(i as int) =~= days@);
    counts
}

/// What the bars hold, together.
pub open spec fn held(counts: Seq<u32>) -> nat
    decreases counts.len(),
{
    if counts.len() == 0 {
        0
    } else {
        held(counts.drop_last()) + counts.last() as nat
    }
}

/// How many of the days lie in the domain.
pub open spec fn days_within(days: Seq<i64>, min: int, max: int) -> nat
    decreases days.len(),
{
    if days.len() == 0 {
        0
    } else {
        days_within(days.drop_last(), min, max) + (if min <= days.last() <= max {
            1nat
        } else {
            0nat
        })
    }
}

/// The bars hold every day of the domain once.
pub proof fn bars_hold_every_day(days: Seq<i64>, counts: Seq<u32>, min: int, max: int)
    requires
        min <= max,
        counts.len() == bar_count(min, max),
        forall|b: int|
            0 <= b < counts.len() ==> #[trigger] counts[b] == days_in_bar(days, b, min, max),
    ensures
        held(counts) == days_within(days, min, max),
{
    lemma_held_up_to(days, counts, min, max, counts.len() as int);
    assert(counts.take(counts.len() as int) =~= counts);
    lemma_all_bars(days, min, max, bar_count(min, max));
}

/// How many days fall into the bars below one.
spec fn days_below(days: Seq<i64>, bar: int, min: int, max: int) -> nat
    decreases bar,
{
    if bar <= 0 {
        0
    } else {
        days_below(days, bar - 1, min, max) + days_in_bar(days, bar - 1, min, max)
    }
}

proof fn lemma_held_up_to(days: Seq<i64>, counts: Seq<u32>, min: int, max: int, n: int)
    requires
        0 <= n <= counts.len(),
        forall|b: int|
            0 <= b < counts.len() ==> #[trigger] counts[b] == days_in_bar(days, b, min, max),
    ensures
        held(counts.take(n)) == days_below(days, n, min, max),
    decreases n,
{
    if n > 0 {
        lemma_held_up_to(days, counts, min, max, n - 1);
        assert(counts.take(n).drop_last() =~= counts.take(n - 1));
        assert(counts.take(n).last() == counts[n - 1]);
    }
}

proof fn lemma_no_days_below(bar: int, min: int, max: int)
    ensures
        days_below(seq![], bar, min, max) == 0,
    decreases bar,
{
    if bar > 0 {
        lemma_no_days_below(bar - 1, min, max);
    }
}

proof fn lemma_one_more_day(days: Seq<i64>, bar: int, min: int, max: int)
    requires
        days.len() > 0,
    ensures
        days_below(days, bar, min, max) == days_below(days.drop_last(), bar, min, max) + (if min
            <= days.last() <= max && 0 <= bar_of(days.last() as int, min, max) < bar {
            1nat
        } else {
            0nat
        }),
    decreases bar,
{
    if bar > 0 {
        lemma_one_more_day(days, bar - 1, min, max);
    }
}

proof fn lemma_all_bars(days: Seq<i64>, min: int, max: int, bars: int)
    requires
        min <= max,
        bars == bar_count(min, max),
    ensures
        days_below(days, bars, min, max) == days_within(days, min, max),
    decreases days.len(),
{
    if days.len() == 0 {
        assert(days =~= seq![]);
        lemma_no_days_below(bars, min, max);
    } else {
        lemma_all_bars(days.drop_last(), min, max, bars);
        lemma_one_more_day(days, bars, min, max);
        if min <= days.last() <= max {
            lemma_bar_in_range(days.last() as int, min, max);
        }
    }
}

// ------------------------------------------------------------------------ laws

/// Formatting keeps the first eight digits, in order, and nothing else but the
/// dashes that part them.
pub proof fn formatting_keeps_the_digits(s: Seq<char>)
    ensures
        ({
            let d = front(only_digits(s), 8);
            &&& only_digits(masked(d)) == d
            &&& d.len() <= 8
            &&& only_digits(s).len() <= 8 ==> d == only_digits(s)
            &&& only_digits(s).len() > 8 ==> d.len() == 8 && d == only_digits(s).take(8)
        }),
{
    lemma_only_digits_is_digits(s);
    lemma_digits_of_mask(front(only_digits(s), 8));
}

/// In what was formatted a dash stands behind the fourth digit and behind the
/// sixth, as soon as another digit follows, and nowhere else.
pub proof fn dashes_part_year_month_and_day(d: Seq<char>, k: int)
    requires
        all_digits(d),
        0 <= k < masked(d).len(),
    ensures
        masked(d)[k] == '-' <==> k == 4 || k == 7,
        masked(d).len() == d.len() + (if d.len() > 4 {
            1int
        } else {
            0int
        }) + (if d.len() > 6 {
            1int
        } else {
            0int
        }),
{
    assert forall|i: int| 0 <= i < d.len() implies #[trigger] d[i] != '-' by {
        assert(is_digit(d[i]));
    }
}

/// At most so many items are kept, from the front, and all where there are no
/// more.
pub proof fn fronts_are_beginnings<T>(s: Seq<T>, n: int)
    requires
        0 <= n,
    ensures
        front(s, n).len() == if s.len() < n {
            s.len() as int
        } else {
            n
        },
        forall|i: int| 0 <= i < front(s, n).len() ==> #[trigger] front(s, n)[i] == s[i],
{
}

/// A play time is told in hours and minutes: each where it is not zero, and a
/// play time below a minute as such. A negative one counts as none.
pub proof fn play_times_tell_hours_and_minutes(h: nat, m: nat, s: nat)
    requires
        m < 60,
        s < 60,
    ensures
        h > 0 && m > 0 ==> playtime_text((3600 * h + 60 * m + s) as int) == decimal_text(h) + "h "@
            + decimal_text(m) + "m"@,
        h > 0 ==> playtime_text((3600 * h + s) as int) == decimal_text(h) + "h"@,
        m > 0 ==> playtime_text((60 * m + s) as int) == decimal_text(m) + "m"@,
        s > 0 ==> playtime_text(s as int) == "<1m"@,
        playtime_text(-(s as int)) == "0m"@,
{
    let t = (3600 * h + 60 * m + s) as int;
    assert(t / 3600 == h && (t % 3600) / 60 == m);
    let u = (3600 * h + s) as int;
    assert(u / 3600 == h && (u % 3600) / 60 == 0);
}

/// A slider has the days as its ends, where there are several; a single day
/// lies in its middle, a week from either end.
pub proof fn sliders_span_their_days(lo: int, hi: int)
    requires
        lo <= hi,
    ensures
        lo < hi ==> slider_ends(lo, hi).0 == lo && slider_ends(lo, hi).1 == hi,
        lo == hi ==> lo - slider_ends(lo, hi).0 == 7 && slider_ends(lo, hi).1 - lo == 7,
        slider_ends(lo, hi).0 < slider_ends(lo, hi).1,
{
}

/// What is held between two ends lies between them, stays where it lies there
/// already, and else goes to the end that it is beyond.
pub proof fn held_numbers_lie_between(v: int, min: int, max: int)
    requires
        min <= max,
    ensures
        min <= clamped(v, min, max) <= max,
        min <= v <= max ==> clamped(v, min, max) == v,
        v <= min ==> clamped(v, min, max) == min,
        v >= max ==> clamped(v, min, max) == max,
{
}

/// A thumb stands at the date that was typed, white space around it or not, as
/// far as the slider goes; where none was typed it stands at its end.
pub proof fn thumbs_stand_at_their_dates(s: Seq<char>, otherwise: int, min: int, max: int)
    requires
        min <= otherwise <= max,
    ensures
        min <= thumb(s, otherwise, min, max) <= max,
        text_ordinal(trimmed(s)) is None ==> thumb(s, otherwise, min, max) == otherwise,
        text_ordinal(trimmed(s)) matches Some(z) ==> (min <= z <= max ==> thumb(
            s,
            otherwise,
            min,
            max,
        ) == z) && (z < min ==> thumb(s, otherwise, min, max) == min) && (z > max ==> thumb(
            s,
            otherwise,
            min,
            max,
        ) == max),
{
}

/// A thumb for a written date stands at that day.
pub proof fn written_dates_place_thumbs(
    date: (int, int, int),
    otherwise: int,
    min: int,
    max: int,
)
    requires
        is_date(date.0, date.1, date.2),
        0 <= date.0 <= 9999,
        min <= day_number(date.0, date.1, date.2) <= max,
    ensures
        thumb(date_text(date.0, date.1, date.2), otherwise, min, max) == day_number(
            date.0,
            date.1,
            date.2,
        ),
{
    lemma_dates_are_trimmed(date.0, date.1, date.2);
    written_dates_read_back(date.0, date.1, date.2);
}

/// The bars share out the days: there are no more than forty-eight, the first
/// day is in the first and the last in the last, and a later day is in no
/// earlier bar. All bars are equally wide.
pub proof fn bars_share_out_the_days(day: int, next: int, min: int, max: int)
    requires
        min <= day <= next <= max,
    ensures
        1 <= bar_count(min, max) <= 48,
        max - min > 1 && max - min <= 47 ==> bar_count(min, max) == max - min + 1,
        max - min >= 47 ==> bar_count(min, max) == 48,
        0 <= bar_of(day, min, max) <= bar_of(next, min, max) < bar_count(min, max),
        bar_of(min, min, max) == 0,
        min < max ==> bar_of(max, min, max) == bar_count(min, max) - 1,
        min < max && day < max ==> bar_of(day, min, max) * (max - min) <= (day - min) * bar_count(
            min,
            max,
        ) < (bar_of(day, min, max) + 1) * (max - min),
{
    lemma_bar_in_range(day, min, max);
    lemma_bar_in_range(next, min, max);
    lemma_bar_in_range(min, min, max);
    lemma_bar_in_range(max, min, max);
    let (c, w) = (bar_count(min, max), bar_span(min, max));
    let (a, b) = ((day - min) * c, (next - min) * c);
    assert(a <= b) by (nonlinear_arith)
        requires
            a == (day - min) * c,
            b == (next - min) * c,
            day <= next,
            0 <= c,
    ;
    vstd::arithmetic::div_mod::lemma_div_is_ordered(a, b, w);
    assert((min - min) * c == 0) by (nonlinear_arith);
    assert(0int / w == 0) by (nonlinear_arith)
        requires
            0 < w,
    ;
    if min < max {
        assert(w == max - min);
        let full = (max - min) * c;
        assert(full == c * w) by (nonlinear_arith)
            requires
                full == (max - min) * c,
                w == max - min,
        ;
        vstd::arithmetic::div_mod::lemma_div_multiples_vanish(c, w);
        assert(w * c == c * w) by (nonlinear_arith);
        if day < max {
            assert(a < c * w) by (nonlinear_arith)
                requires
                    a == (day - min) * c,
                    day - min < w,
                    0 < c,
            ;
            vstd::arithmetic::div_mod::lemma_multiply_divide_lt(a, w, c);
            vstd::arithmetic::div_mod::lemma_fundamental_div_mod(a, w);
            vstd::arithmetic::div_mod::lemma_mod_bound(a, w);
            let q = a / w;
            assert(q * w == w * q) by (nonlinear_arith);
            assert((q + 1) * w == w * q + w) by (nonlinear_arith);
        }
    }
}

/// The days in a bar of some days and some more are those of both together. A
/// day counts once, in its own bar, and outside the domain in none.
pub proof fn days_in_bars_add_up(xs: Seq<i64>, ys: Seq<i64>, day: i64, bar: int, min: int, max: int)
    ensures
        days_in_bar(xs + ys, bar, min, max) == days_in_bar(xs, bar, min, max) + days_in_bar(
            ys,
            bar,
            min,
            max,
        ),
        min <= day <= max ==> days_in_bar(seq![day], bar_of(day as int, min, max), min, max) == 1,
        !(min <= day <= max) || bar != bar_of(day as int, min, max) ==> days_in_bar(
            seq![day],
            bar,
            min,
            max,
        ) == 0,
    decreases ys.len(),
{
    reveal_with_fuel(days_in_bar, 2);
    assert(seq![day].drop_last() =~= Seq::<i64>::empty());
    assert(seq![day].last() == day);
    if ys.len() > 0 {
        days_in_bars_add_up(xs, ys.drop_last(), day, bar, min, max);
        assert((xs + ys).drop_last() =~= xs + ys.drop_last());
        assert((xs + ys).last() == ys.last());
    } else {
        assert(xs + ys =~= xs);
    }
}

/// A date is read from ten characters with dashes behind the year and the
/// month; a month is 1 to 12 and a day 1 to 31. What follows does not matter.
pub proof fn dates_are_read_from_ten_characters(s: Seq<char>, more: Seq<char>)
    ensures
        iso_ymd(s) matches Some((y, m, d)) ==> s.len() >= 10 && s[4] == '-' && s[7] == '-'
            && parsed_integer(s.take(4)) == Some(y) && parsed_integer(s.subrange(5, 7)) == Some(m)
            && parsed_integer(s.subrange(8, 10)) == Some(d) && 1 <= m <= 12 && 1 <= d <= 31,
        s.len() >= 10 ==> iso_ymd(s + more) == iso_ymd(s),
{
    if s.len() >= 10 {
        let t = s + more;
        assert(s.take(4) =~= s.subrange(0, 4));
        assert(t.subrange(0, 4) =~= s.subrange(0, 4));
        assert(t.subrange(5, 7) =~= s.subrange(5, 7));
        assert(t.subrange(8, 10) =~= s.subrange(8, 10));
    }
}

/// Numbers that are filled up with zeros have their width and read back.
pub proof fn filled_numbers_read_back(i: int, width: int)
    requires
        (width == 2 && 0 <= i <= 99) || (width == 4 && -999 <= i <= 9999),
    ensures
        padded(i, width).len() == width,
        parsed_integer(padded(i, width)) == Some(i),
{
    lemma_padded_reads_back(i, width);
}

/// Text has a day number exactly where a date can be read from it, and a written
/// date has that of its day.
pub proof fn days_are_read_from_dates(s: Seq<char>, date: (int, int, int))
    requires
        is_date(date.0, date.1, date.2),
        -999 <= date.0 <= 9999,
    ensures
        text_ordinal(s) is Some <==> iso_ymd(s) is Some,
        s.len() < 10 ==> text_ordinal(s) is None,
        text_ordinal(date_text(date.0, date.1, date.2)) == Some(
            day_number(date.0, date.1, date.2),
        ),
{
    written_dates_read_back(date.0, date.1, date.2);
}

} // verus!
