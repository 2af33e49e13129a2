//! Proleptic Gregorian calendar arithmetic for the engine's fixed UTC+8
//! civil time, over the years 0000 through 9999.
//!
//! Day numbers count days since the Unix epoch (1970-01-01), so they line up
//! with the second-based instants of [`crate::clock`]. Internally the math is
//! anchored at 0000-01-01 to keep every intermediate count non-negative.

use vstd::prelude::*;

verus! {

/// Days from 0000-01-01 to 1970-01-01 in the proleptic Gregorian calendar.
pub const DAYS_TO_UNIX_EPOCH: i64 = 719528;

/// Years the calendar covers: 0000 through 9999.
pub open spec fn valid_year(y: int) -> bool {
    0 <= y <= 9999
}

pub open spec fn is_leap_year(y: int) -> bool {
    (y % 4 == 0 && y % 100 != 0) || y % 400 == 0
}

pub open spec fn days_in_year(y: int) -> int {
    if is_leap_year(y) {
        366
    } else {
        365
    }
}

/// Length of month `m` (1-based) of year `y`.
pub open spec fn days_in_month(y: int, m: int) -> int {
    if m == 2 {
        if is_leap_year(y) {
            29
        } else {
            28
        }
    } else if m == 4 || m == 6 || m == 9 || m == 11 {
        30
    } else {
        31
    }
}

/// Days from 0000-01-01 to the first day of year `y`.
pub open spec fn days_before_year(y: int) -> int
    decreases y,
{
    if y <= 0 {
        0
    } else {
        days_before_year(y - 1) + days_in_year(y - 1)
    }
}

/// Days from `y`-01-01 to the first day of month `m` (1-based) of year `y`.
pub open spec fn days_before_month(y: int, m: int) -> int
    decreases m,
{
    if m <= 1 {
        0
    } else {
        days_before_month(y, m - 1) + days_in_month(y, m - 1)
    }
}

/// A calendar date the engine accepts.
pub open spec fn valid_date(y: int, m: int, d: int) -> bool {
    valid_year(y) && 1 <= m <= 12 && 1 <= d <= days_in_month(y, m)
}

/// Days since 1970-01-01 of the date `y`-`m`-`d` (negative before 1970).
pub open spec fn day_number_of(y: int, m: int, d: int) -> int {
    days_before_year(y) + days_before_month(y, m) + (d - 1) - DAYS_TO_UNIX_EPOCH
}

pub proof fn lemma_days_before_year_bounds(y: int)
    requires
        0 <= y,
    ensures
        365 * y <= days_before_year(y) <= 366 * y,
    decreases y,
{
    if y > 0 {
        lemma_days_before_year_bounds(y - 1);
    }
}

pub proof fn lemma_days_before_year_monotonic(y1: int, y2: int)
    requires
        0 <= y1 <= y2,
    ensures
        days_before_year(y1) <= days_before_year(y2),
        y1 < y2 ==> days_before_year(y1) + days_in_year(y1) <= days_before_year(y2),
    decreases y2 - y1,
{
    if y1 < y2 {
        lemma_days_before_year_monotonic(y1 + 1, y2);
    }
}

pub proof fn lemma_days_before_month_bounds(y: int, m: int)
    requires
        1 <= m <= 13,
    ensures
        28 * (m - 1) <= days_before_month(y, m) <= 31 * (m - 1),
    decreases m,
{
    if m > 1 {
        lemma_days_before_month_bounds(y, m - 1);
    }
}

pub proof fn lemma_days_before_month_monotonic(y: int, m1: int, m2: int)
    requires
        1 <= m1 <= m2 <= 13,
    ensures
        days_before_month(y, m1) <= days_before_month(y, m2),
        m1 < m2 ==> days_before_month(y, m1) + days_in_month(y, m1) <= days_before_month(y, m2),
    decreases m2 - m1,
{
    if m1 < m2 {
        lemma_days_before_month_monotonic(y, m1 + 1, m2);
    }
}

/// The twelve months exactly fill the year.
pub proof fn lemma_months_fill_year(y: int)
    ensures
        days_before_month(y, 13) == days_in_year(y),
{
    reveal_with_fuel(days_before_month, 14);
}

/// Within year `y`, a valid month/day offset stays inside the year.
pub proof fn lemma_date_within_year(y: int, m: int, d: int)
    requires
        1 <= m <= 12,
        1 <= d <= days_in_month(y, m),
    ensures
        0 <= days_before_month(y, m) + (d - 1) < days_in_year(y),
{
    lemma_days_before_month_bounds(y, m);
    lemma_days_before_month_monotonic(y, m, 13);
    lemma_months_fill_year(y);
}

/// Distinct valid dates have distinct day numbers.
pub proof fn lemma_day_number_injective(y1: int, m1: int, d1: int, y2: int, m2: int, d2: int)
    requires
        valid_date(y1, m1, d1),
        valid_date(y2, m2, d2),
        day_number_of(y1, m1, d1) == day_number_of(y2, m2, d2),
    ensures
        y1 == y2 && m1 == m2 && d1 == d2,
{
    lemma_date_within_year(y1, m1, d1);
    lemma_date_within_year(y2, m2, d2);
    if y1 < y2 {
        lemma_days_before_year_monotonic(y1, y2);
    }
    if y2 < y1 {
        lemma_days_before_year_monotonic(y2, y1);
    }
    if m1 < m2 {
        lemma_days_before_month_monotonic(y1, m1, m2);
    }
    if m2 < m1 {
        lemma_days_before_month_monotonic(y1, m2, m1);
    }
}

pub fn leap_year(y: i64) -> (b: bool)
    ensures
        b == is_leap_year(y as int),
{
    (y % 4 == 0 && y % 100 != 0) || y % 400 == 0
}

pub fn month_length(y: i64, m: i64) -> (n: i64)
    requires
        1 <= m <= 12,
    ensures
        n == days_in_month(y as int, m as int),
{
    if m == 2 {
        if leap_year(y) {
            29
        } else {
            28
        }
    } else if m == 4 || m == 6 || m == 9 || m == 11 {
        30
    } else {
        31
    }
}

fn year_length(y: i64) -> (n: i64)
    ensures
        n == days_in_year(y as int),
{
    if leap_year(y) {
        366
    } else {
        365
    }
}

/// Days since the Unix epoch of the date `y`-`m`-`d`.
pub fn day_number(y: i64, m: i64, d: i64) -> (n: i64)
    requires
        valid_date(y as int, m as int, d as int),
    ensures
        n == day_number_of(y as int, m as int, d as int),
{
    let mut before_year: i64 = 0;
    let mut i: i64 = 0;
    while i < y
        invariant
            0 <= i <= y <= 9999,
            before_year == days_before_year(i as int),
            0 <= before_year <= 366 * i,
        decreases y - i,
    {
        proof {
            lemma_days_before_year_bounds(i + 1);
        }
        before_year = before_year + year_length(i);
        i = i + 1;
    }
    let mut before_month: i64 = 0;
    let mut j: i64 = 1;
    while j < m
        invariant
            1 <= j <= m <= 12,
            before_month == days_before_month(y as int, j as int),
            0 <= before_month <= 31 * (j - 1),
        decreases m - j,
    {
        proof {
            lemma_days_before_month_bounds(y as int, j as int + 1);
        }
        before_month = before_month + month_length(y, j);
        j = j + 1;
    }
    before_year + before_month + (d - 1) - DAYS_TO_UNIX_EPOCH
}

/// Day numbers the calendar covers: 0000-01-01 through 9999-12-31.
pub open spec fn valid_day_number(n: int) -> bool {
    0 <= n + DAYS_TO_UNIX_EPOCH < days_before_year(10000)
}

/// The calendar date of day number `n`: the unique valid date whose day
/// number is `n`.
pub open spec fn civil_of_day_number(n: int) -> (int, int, int) {
    choose|ymd: (int, int, int)|
        valid_date(ymd.0, ymd.1, ymd.2) && day_number_of(ymd.0, ymd.1, ymd.2) == n
}

/// Recover the calendar date of a day number.
pub fn civil_from_day_number(n: i64) -> (r: (i64, i64, i64))
    requires
        valid_day_number(n as int),
    ensures
        valid_date(r.0 as int, r.1 as int, r.2 as int),
        day_number_of(r.0 as int, r.1 as int, r.2 as int) == n,
        (r.0 as int, r.1 as int, r.2 as int) == civil_of_day_number(n as int),
{
    proof {
        lemma_days_before_year_bounds(10000);
    }
    let mut rem: i64 = n + DAYS_TO_UNIX_EPOCH;
    let mut y: i64 = 0;
    loop
        invariant
            0 <= y <= 9999,
            0 <= rem,
            days_before_year(y as int) + rem == n + DAYS_TO_UNIX_EPOCH,
            n + DAYS_TO_UNIX_EPOCH < days_before_year(10000),
        ensures
            0 <= y <= 9999,
            0 <= rem < days_in_year(y as int),
            days_before_year(y as int) + rem == n + DAYS_TO_UNIX_EPOCH,
        decreases 9999 - y,
    {
        let len = year_length(y);
        if rem < len {
            break;
        }
        proof {
            // rem only reaches a full year's length while later years remain.
            lemma_days_before_year_monotonic(y as int + 1, 10000);
            assert(y < 9999);
        }
        rem = rem - len;
        y = y + 1;
    }
    let ghost rem_in_year = rem as int;
    let mut m: i64 = 1;
    loop
        invariant
            1 <= m <= 12,
            0 <= rem,
            days_before_month(y as int, m as int) + rem == rem_in_year,
            rem_in_year < days_in_year(y as int),
            0 <= y <= 9999,
        ensures
            1 <= m <= 12,
            0 <= rem < days_in_month(y as int, m as int),
            days_before_month(y as int, m as int) + rem == rem_in_year,
        decreases 12 - m,
    {
        let len = month_length(y, m);
        if rem < len {
            break;
        }
        proof {
            // rem only reaches a full month's length while later months remain.
            lemma_days_before_month_monotonic(y as int, m as int + 1, 13);
            lemma_months_fill_year(y as int);
            assert(m < 12);
        }
        rem = rem - len;
        m = m + 1;
    }
    let d = rem + 1;
    proof {
        let w = (y as int, m as int, d as int);
        assert(valid_date(w.0, w.1, w.2) && day_number_of(w.0, w.1, w.2) == n as int);
        assert(exists|ymd: (int, int, int)|
            valid_date(ymd.0, ymd.1, ymd.2) && day_number_of(ymd.0, ymd.1, ymd.2) == n as int);
        let picked = civil_of_day_number(n as int);
        lemma_day_number_injective(picked.0, picked.1, picked.2, y as int, m as int, d as int);
    }
    (y, m, d)
}

} // verus!

verus! {

pub open spec fn is_digit(c: char) -> bool {
    48 <= c as int <= 57
}

pub open spec fn digit_val(c: char) -> int {
    c as int - 48
}

/// Shape of a requested date: exactly `YYYY-MM-DD`.
pub open spec fn date_shape(s: Seq<char>) -> bool {
    &&& s.len() == 10
    &&& is_digit(s[0])
    &&& is_digit(s[1])
    &&& is_digit(s[2])
    &&& is_digit(s[3])
    &&& s[4] == '-'
    &&& is_digit(s[5])
    &&& is_digit(s[6])
    &&& s[7] == '-'
    &&& is_digit(s[8])
    &&& is_digit(s[9])
}

pub open spec fn year_of_date_str(s: Seq<char>) -> int {
    1000 * digit_val(s[0]) + 100 * digit_val(s[1]) + 10 * digit_val(s[2]) + digit_val(s[3])
}

pub open spec fn month_of_date_str(s: Seq<char>) -> int {
    10 * digit_val(s[5]) + digit_val(s[6])
}

pub open spec fn day_of_date_str(s: Seq<char>) -> int {
    10 * digit_val(s[8]) + digit_val(s[9])
}

/// A parsable requested date: `YYYY-MM-DD` naming a real calendar day.
pub open spec fn is_valid_date_str(s: Seq<char>) -> bool {
    &&& date_shape(s)
    &&& valid_date(year_of_date_str(s), month_of_date_str(s), day_of_date_str(s))
}

/// Read one decimal digit, or `None` for any other character.
fn digit(c: char) -> (r: Option<i64>)
    ensures
        r is Some <==> is_digit(c),
        r matches Some(v) ==> v == digit_val(c),
{
    let v = c as u32;
    if 48 <= v && v <= 57 {
        Some((v - 48) as i64)
    } else {
        None
    }
}

/// Parse a requested date of the form `YYYY-MM-DD`. Returns the year, month
/// and day exactly when the string names a real calendar day.
pub fn parse_date(s: &str) -> (r: Option<(i64, i64, i64)>)
    ensures
        r is Some <==> is_valid_date_str(s@),
        r matches Some(ymd) ==> {
            &&& ymd.0 == year_of_date_str(s@)
            &&& ymd.1 == month_of_date_str(s@)
            &&& ymd.2 == day_of_date_str(s@)
        },
{
    if s.unicode_len() != 10 {
        return None;
    }
    if s.get_char(4) as u32 != 45 || s.get_char(7) as u32 != 45 {
        proof {
            assert('-' as int == 45);
        }
        return None;
    }
    let (Some(y3), Some(y2), Some(y1), Some(y0)) = (
        digit(s.get_char(0)),
        digit(s.get_char(1)),
        digit(s.get_char(2)),
        digit(s.get_char(3)),
    ) else {
        return None;
    };
    let (Some(m1), Some(m0)) = (digit(s.get_char(5)), digit(s.get_char(6))) else {
        return None;
    };
    let (Some(d1), Some(d0)) = (digit(s.get_char(8)), digit(s.get_char(9))) else {
        return None;
    };
    let y = 1000 * y3 + 100 * y2 + 10 * y1 + y0;
    let m = 10 * m1 + m0;
    let d = 10 * d1 + d0;
    if m < 1 || m > 12 {
        return None;
    }
    if d < 1 || d > month_length(y, m) {
        return None;
    }
    proof {
        assert('-' as int == 45);
    }
    Some((y, m, d))
}

} // verus!

verus! {

/// One step of a floor-division term: moving the numerator up by one adds
/// one exactly when `y - 1` is a multiple of the divisor.
proof fn lemma_div_step(y: int, div: int)
    requires
        1 <= y,
        1 <= div,
    ensures
        (y + div - 1) / div == (y + div - 2) / div + if (y - 1) % div == 0 {
            1int
        } else {
            0int
        },
{
    let q = (y - 1) / div;
    let r = (y - 1) % div;
    vstd::arithmetic::div_mod::lemma_fundamental_div_mod(y - 1, div);
    assert(div * q == q * div) by (nonlinear_arith);
    assert((q + 1) * div == q * div + div) by (nonlinear_arith);
    if r == 0 {
        vstd::arithmetic::div_mod::lemma_fundamental_div_mod_converse(y + div - 2, div, q, div - 1);
        vstd::arithmetic::div_mod::lemma_fundamental_div_mod_converse(y + div - 1, div, q + 1, 0);
    } else {
        vstd::arithmetic::div_mod::lemma_fundamental_div_mod_converse(y + div - 2, div, q + 1, r - 1);
        vstd::arithmetic::div_mod::lemma_fundamental_div_mod_converse(y + div - 1, div, q + 1, r);
    }
}

/// A multiple of `small * k` is a multiple of `small`.
proof fn lemma_mod_divides(x: int, small: int, k: int)
    requires
        small > 0,
        k > 0,
        x % (small * k) == 0,
    ensures
        x % small == 0,
{
    let big = small * k;
    vstd::arithmetic::mul::lemma_mul_strictly_positive(small, k);
    vstd::arithmetic::div_mod::lemma_fundamental_div_mod(x, big);
    assert(big * (x / big) == (k * (x / big)) * small) by (nonlinear_arith)
        requires
            big == small * k,
    ;
    vstd::arithmetic::div_mod::lemma_mod_multiples_basic(k * (x / big), small);
}

/// Closed form of the day count: 365 days per year plus one per leap year,
/// counted by the Gregorian 4/100/400 rule.
pub proof fn lemma_days_before_year_exact(y: int)
    requires
        0 <= y,
    ensures
        days_before_year(y) == 365 * y + (y + 3) / 4 - (y + 99) / 100 + (y + 399) / 400,
    decreases y,
{
    if y > 0 {
        lemma_days_before_year_exact(y - 1);
        lemma_div_step(y, 4);
        lemma_div_step(y, 100);
        lemma_div_step(y, 400);
        if (y - 1) % 100 == 0 {
            lemma_mod_divides(y - 1, 4, 25);
        }
        if (y - 1) % 400 == 0 {
            lemma_mod_divides(y - 1, 100, 4);
            lemma_mod_divides(y - 1, 4, 100);
        }
    }
}

/// The whole calendar holds 3652425 days.
pub proof fn lemma_calendar_days()
    ensures
        days_before_year(10000) == 3652425,
{
    lemma_days_before_year_exact(10000);
}

} // verus!
