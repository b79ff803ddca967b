//! Calendar dates in the proleptic Gregorian calendar, and their signed
//! day count relative to the wire epoch 1900-01-01.

use vstd::prelude::*;

verus! {

/// The calendar year the wire epoch falls in: day count 0 is
/// 1900-01-01.
pub const EPOCH_YEAR: i32 = 1900;

/// A calendar date.  `month` runs from 1 to 12 and `day` from 1 to the
/// length of the month; see [`date_valid`].
#[derive(Clone, Copy, Debug, PartialEq, Eq, Structural)]
pub struct Date {
    pub year: i32,
    pub month: u8,
    pub day: u8,
}

/// Gregorian leap-year rule, applied proleptically to every year.
pub open spec fn is_leap_year(y: int) -> bool {
    (y % 4 == 0 && y % 100 != 0) || y % 400 == 0
}

/// The number of days of year `y`.
pub open spec fn days_in_year(y: int) -> int {
    if is_leap_year(y) {
        366
    } else {
        365
    }
}

/// The number of days of month `m` of year `y`, for `m` in 1..=12.
pub open spec fn days_in_month(y: int, m: int) -> int {
    if m == 2 {
        if is_leap_year(y) {
            29
        } else {
            28
        }
    } else if m == 4 || m == 6 || m == 9 || m == 11 {
        30
    } else {
        31
    }
}

/// Whether the fields of `d` name a real calendar date.
pub open spec fn date_valid(d: Date) -> bool {
    &&& 1 <= d.month <= 12
    &&& 1 <= d.day <= days_in_month(d.year as int, d.month as int)
}

/// The signed number of days from the first day of the epoch year to the
/// first day of year `y`.
pub open spec fn days_before_year(y: int) -> int
    decreases (if y >= EPOCH_YEAR { y - EPOCH_YEAR } else { EPOCH_YEAR - y }),
{
    if y == EPOCH_YEAR {
        0
    } else if y > EPOCH_YEAR {
        days_before_year(y - 1) + days_in_year(y - 1)
    } else {
        days_before_year(y + 1) - days_in_year(y)
    }
}

/// The number of days of year `y` that precede month `m`.
pub open spec fn days_before_month(y: int, m: int) -> int
    decreases m,
{
    if m <= 1 {
        0
    } else {
        days_before_month(y, m - 1) + days_in_month(y, m - 1)
    }
}

/// The signed day count of `d` relative to the epoch: 0 for 1900-01-01,
/// negative for earlier dates.
pub open spec fn day_number(d: Date) -> int {
    days_before_year(d.year as int) + days_before_month(d.year as int, d.month as int) + d.day - 1
}

/// Crossing into the next year adds exactly that year's length, on either
/// side of the epoch.
pub proof fn lemma_days_before_year_step(y: int)
    ensures
        days_before_year(y + 1) == days_before_year(y) + days_in_year(y),
{
    if y + 1 > EPOCH_YEAR {
    } else {
        assert(days_before_year(y) == days_before_year(y + 1) - days_in_year(y));
    }
}

/// The day count to year `y` grows with `y` between 365 and 366 days per
/// year.
pub proof fn lemma_days_before_year_bounds(y: int)
    ensures
        y >= EPOCH_YEAR ==> 365 * (y - EPOCH_YEAR) <= days_before_year(y) <= 366 * (y
            - EPOCH_YEAR),
        y <= EPOCH_YEAR ==> -366 * (EPOCH_YEAR - y) <= days_before_year(y) <= -365 * (EPOCH_YEAR
            - y),
    decreases (if y >= EPOCH_YEAR { y - EPOCH_YEAR } else { EPOCH_YEAR - y }),
{
    if y == EPOCH_YEAR {
    } else if y > EPOCH_YEAR {
        lemma_days_before_year_bounds(y - 1);
    } else {
        lemma_days_before_year_bounds(y + 1);
    }
}

/// The day count to the start of a year is monotone in the year.
pub proof fn lemma_days_before_year_mono(y1: int, y2: int)
    requires
        y1 <= y2,
    ensures
        days_before_year(y1) <= days_before_year(y2),
    decreases y2 - y1,
{
    if y1 < y2 {
        lemma_days_before_year_mono(y1, y2 - 1);
        lemma_days_before_year_step(y2 - 1);
    }
}

/// The day count to the start of a month is monotone in the month.
pub proof fn lemma_days_before_month_mono(y: int, m1: int, m2: int)
    requires
        m1 <= m2,
    ensures
        days_before_month(y, m1) <= days_before_month(y, m2),
    decreases m2 - m1,
{
    if m1 < m2 {
        lemma_days_before_month_mono(y, m1, m2 - 1);
    }
}

/// The twelve months of a year account for exactly its length.
pub proof fn lemma_days_before_month_full(y: int)
    ensures
        days_before_month(y, 13) == days_in_year(y),
{
    assert(days_before_month(y, 13) == days_before_month(y, 12) + days_in_month(y, 12));
    assert(days_before_month(y, 12) == days_before_month(y, 11) + days_in_month(y, 11));
    assert(days_before_month(y, 11) == days_before_month(y, 10) + days_in_month(y, 10));
    assert(days_before_month(y, 10) == days_before_month(y, 9) + days_in_month(y, 9));
    assert(days_before_month(y, 9) == days_before_month(y, 8) + days_in_month(y, 8));
    assert(days_before_month(y, 8) == days_before_month(y, 7) + days_in_month(y, 7));
    assert(days_before_month(y, 7) == days_before_month(y, 6) + days_in_month(y, 6));
    assert(days_before_month(y, 6) == days_before_month(y, 5) + days_in_month(y, 5));
    assert(days_before_month(y, 5) == days_before_month(y, 4) + days_in_month(y, 4));
    assert(days_before_month(y, 4) == days_before_month(y, 3) + days_in_month(y, 3));
    assert(days_before_month(y, 3) == days_before_month(y, 2) + days_in_month(y, 2));
    assert(days_before_month(y, 2) == days_before_month(y, 1) + days_in_month(y, 1));
    assert(days_before_month(y, 1) == 0);
}

/// A valid date's day number falls within its own year's span of the day
/// count.
pub proof fn lemma_day_number_in_year(d: Date)
    requires
        date_valid(d),
    ensures
        days_before_year(d.year as int) <= day_number(d),
        day_number(d) < days_before_year(d.year as int + 1),
{
    let y = d.year as int;
    let m = d.month as int;
    lemma_days_before_month_mono(y, 1, m);
    assert(days_before_month(y, m + 1) == days_before_month(y, m) + days_in_month(y, m));
    lemma_days_before_month_mono(y, m + 1, 13);
    lemma_days_before_month_full(y);
    lemma_days_before_year_step(y);
}

/// Distinct valid dates have distinct day numbers: the day count pins the
/// calendar date.
pub proof fn lemma_day_number_injective(d1: Date, d2: Date)
    requires
        date_valid(d1),
        date_valid(d2),
        day_number(d1) == day_number(d2),
    ensures
        d1 == d2,
{
    let y1 = d1.year as int;
    let y2 = d2.year as int;
    lemma_day_number_in_year(d1);
    lemma_day_number_in_year(d2);
    if y1 < y2 {
        lemma_days_before_year_mono(y1 + 1, y2);
        assert(false);
    }
    if y2 < y1 {
        lemma_days_before_year_mono(y2 + 1, y1);
        assert(false);
    }
    let m1 = d1.month as int;
    let m2 = d2.month as int;
    if m1 < m2 {
        assert(days_before_month(y1, m1 + 1) == days_before_month(y1, m1) + days_in_month(
            y1,
            m1,
        ));
        lemma_days_before_month_mono(y1, m1 + 1, m2);
        assert(false);
    }
    if m2 < m1 {
        assert(days_before_month(y1, m2 + 1) == days_before_month(y1, m2) + days_in_month(
            y1,
            m2,
        ));
        lemma_days_before_month_mono(y1, m2 + 1, m1);
        assert(false);
    }
    assert(d1.day == d2.day);
}

/// Whether year `y` is a leap year under the Gregorian rule.
///
/// Shifting by a multiple of 400 keeps the divisibility tests on
/// nonnegative numbers, where machine remainder and the mathematical one
/// agree.
pub fn leap_year(y: i64) -> (r: bool)
    requires
        -4_000_000_000 <= y <= 4_000_000_000,
    ensures
        r == is_leap_year(y as int),
{
    let yy: u64 = (y + 4_000_000_000i64) as u64;
    proof {
        vstd::arithmetic::div_mod::lemma_mod_multiples_vanish(1_000_000_000, y as int, 4);
        vstd::arithmetic::div_mod::lemma_mod_multiples_vanish(40_000_000, y as int, 100);
        vstd::arithmetic::div_mod::lemma_mod_multiples_vanish(10_000_000, y as int, 400);
    }
    (yy % 4 == 0 && yy % 100 != 0) || yy % 400 == 0
}

/// The length of year `y` in days.
pub fn year_length(y: i64) -> (r: i64)
    requires
        -4_000_000_000 <= y <= 4_000_000_000,
    ensures
        r == days_in_year(y as int),
{
    if leap_year(y) {
        366
    } else {
        365
    }
}

/// The length of month `m` of year `y` in days.
pub fn month_length(y: i64, m: i64) -> (r: i64)
    requires
        -4_000_000_000 <= y <= 4_000_000_000,
        1 <= m <= 12,
    ensures
        r == days_in_month(y as int, m as int),
{
    if m == 2 {
        if leap_year(y) {
            29
        } else {
            28
        }
    } else if m == 4 || m == 6 || m == 9 || m == 11 {
        30
    } else {
        31
    }
}

/// Builds a date after checking the calendar rules, rejecting fields that
/// name no real date.
pub fn make_date(year: i32, month: u8, day: u8) -> (r: Option<Date>)
    ensures
        match r {
            Some(d) => d == (Date { year, month, day }) && date_valid(d),
            None => !date_valid(Date { year, month, day }),
        },
{
    if 1 <= month && month <= 12 {
        let len = month_length(year as i64, month as i64);
        if 1 <= day && day as i64 <= len {
            Some(Date { year, month, day })
        } else {
            None
        }
    } else {
        None
    }
}

/// The signed day count of a valid date relative to 1900-01-01.
pub fn date_to_days(d: &Date) -> (r: i64)
    requires
        date_valid(*d),
    ensures
        r == day_number(*d),
{
    let target: i64 = d.year as i64;
    let mut y: i64 = EPOCH_YEAR as i64;
    let mut acc: i64 = 0;
    if target >= y {
        while y < target
            invariant
                EPOCH_YEAR <= y <= target,
                target <= 0x8000_0000,
                acc == days_before_year(y as int),
            decreases target - y,
        {
            proof {
                lemma_days_before_year_bounds(y as int);
                lemma_days_before_year_step(y as int);
                assert(366 * (y - EPOCH_YEAR) <= 366 * 0x8000_0000) by (nonlinear_arith)
                    requires
                        EPOCH_YEAR <= y <= 0x8000_0000,
                ;
                assert(365 * (y - EPOCH_YEAR) >= 0) by (nonlinear_arith)
                    requires
                        EPOCH_YEAR <= y,
                ;
            }
            acc = acc + year_length(y);
            y = y + 1;
        }
    } else {
        while y > target
            invariant
                target <= y <= EPOCH_YEAR,
                -0x8000_0000 <= target,
                acc == days_before_year(y as int),
            decreases y - target,
        {
            proof {
                lemma_days_before_year_bounds(y as int - 1);
                lemma_days_before_year_step(y as int - 1);
                assert(-366 * (EPOCH_YEAR - (y - 1)) >= -366 * (EPOCH_YEAR + 0x8000_0000))
                    by (nonlinear_arith)
                    requires
                        -0x8000_0000 <= y - 1 <= EPOCH_YEAR,
                ;
                assert(-365 * (EPOCH_YEAR - (y - 1)) <= 0) by (nonlinear_arith)
                    requires
                        y - 1 <= EPOCH_YEAR,
                ;
            }
            y = y - 1;
            acc = acc - year_length(y);
        }
    }
    proof {
        lemma_days_before_year_bounds(target as int);
        assert(-366 * (EPOCH_YEAR + 0x8000_0000) <= acc <= 366 * 0x8000_0000) by (nonlinear_arith)
            requires
                -0x8000_0000 <= target <= 0x8000_0000,
                target >= EPOCH_YEAR ==> 365 * (target - EPOCH_YEAR) <= acc <= 366 * (target
                    - EPOCH_YEAR),
                target <= EPOCH_YEAR ==> -366 * (EPOCH_YEAR - target) <= acc <= -365 * (EPOCH_YEAR
                    - target),
        ;
    }
    let mut m: i64 = 1;
    while m < d.month as i64
        invariant
            1 <= m <= d.month,
            d.month <= 12,
            -4_000_000_000 <= target <= 4_000_000_000,
            -0x400_0000_0000 <= days_before_year(target as int) <= 0x400_0000_0000,
            acc == days_before_year(target as int) + days_before_month(target as int, m as int),
            days_before_month(target as int, m as int) <= 366,
        decreases d.month - m,
    {
        proof {
            lemma_days_before_month_mono(target as int, 1, m as int);
            lemma_days_before_month_mono(target as int, m as int + 1, 13);
            lemma_days_before_month_full(target as int);
        }
        acc = acc + month_length(target, m);
        m = m + 1;
    }
    proof {
        lemma_days_before_month_mono(target as int, 1, d.month as int);
    }
    acc + d.day as i64 - 1
}

/// The valid date a signed day count names: the inverse of
/// [`date_to_days`] over the span the 32-bit wire field can carry.
pub fn days_to_date(n: i64) -> (r: Date)
    requires
        -0x8000_0000 <= n < 0x8000_0000,
    ensures
        date_valid(r),
        day_number(r) == n,
{
    let mut y: i64 = EPOCH_YEAR as i64;
    let mut rem: i64 = n;
    if rem < 0 {
        while rem < 0
            invariant
                -6_000_000 <= y <= EPOCH_YEAR,
                -0x8000_0000 <= n,
                rem < 366,
                rem == n - days_before_year(y as int),
            decreases (if rem < 0 { -rem } else { 0 }),
        {
            proof {
                lemma_days_before_year_step(y as int - 1);
                lemma_days_before_year_bounds(y as int);
                assert(y - 1 >= -6_000_000) by (nonlinear_arith)
                    requires
                        y <= EPOCH_YEAR,
                        days_before_year(y as int) <= -365 * (EPOCH_YEAR - y),
                        days_before_year(y as int) > n,
                        -0x8000_0000 <= n,
                ;
            }
            y = y - 1;
            rem = rem + year_length(y);
        }
    }
    while rem >= year_length(y)
        invariant
            -6_000_000 <= y <= 6_000_000,
            0 <= rem,
            n < 0x8000_0000,
            rem == n - days_before_year(y as int),
        decreases rem,
    {
        proof {
            lemma_days_before_year_step(y as int);
            lemma_days_before_year_bounds(y as int);
            if y >= EPOCH_YEAR {
                assert(y + 1 <= 6_000_000) by (nonlinear_arith)
                    requires
                        EPOCH_YEAR <= y,
                        365 * (y - EPOCH_YEAR) <= days_before_year(y as int),
                        days_before_year(y as int) <= n - 365,
                        n < 0x8000_0000,
                ;
            }
        }
        rem = rem - year_length(y);
        y = y + 1;
    }
    let mut m: i64 = 1;
    while rem >= month_length(y, m)
        invariant
            1 <= m <= 12,
            0 <= rem,
            -6_000_000 <= y <= 6_000_000,
            rem == n - days_before_year(y as int) - days_before_month(y as int, m as int),
            rem + days_before_month(y as int, m as int) < days_in_year(y as int),
        decreases 12 - m,
    {
        proof {
            assert(days_before_month(y as int, m as int + 1) == days_before_month(
                y as int,
                m as int,
            ) + days_in_month(y as int, m as int));
            lemma_days_before_month_full(y as int);
            lemma_days_before_month_mono(y as int, m as int + 1, 13);
        }
        rem = rem - month_length(y, m);
        m = m + 1;
    }
    Date { year: y as i32, month: m as u8, day: (rem + 1) as u8 }
}

} // verus!
