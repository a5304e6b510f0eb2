//! The proleptic Gregorian calendar, and the conversion from a day count
//! since 1970-01-01 to a civil date.
use vstd::prelude::*;
use vstd::arithmetic::div_mod;

verus! {

/// Gregorian leap-year rule.
pub open spec fn is_leap_year(y: int) -> bool {
    y % 4 == 0 && (y % 100 != 0 || y % 400 == 0)
}

/// Number of days in year `y`.
pub open spec fn days_in_year(y: int) -> int {
    if is_leap_year(y) { 366 } else { 365 }
}

/// Number of days in month `m` (1 = January) of year `y`.
pub open spec fn days_in_month(y: int, m: int) -> int {
    if m == 2 {
        if is_leap_year(y) { 29 } else { 28 }
    } else if m == 4 || m == 6 || m == 9 || m == 11 {
        30
    } else {
        31
    }
}

/// Days in the months of year `y` that come before month `m`.
pub open spec fn days_before_month(y: int, m: int) -> int
    decreases m,
{
    if m <= 1 { 0 } else { days_before_month(y, m - 1) + days_in_month(y, m - 1) }
}

/// Signed number of days from 1970-01-01 to the first day of year `y`.
pub open spec fn days_before_year(y: int) -> int
    decreases (if y >= 1970 { y - 1970 } else { 1970 - y }),
{
    if y == 1970 {
        0
    } else if y > 1970 {
        days_before_year(y - 1) + days_in_year(y - 1)
    } else {
        days_before_year(y + 1) - days_in_year(y)
    }
}

/// A real calendar date: month in 1..=12 and day within that month.
pub open spec fn valid_date(y: int, m: int, d: int) -> bool {
    1 <= m <= 12 && 1 <= d <= days_in_month(y, m)
}

/// Signed number of days from 1970-01-01 to the date `y-m-d`.
pub open spec fn days_from_civil(y: int, m: int, d: int) -> int {
    days_before_year(y) + days_before_month(y, m) + d - 1
}

/// Leap years in the range `[0, y)` (negative when `y < 0`).
pub open spec fn leaps_before(y: int) -> int {
    (y + 3) / 4 - (y + 99) / 100 + (y + 399) / 400
}

proof fn lemma_div_step(y: int, k: int)
    requires
        k > 0,
    ensures
        (y + k) / k - (y + k - 1) / k == if y % k == 0 { 1int } else { 0int },
{
    let q = y / k;
    let r = y % k;
    div_mod::lemma_fundamental_div_mod(y, k);
    assert((q + 1) * k + r == y + k) by (nonlinear_arith)
        requires
            y == k * q + r,
    ;
    div_mod::lemma_fundamental_div_mod_converse(y + k, k, q + 1, r);
    if r == 0 {
        assert(q * k + (k - 1) == y + k - 1) by (nonlinear_arith)
            requires
                y == k * q + r,
                r == 0,
        ;
        div_mod::lemma_fundamental_div_mod_converse(y + k - 1, k, q, k - 1);
    } else {
        div_mod::lemma_fundamental_div_mod_converse(y + k - 1, k, q + 1, r - 1);
    }
}

proof fn lemma_leaps_step(y: int)
    ensures
        leaps_before(y + 1) == leaps_before(y) + if is_leap_year(y) { 1int } else { 0int },
{
    lemma_div_step(y, 4);
    lemma_div_step(y, 100);
    lemma_div_step(y, 400);
    if y % 100 == 0 {
        div_mod::lemma_fundamental_div_mod(y, 100);
        div_mod::lemma_fundamental_div_mod_converse(y, 4, 25 * (y / 100), 0);
    }
    if y % 400 == 0 {
        div_mod::lemma_fundamental_div_mod(y, 400);
        div_mod::lemma_fundamental_div_mod_converse(y, 100, 4 * (y / 400), 0);
    }
}

/// Closed form of `days_before_year`.
pub proof fn lemma_days_before_year(y: int)
    ensures
        days_before_year(y) == 365 * y + leaps_before(y) - 719528,
    decreases (if y >= 1970 { y - 1970 } else { 1970 - y }),
{
    if y == 1970 {
        assert(leaps_before(1970) == 478);
    } else if y > 1970 {
        lemma_days_before_year(y - 1);
        lemma_leaps_step(y - 1);
    } else {
        lemma_days_before_year(y + 1);
        lemma_leaps_step(y);
    }
}

/// Days from the start of an era (a 400-year cycle beginning on March 1)
/// to the start of its `yoe`-th March-based year.
spec fn year_start_in_era(yoe: int) -> int {
    365 * yoe + yoe / 4 - yoe / 100
}

/// Whether the March-based year `yoe` of an era ends with a February 29,
/// that is whether the following calendar year is a leap year.
spec fn march_year_has_leap_day(yoe: int) -> bool {
    (yoe + 1) % 4 == 0 && ((yoe + 1) % 100 != 0 || yoe + 1 == 400)
}

spec fn year_of_era(doe: int) -> int {
    (doe - doe / 1460 + doe / 36524 - doe / 146096) / 365
}

/// The year-of-era formula finds the March-based year that holds day `doe`.
proof fn lemma_year_of_era(doe: int)
    requires
        0 <= doe <= 146096,
    ensures
        0 <= year_of_era(doe) <= 399,
        year_start_in_era(year_of_era(doe)) <= doe,
        doe - year_start_in_era(year_of_era(doe)) <= 364 + if march_year_has_leap_day(
            year_of_era(doe),
        ) {
            1int
        } else {
            0int
        },
{
    if doe == 146096 {
        assert(year_of_era(doe) == 399);
    } else {
        let c = doe / 36524;
        let r1 = doe % 36524;
        let b = r1 / 1461;
        let r2 = r1 % 1461;
        let y4 = if r2 / 365 < 3 { r2 / 365 } else { 3 };
        let r3 = r2 - 365 * y4;
        assert(0 <= c <= 3);
        assert(0 <= b <= 24);
        assert(b == 24 ==> r2 <= 1459);
        assert(0 <= r3 <= 365);
        assert(r3 == 365 ==> y4 == 3 && r2 == 1460);
        assert(y4 < 3 ==> r3 <= 364);
        assert(doe == 36524 * c + 1461 * b + 365 * y4 + r3);
        let t = 24 * c + b + 365 * y4 + r3;
        let e: int = if t >= 1460 { 1 } else { 0 };
        div_mod::lemma_fundamental_div_mod_converse(doe, 1460, 25 * c + b + e, t - 1460 * e);
        div_mod::lemma_fundamental_div_mod_converse(doe, 36524, c, r1);
        div_mod::lemma_fundamental_div_mod_converse(doe, 146096, 0, doe);
        let yoe = 100 * c + 4 * b + y4;
        assert(0 <= r3 - e <= 364);
        div_mod::lemma_fundamental_div_mod_converse(
            doe - doe / 1460 + doe / 36524 - doe / 146096,
            365,
            yoe,
            r3 - e,
        );
        assert(year_of_era(doe) == yoe);
        div_mod::lemma_fundamental_div_mod_converse(yoe, 4, 25 * c + b, y4);
        div_mod::lemma_fundamental_div_mod_converse(yoe, 100, c, 4 * b + y4);
        assert(year_start_in_era(yoe) == 36524 * c + 1461 * b + 365 * y4);
        if r3 == 365 {
            assert((yoe + 1) % 4 == 0);
            assert((yoe + 1) % 100 != 0);
        }
    }
}

spec fn month_of_march_year(doy: int) -> int {
    (5 * doy + 2) / 153
}

spec fn month_start_in_march_year(mp: int) -> int {
    (153 * mp + 2) / 5
}

/// The month formula finds, in a March-based year, the month holding day
/// `doy` and where that month starts.  Months 0..=9 are March..December of
/// the same calendar year `y`; months 10 and 11 are January and February of
/// the following calendar year, passed here as `y`.
proof fn lemma_month_of_year(doy: int, y: int)
    requires
        0 <= doy <= 365,
    ensures
        0 <= month_of_march_year(doy) <= 11,
        month_start_in_march_year(month_of_march_year(doy)) <= doy,
        month_of_march_year(doy) < 10 ==> {
            let mp = month_of_march_year(doy);
            &&& days_before_month(y, mp + 3) == days_before_month(y, 3)
                + month_start_in_march_year(mp)
            &&& doy - month_start_in_march_year(mp) < days_in_month(y, mp + 3)
        },
        month_of_march_year(doy) >= 10 ==> {
            let mp = month_of_march_year(doy);
            &&& month_start_in_march_year(mp) == 306 + days_before_month(y, mp - 9)
            &&& (doy <= 364 + if is_leap_year(y) { 1int } else { 0int }) ==> doy
                - month_start_in_march_year(mp) < days_in_month(y, mp - 9)
        },
{
    reveal_with_fuel(days_before_month, 13);
    let mp = month_of_march_year(doy);
    if doy < 31 {
        assert(mp == 0);
    } else if doy < 61 {
        assert(mp == 1);
    } else if doy < 92 {
        assert(mp == 2);
    } else if doy < 122 {
        assert(mp == 3);
    } else if doy < 153 {
        assert(mp == 4);
    } else if doy < 184 {
        assert(mp == 5);
    } else if doy < 214 {
        assert(mp == 6);
    } else if doy < 245 {
        assert(mp == 7);
    } else if doy < 275 {
        assert(mp == 8);
    } else if doy < 306 {
        assert(mp == 9);
    } else if doy < 337 {
        assert(mp == 10);
    } else {
        assert(mp == 11);
    }
}

/// The days before a year, counted from the start of its 400-year era.
proof fn lemma_era_year_start(era: int, yoe: int)
    requires
        0 <= yoe <= 399,
    ensures
        days_before_year(400 * era + yoe) + 59 + if is_leap_year(400 * era + yoe) {
            1int
        } else {
            0int
        } == 146097 * era + year_start_in_era(yoe) - 719468,
        days_before_year(400 * era + yoe + 1) == days_before_year(400 * era + yoe)
            + days_in_year(400 * era + yoe),
        is_leap_year(400 * era + yoe + 1) == march_year_has_leap_day(yoe),
{
    let y = 400 * era + yoe;
    lemma_days_before_year(y);
    lemma_days_before_year(y + 1);
    lemma_leaps_step(y);
    div_mod::lemma_fundamental_div_mod_converse(y + 4, 4, 100 * era + (yoe + 4) / 4, (yoe + 4) % 4);
    div_mod::lemma_fundamental_div_mod_converse(
        y + 100,
        100,
        4 * era + (yoe + 100) / 100,
        (yoe + 100) % 100,
    );
    div_mod::lemma_fundamental_div_mod_converse(
        y + 400,
        400,
        era + (yoe + 400) / 400,
        (yoe + 400) % 400,
    );
    div_mod::lemma_fundamental_div_mod_converse(y + 1, 4, 100 * era + (yoe + 1) / 4, (yoe + 1) % 4);
    div_mod::lemma_fundamental_div_mod_converse(
        y + 1,
        100,
        4 * era + (yoe + 1) / 100,
        (yoe + 1) % 100,
    );
    div_mod::lemma_fundamental_div_mod_converse(
        y + 1,
        400,
        era + (yoe + 1) / 400,
        (yoe + 1) % 400,
    );
}

/// Converts a signed count of days since 1970-01-01 into the civil date
/// `(year, month, day)` of the proleptic Gregorian calendar.
pub fn civil_from_days(z: i64) -> (date: (i64, u32, u32))
    requires
        z <= i64::MAX - 719_468,
    ensures
        valid_date(date.0 as int, date.1 as int, date.2 as int),
        days_from_civil(date.0 as int, date.1 as int, date.2 as int) == z,
{
    let z = z + 719_468;
    let era = z.checked_div_euclid(146_097).unwrap();
    let doe = z.checked_rem_euclid(146_097).unwrap();
    proof {
        lemma_year_of_era(doe as int);
    }
    let yoe = (doe - doe / 1460 + doe / 36_524 - doe / 146_096) / 365;
    let y = yoe + era * 400;
    let doy = doe - (365 * yoe + yoe / 4 - yoe / 100);
    let mp = (5 * doy + 2) / 153;
    proof {
        lemma_month_of_year(doy as int, y as int);
        lemma_month_of_year(doy as int, y + 1);
        lemma_era_year_start(era as int, yoe as int);
        reveal_with_fuel(days_before_month, 4);
    }
    let d = (doy - (153 * mp + 2) / 5 + 1) as u32;
    let m = if mp < 10 {
        mp + 3
    } else {
        mp - 9
    } as u32;
    (if m <= 2 {
        y + 1
    } else {
        y
    }, m, d)
}

proof fn lemma_days_before_year_step(y: int)
    ensures
        days_before_year(y + 1) == days_before_year(y) + days_in_year(y),
{
    lemma_days_before_year(y);
    lemma_days_before_year(y + 1);
    lemma_leaps_step(y);
}

pub proof fn lemma_days_before_year_increasing(a: int, b: int)
    requires
        a < b,
    ensures
        days_before_year(a) + days_in_year(a) <= days_before_year(b),
    decreases b - a,
{
    lemma_days_before_year_step(a);
    if a + 1 < b {
        lemma_days_before_year_increasing(a + 1, b);
    }
}

proof fn lemma_days_before_month_increasing(y: int, a: int, b: int)
    requires
        1 <= a < b,
    ensures
        days_before_month(y, a) + days_in_month(y, a) <= days_before_month(y, b),
    decreases b - a,
{
    if a + 1 < b {
        lemma_days_before_month_increasing(y, a + 1, b);
    }
}

pub proof fn lemma_date_within_year(y: int, m: int, d: int)
    requires
        valid_date(y, m, d),
    ensures
        days_before_year(y) <= days_from_civil(y, m, d) < days_before_year(y) + days_in_year(y),
{
    reveal_with_fuel(days_before_month, 13);
    if m < 12 {
        lemma_days_before_month_increasing(y, m, 12);
    }
}

/// Distinct valid dates have distinct day numbers, so `civil_from_days`
/// returns the only valid date whose day number is its argument.
pub proof fn lemma_days_from_civil_injective(y1: int, m1: int, d1: int, y2: int, m2: int, d2: int)
    requires
        valid_date(y1, m1, d1),
        valid_date(y2, m2, d2),
        days_from_civil(y1, m1, d1) == days_from_civil(y2, m2, d2),
    ensures
        y1 == y2 && m1 == m2 && d1 == d2,
{
    lemma_date_within_year(y1, m1, d1);
    lemma_date_within_year(y2, m2, d2);
    if y1 < y2 {
        lemma_days_before_year_increasing(y1, y2);
    } else if y2 < y1 {
        lemma_days_before_year_increasing(y2, y1);
    }
    if m1 < m2 {
        lemma_days_before_month_increasing(y1, m1, m2);
    } else if m2 < m1 {
        lemma_days_before_month_increasing(y1, m2, m1);
    }
}

/// Every day number, however far from 1970, names a valid civil date.
pub proof fn lemma_every_day_has_a_date(z: int)
    ensures
        exists|y: int, m: int, d: int| valid_date(y, m, d) && days_from_civil(y, m, d) == z,
{
    let zp = z + 719468;
    let era = zp / 146097;
    let doe = zp % 146097;
    div_mod::lemma_fundamental_div_mod(zp, 146097);
    lemma_year_of_era(doe);
    let yoe = year_of_era(doe);
    let y = yoe + era * 400;
    let doy = doe - year_start_in_era(yoe);
    let mp = month_of_march_year(doy);
    lemma_month_of_year(doy, y);
    lemma_month_of_year(doy, y + 1);
    lemma_era_year_start(era, yoe);
    reveal_with_fuel(days_before_month, 4);
    let d = doy - month_start_in_march_year(mp) + 1;
    let m = if mp < 10 { mp + 3 } else { mp - 9 };
    let yy = if m <= 2 { y + 1 } else { y };
    assert(valid_date(yy, m, d) && days_from_civil(yy, m, d) == z);
}

/// `y1-m1-d1` comes strictly before `y2-m2-d2` in calendar order.
pub open spec fn date_before(y1: int, m1: int, d1: int, y2: int, m2: int, d2: int) -> bool {
    y1 < y2 || (y1 == y2 && (m1 < m2 || (m1 == m2 && d1 < d2)))
}

/// Day numbers follow calendar order: of two valid dates, the one with the
/// smaller day number comes first in the calendar.
pub proof fn lemma_days_from_civil_ordered(y1: int, m1: int, d1: int, y2: int, m2: int, d2: int)
    requires
        valid_date(y1, m1, d1),
        valid_date(y2, m2, d2),
        days_from_civil(y1, m1, d1) < days_from_civil(y2, m2, d2),
    ensures
        date_before(y1, m1, d1, y2, m2, d2),
{
    lemma_date_within_year(y1, m1, d1);
    lemma_date_within_year(y2, m2, d2);
    if y2 < y1 {
        lemma_days_before_year_increasing(y2, y1);
    } else if y1 == y2 && m2 < m1 {
        lemma_days_before_month_increasing(y1, m2, m1);
    }
}

} // verus!
