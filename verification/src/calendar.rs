//! The proleptic Gregorian calendar in UTC: dates as day numbers and back.

use vstd::prelude::*;

verus! {

/// Whether the year has a 29th of February.
pub open spec fn is_leap(y: int) -> bool {
    y % 4 == 0 && (y % 100 != 0 || y % 400 == 0)
}

/// Days from a fixed day to the 1st of January of year `y`.
pub open spec fn days_before_year(y: int) -> int {
    365 * y + (y - 1) / 4 - (y - 1) / 100 + (y - 1) / 400
}

/// Days from the 1st of January to the 1st of month `m` of year `y`.
pub open spec fn days_before_month(y: int, m: int) -> int {
    let common: int = if m == 1 {
        0
    } else if m == 2 {
        31
    } else if m == 3 {
        59
    } else if m == 4 {
        90
    } else if m == 5 {
        120
    } else if m == 6 {
        151
    } else if m == 7 {
        181
    } else if m == 8 {
        212
    } else if m == 9 {
        243
    } else if m == 10 {
        273
    } else if m == 11 {
        304
    } else {
        334
    };
    if m > 2 && is_leap(y) {
        common + 1
    } else {
        common
    }
}

pub open spec fn days_in_month(y: int, m: int) -> int {
    if m == 2 {
        if is_leap(y) {
            29
        } else {
            28
        }
    } else if m == 4 || m == 6 || m == 9 || m == 11 {
        30
    } else {
        31
    }
}

/// A day of the calendar.
pub open spec fn valid_date(y: int, m: int, d: int) -> bool {
    1 <= m <= 12 && 1 <= d <= days_in_month(y, m)
}

/// Days from the 1st of January 1970 to the given date. A day past the end of
/// its month counts on into the next one.
pub open spec fn epoch_day(y: int, m: int, d: int) -> int {
    days_before_year(y) - days_before_year(1970) + days_before_month(y, m) + d - 1
}

/// The date of day `n`, counted from the 1st of January 1970.
pub open spec fn date_of_day(n: int) -> (int, int, int) {
    choose|y: int, m: int, d: int| valid_date(y, m, d) && #[trigger] epoch_day(y, m, d) == n
}

proof fn lemma_year_length(y: int)
    ensures
        days_before_year(y + 1) - days_before_year(y) == (if is_leap(y) {
            366int
        } else {
            365int
        }),
{
}

proof fn lemma_year_order(y: int, z: int)
    requires
        y <= z,
    ensures
        days_before_year(z) - days_before_year(y) >= 365 * (z - y),
{
}

proof fn lemma_month_ends(y: int, m: int)
    requires
        1 <= m <= 12,
    ensures
        m < 12 ==> days_before_month(y, m) + days_in_month(y, m) == days_before_month(y, m + 1),
        days_before_month(y, 12) + days_in_month(y, 12) == days_before_year(y + 1)
            - days_before_year(y),
        0 <= days_before_month(y, m),
        days_before_month(y, m) + days_in_month(y, m) <= days_before_year(y + 1)
            - days_before_year(y),
{
    lemma_year_length(y);
}

/// A later date has a larger day number.
pub proof fn epoch_day_increases(a: (int, int, int), b: (int, int, int))
    requires
        valid_date(a.0, a.1, a.2),
        valid_date(b.0, b.1, b.2),
        a.0 < b.0 || (a.0 == b.0 && (a.1 < b.1 || (a.1 == b.1 && a.2 < b.2))),
    ensures
        epoch_day(a.0, a.1, a.2) < epoch_day(b.0, b.1, b.2),
{
    lemma_month_ends(a.0, a.1);
    lemma_month_ends(b.0, b.1);
    if a.0 < b.0 {
        lemma_year_order(a.0 + 1, b.0);
    }
}

/// The date of a day number is the one valid date that has that number.
pub proof fn date_of_day_is(y: int, m: int, d: int)
    requires
        valid_date(y, m, d),
    ensures
        date_of_day(epoch_day(y, m, d)) == (y, m, d),
{
    let n = epoch_day(y, m, d);
    let (y2, m2, d2) = date_of_day(n);
    assert(valid_date(y2, m2, d2) && epoch_day(y2, m2, d2) == n);
    if y2 < y || (y2 == y && (m2 < m || (m2 == m && d2 < d))) {
        epoch_day_increases((y2, m2, d2), (y, m, d));
    }
    if y < y2 || (y2 == y && (m < m2 || (m2 == m && d < d2))) {
        epoch_day_increases((y, m, d), (y2, m2, d2));
    }
}

/// Milliseconds from the start of 1970 to the given minute, in UTC.
pub open spec fn epoch_ms(y: int, m: int, d: int, hour: int, minute: int) -> int {
    (epoch_day(y, m, d) * 86_400 + hour * 3_600 + minute * 60) * 1_000
}

/// Milliseconds from the start of 1970 to the given minute, in UTC.
pub fn date_to_epoch_ms(year: i64, month: i64, day: i64, hour: i64, minute: i64) -> (r: i64)
    requires
        1 <= month <= 12,
        i64::MIN <= epoch_ms(year as int, month as int, day as int, hour as int, minute as int)
            <= i64::MAX,
    ensures
        r == epoch_ms(year as int, month as int, day as int, hour as int, minute as int),
{
    wide_epoch_ms(year, month, day, hour, minute) as i64
}

/// Days to the start of a year, counted as `days_before_year` does.
fn year_start(year: i64) -> (r: i128)
    ensures
        r == days_before_year(year as int),
        -4_000_000_000_000_000_000_000 <= r <= 4_000_000_000_000_000_000_000,
{
    // Shifted by a whole number of 400-year cycles, the year is positive.
    let p: i128 = year as i128 + 14_411_518_807_585_587_199;
    let quads: i128 = p / 4 - 3_602_879_701_896_396_800;
    let centuries: i128 = p / 100 - 144_115_188_075_855_872;
    let cycles: i128 = p / 400 - 36_028_797_018_963_968;
    assert(quads == (year - 1) / 4);
    assert(centuries == (year - 1) / 100);
    assert(cycles == (year - 1) / 400);
    365 * (year as i128) + quads - centuries + cycles
}

fn leap_year(year: i64) -> (r: bool)
    ensures
        r == is_leap(year as int),
{
    let y: i128 = year as i128 + 14_411_518_807_585_587_200;
    assert(y % 4 == year % 4);
    assert(y % 100 == year % 100);
    assert(y % 400 == year % 400);
    y % 4 == 0 && (y % 100 != 0 || y % 400 == 0)
}

fn month_start(year: i64, month: i64) -> (r: i128)
    requires
        1 <= month <= 12,
    ensures
        r == days_before_month(year as int, month as int),
        0 <= r <= 335,
{
    let common: i128 = match month {
        1 => 0,
        2 => 31,
        3 => 59,
        4 => 90,
        5 => 120,
        6 => 151,
        7 => 181,
        8 => 212,
        9 => 243,
        10 => 273,
        11 => 304,
        _ => 334,
    };
    if month > 2 && leap_year(year) {
        common + 1
    } else {
        common
    }
}

/// As `date_to_epoch_ms`, in an integer wide enough for every year.
pub fn wide_epoch_ms(year: i64, month: i64, day: i64, hour: i64, minute: i64) -> (r: i128)
    requires
        1 <= month <= 12,
    ensures
        r == epoch_ms(year as int, month as int, day as int, hour as int, minute as int),
{
    let days: i128 = year_start(year) - 719_527 + month_start(year, month) + day as i128 - 1;
    assert(days == epoch_day(year as int, month as int, day as int));
    (days * 86_400 + hour as i128 * 3_600 + minute as i128 * 60) * 1_000
}

proof fn lemma_march_year(y: int)
    ensures
        days_before_year(y) + days_before_month(y, 3) == 365 * y + y / 4 - y / 100 + y / 400 + 59,
        days_before_year(y + 1) == 365 * (y + 1) + y / 4 - y / 100 + y / 400,
{
}

/// A year that starts in March, by its 400-year cycle, century, 4-year cycle
/// and place in it.
proof fn lemma_march_cycle(era: int, century: int, cycle: int, yoq: int)
    requires
        0 <= century <= 3,
        0 <= cycle <= 24,
        0 <= yoq <= 3,
    ensures
        ({
            let y = 400 * era + 100 * century + 4 * cycle + yoq;
            &&& y / 400 == era
            &&& y / 100 == 4 * era + century
            &&& y / 4 == 100 * era + 25 * century + cycle
            &&& yoq == 3 && (cycle < 24 || century == 3) ==> is_leap(y + 1)
        }),
{
    let y = 400 * era + 100 * century + 4 * cycle + yoq;
    let e = y / 400;
    assert(e == era);
    assert(y / 100 == 4 * era + century);
    assert(y / 4 == 100 * era + 25 * century + cycle);
    if yoq == 3 && (cycle < 24 || century == 3) {
        assert((y + 1) % 4 == 0);
        if cycle < 24 {
            assert((y + 1) % 100 == 4 * cycle + 4);
        } else {
            assert((y + 1) % 400 == 0);
        }
    }
}

/// The month and the day of a day in a year that starts in March.
proof fn lemma_march_month(doy: int, mp: int, d: int)
    requires
        0 <= doy <= 365,
        mp == (5 * doy + 2) / 153,
        d == doy - (153 * mp + 2) / 5 + 1,
    ensures
        0 <= mp <= 11,
        mp < 10 ==> forall|y: int| #[trigger]
            valid_date(y, mp + 3, d) && days_before_month(y, mp + 3) + d - 1 == days_before_month(
                y,
                3,
            ) + doy,
        mp >= 10 ==> forall|y: int|
            #![trigger valid_date(y, mp - 9, d)]
            (doy == 365 ==> is_leap(y)) ==> valid_date(y, mp - 9, d) && days_before_month(y, mp - 9)
                + d - 1 == doy - 306,
{
    assert(0 <= mp <= 11);
    assert(mp == 0 || mp == 1 || mp == 2 || mp == 3 || mp == 4 || mp == 5 || mp == 6 || mp == 7
        || mp == 8 || mp == 9 || mp == 10 || mp == 11);
}

/// The date of day `n`, counted from the 1st of January 1970.
pub fn date_from_day(n: i64) -> (r: (i64, i64, i64))
    requires
        -200_000_000_000 <= n <= 200_000_000_000,
    ensures
        date_of_day(n as int) == (r.0 as int, r.1 as int, r.2 as int),
        valid_date(r.0 as int, r.1 as int, r.2 as int),
        epoch_day(r.0 as int, r.1 as int, r.2 as int) == n,
{
    // Days since the 1st of March of a year far in the past.
    let z: i64 = n + 292_194_719_468;
    let (era, century, cycle, yoq, doy): (i64, i64, i64, i64, i64) = march_parts(z);
    let y: i64 = 400 * (era - 2_000_000) + 100 * century + 4 * cycle + yoq;
    let mp: i64 = (5 * doy + 2) / 153;
    let d: i64 = doy - (153 * mp + 2) / 5 + 1;
    proof {
        let w = y as int;
        lemma_march_cycle(era - 2_000_000, century as int, cycle as int, yoq as int);
        assert(365 * w + w / 4 - w / 100 + w / 400 + doy == n + 719_468);
        lemma_march_year(w);
        lemma_march_month(doy as int, mp as int, d as int);
    }
    let (year, month): (i64, i64) = if mp < 10 {
        assert(valid_date(y as int, mp + 3, d as int));
        (y, mp + 3)
    } else {
        assert(valid_date(y + 1, mp - 9, d as int));
        (y + 1, mp - 9)
    };
    proof {
        assert(epoch_day(year as int, month as int, d as int) == n);
        date_of_day_is(year as int, month as int, d as int);
    }
    (year, month, d)
}

/// A day count since a 1st of March that opens a 400-year cycle, taken apart.
fn march_parts(z: i64) -> (r: (i64, i64, i64, i64, i64))
    requires
        0 <= z <= 600_000_000_000,
    ensures
        0 <= r.0 <= 4_200_000,
        0 <= r.1 <= 3,
        0 <= r.2 <= 24,
        0 <= r.3 <= 3,
        0 <= r.4 <= 365,
        r.4 == 365 ==> r.3 == 3 && (r.2 < 24 || r.1 == 3),
        z == 146_097 * r.0 + 36_524 * r.1 + 1_461 * r.2 + 365 * r.3 + r.4,
{
    let era: i64 = z / 146_097;
    let doe: i64 = z % 146_097;
    let century: i64 = if doe / 36_524 > 3 {
        3
    } else {
        doe / 36_524
    };
    let doc: i64 = doe - 36_524 * century;
    let cycle: i64 = doc / 1_461;
    let doq: i64 = doc - 1_461 * cycle;
    let yoq: i64 = if doq / 365 > 3 {
        3
    } else {
        doq / 365
    };
    (era, century, cycle, yoq, doq - 365 * yoq)
}

/// The calendar runs on by one day at a time from the 1st of January 1970, over
/// the ends of months and years.
pub proof fn days_follow_one_another(y: int, m: int, d: int)
    requires
        1 <= m <= 12,
    ensures
        epoch_day(1970, 1, 1) == 0,
        epoch_day(y, m, d + 1) == epoch_day(y, m, d) + 1,
        epoch_day(y + 1, 1, 1) == epoch_day(y, 12, 31) + 1,
        m == 1 || m == 3 || m == 5 || m == 7 || m == 8 || m == 10 ==> epoch_day(y, m + 1, 1)
            == epoch_day(y, m, 31) + 1,
        m == 4 || m == 6 || m == 9 || m == 11 ==> epoch_day(y, m + 1, 1) == epoch_day(y, m, 30) + 1,
        y % 4 == 0 && (y % 100 != 0 || y % 400 == 0) ==> epoch_day(y, 3, 1) == epoch_day(y, 2, 29)
            + 1,
        !(y % 4 == 0 && (y % 100 != 0 || y % 400 == 0)) ==> epoch_day(y, 3, 1) == epoch_day(
            y,
            2,
            28,
        ) + 1,
{
    lemma_year_length(y);
}

/// A minute of a day is so many minutes behind its midnight, each of 60 000
/// milliseconds.
pub proof fn minutes_follow_midnight(y: int, m: int, d: int, hour: int, minute: int)
    ensures
        epoch_ms(y, m, d, hour, minute) == epoch_day(y, m, d) * 86_400_000 + hour * 3_600_000
            + minute * 60_000,
        epoch_ms(y, m, d, hour, minute + 1) == epoch_ms(y, m, d, hour, minute) + 60_000,
        epoch_ms(y, m, d, hour, 60) == epoch_ms(y, m, d, hour + 1, 0),
        epoch_ms(y, m, d, 24, 0) == epoch_ms(y, m, d + 1, 0, 0),
{
}

/// The days of a month that exist are those the calendar has.
pub proof fn valid_days_are_those_of_the_month(y: int, m: int, d: int)
    ensures
        valid_date(y, m, d) ==> 1 <= m <= 12 && 1 <= d <= 31,
        1 <= m <= 12 && 1 <= d <= 28 ==> valid_date(y, m, d),
        1 <= m <= 12 && m != 2 && 1 <= d <= 30 ==> valid_date(y, m, d),
        valid_date(y, m, 31) <==> m == 1 || m == 3 || m == 5 || m == 7 || m == 8 || m == 10 || m
            == 12,
        !valid_date(y, 2, 30),
        valid_date(y, 2, 29) <==> y % 4 == 0 && (y % 100 != 0 || y % 400 == 0),
{
}

} // verus!
