use vstd::prelude::*;

verus! {

/// Whether `y` is a leap year in the proleptic Gregorian calendar.
pub open spec fn is_leap_year(y: int) -> bool {
    y % 4 == 0 && (y % 100 != 0 || y % 400 == 0)
}

/// Number of days in month `m` (1..=12) of year `y`.
pub open spec fn days_in_month(y: int, m: int) -> int {
    if m == 2 {
        if is_leap_year(y) { 29 } else { 28 }
    } else if m == 4 || m == 6 || m == 9 || m == 11 {
        30
    } else {
        31
    }
}

/// Whether (`y`, `m`, `d`) names a day of the proleptic Gregorian calendar.
pub open spec fn is_valid_date(y: int, m: int, d: int) -> bool {
    1 <= m <= 12 && 1 <= d <= days_in_month(y, m)
}

/// Leap years counted up to year `y - 1`, with the convention that the
/// difference of two counts is the number of leap years between them.
pub open spec fn leap_years_before(y: int) -> int {
    let p = y - 1;
    p / 4 - p / 100 + p / 400
}

/// Days of year `y` before the first of month `m`.
pub open spec fn days_before_month(y: int, m: int) -> int {
    let base: int = if m == 1 { 0 } else if m == 2 { 31 } else if m == 3 { 59 } else if m == 4 { 90 }
        else if m == 5 { 120 } else if m == 6 { 151 } else if m == 7 { 181 } else if m == 8 { 212 }
        else if m == 9 { 243 } else if m == 10 { 273 } else if m == 11 { 304 } else { 334 };
    base + if m > 2 && is_leap_year(y) { 1int } else { 0int }
}

/// Days from 1970-01-01 to the given date (negative before it).
pub open spec fn days_from_civil(y: int, m: int, d: int) -> int {
    365 * (y - 1970) + (leap_years_before(y) - leap_years_before(1970))
        + days_before_month(y, m) + d - 1
}

/// Days from 0000-03-01 to the first of March of the year `yoe` years into
/// the 400-year era `era`.
spec fn march_first(era: int, yoe: int) -> int {
    era * 146097 + 365 * yoe + yoe / 4 - yoe / 100
}

proof fn lemma_year_offsets(doe: int)
    requires
        0 <= doe <= 146096,
    ensures
        ({
            let yoe = (doe - doe / 1460 + doe / 36524 - doe / 146096) / 365;
            let doy = doe - (365 * yoe + yoe / 4 - yoe / 100);
            &&& 0 <= yoe <= 399
            &&& 0 <= doy <= 365
            &&& doy == 365 ==> is_leap_year(yoe + 1)
        }),
{
    let a = doe / 1460;
    let b = doe / 36524;
    let c = doe / 146096;
    let yoe = (doe - a + b - c) / 365;
    let q4 = yoe / 4;
    let q100 = yoe / 100;
    assert(0 <= yoe <= 399);
    let doy = doe - (365 * yoe + q4 - q100);
    assert(0 <= doy <= 365);
    if doy == 365 {
        assert(is_leap_year(yoe + 1));
    }
}


proof fn lemma_month_offsets(doy: int, leap: bool)
    requires
        0 <= doy <= 365,
        doy == 365 ==> leap,
    ensures
        ({
            let mp = (5 * doy + 2) / 153;
            let d = doy - (153 * mp + 2) / 5 + 1;
            let m = if mp < 10 { mp + 3 } else { mp - 9 };
            &&& 0 <= mp <= 11
            &&& 1 <= m <= 12
            &&& 1 <= d
            &&& (m == 2 ==> d <= if leap { 29int } else { 28int })
            &&& (m != 2 ==> d <= if m == 4 || m == 6 || m == 9 || m == 11 { 30int } else { 31int })
            &&& (m > 2 ==> (153 * mp + 2) / 5 == days_before_month(1, m) - 59)
            &&& (m <= 2 ==> (153 * mp + 2) / 5 == 306 + days_before_month(1, m))
        }),
{
    let mp = (5 * doy + 2) / 153;
    assert(0 <= mp <= 11);
    let d = doy - (153 * mp + 2) / 5 + 1;
    if mp == 0 { assert(d <= 31); }
    else if mp == 1 { assert(d <= 30); }
    else if mp == 2 { assert(d <= 31); }
    else if mp == 3 { assert(d <= 30); }
    else if mp == 4 { assert(d <= 31); }
    else if mp == 5 { assert(d <= 31); }
    else if mp == 6 { assert(d <= 30); }
    else if mp == 7 { assert(d <= 31); }
    else if mp == 8 { assert(d <= 30); }
    else if mp == 9 { assert(d <= 31); }
    else if mp == 10 { assert(d <= 31); }
    else { assert(d <= 29); }
}

proof fn lemma_era_year(era: int, yoe: int, yp: int)
    requires
        0 <= yoe <= 399,
        yp == era * 400 + yoe,
    ensures
        yp / 4 == era * 100 + yoe / 4,
        yp / 100 == era * 4 + yoe / 100,
        yp / 400 == era,
        (yp + 1) % 4 == (yoe + 1) % 4,
        (yp + 1) % 100 == (yoe + 1) % 100,
        (yp + 1) % 400 == (yoe + 1) % 400,
{
}

proof fn lemma_leap_step(y: int)
    ensures
        leap_years_before(y + 1) == leap_years_before(y) + if is_leap_year(y) { 1int } else { 0int },
{
}

/// The date found from an era, a year of era and a day of year counted from
/// March is the one whose day count is that of the first of March plus the
/// day of year.
proof fn lemma_civil_days(era: int, yoe: int, doy: int, leap: bool)
    requires
        0 <= yoe <= 399,
        0 <= doy <= 365,
        doy == 365 ==> leap,
        leap == is_leap_year(era * 400 + yoe + 1),
    ensures
        ({
            let mp = (5 * doy + 2) / 153;
            let d = doy - (153 * mp + 2) / 5 + 1;
            let m = if mp < 10 { mp + 3 } else { mp - 9 };
            let y = era * 400 + yoe + if m <= 2 { 1int } else { 0int };
            &&& is_valid_date(y, m, d)
            &&& days_from_civil(y, m, d) == march_first(era, yoe) + doy - 719468
        }),
{
    let yp = era * 400 + yoe;
    lemma_era_year(era, yoe, yp);
    lemma_month_offsets(doy, leap);
    lemma_leap_step(yp);
    let mp = (5 * doy + 2) / 153;
    let m = if mp < 10 { mp + 3 } else { mp - 9 };
    assert(leap_years_before(1970) == 477);
    assert(leap_years_before(yp + 1) == yp / 4 - yp / 100 + yp / 400);
    if m <= 2 {
        assert(days_before_month(yp + 1, m) == days_before_month(1, m));
    } else {
        assert(days_before_month(yp, m) == days_before_month(1, m)
            + if is_leap_year(yp) { 1int } else { 0int });
    }
}

/// Number of days in year `y`.
pub open spec fn days_in_year(y: int) -> int {
    if is_leap_year(y) { 366 } else { 365 }
}

proof fn lemma_day_within_year(y: int, m: int, d: int)
    requires
        is_valid_date(y, m, d),
    ensures
        0 <= days_from_civil(y, m, d) - days_from_civil(y, 1, 1) < days_in_year(y),
{
}

proof fn lemma_month_order(y: int, m1: int, d1: int, m2: int, d2: int)
    requires
        is_valid_date(y, m1, d1),
        is_valid_date(y, m2, d2),
        m1 < m2 || (m1 == m2 && d1 < d2),
    ensures
        days_from_civil(y, m1, d1) < days_from_civil(y, m2, d2),
{
}

proof fn lemma_year_start_order(y1: int, y2: int)
    requires
        y1 < y2,
    ensures
        days_from_civil(y1, 1, 1) + days_in_year(y1) <= days_from_civil(y2, 1, 1),
    decreases y2 - y1,
{
    lemma_leap_step(y1);
    if y2 > y1 + 1 {
        lemma_year_start_order(y1 + 1, y2);
    }
}

/// Distinct dates fall on distinct days.
pub proof fn lemma_days_from_civil_injective(y1: int, m1: int, d1: int, y2: int, m2: int, d2: int)
    requires
        is_valid_date(y1, m1, d1),
        is_valid_date(y2, m2, d2),
        days_from_civil(y1, m1, d1) == days_from_civil(y2, m2, d2),
    ensures
        y1 == y2 && m1 == m2 && d1 == d2,
{
    lemma_day_within_year(y1, m1, d1);
    lemma_day_within_year(y2, m2, d2);
    if y1 < y2 {
        lemma_year_start_order(y1, y2);
    } else if y2 < y1 {
        lemma_year_start_order(y2, y1);
    } else if m1 < m2 || (m1 == m2 && d1 < d2) {
        lemma_month_order(y1, m1, d1, m2, d2);
    } else if m2 < m1 || (m1 == m2 && d2 < d1) {
        lemma_month_order(y1, m2, d2, m1, d1);
    }
}

/// The date of the day `days` days after 1970-01-01.
pub open spec fn civil_of(days: int) -> (int, int, int) {
    choose|t: (int, int, int)| is_valid_date(t.0, t.1, t.2) && days_from_civil(t.0, t.1, t.2) == days
}

/// The proleptic Gregorian date (year, month, day) of the day `days` days
/// after 1970-01-01.
pub fn civil_from_days(days: i64) -> (r: (i64, u32, u32))
    requires
        days <= i64::MAX - 719468,
    ensures
        is_valid_date(r.0 as int, r.1 as int, r.2 as int),
        days_from_civil(r.0 as int, r.1 as int, r.2 as int) == days,
        (r.0 as int, r.1 as int, r.2 as int) == civil_of(days as int),
{
    let z = days + 719468;
    let era = if z >= 0 { z } else { z - 146096 } / 146097;
    assert(era == z / 146097);
    let doe = (z - era * 146097) as u32;
    let yoe = (doe - doe / 1460 + doe / 36524 - doe / 146096) / 365;
    proof { lemma_year_offsets(doe as int); }
    let doy = doe - (365 * yoe + yoe / 4 - yoe / 100);
    proof {
        let yp = era * 400 + yoe;
        lemma_era_year(era as int, yoe as int, yp);
        lemma_civil_days(era as int, yoe as int, doy as int, is_leap_year(yp + 1));
    }
    let y = yoe as i64 + era * 400;
    let mp = (5 * doy + 2) / 153;
    let d = doy - (153 * mp + 2) / 5 + 1;
    let m = if mp < 10 { mp + 3 } else { mp - 9 };
    let y = if m <= 2 { y + 1 } else { y };
    proof {
        let t = (y as int, m as int, d as int);
        assert(is_valid_date(t.0, t.1, t.2) && days_from_civil(t.0, t.1, t.2) == days);
        let c = civil_of(days as int);
        lemma_days_from_civil_injective(t.0, t.1, t.2, c.0, c.1, c.2);
    }
    (y, m, d)
}


/// Every date is the date of its own day count.
pub proof fn lemma_civil_of_days_from_civil(y: int, m: int, d: int)
    requires
        is_valid_date(y, m, d),
    ensures
        civil_of(days_from_civil(y, m, d)) == (y, m, d),
{
    let days = days_from_civil(y, m, d);
    let w = (y, m, d);
    assert(is_valid_date(w.0, w.1, w.2) && days_from_civil(w.0, w.1, w.2) == days);
    let c = civil_of(days);
    lemma_days_from_civil_injective(y, m, d, c.0, c.1, c.2);
}

} // verus!
