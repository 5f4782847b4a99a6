//! Proleptic Gregorian calendar arithmetic: day numbers relative to the Unix
//! epoch, civil dates, and weekdays. Dates of years -1 through 10000 cover
//! every instant the parser accepts, localized by any standard UTC offset.

use vstd::prelude::*;
use vstd::arithmetic::div_mod::lemma_fundamental_div_mod_converse;

verus! {

/// Whether a year is a leap year of the proleptic Gregorian calendar.
pub open spec fn is_leap_year(y: int) -> bool {
    (y % 4 == 0 && y % 100 != 0) || y % 400 == 0
}

/// The number of days of month `m` (1 through 12) in year `y`.
pub open spec fn days_in_month(y: int, m: int) -> int {
    if m == 2 {
        if is_leap_year(y) {
            29
        } else {
            28
        }
    } else if m == 4 || m == 6 || m == 9 || m == 11 {
        30
    } else {
        31
    }
}

/// The number of days of year `y` that precede month `m`; at `m == 13` this
/// is the length of the whole year.
pub open spec fn month_start_in_year(y: int, m: int) -> int
    decreases m,
{
    if m <= 1 {
        0
    } else {
        month_start_in_year(y, m - 1) + days_in_month(y, m - 1)
    }
}

/// The number of days of year `y`.
pub open spec fn year_length(y: int) -> int {
    month_start_in_year(y, 13)
}

/// The day number (days since 1970-01-01) of January 1 of year `y`, anchored
/// at year -1, the earliest year any accepted instant can localize into.
pub open spec fn year_start(y: int) -> int
    decreases y + 1,
    when y >= -1
{
    if y == -1 {
        -719893
    } else {
        year_start(y - 1) + year_length(y - 1)
    }
}

/// The day number of the civil date `y`-`m`-`d`.
pub open spec fn spec_civil_to_days(y: int, m: int, d: int) -> int {
    year_start(y) + month_start_in_year(y, m) + d - 1
}

/// Whether `y`-`m`-`d` is a civil date the engine models.
pub open spec fn valid_civil_date(y: int, m: int, d: int) -> bool {
    &&& -1 <= y
    &&& 1 <= m <= 12
    &&& 1 <= d <= days_in_month(y, m)
}

/// The unique civil date with the given day number.
pub open spec fn civil_of_days(days: int) -> (int, int, int) {
    choose|c: (int, int, int)|
        valid_civil_date(c.0, c.1, c.2) && spec_civil_to_days(c.0, c.1, c.2) == days
}

/// The weekday index of a day number: 0 is Sunday through 6 is Saturday.
pub open spec fn spec_weekday_of_days(days: int) -> int {
    (days + 4) % 7
}

/// A year has 365 days, or 366 in a leap year.
pub proof fn lemma_year_length(y: int)
    ensures
        year_length(y) == if is_leap_year(y) { 366int } else { 365int },
{
    assert(month_start_in_year(y, 1) == 0);
    assert(month_start_in_year(y, 2) == 31);
    assert(month_start_in_year(y, 3) == 31 + days_in_month(y, 2));
    assert(month_start_in_year(y, 4) == month_start_in_year(y, 3) + 31);
    assert(month_start_in_year(y, 5) == month_start_in_year(y, 4) + 30);
    assert(month_start_in_year(y, 6) == month_start_in_year(y, 5) + 31);
    assert(month_start_in_year(y, 7) == month_start_in_year(y, 6) + 30);
    assert(month_start_in_year(y, 8) == month_start_in_year(y, 7) + 31);
    assert(month_start_in_year(y, 9) == month_start_in_year(y, 8) + 31);
    assert(month_start_in_year(y, 10) == month_start_in_year(y, 9) + 30);
    assert(month_start_in_year(y, 11) == month_start_in_year(y, 10) + 31);
    assert(month_start_in_year(y, 12) == month_start_in_year(y, 11) + 30);
    assert(month_start_in_year(y, 13) == month_start_in_year(y, 12) + 31);
}

/// Months start later in the year the higher their number.
pub proof fn lemma_month_start_mono(y: int, m1: int, m2: int)
    requires
        1 <= m1 <= m2 <= 13,
    ensures
        month_start_in_year(y, m1) <= month_start_in_year(y, m2),
    decreases m2,
{
    if m1 < m2 {
        lemma_month_start_mono(y, m1, m2 - 1);
    }
}

/// January 1 of year `y` lies between 365 and 366 days per elapsed year from
/// the anchor.
pub proof fn lemma_year_start_bounds(y: int)
    requires
        y >= -1,
    ensures
        -719893 + 365 * (y + 1) <= year_start(y) <= -719893 + 366 * (y + 1),
    decreases y + 1,
{
    if y > -1 {
        lemma_year_start_bounds(y - 1);
        lemma_year_length(y - 1);
    }
}

/// Later years start on later days.
pub proof fn lemma_year_start_mono(y1: int, y2: int)
    requires
        -1 <= y1 <= y2,
    ensures
        year_start(y1) <= year_start(y2),
        y1 < y2 ==> year_start(y1) + 365 <= year_start(y2),
    decreases y2 + 1,
{
    if y1 < y2 {
        lemma_year_start_mono(y1, y2 - 1);
        lemma_year_length(y2 - 1);
    }
}

/// Every day of a valid civil date of year `y` falls within that year.
pub proof fn lemma_civil_to_days_in_year(y: int, m: int, d: int)
    requires
        valid_civil_date(y, m, d),
    ensures
        year_start(y) <= spec_civil_to_days(y, m, d) < year_start(y + 1),
{
    lemma_month_start_mono(y, 1, m);
    assert(month_start_in_year(y, m + 1) == month_start_in_year(y, m) + days_in_month(y, m));
    lemma_month_start_mono(y, m + 1, 13);
    assert(year_start(y + 1) == year_start(y) + year_length(y));
}

/// Distinct valid civil dates have distinct day numbers.
pub proof fn lemma_civil_date_injective(y1: int, m1: int, d1: int, y2: int, m2: int, d2: int)
    requires
        valid_civil_date(y1, m1, d1),
        valid_civil_date(y2, m2, d2),
        spec_civil_to_days(y1, m1, d1) == spec_civil_to_days(y2, m2, d2),
    ensures
        y1 == y2 && m1 == m2 && d1 == d2,
{
    lemma_civil_to_days_in_year(y1, m1, d1);
    lemma_civil_to_days_in_year(y2, m2, d2);
    if y1 < y2 {
        lemma_year_start_mono(y1 + 1, y2);
    } else if y2 < y1 {
        lemma_year_start_mono(y2 + 1, y1);
    }
    if m1 < m2 {
        assert(month_start_in_year(y1, m1 + 1) == month_start_in_year(y1, m1) + days_in_month(
            y1,
            m1,
        ));
        lemma_month_start_mono(y1, m1 + 1, m2);
    } else if m2 < m1 {
        assert(month_start_in_year(y1, m2 + 1) == month_start_in_year(y1, m2) + days_in_month(
            y1,
            m2,
        ));
        lemma_month_start_mono(y1, m2 + 1, m1);
    }
}

/// Whether year `y` is a leap year.
pub fn is_leap(y: i64) -> (r: bool)
    ensures
        r == is_leap_year(y as int),
{
    let m4 = y.checked_rem_euclid(4).unwrap();
    let m100 = y.checked_rem_euclid(100).unwrap();
    let m400 = y.checked_rem_euclid(400).unwrap();
    (m4 == 0 && m100 != 0) || m400 == 0
}

/// The number of days of month `m` in year `y`.
pub fn month_length(y: i64, m: u8) -> (r: u8)
    requires
        1 <= m <= 12,
    ensures
        r as int == days_in_month(y as int, m as int),
        28 <= r <= 31,
{
    if m == 2 {
        if is_leap(y) {
            29
        } else {
            28
        }
    } else if m == 4 || m == 6 || m == 9 || m == 11 {
        30
    } else {
        31
    }
}

/// The number of days of year `y`.
pub fn year_days(y: i64) -> (r: u16)
    ensures
        r as int == year_length(y as int),
        365 <= r <= 366,
{
    proof {
        lemma_year_length(y as int);
    }
    if is_leap(y) {
        366
    } else {
        365
    }
}

/// The day number of January 1 of year `y`.
pub fn year_start_days(y: i64) -> (r: i64)
    requires
        -1 <= y <= 10000,
    ensures
        r as int == year_start(y as int),
{
    let mut acc: i64 = -719893;
    let mut i: i64 = -1;
    while i < y
        invariant
            -1 <= i <= y <= 10000,
            acc as int == year_start(i as int),
            -719893 + 365 * (i + 1) <= acc <= -719893 + 366 * (i + 1),
        decreases y - i,
    {
        let yl = year_days(i);
        acc = acc + yl as i64;
        i = i + 1;
    }
    acc
}

/// The day number of the civil date `y`-`m`-`d`.
pub fn civil_to_days(y: i64, m: u8, d: u8) -> (r: i64)
    requires
        -1 <= y <= 10000,
        1 <= m <= 12,
        1 <= d <= 31,
    ensures
        r as int == spec_civil_to_days(y as int, m as int, d as int),
        -719893 <= r <= 3000000,
{
    let ys = year_start_days(y);
    proof {
        lemma_year_start_bounds(y as int);
    }
    let mut ms: i64 = 0;
    let mut mm: u8 = 1;
    while mm < m
        invariant
            1 <= mm <= m <= 12,
            ms as int == month_start_in_year(y as int, mm as int),
            0 <= ms <= 31 * (mm - 1),
        decreases m - mm,
    {
        ms = ms + month_length(y, mm) as i64;
        mm = mm + 1;
    }
    ys + ms + (d as i64) - 1
}

/// The valid civil date carrying the given day number: year, month, day.
pub fn days_to_civil(days: i64) -> (r: (i64, u8, u8))
    requires
        -719893 <= days <= 4000000,
    ensures
        valid_civil_date(r.0 as int, r.1 as int, r.2 as int),
        spec_civil_to_days(r.0 as int, r.1 as int, r.2 as int) == days as int,
        (r.0 as int, r.1 as int, r.2 as int) == civil_of_days(days as int),
        -1 <= r.0 <= 13000,
{
    let mut y: i64 = -1;
    let mut rem: i64 = days + 719893;
    let mut yl = year_days(y);
    while rem >= yl as i64
        invariant
            -1 <= y <= 13000,
            rem as int == days as int - year_start(y as int),
            0 <= rem,
            yl as int == year_length(y as int),
            365 <= yl <= 366,
            -719893 <= days <= 4000000,
        decreases rem,
    {
        rem = rem - yl as i64;
        y = y + 1;
        yl = year_days(y);
        proof {
            lemma_year_start_bounds(y as int);
        }
    }
    let mut m: u8 = 1;
    let mut ml = month_length(y, m);
    while rem >= ml as i64
        invariant
            1 <= m <= 12,
            -1 <= y <= 13000,
            ml as int == days_in_month(y as int, m as int),
            rem as int == days as int - year_start(y as int) - month_start_in_year(
                y as int,
                m as int,
            ),
            0 <= rem,
            rem as int + month_start_in_year(y as int, m as int) < year_length(y as int),
        decreases 12 - m,
    {
        proof {
            assert(month_start_in_year(y as int, m as int + 1) == month_start_in_year(
                y as int,
                m as int,
            ) + days_in_month(y as int, m as int));
            if m == 12 {
                assert(false);
            } else {
                lemma_month_start_mono(y as int, m as int + 1, 13);
            }
        }
        rem = rem - ml as i64;
        m = m + 1;
        ml = month_length(y, m);
    }
    let d: u8 = (rem + 1) as u8;
    proof {
        let w = (y as int, m as int, d as int);
        assert(valid_civil_date(w.0, w.1, w.2) && spec_civil_to_days(w.0, w.1, w.2)
            == days as int);
        assert(exists|c: (int, int, int)|
            valid_civil_date(c.0, c.1, c.2) && spec_civil_to_days(c.0, c.1, c.2) == days as int);
        let c = civil_of_days(days as int);
        assert(valid_civil_date(c.0, c.1, c.2) && spec_civil_to_days(c.0, c.1, c.2)
            == days as int);
        lemma_civil_date_injective(c.0, c.1, c.2, w.0, w.1, w.2);
    }
    (y, m, d)
}

/// The weekday index of a day number: 0 is Sunday through 6 is Saturday.
pub fn weekday_from_days(days: i64) -> (r: u8)
    requires
        -10000000 <= days <= 10000000,
    ensures
        r as int == spec_weekday_of_days(days as int),
        r < 7,
{
    let w = (days + 4).checked_rem_euclid(7).unwrap();
    w as u8
}

} // verus!
