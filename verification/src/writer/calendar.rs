//! Civil dates from day counts, for the creation date of a document.

use vstd::prelude::*;

verus! {

/// Whether a year of the proleptic Gregorian calendar is a leap year.
pub open spec fn is_leap_year(y: int) -> bool {
    y % 4 == 0 && (y % 100 != 0 || y % 400 == 0)
}

proof fn lemma_year_of_era(doe: u32)
    by (bit_vector)
    requires
        doe <= 146096,
    ensures
        ({
            let yoe = (doe - doe / 1460 + doe / 36524 - doe / 146096) / 365;
            let start = 365 * yoe + yoe / 4 - yoe / 100;
            &&& yoe <= 399
            &&& start <= doe
            &&& doe - start <= 365
            &&& (doe - start == 365 ==> (yoe % 4 == 3 && (yoe % 100 != 99 || yoe == 399)))
        }),
{
}


/// Days in month `m` of year `y`.
pub open spec fn days_in_month(y: int, m: int) -> int {
    if m == 2 {
        if is_leap_year(y) { 29 } else { 28 }
    } else if m == 4 || m == 6 || m == 9 || m == 11 {
        30
    } else {
        31
    }
}

/// Whether year `y`, month `m`, day `d` name a day of the calendar.
pub open spec fn valid_date(y: int, m: int, d: int) -> bool {
    1 <= m <= 12 && 1 <= d <= days_in_month(y, m)
}

/// The number of days from 1970-01-01 to the given date (negative before
/// it), counted in 400-year eras of 146097 days, each starting on March 1.
pub open spec fn days_from_civil(y: int, m: int, d: int) -> int {
    let y1 = if m <= 2 { y - 1 } else { y };
    let era = y1 / 400;
    let yoe = y1 - era * 400;
    let mp = if m > 2 { m - 3 } else { m + 9 };
    let doy = (153 * mp + 2) / 5 + d - 1;
    let doe = yoe * 365 + yoe / 4 - yoe / 100 + doy;
    era * 146097 + doe - 719468
}

proof fn lemma_month_of_year(doy: u32)
    by (bit_vector)
    requires
        doy <= 365,
    ensures
        ({
            let mp = (5 * doy + 2) / 153;
            let ms = (153 * mp + 2) / 5;
            &&& mp <= 11
            &&& ms <= doy
            &&& (mp == 0 || mp == 2 || mp == 4 || mp == 5 || mp == 7 || mp == 9 || mp == 10) ==> doy
                - ms <= 30
            &&& (mp == 1 || mp == 3 || mp == 6 || mp == 8) ==> doy - ms <= 29
            &&& mp == 11 ==> (doy - ms <= 28 && (doy - ms == 28 ==> doy == 365))
        }),
{
}

/// The date of a day count from 1970-01-01: the valid date whose
/// `days_from_civil` is `days` (there is exactly one, see
/// `lemma_civil_from_days` and `lemma_days_from_civil_injective`).
pub open spec fn civil_from_days(days: int) -> (int, int, int) {
    choose|ymd: (int, int, int)| valid_date(ymd.0, ymd.1, ymd.2) && days_from_civil(ymd.0, ymd.1, ymd.2) == days
}

/// Every day count has a date.
pub proof fn lemma_civil_from_days(days: int)
    ensures
        valid_date(civil_from_days(days).0, civil_from_days(days).1, civil_from_days(days).2),
        days_from_civil(civil_from_days(days).0, civil_from_days(days).1, civil_from_days(days).2) == days,
{
    let z = days + 719468;
    vstd::arithmetic::div_mod::lemma_fundamental_div_mod(z, 146097);
    lemma_civil_of(z / 146097, z % 146097);
    let w = civil_of(z / 146097, z % 146097);
    assert(valid_date(w.0, w.1, w.2) && days_from_civil(w.0, w.1, w.2) == days);
}

/// Year (counted from era start), month and day of day `doe` of a 400-year
/// era that starts on March 1 of year `era * 400`.
pub open spec fn civil_of(era: int, doe: int) -> (int, int, int) {
    let yoe = (doe - doe / 1460 + doe / 36524 - doe / 146096) / 365;
    let y = yoe + era * 400;
    let doy = doe - (365 * yoe + yoe / 4 - yoe / 100);
    let mp = (5 * doy + 2) / 153;
    let d = doy - (153 * mp + 2) / 5 + 1;
    let m = if mp < 10 { mp + 3 } else { mp - 9 };
    (if m <= 2 { y + 1 } else { y }, m, d)
}

proof fn lemma_civil_of(era: int, doe: int)
    requires
        0 <= doe <= 146096,
    ensures
        valid_date(civil_of(era, doe).0, civil_of(era, doe).1, civil_of(era, doe).2),
        days_from_civil(civil_of(era, doe).0, civil_of(era, doe).1, civil_of(era, doe).2) == era
            * 146097 + doe - 719468,
{
    lemma_year_of_era(doe as u32);
    let yoe = (doe - doe / 1460 + doe / 36524 - doe / 146096) / 365;
    let y = yoe + era * 400;
    let doy = doe - (365 * yoe + yoe / 4 - yoe / 100);
    lemma_month_of_year(doy as u32);
    let mp = (5 * doy + 2) / 153;
    let d = doy - (153 * mp + 2) / 5 + 1;
    let m = if mp < 10 { mp + 3 } else { mp - 9 };
    let year = if m <= 2 { y + 1 } else { y };
    assert(civil_of(era, doe) == (year, m, d));
    vstd::arithmetic::div_mod::lemma_fundamental_div_mod_converse(y, 400, era, yoe);
    let y1 = if m <= 2 { year - 1 } else { year };
    assert(y1 == y);
    let mp2 = if m > 2 { m - 3 } else { m + 9 };
    assert(mp2 == mp);
    assert(days_from_civil(year, m, d) == era * 146097 + doe - 719468);
    if m == 2 && d == 29 {
        assert(yoe % 4 == 3 && (yoe % 100 != 99 || yoe == 399));
        assert(year == yoe + 1 + era * 400);
        assert(is_leap_year(year)) by {
            assert(year % 4 == (yoe + 1) % 4) by {
                vstd::arithmetic::div_mod::lemma_fundamental_div_mod_converse(
                    year,
                    4,
                    era * 100 + (yoe + 1) / 4,
                    (yoe + 1) % 4,
                );
            }
            assert(year % 100 == (yoe + 1) % 100) by {
                vstd::arithmetic::div_mod::lemma_fundamental_div_mod_converse(
                    year,
                    100,
                    era * 4 + (yoe + 1) / 100,
                    (yoe + 1) % 100,
                );
            }
        }
    }
}

/// The civil date of a day count from 1970-01-01: year, month (1-12) and
/// day (1-31). A year outside `i32` is cut to its low 32 bits, as an `as`
/// cast does.
pub fn days_to_ymd(days_since_epoch: i64) -> (ymd: (i32, u32, u32))
    requires
        days_since_epoch <= i64::MAX - 719468,
    ensures
        ymd.0 == #[verifier::truncate] (civil_from_days(days_since_epoch as int).0 as i32),
        ymd.1 == civil_from_days(days_since_epoch as int).1,
        ymd.2 == civil_from_days(days_since_epoch as int).2,
{
    let z: i64 = days_since_epoch + 719468;
    let era: i64 = if z >= 0 {
        ((z as u64) / 146097) as i64
    } else {
        -((((146096 - z) as u64) / 146097) as i64)
    };
    assert(0 <= z - era * 146097 <= 146096);
    let doe: u32 = (z - era * 146097) as u32;
    proof {
        lemma_year_of_era(doe);
    }
    let yoe: u32 = (doe - doe / 1460 + doe / 36524 - doe / 146096) / 365;
    let y: i64 = yoe as i64 + era * 400;
    let doy: u32 = doe - (365 * yoe + yoe / 4 - yoe / 100);
    proof {
        lemma_month_of_year(doy);
    }
    let mp: u32 = (5 * doy + 2) / 153;
    let d: u32 = doy - (153 * mp + 2) / 5 + 1;
    let m: u32 = if mp < 10 { mp + 3 } else { mp - 9 };
    let year: i64 = if m <= 2 { y + 1 } else { y };
    proof {
        lemma_civil_of(era as int, doe as int);
        assert(civil_of(era as int, doe as int) == (year as int, m as int, d as int));
    }
    let year32: i32 = #[verifier::truncate] (year as i32);
    proof {
        let c = civil_from_days(days_since_epoch as int);
        lemma_civil_from_days(days_since_epoch as int);
        lemma_days_from_civil_injective(year as int, m as int, d as int, c.0, c.1, c.2);
    }
    (year32, m, d)
}


proof fn lemma_month_start_inverse(mp: u32, dd: u32)
    by (bit_vector)
    requires
        mp <= 11,
        (mp == 0 || mp == 2 || mp == 4 || mp == 5 || mp == 7 || mp == 9 || mp == 10) ==> dd <= 30,
        (mp == 1 || mp == 3 || mp == 6 || mp == 8) ==> dd <= 29,
        mp == 11 ==> dd <= 28,
    ensures
        ({
            let doy = (153 * mp + 2) / 5 + dd;
            &&& doy <= 365
            &&& (5 * doy + 2) / 153 == mp
            &&& (doy == 365 ==> (mp == 11 && dd == 28))
        }),
{
}

proof fn lemma_era_start_inverse(yoe: u32, doy: u32)
    by (bit_vector)
    requires
        yoe <= 399,
        doy <= 365,
        doy == 365 ==> (yoe % 4 == 3 && (yoe % 100 != 99 || yoe == 399)),
    ensures
        ({
            let doe = 365 * yoe + yoe / 4 - yoe / 100 + doy;
            &&& doe <= 146096
            &&& (doe - doe / 1460 + doe / 36524 - doe / 146096) / 365 == yoe
        }),
{
}


/// A valid date is recovered from its day count: `civil_of` applied to the
/// era and day of era of `days_from_civil(y, m, d)` gives `(y, m, d)` back.
proof fn lemma_civil_inverse(y: int, m: int, d: int)
    requires
        valid_date(y, m, d),
    ensures
        ({
            let z = days_from_civil(y, m, d) + 719468;
            &&& 0 <= z % 146097 <= 146096
            &&& civil_of(z / 146097, z % 146097) == (y, m, d)
        }),
{
    let y1 = if m <= 2 { y - 1 } else { y };
    let era = y1 / 400;
    let yoe = y1 - era * 400;
    let mp = if m > 2 { m - 3 } else { m + 9 };
    let ms = (153 * mp + 2) / 5;
    let dd = d - 1;
    vstd::arithmetic::div_mod::lemma_fundamental_div_mod(y1, 400);
    assert(0 <= yoe < 400);
    lemma_month_start_inverse(mp as u32, dd as u32);
    let doy = ms + dd;
    assert(doy <= 365 && (5 * doy + 2) / 153 == mp);
    if doy == 365 {
        assert(mp == 11 && dd == 28);
        assert(m == 2 && d == 29);
        assert(is_leap_year(y));
        assert(y == era * 400 + yoe + 1);
        assert(y % 4 == (yoe + 1) % 4) by {
            vstd::arithmetic::div_mod::lemma_fundamental_div_mod_converse(
                y,
                4,
                era * 100 + (yoe + 1) / 4,
                (yoe + 1) % 4,
            );
        }
        assert(y % 100 == (yoe + 1) % 100) by {
            vstd::arithmetic::div_mod::lemma_fundamental_div_mod_converse(
                y,
                100,
                era * 4 + (yoe + 1) / 100,
                (yoe + 1) % 100,
            );
        }
        if yoe < 399 {
            assert(y % 400 == yoe + 1) by {
                vstd::arithmetic::div_mod::lemma_fundamental_div_mod_converse(y, 400, era, yoe + 1);
            }
        }
        assert(yoe % 4 == 3 && (yoe % 100 != 99 || yoe == 399));
    }
    lemma_era_start_inverse(yoe as u32, doy as u32);
    let doe = 365 * yoe + yoe / 4 - yoe / 100 + doy;
    assert(0 <= doe <= 146096);
    assert((doe - doe / 1460 + doe / 36524 - doe / 146096) / 365 == yoe);
    let z = days_from_civil(y, m, d) + 719468;
    assert(z == era * 146097 + doe);
    vstd::arithmetic::div_mod::lemma_fundamental_div_mod_converse(z, 146097, era, doe);
    assert(civil_of(era, doe) == (y, m, d));
}

/// The day after a valid date.
pub open spec fn next_day(y: int, m: int, d: int) -> (int, int, int) {
    if d < days_in_month(y, m) {
        (y, m, d + 1)
    } else if m < 12 {
        (y, m + 1, 1)
    } else {
        (y + 1, 1, 1)
    }
}

proof fn lemma_year_length(yoe: u32)
    by (bit_vector)
    requires
        yoe < 399,
    ensures
        365 * (yoe + 1) + (yoe + 1) / 4 - (yoe + 1) / 100 == 365 * yoe + yoe / 4 - yoe / 100 + 365 + (if (
        yoe + 1) % 4 == 0 && (yoe + 1) % 100 != 0 {
            1u32
        } else {
            0u32
        }),
{
}

/// From March 1 of one year to March 1 of the next there are 365 days, or
/// 366 when the next year is a leap year.
proof fn lemma_march_first_next(y: int)
    ensures
        days_from_civil(y + 1, 3, 1) == days_from_civil(y, 3, 1) + 365 + (if is_leap_year(y + 1) {
            1int
        } else {
            0int
        }),
{
    let era = y / 400;
    let yoe = y - era * 400;
    vstd::arithmetic::div_mod::lemma_fundamental_div_mod(y, 400);
    assert(0 <= yoe < 400);
    assert(days_from_civil(y, 3, 1) == era * 146097 + (yoe * 365 + yoe / 4 - yoe / 100) - 719468);
    if yoe < 399 {
        vstd::arithmetic::div_mod::lemma_fundamental_div_mod_converse(y + 1, 400, era, yoe + 1);
        lemma_year_length(yoe as u32);
        assert((y + 1) % 4 == (yoe + 1) % 4) by {
            vstd::arithmetic::div_mod::lemma_fundamental_div_mod_converse(
                y + 1,
                4,
                era * 100 + (yoe + 1) / 4,
                (yoe + 1) % 4,
            );
        }
        assert((y + 1) % 100 == (yoe + 1) % 100) by {
            vstd::arithmetic::div_mod::lemma_fundamental_div_mod_converse(
                y + 1,
                100,
                era * 4 + (yoe + 1) / 100,
                (yoe + 1) % 100,
            );
        }
        assert(days_from_civil(y + 1, 3, 1) == era * 146097 + ((yoe + 1) * 365 + (yoe + 1) / 4 - (yoe + 1)
            / 100) - 719468);
    } else {
        vstd::arithmetic::div_mod::lemma_fundamental_div_mod_converse(y + 1, 400, era + 1, 0);
        assert((y + 1) % 4 == 0) by {
            vstd::arithmetic::div_mod::lemma_fundamental_div_mod_converse(y + 1, 4, era * 100 + 100, 0);
        }
        assert(is_leap_year(y + 1));
        assert(days_from_civil(y + 1, 3, 1) == (era + 1) * 146097 - 719468);
    }
}

/// The next day count is the next day: `days_from_civil` of the day after a
/// valid date is one more, and that day is valid.
pub proof fn lemma_next_day(y: int, m: int, d: int)
    requires
        valid_date(y, m, d),
    ensures
        valid_date(next_day(y, m, d).0, next_day(y, m, d).1, next_day(y, m, d).2),
        days_from_civil(next_day(y, m, d).0, next_day(y, m, d).1, next_day(y, m, d).2)
            == days_from_civil(y, m, d) + 1,
{
    if d < days_in_month(y, m) {
    } else if m == 2 {
        lemma_march_first_next(y - 1);
        assert(days_from_civil(y, 2, d) == days_from_civil(y - 1, 3, 1) + 336 + d);
    } else if m < 12 {
        assert(m == 1 || m == 3 || m == 4 || m == 5 || m == 6 || m == 7 || m == 8 || m == 9 || m == 10
            || m == 11);
    } else {
    }
}

/// Consecutive day counts give consecutive dates: the date of `days + 1` is
/// the day after the date of `days`.
pub proof fn lemma_civil_from_days_next(days: int)
    ensures
        civil_from_days(days + 1) == ({
            let c = civil_from_days(days);
            next_day(c.0, c.1, c.2)
        }),
{
    let c = civil_from_days(days);
    lemma_civil_from_days(days);
    lemma_civil_from_days(days + 1);
    lemma_next_day(c.0, c.1, c.2);
    let n = next_day(c.0, c.1, c.2);
    let c1 = civil_from_days(days + 1);
    lemma_days_from_civil_injective(n.0, n.1, n.2, c1.0, c1.1, c1.2);
}

/// Different dates have different day counts: a day count names at most one
/// valid date, so `days_to_ymd` has exactly one possible result.
pub proof fn lemma_days_from_civil_injective(y1: int, m1: int, d1: int, y2: int, m2: int, d2: int)
    requires
        valid_date(y1, m1, d1),
        valid_date(y2, m2, d2),
        days_from_civil(y1, m1, d1) == days_from_civil(y2, m2, d2),
    ensures
        y1 == y2 && m1 == m2 && d1 == d2,
{
    lemma_civil_inverse(y1, m1, d1);
    lemma_civil_inverse(y2, m2, d2);
}

} // verus!