//! The proleptic Gregorian calendar: Julian day numbers, Unix seconds,
//! leap years, day of year, and week numbering.
use vstd::prelude::*;
use crate::arith::{clamp64, tdiv, sat_add64, sat_sub64, sat_mul64, div_trunc, div_floor, rem_floor};
use crate::dt::Dt;
use crate::dt::helpers::clamp_spec;
use crate::scale::{Weekday, mon0, sun0};

verus! {

/// `true` for Gregorian leap years: divisible by 4, and not by 100 unless by 400.
pub open spec fn leap(y: int) -> bool {
    y % 4 == 0 && (y % 100 != 0 || y % 400 == 0)
}

/// Days in month `m` of year `y` (0 for a month outside 1..=12).
pub open spec fn month_days(y: int, m: int) -> int {
    if m == 1 || m == 3 || m == 5 || m == 7 || m == 8 || m == 10 || m == 12 {
        31
    } else if m == 4 || m == 6 || m == 9 || m == 11 {
        30
    } else if m == 2 {
        if leap(y) { 29 } else { 28 }
    } else {
        0
    }
}

/// `true` for a valid calendar date.
pub open spec fn valid_ymd(y: int, m: int, d: int) -> bool {
    1 <= m <= 12 && 1 <= d <= month_days(y, m)
}

/// The Julian day number of year `y`, month `m`, day `d` (the Fliegel–Van
/// Flandern count, which for a valid date is the number of days since
/// noon of 4713 BC, 1 January, Julian calendar).
pub open spec fn jd_of(y: int, m: int, d: int) -> int {
    let a = tdiv(14 - m, 12);
    let yy = y + 4800 - a;
    let mm = m + 12 * a - 3;
    d + tdiv(153 * mm + 2, 5) + 365 * yy + yy / 4 - yy / 100 + (yy / 100) / 4 - 32045
}

/// The date `(y, m, d)` of Julian day number `j`.
pub open spec fn ymd_of_jd(j: int) -> (int, int, int) {
    let a = j + 32044;
    let b = (4 * a + 3) / 146097;
    let c = a - (b * 146097) / 4;
    let d = (4 * c + 3) / 1461;
    let e = c - (1461 * d) / 4;
    let m = (5 * e + 2) / 153;
    (b * 100 + d - 4800 + m / 10, m + 3 - 12 * (m / 10), e - (153 * m + 2) / 5 + 1)
}

/// The date `(y, m, d)` of day `days` counted from 1970-01-01.
pub open spec fn ymd_of_unix_days(days: int) -> (int, int, int) {
    let z = days + 719468;
    let era = z / 146097;
    let doe = z - era * 146097;
    let yoe = (doe - doe / 1460 + doe / 36524 - doe / 146096) / 365;
    let y = yoe + era * 400;
    let doy = doe - (365 * yoe + yoe / 4 - yoe / 100);
    let mp = (5 * doy + 2) / 153;
    let d = doy - (153 * mp + 2) / 5 + 1;
    let m = if mp < 10 { mp + 3 } else { mp - 9 };
    (y + if m <= 2 { 1int } else { 0int }, m, d)
}

/// The weekday number of Julian day `j`: 0 for Sunday through 6 for Saturday.
pub open spec fn wkday_of_jd(j: int) -> int {
    (j + 1) % 7
}

/// Julian day number of 1958-01-01.
pub open spec fn jd_1958() -> int {
    2_436_205
}

/// `true` when year `y` has an ISO week 53 (1 January is a Thursday, or a
/// Wednesday in a leap year).
pub open spec fn iso_wk_53(y: int) -> bool {
    let w = wkday_of_jd(clamp64(jd_of(y, 1, 1)));
    w == 4 || (leap(y) && w == 3)
}

/// The ISO year and week `_to_iso_wk_date` gives for a date.
pub open spec fn iso_week_date(y: int, m: int, d: int) -> (int, int) {
    let wk = iso_wk_u8(y, m, d) as int;
    let iy = if wk == 0 { y - 1 } else if wk >= 53 && !iso_wk_53(y) { y + 1 } else { y };
    let w = if wk == 0 { if iso_wk_53(y - 1) { 53int } else { 52int } }
        else if (wk == 53 && !iso_wk_53(y)) || wk > 53 { 1int } else { wk };
    (iy, w)
}

/// The raw ISO week number of a date, as the `u8` it is computed in: 0 before
/// the Monday of the week holding 4 January, else the weeks since that Monday plus one.
pub open spec fn iso_wk_u8(y: int, m: int, d: int) -> u8 {
    let jd = clamp64(jd_of(y, m, d));
    let jan4 = clamp64(jd_of(y, 1, 4));
    let monday = jan4 - (wkday_of_jd(jan4) + 6) % 7;
    if jd - monday < 0 { 0u8 } else { ((jd - monday) / 7 + 1) as u8 }
}

/// The dates whose ISO week date the `i64` arithmetic can compute: the week's
/// Monday and the day offset fit, and the ISO year stays in range.
pub open spec fn iso_wk_date_ok(y: int, m: int, d: int) -> bool {
    let jd = clamp64(jd_of(y, m, d));
    let jan4 = clamp64(jd_of(y, 1, 4));
    let monday = jan4 - (wkday_of_jd(jan4) + 6) % 7;
    let wk = iso_wk_u8(y, m, d);
    &&& i64::MIN <= monday
    &&& i64::MIN <= jd - monday <= i64::MAX
    &&& (wk == 0 ==> y > i64::MIN)
    &&& (wk >= 53 && !iso_wk_53(y) ==> y < i64::MAX)
}

impl Dt {
    /// The calendar date of Unix second `unix_sec` (the day it falls in): the
    /// date of Julian day `2440588 + floor(unix_sec / 86400)`.
    pub fn unix_sec_to_ymd(unix_sec: i64) -> (r: (i64, u8, u8))
        ensures
            ({
                let (y, m, d) = ymd_of_jd((unix_sec as int) / 86400 + 2440588);
                r.0 == y && r.1 == m && r.2 == d
            }),
            valid_ymd(r.0 as int, r.1 as int, r.2 as int),
    {
        proof { crate::dt::calendar_proofs::lemma_unix_days_date((unix_sec as int) / 86400); }
        let days = div_floor(unix_sec as i128, 86400) as i64;
        proof { lemma_unix_days_bounds(unix_sec as int); }
        let z = days + 719468;
        let era = div_floor(z as i128, 146097) as i64;
        let doe = z - era * 146097;
        proof {
            vstd::arithmetic::div_mod::lemma_fundamental_div_mod(z as int, 146097);
        }
        let yoe = (doe - doe / 1460 + doe / 36524 - doe / 146096) / 365;
        let y = yoe + era * 400;
        let doy = doe - (365 * yoe + yoe / 4 - yoe / 100);
        proof { lemma_doe_parts(doe as int); }
        let mp = (5 * doy + 2) / 153;
        let d = doy - (153 * mp + 2) / 5 + 1;
        let m = if mp < 10 { mp + 3 } else { mp - 9 };
        let yr = y + if m <= 2 { 1 } else { 0 };
        (yr, m as u8, d as u8)
    }

    /// Seconds since 1970-01-01 00:00:00 of the given date and time, saturating.
    pub fn ymd_to_unix_sec(yr: i64, mo: u8, day: u8, hr: u8, min: u8, sec: u8) -> (r: i64)
        ensures
            r == clamp64(clamp64(clamp64(clamp64(jd_of(yr as int, mo as int, day as int)) - 2440588) * 86400)
                + (hr * 3600 + min * 60 + sec)),
    {
        let jd = Self::ymd_to_jd(yr, mo, day);
        let days_since_1970 = sat_sub64(jd, 2440588);
        let time_of_day = (hr as i64) * 3600 + (min as i64) * 60 + (sec as i64);
        sat_add64(sat_mul64(days_since_1970, 86400), time_of_day)
    }

    /// The calendar date of Julian day number `jd`.
    pub fn jd_to_ymd(jd: i64) -> (r: (i64, u8, u8))
        ensures
            ({
                let (y, m, d) = ymd_of_jd(jd as int);
                r.0 == clamp64(y) && r.1 == m && r.2 == d
            }),
    {
        let j = jd as i128;
        let a = j + 32044;
        let b = div_floor(4 * a + 3, 146097);
        let c = a - div_floor(b * 146097, 4);
        proof { lemma_jd_century(a as int); }
        let d = div_floor(4 * c + 3, 1461);
        let e = c - div_floor(1461 * d, 4);
        proof { lemma_jd_year(c as int); }
        let m = div_floor(5 * e + 2, 153);
        let day = e - div_floor(153 * m + 2, 5) + 1;
        proof { lemma_month_day(e as int); }
        let mo = m + 3 - 12 * div_floor(m, 10);
        let yr = b * 100 + d - 4800 + div_floor(m, 10);
        (Dt::to_i64(yr), mo as u8, day as u8)
    }

    /// The Julian day number of the given date, clamped to the `i64` range.
    pub fn ymd_to_jd(yr: i64, mo: u8, day: u8) -> (r: i64)
        ensures
            r == clamp64(jd_of(yr as int, mo as int, day as int)),
    {
        let y = yr as i128;
        let m = mo as i128;
        let d = day as i128;
        let a = div_trunc(14 - m, 12);
        let y = y + 4800 - a;
        let m = m + 12 * a - 3;
        let y4 = div_floor(y, 4);
        let y100 = div_floor(y, 100);
        let y400 = div_floor(y100, 4);
        let day_mo = d + div_trunc(153 * m + 2, 5);
        let yr_part = 365 * y + y4 - y100 + y400 - 32045;
        Dt::to_i64(day_mo + yr_part)
    }

    /// The Julian day number of day `day_of_yr` (1-based) of year `yr`, saturating.
    pub fn ydoy_to_jd(yr: i64, day_of_yr: u16) -> (r: i64)
        ensures
            r == clamp64(clamp64(jd_of(yr as int, 1, 1)) + day_of_yr - 1),
    {
        let jd_jan1 = Self::ymd_to_jd(yr, 1, 1);
        sat_add64(jd_jan1, day_of_yr as i64 - 1)
    }

    /// The weekday of Julian day `jd`: 0 for Sunday through 6 for Saturday.
    pub fn jd_to_wkday(jd: i64) -> (r: u8)
        ensures
            r == wkday_of_jd(jd as int),
    {
        rem_floor(jd as i128 + 1, 7) as u8
    }

    /// The Julian day of the given weekday of ISO week `iso_wk` of ISO year `iso_yr`, saturating.
    pub fn iso_wk_to_jd(iso_yr: i64, iso_wk: u8, wkday: Weekday) -> (r: i64)
        ensures
            ({
                let jan4 = clamp64(jd_of(iso_yr as int, 1, 4));
                let monday1 = clamp64(jan4 - (wkday_of_jd(jan4) + 6) % 7);
                let monday = clamp64(monday1 + clamp64((iso_wk - 1) * 7));
                r == clamp64(monday + mon0(wkday))
            }),
    {
        let jan4_jd = Self::ymd_to_jd(iso_yr, 1, 4);
        let wd_jan4 = Self::jd_to_wkday(jan4_jd);
        let days_to_monday = rem_floor(wd_jan4 as i128 + 6, 7) as i64;
        let monday_wk1 = sat_sub64(jan4_jd, days_to_monday);
        let monday_requested = sat_add64(monday_wk1, sat_mul64(sat_sub64(iso_wk as i64, 1), 7));
        sat_add64(monday_requested, wkday.wkday_mon_0_based() as i64)
    }

    /// The Julian day of the given weekday of Sunday-based week `wk` of `yr`
    /// (week 1 starts on the first Sunday), saturating.
    pub fn wk_sun_to_jd(yr: i64, wk: u8, wkday: Weekday) -> (r: i64)
        ensures
            ({
                let jan1 = clamp64(jd_of(yr as int, 1, 1));
                let sunday1 = clamp64(jan1 + (7 - wkday_of_jd(jan1)) % 7);
                let sunday = clamp64(sunday1 + clamp64((wk - 1) * 7));
                r == clamp64(sunday + sun0(wkday))
            }),
    {
        let jan1_jd = Self::ymd_to_jd(yr, 1, 1);
        let wd_jan1 = Self::jd_to_wkday(jan1_jd);
        let days_to_first_sunday = ((7u8 - wd_jan1) % 7u8) as i64;
        let first_sunday_jd = sat_add64(jan1_jd, days_to_first_sunday);
        let sunday_of_wk = sat_add64(first_sunday_jd, sat_mul64(sat_sub64(wk as i64, 1), 7));
        sat_add64(sunday_of_wk, wkday.wkday_sun_0_based() as i64)
    }

    /// The Julian day of the given weekday of Monday-based week `wk` of `yr`
    /// (week 1 starts on the first Monday), saturating.
    pub fn wk_mon_to_jd(yr: i64, wk: u8, wkday: Weekday) -> (r: i64)
        ensures
            ({
                let jan1 = clamp64(jd_of(yr as int, 1, 1));
                let monday1 = clamp64(jan1 + (1 - wkday_of_jd(jan1)) % 7);
                let monday = clamp64(monday1 + clamp64((wk - 1) * 7));
                r == clamp64(monday + mon0(wkday))
            }),
    {
        let jan1_jd = Self::ymd_to_jd(yr, 1, 1);
        let wd_jan1 = Self::jd_to_wkday(jan1_jd);
        let days_to_first_monday = rem_floor(1 - wd_jan1 as i128, 7) as i64;
        let first_monday_jd = sat_add64(jan1_jd, days_to_first_monday);
        let monday_of_wk = sat_add64(first_monday_jd, sat_mul64(sat_sub64(wk as i64, 1), 7));
        sat_add64(monday_of_wk, wkday.wkday_mon_0_based() as i64)
    }

    /// `true` when `yr` is a Gregorian leap year.
    pub fn is_leap_yr(yr: i64) -> (r: bool)
        ensures
            r == leap(yr as int),
    {
        let y = yr as i128;
        rem_floor(y, 4) == 0 && (rem_floor(y, 100) != 0 || rem_floor(y, 400) == 0)
    }

    /// `true` when `(yr, mo, day)` is a valid calendar date.
    pub fn is_valid_ymd(yr: i64, mo: u8, day: u8) -> (r: bool)
        ensures
            r == valid_ymd(yr as int, mo as int, day as int),
    {
        if mo < 1 || mo > 12 || day < 1 {
            return false;
        }
        day <= Self::days_in_month(yr, mo)
    }

    /// `true` when ISO year `yr` has 53 weeks.
    pub fn has_iso_wk_53(yr: i64) -> (r: bool)
        ensures
            r == iso_wk_53(yr as int),
    {
        let jan1_jd = Self::ymd_to_jd(yr, 1, 1);
        let wd_jan1 = Self::jd_to_wkday(jan1_jd);
        wd_jan1 == 4 || (Self::is_leap_yr(yr) && wd_jan1 == 3)
    }

    /// The day of the year (1-based) of the given date, as a `u16`.
    pub fn _day_of_yr(yr: i64, mo: u8, day: u8) -> (r: u16)
        ensures
            r == (clamp64(clamp64(clamp64(jd_of(yr as int, mo as int, day as int))
                - clamp64(jd_of(yr as int, 1, 1))) + 1) as i64) as u16,
    {
        let jd = Self::ymd_to_jd(yr, mo, day);
        let jd_jan1 = Self::ymd_to_jd(yr, 1, 1);
        let doy = sat_add64(sat_sub64(jd, jd_jan1), 1);
        #[verifier::truncate] (doy as u16)
    }

    /// The Sunday-based week number (0 before the first Sunday) of day `doy` of `yr`.
    pub fn _wk_sun(yr: i64, doy: u16) -> (r: u8)
        ensures
            ({
                let first = (7 - wkday_of_jd(clamp64(jd_of(yr as int, 1, 1)))) % 7 + 1;
                r == (if doy < first { 0u8 } else { ((doy - first) / 7 + 1) as u8 })
            }),
    {
        let jan1_jd = Self::ymd_to_jd(yr, 1, 1);
        let wd_jan1 = Self::jd_to_wkday(jan1_jd);
        let days_to_first_sunday = (7u8 - wd_jan1) % 7u8;
        let first_sunday_doy = days_to_first_sunday as u16 + 1;
        if doy < first_sunday_doy {
            0
        } else {
            let days_since_first_sunday = doy - first_sunday_doy;
            #[verifier::truncate] (((days_since_first_sunday / 7) + 1) as u8)
        }
    }

    /// The Monday-based week number (0 before the first Monday) of day `doy` of `yr`.
    pub fn _wk_mon(yr: i64, doy: u16) -> (r: u8)
        ensures
            ({
                let first = (1 - wkday_of_jd(clamp64(jd_of(yr as int, 1, 1)))) % 7 + 1;
                r == (if doy < first { 0u8 } else { ((doy - first) / 7 + 1) as u8 })
            }),
    {
        let jan1_jd = Self::ymd_to_jd(yr, 1, 1);
        let wd_jan1 = Self::jd_to_wkday(jan1_jd);
        let days_to_first_monday = rem_floor(1 - wd_jan1 as i128, 7) as u16;
        let first_monday_doy = days_to_first_monday + 1;
        if doy < first_monday_doy {
            0
        } else {
            let days_since_first_monday = doy - first_monday_doy;
            #[verifier::truncate] (((days_since_first_monday / 7) + 1) as u8)
        }
    }

    /// The ISO week date `(iso_year, iso_week, weekday)` of the given date.
    pub fn _to_iso_wk_date(yr: i64, mo: u8, day: u8) -> (r: (i64, u8, Weekday))
        requires
            iso_wk_date_ok(yr as int, mo as int, day as int),
        ensures
            ({
                let wk = iso_wk_u8(yr as int, mo as int, day as int);
                let wd = wkday_of_jd(clamp64(jd_of(yr as int, mo as int, day as int)));
                &&& r.0 == (if wk == 0 { yr - 1 } else if wk >= 53 && !iso_wk_53(yr as int) { yr + 1 } else { yr as int })
                &&& r.1 == (if wk == 0 { if iso_wk_53(yr - 1) { 53u8 } else { 52u8 } }
                    else if (wk == 53 && !iso_wk_53(yr as int)) || wk > 53 { 1u8 } else { wk })
                &&& mon0(r.2) == (if wd == 0 { 6 } else { wd - 1 })
            }),
            (r.0 as int, r.1 as int) == iso_week_date(yr as int, mo as int, day as int),
    {
        let jd = Self::ymd_to_jd(yr, mo, day);
        let wd = Self::jd_to_wkday(jd);
        let wd_iso = if wd == 0 { 7 } else { wd };
        let jan4_jd = Self::ymd_to_jd(yr, 1, 4);
        let wd_jan4 = Self::jd_to_wkday(jan4_jd);
        let days_to_monday = rem_floor(wd_jan4 as i128 + 6, 7) as i64;
        let monday_wk1 = jan4_jd - days_to_monday;
        let days_since = jd - monday_wk1;
        let wk: u8 = if days_since < 0 {
            0u8
        } else {
            #[verifier::truncate] (((days_since / 7) + 1) as u8)
        };
        let iso_yr = if wk == 0 {
            yr - 1
        } else if wk >= 53 && !Self::has_iso_wk_53(yr) {
            yr + 1
        } else {
            yr
        };
        let iso_wk = if wk == 0 {
            if Self::has_iso_wk_53(yr - 1) { 53 } else { 52 }
        } else if (wk == 53 && !Self::has_iso_wk_53(yr)) || wk > 53 {
            1
        } else {
            wk
        };
        let wkday_enum = match Weekday::from_monday_1_based(wd_iso) {
            Some(w) => w,
            None => Weekday::Monday,
        };
        (iso_yr, iso_wk, wkday_enum)
    }

    /// Days in month `mo` of `yr` (0 for a month outside 1..=12).
    pub fn days_in_month(yr: i64, mo: u8) -> (r: u8)
        ensures
            r == month_days(yr as int, mo as int),
    {
        match mo {
            1 | 3 | 5 | 7 | 8 | 10 | 12 => 31,
            4 | 6 | 9 | 11 => 30,
            2 => {
                if Self::is_leap_yr(yr) {
                    29
                } else {
                    28
                }
            },
            _ => 0,
        }
    }

    /// Month, day, hour, minute and second clamped to their calendar ranges
    /// (the day to the month's length, the second to 0..=60 for a leap second).
    pub fn clamp_mdhms(yr: i64, mo: u8, day: u8, hr: u8, min: u8, sec: u8) -> (r: (u8, u8, u8, u8, u8))
        ensures
            r.0 == clamp_spec(mo as int, 1, 12),
            r.1 == clamp_spec(day as int, 1, month_days(yr as int, r.0 as int)),
            r.2 == clamp_spec(hr as int, 0, 23),
            r.3 == clamp_spec(min as int, 0, 59),
            r.4 == clamp_spec(sec as int, 0, 60),
    {
        let mo = Self::clamp_u8(mo, 1, 12);
        let max_day = Self::days_in_month(yr, mo);
        let day = Self::clamp_u8(day, 1, max_day);
        let h = Self::clamp_u8(hr, 0, 23);
        let m = Self::clamp_u8(min, 0, 59);
        let s = Self::clamp_u8(sec, 0, 60);
        (mo, day, h, m, s)
    }

    /// The date `days_since_epoch` days after 1958-01-01.
    pub fn days_since_1958_to_gregorian(days_since_epoch: i64) -> (r: (i64, u8, u8))
        ensures
            ({
                let (y, m, d) = ymd_of_jd(clamp64(jd_1958() + days_since_epoch));
                r.0 == clamp64(y) && r.1 == m && r.2 == d
            }),
    {
        let jd_epoch = Dt::ymd_to_jd(1958, 1, 1);
        assert(jd_epoch == jd_1958());
        let jd = sat_add64(jd_epoch, days_since_epoch);
        Dt::jd_to_ymd(jd)
    }

    /// Days from 1958-01-01 to the given date, saturating.
    pub fn gregorian_to_days_since_1958(year: i64, month: u8, day: u8) -> (r: i64)
        ensures
            r == clamp64(clamp64(jd_of(year as int, month as int, day as int)) - jd_1958()),
    {
        let jd = Dt::ymd_to_jd(year, month, day);
        let jd_epoch = Dt::ymd_to_jd(1958, 1, 1);
        assert(jd_epoch == jd_1958());
        sat_sub64(jd, jd_epoch)
    }
}

/// Clamped month and day always form a valid date.
pub proof fn lemma_clamp_mdhms_valid(yr: i64, mo: u8, day: u8)
    ensures
        ({
            let m = clamp_spec(mo as int, 1, 12);
            valid_ymd(yr as int, m, clamp_spec(day as int, 1, month_days(yr as int, m)))
        }),
{
}

/// Floored days of an `i64` second count fit comfortably in an `i64`.
proof fn lemma_unix_days_bounds(s: int)
    requires
        i64::MIN <= s <= i64::MAX,
    ensures
        -0x8000_0000_0000_0000int / 86400 - 1 <= s / 86400 <= 0x8000_0000_0000_0000int / 86400,
{
    vstd::arithmetic::div_mod::lemma_fundamental_div_mod(s, 86400);
    assert(-0x8000_0000_0000_0000int / 86400 - 1 <= s / 86400 <= 0x8000_0000_0000_0000int / 86400) by (nonlinear_arith)
        requires 86400 * (s / 86400) + s % 86400 == s, 0 <= s % 86400 < 86400,
            -0x8000_0000_0000_0000int <= s < 0x8000_0000_0000_0000int;
}

/// The day-of-era decomposition stays in range.
proof fn lemma_doe_parts(doe: int)
    requires
        0 <= doe < 146097,
    ensures
        0 <= (doe - doe / 1460 + doe / 36524 - doe / 146096) / 365 <= 399,
        ({
            let yoe = (doe - doe / 1460 + doe / 36524 - doe / 146096) / 365;
            let doy = doe - (365 * yoe + yoe / 4 - yoe / 100);
            0 <= doy <= 365
        }),
{
    let yoe = (doe - doe / 1460 + doe / 36524 - doe / 146096) / 365;
    assert(0 <= yoe <= 399) by (nonlinear_arith) requires 0 <= doe < 146097, yoe == (doe - doe / 1460 + doe / 36524 - doe / 146096) / 365;
    assert(0 <= doe - (365 * yoe + yoe / 4 - yoe / 100) <= 365) by (nonlinear_arith)
        requires 0 <= doe < 146097, yoe == (doe - doe / 1460 + doe / 36524 - doe / 146096) / 365, 0 <= yoe <= 399;
}

/// The century split of the Julian-day decoding stays in range.
proof fn lemma_jd_century(a: int)
    ensures
        0 <= a - (((4 * a + 3) / 146097) * 146097) / 4 <= 36524,
{
    let b = (4 * a + 3) / 146097;
    vstd::arithmetic::div_mod::lemma_fundamental_div_mod(4 * a + 3, 146097);
    vstd::arithmetic::div_mod::lemma_fundamental_div_mod(b * 146097, 4);
    let c = a - (b * 146097) / 4;
    assert(0 <= c <= 36524) by (nonlinear_arith)
        requires 146097 * b + (4 * a + 3) % 146097 == 4 * a + 3, 0 <= (4 * a + 3) % 146097 < 146097,
            4 * ((b * 146097) / 4) + (b * 146097) % 4 == b * 146097, 0 <= (b * 146097) % 4 < 4,
            c == a - (b * 146097) / 4;
}

/// The year split of the Julian-day decoding stays in range.
proof fn lemma_jd_year(c: int)
    requires
        0 <= c <= 36524,
    ensures
        0 <= c - (1461 * ((4 * c + 3) / 1461)) / 4 <= 365,
{
    let d = (4 * c + 3) / 1461;
    assert(0 <= c - (1461 * d) / 4 <= 365) by (nonlinear_arith)
        requires 0 <= c <= 36524, d == (4 * c + 3) / 1461;
}

/// The month split of a day of a March-based year stays in range.
proof fn lemma_month_day(e: int)
    requires
        0 <= e <= 365,
    ensures
        0 <= (5 * e + 2) / 153 <= 11,
        1 <= e - (153 * ((5 * e + 2) / 153) + 2) / 5 + 1 <= 31,
{
    let m = (5 * e + 2) / 153;
    assert(0 <= m <= 11) by (nonlinear_arith) requires 0 <= e <= 365, m == (5 * e + 2) / 153;
    assert(1 <= e - (153 * m + 2) / 5 + 1 <= 31) by (nonlinear_arith)
        requires 0 <= e <= 365, m == (5 * e + 2) / 153, 0 <= m <= 11;
}

/// The Monday that starts ISO week 1 of year `y` (the week holding 4 January).
pub open spec fn week1_monday(y: int) -> int {
    let j = jd_of(y, 1, 4);
    j - (wkday_of_jd(j) + 6) % 7
}

/// Counted from Monday, the weekday of Julian day `j` is `j mod 7`.
pub proof fn lemma_monday_based_weekday(j: int)
    ensures
        (wkday_of_jd(j) + 6) % 7 == j % 7,
        0 <= j % 7 < 7,
{
    vstd::arithmetic::div_mod::lemma_fundamental_div_mod(j, 7);
    let q = j / 7;
    let r = j % 7;
    vstd::arithmetic::div_mod::lemma_fundamental_div_mod_converse(j + 1, 7, if r == 6 { q + 1 } else { q }, if r == 6 { 0 } else { r + 1 });
    let w = wkday_of_jd(j);
    vstd::arithmetic::div_mod::lemma_fundamental_div_mod_converse(w + 6, 7, if w == 0 { 0 } else { 1 }, if w == 0 { 6 } else { w - 1 });
}

/// Floor division steps up by one exactly when the numerator reaches a multiple.
proof fn lemma_floor_step(x: int, n: int)
    requires
        n > 0,
    ensures
        (x + 1) / n == x / n + (if (x + 1) % n == 0 { 1int } else { 0int }),
{
    vstd::arithmetic::div_mod::lemma_fundamental_div_mod(x, n);
    let q = x / n;
    let r = x % n;
    if r == n - 1 {
        assert(x + 1 == (q + 1) * n + 0) by (nonlinear_arith) requires x == n * q + r, r == n - 1;
        vstd::arithmetic::div_mod::lemma_fundamental_div_mod_converse(x + 1, n, q + 1, 0);
    } else {
        assert(x + 1 == q * n + (r + 1)) by (nonlinear_arith) requires x == n * q + r;
        vstd::arithmetic::div_mod::lemma_fundamental_div_mod_converse(x + 1, n, q, r + 1);
    }
}

/// From a January day of one year to the same day of the next there are
/// 365 days, 366 when the first year is a leap year.
pub proof fn lemma_january_year_step(y: int, d: int)
    ensures
        jd_of(y + 1, 1, d) - jd_of(y, 1, d) == 365 + (if leap(y) { 1int } else { 0int }),
{
    let yy = y + 4799;
    assert(tdiv(13, 12) == 1);
    lemma_floor_step(yy, 4);
    lemma_floor_step(yy, 100);
    let c = yy / 100;
    lemma_floor_step(c, 4);
    vstd::arithmetic::div_mod::lemma_fundamental_div_mod(y, 4);
    vstd::arithmetic::div_mod::lemma_fundamental_div_mod(y, 100);
    vstd::arithmetic::div_mod::lemma_fundamental_div_mod(y, 400);
    vstd::arithmetic::div_mod::lemma_fundamental_div_mod(yy + 1, 4);
    vstd::arithmetic::div_mod::lemma_fundamental_div_mod(yy + 1, 100);
    assert(((yy + 1) % 4 == 0) == (y % 4 == 0)) by {
        vstd::arithmetic::div_mod::lemma_mod_multiples_vanish(1200, y, 4);
        assert(4 * 1200 + y == yy + 1);
    }
    assert(((yy + 1) % 100 == 0) == (y % 100 == 0)) by {
        vstd::arithmetic::div_mod::lemma_mod_multiples_vanish(48, y, 100);
        assert(100 * 48 + y == yy + 1);
    }
    if y % 100 == 0 {
        let t = y / 100;
        assert(y == 100 * t);
        vstd::arithmetic::div_mod::lemma_fundamental_div_mod_converse(yy + 1, 100, t + 48, 0);
        assert((yy + 1) / 100 == c + 1);
        vstd::arithmetic::div_mod::lemma_fundamental_div_mod(t, 4);
        assert(((c + 1) % 4 == 0) == (t % 4 == 0)) by {
            vstd::arithmetic::div_mod::lemma_mod_multiples_vanish(12, t, 4);
            assert(4 * 12 + t == c + 1);
        }
        assert((y % 400 == 0) == (t % 4 == 0)) by {
            let s4 = t / 4;
            let r4 = t % 4;
            assert(y == 400 * s4 + 100 * r4);
            vstd::arithmetic::div_mod::lemma_fundamental_div_mod_converse(y, 400, s4, 100 * r4);
        }
    }
}

/// A year has an ISO week 53 exactly when 53 weeks, not 52, separate the
/// Monday that starts its week 1 from the one that starts the next year's
/// (weeks run Monday to Sunday, and week 1 holds 4 January), wherever its
/// Julian day numbers fit an `i64`.
pub proof fn lemma_iso_wk_53_counts_weeks(y: int)
    requires
        i64::MIN <= jd_of(y, 1, 1) <= i64::MAX,
    ensures
        iso_wk_53(y) == (week1_monday(y + 1) - week1_monday(y) == 371),
        week1_monday(y + 1) - week1_monday(y) == 364 || week1_monday(y + 1) - week1_monday(y) == 371,
{
    lemma_january_year_step(y, 4);
    let j1 = jd_of(y, 1, 1);
    let j4 = jd_of(y, 1, 4);
    assert(j4 == j1 + 3);
    let l: int = if leap(y) { 1 } else { 0 };
    let j4n = j4 + 365 + l;
    assert(jd_of(y + 1, 1, 4) == j4n);
    vstd::arithmetic::div_mod::lemma_fundamental_div_mod(j4, 7);
    let q = j4 / 7;
    let r = j4 % 7;
    assert((wkday_of_jd(j4) + 6) % 7 == r) by {
        vstd::arithmetic::div_mod::lemma_fundamental_div_mod_converse(j4 + 1, 7, if r == 6 { q + 1 } else { q }, if r == 6 { 0 } else { r + 1 });
        let w = wkday_of_jd(j4);
        vstd::arithmetic::div_mod::lemma_fundamental_div_mod_converse(w + 6, 7, if w == 0 { 0 } else { 1 }, if w == 0 { 6 } else { w - 1 });
    }
    let rn = r + 1 + l;
    vstd::arithmetic::div_mod::lemma_fundamental_div_mod_converse(j4n, 7, q + 52 + (if rn >= 7 { 1int } else { 0int }), if rn >= 7 { rn - 7 } else { rn });
    assert((wkday_of_jd(j4n) + 6) % 7 == j4n % 7) by {
        let rr = j4n % 7;
        let qq = j4n / 7;
        vstd::arithmetic::div_mod::lemma_fundamental_div_mod_converse(j4n + 1, 7, if rr == 6 { qq + 1 } else { qq }, if rr == 6 { 0 } else { rr + 1 });
        let w = wkday_of_jd(j4n);
        vstd::arithmetic::div_mod::lemma_fundamental_div_mod_converse(w + 6, 7, if w == 0 { 0 } else { 1 }, if w == 0 { 6 } else { w - 1 });
    }
    assert(clamp64(j1) == j1);
    assert(wkday_of_jd(j1) == (r + 5) % 7) by {
        vstd::arithmetic::div_mod::lemma_fundamental_div_mod_converse(j1 + 1, 7, if r >= 2 { q } else { q - 1 }, if r >= 2 { r - 2 } else { r + 5 });
        vstd::arithmetic::div_mod::lemma_fundamental_div_mod_converse(r + 5, 7, if r >= 2 { 1 } else { 0 }, if r >= 2 { r - 2 } else { r + 5 });
    }
}

} // verus!
