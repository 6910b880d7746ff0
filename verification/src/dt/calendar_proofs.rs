//! Proofs that the Julian-day encoding and decoding of calendar dates are
//! inverse to each other.
use vstd::prelude::*;
use vstd::arithmetic::div_mod::{lemma_fundamental_div_mod, lemma_fundamental_div_mod_converse};
use crate::arith::{tdiv, clamp64};
use crate::dt::gregorian::{
    jd_of, ymd_of_jd, ymd_of_unix_days, valid_ymd, month_days, leap, jd_1958, wkday_of_jd, iso_wk_53,
    iso_week_date, iso_wk_u8, week1_monday, lemma_january_year_step, lemma_monday_based_weekday,
    lemma_iso_wk_53_counts_weeks,
};

verus! {

/// March-based month index: March is 0, ..., January 10, February 11.
pub open spec fn march_month(m: int) -> int {
    if m <= 2 { m + 9 } else { m - 3 }
}

/// The year `y` counted from March and shifted by 4800 (January and
/// February belong to the previous March-based year).
pub open spec fn march_year(y: int, m: int) -> int {
    y + 4800 - (if m <= 2 { 1int } else { 0int })
}

/// First day (0-based) of March-based month `mm` within its year.
pub open spec fn month_start(mm: int) -> int {
    (153 * mm + 2) / 5
}

/// Length of March-based month `mm`, with February counted as 29 days.
pub open spec fn march_len(mm: int) -> int {
    if mm == 1 || mm == 3 || mm == 6 || mm == 8 { 30 } else if mm == 11 { 29 } else { 31 }
}

/// When the decoding of a day count finds year `yp` of century `c` and
/// day `e` of the March-based year, the day is in range: day 365 (29 February)
/// only closes a year whose successor is a leap year.
pub open spec fn year_end_ok(c: int, yp: int, e: int) -> bool {
    e <= 364 || (yp % 4 == 3 && (yp != 99 || c % 4 == 3))
}

proof fn lemma_div4_split(k: int, x: int)
    ensures
        (4 * k + x) / 4 == k + x / 4,
{
    lemma_fundamental_div_mod(x, 4);
    lemma_fundamental_div_mod_converse(4 * k + x, 4, k + x / 4, x % 4);
}

/// The Julian day number of a date, split into March-based centuries,
/// years within the century, and days within the year.
proof fn lemma_jd_split(y: int, m: int, d: int)
    requires
        1 <= m <= 12,
    ensures
        ({
            let yy = march_year(y, m);
            jd_of(y, m, d) + 32044 == (146097 * (yy / 100)) / 4 + (1461 * (yy % 100)) / 4
                + month_start(march_month(m)) + d - 1
        }),
{
    let yy = march_year(y, m);
    let c = yy / 100;
    let yp = yy % 100;
    lemma_fundamental_div_mod(yy, 100);
    if m <= 2 {
        lemma_fundamental_div_mod_converse(14 - m, 12, 1, 2 - m);
    } else {
        lemma_fundamental_div_mod_converse(14 - m, 12, 0, 14 - m);
    }
    assert(tdiv(14 - m, 12) == (if m <= 2 { 1int } else { 0int }));
    let mm = march_month(m);
    assert(m + 12 * tdiv(14 - m, 12) - 3 == mm);
    assert(tdiv(153 * mm + 2, 5) == month_start(mm));
    lemma_div4_split(25 * c, yp);
    assert(yy == 4 * (25 * c) + yp);
    lemma_div4_split(36524 * c, c);
    assert(146097 * c == 4 * (36524 * c) + c);
    lemma_div4_split(365 * yp, yp);
    assert(1461 * yp == 4 * (365 * yp) + yp);
}

/// Decomposing a day of a March-based year into month and day of month.
proof fn lemma_month_of_day(mm: int, d: int)
    requires
        0 <= mm <= 11,
        1 <= d <= march_len(mm),
    ensures
        0 <= month_start(mm) + d - 1 <= 365,
        (5 * (month_start(mm) + d - 1) + 2) / 153 == mm,
        month_start(mm) + d - 1 == 365 ==> mm == 11 && d == 29,
{
    let e = month_start(mm) + d - 1;
    if mm == 0 { assert(month_start(mm) == 0); }
    else if mm == 1 { assert(month_start(mm) == 31); }
    else if mm == 2 { assert(month_start(mm) == 61); }
    else if mm == 3 { assert(month_start(mm) == 92); }
    else if mm == 4 { assert(month_start(mm) == 122); }
    else if mm == 5 { assert(month_start(mm) == 153); }
    else if mm == 6 { assert(month_start(mm) == 184); }
    else if mm == 7 { assert(month_start(mm) == 214); }
    else if mm == 8 { assert(month_start(mm) == 245); }
    else if mm == 9 { assert(month_start(mm) == 275); }
    else if mm == 10 { assert(month_start(mm) == 306); }
    else { assert(month_start(mm) == 337); }
    lemma_fundamental_div_mod_converse(5 * e + 2, 153, mm, 5 * e + 2 - 153 * mm);
}

/// The month found for a day of a March-based year holds that day.
proof fn lemma_day_in_month(e: int)
    requires
        0 <= e <= 365,
    ensures
        ({
            let mm = (5 * e + 2) / 153;
            &&& 0 <= mm <= 11
            &&& 1 <= e - month_start(mm) + 1 <= march_len(mm)
            &&& (mm == 11 && e - month_start(mm) + 1 == 29 ==> e == 365)
        }),
{
    let mm = (5 * e + 2) / 153;
    lemma_fundamental_div_mod(5 * e + 2, 153);
    assert(0 <= mm <= 11) by (nonlinear_arith)
        requires 153 * mm + (5 * e + 2) % 153 == 5 * e + 2, 0 <= (5 * e + 2) % 153 < 153, 0 <= e <= 365;
    if mm == 0 { assert(month_start(mm) == 0); }
    else if mm == 1 { assert(month_start(mm) == 31); }
    else if mm == 2 { assert(month_start(mm) == 61); }
    else if mm == 3 { assert(month_start(mm) == 92); }
    else if mm == 4 { assert(month_start(mm) == 122); }
    else if mm == 5 { assert(month_start(mm) == 153); }
    else if mm == 6 { assert(month_start(mm) == 184); }
    else if mm == 7 { assert(month_start(mm) == 214); }
    else if mm == 8 { assert(month_start(mm) == 245); }
    else if mm == 9 { assert(month_start(mm) == 275); }
    else if mm == 10 { assert(month_start(mm) == 306); }
    else { assert(month_start(mm) == 337); }
}

/// Decoding centuries, then years, recovers the parts a day count was built from.
proof fn lemma_decode_parts(c: int, yp: int, e: int)
    requires
        0 <= yp <= 99,
        0 <= e <= 365,
        year_end_ok(c, yp, e),
    ensures
        ({
            let a = (146097 * c) / 4 + (1461 * yp) / 4 + e;
            let cc = a - (146097 * c) / 4;
            &&& (4 * a + 3) / 146097 == c
            &&& (4 * cc + 3) / 1461 == yp
            &&& cc - (1461 * yp) / 4 == e
        }),
{
    let a = (146097 * c) / 4 + (1461 * yp) / 4 + e;
    lemma_fundamental_div_mod(146097 * c, 4);
    lemma_fundamental_div_mod(1461 * yp, 4);
    lemma_div4_split(36524 * c, c);
    assert(146097 * c == 4 * (36524 * c) + c);
    lemma_fundamental_div_mod(c, 4);
    lemma_div4_split(365 * yp, yp);
    assert(1461 * yp == 4 * (365 * yp) + yp);
    lemma_fundamental_div_mod(yp, 4);
    let cc = (1461 * yp) / 4 + e;
    assert(cc <= 36524);
    assert(cc == 36524 ==> yp == 99 && e == 365);
    lemma_fundamental_div_mod_converse(4 * a + 3, 146097, c, 4 * cc + 3 - (146097 * c) % 4);
    lemma_fundamental_div_mod_converse(4 * cc + 3, 1461, yp, 4 * e + 3 - (1461 * yp) % 4);
}

/// The decoding of any day count finds parts in range.
proof fn lemma_decode_ranges(a: int)
    ensures
        ({
            let b = (4 * a + 3) / 146097;
            let c = a - (b * 146097) / 4;
            let d = (4 * c + 3) / 1461;
            let e = c - (1461 * d) / 4;
            &&& 0 <= d <= 99
            &&& 0 <= e <= 365
            &&& year_end_ok(b, d, e)
            &&& a == (146097 * b) / 4 + (1461 * d) / 4 + e
        }),
{
    let b = (4 * a + 3) / 146097;
    let c = a - (b * 146097) / 4;
    let d = (4 * c + 3) / 1461;
    let e = c - (1461 * d) / 4;
    lemma_fundamental_div_mod(4 * a + 3, 146097);
    lemma_fundamental_div_mod(b * 146097, 4);
    lemma_fundamental_div_mod(b, 4);
    lemma_div4_split(36524 * b, b);
    assert(146097 * b == 4 * (36524 * b) + b);
    assert(b * 146097 == 146097 * b);
    assert(0 <= c <= 36524);
    assert(c == 36524 ==> b % 4 == 3);
    lemma_fundamental_div_mod(4 * c + 3, 1461);
    lemma_fundamental_div_mod(1461 * d, 4);
    lemma_fundamental_div_mod(d, 4);
    lemma_div4_split(365 * d, d);
    assert(1461 * d == 4 * (365 * d) + d);
    assert(0 <= d <= 99) by (nonlinear_arith)
        requires 1461 * d + (4 * c + 3) % 1461 == 4 * c + 3, 0 <= (4 * c + 3) % 1461 < 1461, 0 <= c <= 36524;
    assert(0 <= e <= 365);
    assert(e == 365 ==> d % 4 == 3);
    assert(e == 365 && d == 99 ==> c == 36524);
}

/// A valid date survives encoding to a Julian day number and decoding back.
pub proof fn lemma_ymd_jd_roundtrip(y: int, m: int, d: int)
    requires
        valid_ymd(y, m, d),
    ensures
        ymd_of_jd(jd_of(y, m, d)) == (y, m, d),
{
    let yy = march_year(y, m);
    let c = yy / 100;
    let yp = yy % 100;
    let mm = march_month(m);
    lemma_jd_split(y, m, d);
    lemma_fundamental_div_mod(yy, 100);
    assert(1 <= d <= march_len(mm));
    lemma_month_of_day(mm, d);
    let e = month_start(mm) + d - 1;
    if e == 365 {
        assert(mm == 11 && d == 29);
        assert(leap(y));
        assert(yy + 1 == y + 4800);
        assert((yy + 1) % 4 == 0);
        lemma_fundamental_div_mod(yp, 4);
        lemma_fundamental_div_mod(c, 4);
        assert(yp % 4 == 3);
        if yp == 99 {
            assert(yy + 1 == 100 * (c + 1));
            assert(y % 100 == 0);
            assert(y % 400 == 0);
            assert((100 * (c + 1)) % 400 == 0);
            assert(c % 4 == 3);
        }
    }
    assert(year_end_ok(c, yp, e));
    lemma_decode_parts(c, yp, e);
    let j = jd_of(y, m, d);
    assert(j + 32044 == (146097 * c) / 4 + (1461 * yp) / 4 + e);
    assert((c * 146097) == (146097 * c));
}

/// Every Julian day number decodes to a valid date that encodes back to it.
#[verifier::rlimit(40)]
pub proof fn lemma_jd_ymd_roundtrip(j: int)
    ensures
        valid_ymd(ymd_of_jd(j).0, ymd_of_jd(j).1, ymd_of_jd(j).2),
        jd_of(ymd_of_jd(j).0, ymd_of_jd(j).1, ymd_of_jd(j).2) == j,
{
    let a = j + 32044;
    let b = (4 * a + 3) / 146097;
    let c = a - (b * 146097) / 4;
    let dd = (4 * c + 3) / 1461;
    let e = c - (1461 * dd) / 4;
    lemma_decode_ranges(a);
    lemma_day_in_month(e);
    let mm = (5 * e + 2) / 153;
    let (y, m, d) = ymd_of_jd(j);
    assert(m == (if mm >= 10 { mm - 9 } else { mm + 3 }));
    assert(d == e - month_start(mm) + 1);
    assert(march_month(m) == mm);
    assert(march_year(y, m) == 100 * b + dd);
    lemma_fundamental_div_mod_converse(100 * b + dd, 100, b, dd);
    lemma_jd_split(y, m, d);
    if mm == 11 && d == 29 {
        assert(e == 365);
        assert(dd % 4 == 3);
        assert(dd == 99 ==> b % 4 == 3);
        assert(y == 100 * b + dd + 1 - 4800);
        lemma_feb29_year_leap(b, dd, y);
    }
    assert(valid_ymd(y, m, d));
}

/// The year of a decoded February 29 is a leap year.
proof fn lemma_feb29_year_leap(b: int, dd: int, y: int)
    requires
        0 <= dd < 100,
        dd % 4 == 3,
        dd == 99 ==> b % 4 == 3,
        y == 100 * b + dd + 1 - 4800,
    ensures
        leap(y),
{
    lemma_fundamental_div_mod(dd, 4);
    lemma_fundamental_div_mod(b, 4);
    if dd == 99 {
        assert(y == 100 * (b + 1) - 4800);
        assert(y % 400 == 0);
    } else {
        assert(y % 4 == 0);
        assert(y % 100 != 0);
    }
}

/// The year decoded from a Julian day number that fits an `i64` fits an `i64` too.
pub proof fn lemma_decoded_year_fits(j: int)
    requires
        i64::MIN <= j <= i64::MAX,
    ensures
        i64::MIN <= ymd_of_jd(j).0 <= i64::MAX,
{
    let a = j + 32044;
    let b = (4 * a + 3) / 146097;
    lemma_decode_ranges(a);
    lemma_fundamental_div_mod(4 * a + 3, 146097);
    assert(-0x4_0000_0000_0000 <= b <= 0x4_0000_0000_0000) by (nonlinear_arith)
        requires 146097 * b + (4 * a + 3) % 146097 == 4 * a + 3, 0 <= (4 * a + 3) % 146097 < 146097,
            -0x8000_0000_0000_0000int <= j <= 0x8000_0000_0000_0000int, a == j + 32044;
    let c = a - (b * 146097) / 4;
    let dd = (4 * c + 3) / 1461;
    let e = c - (1461 * dd) / 4;
    lemma_day_in_month(e);
}

/// Days counted from 1958-01-01 survive the trip to a calendar date and back.
pub proof fn lemma_days_since_1958_roundtrip(n: i64)
    requires
        jd_1958() + n <= i64::MAX,
    ensures
        ({
            let (y, m, d) = ymd_of_jd(clamp64(jd_1958() + n));
            clamp64(clamp64(jd_of(clamp64(y), m, d)) - jd_1958()) == n
        }),
{
    let j = jd_1958() + n;
    lemma_jd_ymd_roundtrip(j);
    lemma_decoded_year_fits(j);
}

/// A valid date survives the trip to days since 1958-01-01 and back, where
/// those day counts fit an `i64`.
pub proof fn lemma_gregorian_1958_roundtrip(y: i64, m: u8, d: u8)
    requires
        valid_ymd(y as int, m as int, d as int),
        i64::MIN + jd_1958() <= jd_of(y as int, m as int, d as int) <= i64::MAX,
    ensures
        ({
            let n = clamp64(clamp64(jd_of(y as int, m as int, d as int)) - jd_1958());
            let (y2, m2, d2) = ymd_of_jd(clamp64(jd_1958() + n));
            clamp64(y2) == y && m2 == m && d2 == d
        }),
{
    lemma_ymd_jd_roundtrip(y as int, m as int, d as int);
}

/// The year-of-era estimate used when decoding days counted from 1 March of
/// year 0: `f(doe) / 365` names the year of day `doe` of a 400-year era.
pub open spec fn yoe_of(doe: int) -> int {
    (doe - doe / 1460 + doe / 36524 - doe / 146096) / 365
}

/// Day `t` of year `100 c + 4 q + r` of an era is found in that year.
proof fn lemma_yoe_correct(c: int, q: int, r: int, t: int)
    requires
        0 <= c <= 3,
        0 <= q <= 24,
        0 <= r <= 3,
        0 <= t <= 364 + (if r == 3 && (q != 24 || c == 3) { 1int } else { 0int }),
    ensures
        yoe_of(36524 * c + 1461 * q + 365 * r + t) == 100 * c + 4 * q + r,
{
    let doe = 36524 * c + 1461 * q + 365 * r + t;
    let x = 24 * c + q + 365 * r + t;
    let k1: int = if x >= 1460 { 1 } else { 0 };
    assert(0 <= x < 2920);
    lemma_fundamental_div_mod_converse(doe, 1460, 25 * c + q + k1, x - 1460 * k1);
    let y = 1461 * q + 365 * r + t;
    let k2: int = if y == 36524 { 1 } else { 0 };
    assert(0 <= y <= 36524);
    lemma_fundamental_div_mod_converse(doe, 36524, c + k2, y - 36524 * k2);
    let k3: int = if doe == 146096 { 1 } else { 0 };
    lemma_fundamental_div_mod_converse(doe, 146096, k3, doe - 146096 * k3);
    let w = t - k1 + k2 - k3;
    assert(0 <= w <= 364);
    let f = doe - (25 * c + q + k1) + (c + k2) - k3;
    assert(f == 365 * (100 * c + 4 * q + r) + w);
    lemma_fundamental_div_mod_converse(f, 365, 100 * c + 4 * q + r, w);
}

/// Splitting a day of an era into years finds the day within its year, and
/// day 365 only in a year followed by a leap year.
proof fn lemma_era_day(doe: int)
    requires
        0 <= doe <= 146096,
    ensures
        ({
            let yoe = yoe_of(doe);
            let doy = doe - (365 * yoe + yoe / 4 - yoe / 100);
            &&& 0 <= yoe <= 399
            &&& 0 <= doy <= 365
            &&& doe == 36524 * (yoe / 100) + 1461 * ((yoe % 100) / 4) + 365 * ((yoe % 100) % 4) + doy
            &&& (doy == 365 ==> yoe % 4 == 3 && (yoe % 100 != 99 || yoe == 399))
        }),
{
    lemma_fundamental_div_mod(doe, 36524);
    let c0 = doe / 36524;
    let c = if c0 > 3 { 3 } else { c0 };
    assert(c0 <= 4);
    let rest = doe - 36524 * c;
    assert(0 <= rest <= 36524);
    assert(rest == 36524 ==> c == 3);
    lemma_fundamental_div_mod(rest, 1461);
    let q = rest / 1461;
    assert(0 <= q <= 24);
    let rest2 = rest - 1461 * q;
    lemma_fundamental_div_mod(rest2, 365);
    let r0 = rest2 / 365;
    let r = if r0 > 3 { 3 } else { r0 };
    let t = rest2 - 365 * r;
    assert(0 <= t <= 365);
    assert(t == 365 ==> r == 3 && (q != 24 || c == 3));
    lemma_yoe_correct(c, q, r, t);
    let yoe = 100 * c + 4 * q + r;
    lemma_fundamental_div_mod_converse(yoe, 100, c, 4 * q + r);
    lemma_fundamental_div_mod_converse(4 * q + r, 4, q, r);
    lemma_fundamental_div_mod_converse(yoe, 4, 25 * c + q, r);
    assert(yoe / 4 == 25 * c + q);
    assert(doe - (365 * yoe + yoe / 4 - yoe / 100) == t);
}

/// The Unix-day decoding finds the same date as the Julian-day decoding.
pub proof fn lemma_unix_days_date(n: int)
    ensures
        ymd_of_unix_days(n) == ymd_of_jd(n + 2440588),
        valid_ymd(ymd_of_unix_days(n).0, ymd_of_unix_days(n).1, ymd_of_unix_days(n).2),
{
    let z = n + 719468;
    let era = z / 146097;
    lemma_fundamental_div_mod(z, 146097);
    let doe = z - era * 146097;
    assert(doe == z % 146097);
    lemma_era_day(doe);
    let yoe = yoe_of(doe);
    let doy = doe - (365 * yoe + yoe / 4 - yoe / 100);
    lemma_day_in_month(doy);
    let mp = (5 * doy + 2) / 153;
    let (y, m, d) = ymd_of_unix_days(n);
    assert(march_month(m) == mp);
    assert(d == doy - month_start(mp) + 1);
    let c = yoe / 100;
    let yp = yoe % 100;
    assert(march_year(y, m) == 400 * (era + 12) + yoe);
    lemma_fundamental_div_mod_converse(400 * (era + 12) + yoe, 100, 4 * (era + 12) + c, yp);
    lemma_jd_split(y, m, d);
    lemma_div4_split(146097 * (era + 12) + 36524 * c, c);
    assert(146097 * (4 * (era + 12) + c) == 4 * (146097 * (era + 12) + 36524 * c) + c);
    lemma_fundamental_div_mod_converse(c, 4, 0, c);
    lemma_div4_split(365 * yp, yp);
    assert(1461 * yp == 4 * (365 * yp) + yp);
    assert(jd_of(y, m, d) == n + 2440588);
    if mp == 11 && d == 29 {
        assert(doy == 365);
        assert(y == yoe + 1 + 400 * era);
        lemma_fundamental_div_mod_converse(y, 4, 100 * era + (yoe + 1) / 4, 0);
        if yoe == 399 {
            lemma_fundamental_div_mod_converse(y, 400, era + 1, 0);
        } else {
            lemma_fundamental_div_mod_converse(y, 100, 4 * era + c, yp + 1);
        }
        assert(leap(y));
    }
    assert(valid_ymd(y, m, d));
    lemma_ymd_jd_roundtrip(y, m, d);
}

/// A valid date and time of day, turned into Unix seconds and back, gives
/// the same date (where the seconds fit an `i64`).
pub proof fn lemma_unix_sec_roundtrip(y: int, m: int, d: int, h: int, mi: int, s: int)
    requires
        valid_ymd(y, m, d),
        0 <= h <= 23,
        0 <= mi <= 59,
        0 <= s <= 59,
        i64::MIN <= (jd_of(y, m, d) - 2440588) * 86400 <= i64::MAX - 86399,
        i64::MIN <= jd_of(y, m, d) <= i64::MAX,
    ensures
        ({
            let secs = clamp64(clamp64(clamp64(clamp64(jd_of(y, m, d)) - 2440588) * 86400) + (h * 3600 + mi * 60 + s));
            ymd_of_jd(secs / 86400 + 2440588) == (y, m, d)
        }),
{
    let days = jd_of(y, m, d) - 2440588;
    let tod = h * 3600 + mi * 60 + s;
    assert(0 <= tod < 86400);
    let secs = days * 86400 + tod;
    lemma_fundamental_div_mod_converse(secs, 86400, days, tod);
    lemma_ymd_jd_roundtrip(y, m, d);
}

/// A valid date lies in its year: 0 to 364 days (365 in a leap year) after
/// 1 January.
pub proof fn lemma_day_of_year_range(y: int, m: int, d: int)
    requires
        valid_ymd(y, m, d),
    ensures
        0 <= jd_of(y, m, d) - jd_of(y, 1, 1) <= 364 + (if leap(y) { 1int } else { 0int }),
{
    lemma_jd_split(y, m, d);
    lemma_jd_split(y, 1, 1);
    lemma_jd_split(y + 1, 1, 1);
    lemma_january_year_step(y, 1);
    let mm = march_month(m);
    assert(month_start(10) == 306);
    assert(month_start(11) == 337);
    if m >= 3 {
        assert(march_year(y, m) == march_year(y + 1, 1));
        assert(0 <= mm <= 9);
        assert(month_start(mm) + d - 1 <= 305) by {
            assert(month_start(0) == 0); assert(month_start(1) == 31); assert(month_start(2) == 61);
            assert(month_start(3) == 92); assert(month_start(4) == 122); assert(month_start(5) == 153);
            assert(month_start(6) == 184); assert(month_start(7) == 214); assert(month_start(8) == 245);
            assert(month_start(9) == 275);
        }
        assert(month_start(mm) >= 0);
    } else {
        assert(march_year(y, m) == march_year(y, 1));
        if m == 2 {
            assert(d <= 28 + (if leap(y) { 1int } else { 0int }));
        }
    }
}

/// The ISO week date of a valid date names it: the date is the Monday that
/// starts week 1 of the ISO year, plus `7 * (week - 1)` days, plus its
/// weekday counted from Monday; and the week lies between 1 and the number
/// of weeks of that ISO year (53 where it has a week 53, else 52). Stated
/// where the Julian day numbers involved fit an `i64`.
#[verifier::rlimit(30)]
pub proof fn lemma_iso_week_date_names_the_day(y: int, m: int, d: int)
    requires
        valid_ymd(y, m, d),
        i64::MIN <= jd_of(y - 1, 1, 1),
        jd_of(y + 1, 1, 4) <= i64::MAX,
    ensures
        ({
            let (iy, wk) = iso_week_date(y, m, d);
            let j = jd_of(y, m, d);
            &&& j == week1_monday(iy) + 7 * (wk - 1) + (wkday_of_jd(j) + 6) % 7
            &&& 1 <= wk <= (if iso_wk_53(iy) { 53int } else { 52int })
        }),
{
    let j = jd_of(y, m, d);
    let j1 = jd_of(y, 1, 1);
    let l: int = if leap(y) { 1 } else { 0 };
    lemma_january_year_step(y - 1, 1);
    lemma_january_year_step(y, 1);
    lemma_january_year_step(y, 4);
    lemma_day_of_year_range(y, m, d);
    assert(jd_of(y, 1, 4) == j1 + 3);
    assert(jd_of(y + 1, 1, 4) == jd_of(y + 1, 1, 1) + 3);
    assert(jd_of(y - 1, 1, 4) == jd_of(y - 1, 1, 1) + 3);
    assert(i64::MIN <= j1 && j1 + 400 <= i64::MAX);
    lemma_iso_wk_53_counts_weeks(y - 1);
    lemma_iso_wk_53_counts_weeks(y);
    lemma_iso_wk_53_counts_weeks(y + 1 - 1);
    assert(i64::MIN <= jd_of(y + 1, 1, 1) <= i64::MAX);
    let j4 = jd_of(y, 1, 4);
    lemma_monday_based_weekday(j4);
    lemma_monday_based_weekday(j);
    let m0 = week1_monday(y);
    assert(m0 == j4 - j4 % 7);
    assert(m0 % 7 == 0) by {
        lemma_fundamental_div_mod(j4, 7);
        lemma_fundamental_div_mod_converse(m0, 7, j4 / 7, 0);
    }
    assert(clamp64(j) == j);
    assert(clamp64(j4) == j4);
    let diff = j - m0;
    lemma_fundamental_div_mod(diff, 7);
    assert(j % 7 == diff % 7) by {
        lemma_fundamental_div_mod_converse(j, 7, m0 / 7 + diff / 7, diff % 7);
        lemma_fundamental_div_mod(m0, 7);
    }
    let raw = iso_wk_u8(y, m, d) as int;
    if diff < 0 {
        assert(raw == 0);
        assert(-7 <= diff);
        assert(j % 7 == diff + 7) by {
            lemma_fundamental_div_mod_converse(diff, 7, -1, diff + 7);
        }
    } else {
        assert(diff <= 370);
        assert(diff / 7 <= 52) by {
            vstd::arithmetic::div_mod::lemma_div_is_ordered(diff, 370, 7);
        }
        assert(raw == diff / 7 + 1);
        if raw >= 53 && !iso_wk_53(y) {
            assert(week1_monday(y + 1) == m0 + 364);
            assert(j % 7 == diff - 364) by {
                lemma_fundamental_div_mod_converse(diff, 7, 52, diff - 364);
            }
        }
    }
}

/// The day after a valid date.
pub open spec fn next_date(y: int, m: int, d: int) -> (int, int, int) {
    if d < month_days(y, m) { (y, m, d + 1) } else if m < 12 { (y, m + 1, 1) } else { (y + 1, 1, 1) }
}

/// Julian day numbers count the days of the proleptic Gregorian calendar one
/// by one: the day after a valid date is a valid date whose number is one
/// more, 2000-01-01 is day 2 451 545, and it was a Saturday (weekday 6 with
/// Sunday 0), each day's weekday following the previous one's.
pub proof fn lemma_jd_counts_days(y: int, m: int, d: int)
    requires
        valid_ymd(y, m, d),
    ensures
        ({
            let (y2, m2, d2) = next_date(y, m, d);
            &&& valid_ymd(y2, m2, d2)
            &&& jd_of(y2, m2, d2) == jd_of(y, m, d) + 1
        }),
        jd_of(2000, 1, 1) == 2_451_545,
        wkday_of_jd(jd_of(2000, 1, 1)) == 6,
        wkday_of_jd(jd_of(y, m, d) + 1) == (wkday_of_jd(jd_of(y, m, d)) + 1) % 7,
{
    let md = month_days(y, m);
    lemma_jd_split(y, m, d);
    lemma_jd_split(y, m, 1);
    assert(month_start(0) == 0); assert(month_start(1) == 31); assert(month_start(2) == 61);
    assert(month_start(3) == 92); assert(month_start(4) == 122); assert(month_start(5) == 153);
    assert(month_start(6) == 184); assert(month_start(7) == 214); assert(month_start(8) == 245);
    assert(month_start(9) == 275); assert(month_start(10) == 306); assert(month_start(11) == 337);
    if d < md {
        lemma_jd_split(y, m, d + 1);
    } else if m < 12 {
        assert(d == md);
        lemma_jd_split(y, m + 1, 1);
        if m == 2 {
            lemma_jd_split(y, 1, 1);
            lemma_jd_split(y + 1, 1, 1);
            lemma_january_year_step(y, 1);
            assert(march_year(y, 3) == march_year(y + 1, 1));
            assert(march_year(y, 2) == march_year(y, 1));
        }
    } else {
        assert(d == 31);
        lemma_jd_split(y + 1, 1, 1);
        assert(march_year(y, 12) == march_year(y + 1, 1));
    }
    let j = jd_of(y, m, d);
    lemma_fundamental_div_mod(j + 1, 7);
    let q = (j + 1) / 7;
    let r = (j + 1) % 7;
    lemma_fundamental_div_mod_converse(j + 2, 7, if r == 6 { q + 1 } else { q }, if r == 6 { 0 } else { r + 1 });
    lemma_fundamental_div_mod_converse(r + 1, 7, if r == 6 { 1 } else { 0 }, if r == 6 { 0 } else { r + 1 });
    lemma_fundamental_div_mod_converse(2_451_546, 7, 350_220, 6);
}

} // verus!
