//! Calendar date and time of day of a `Dt` on its target scale, and the
//! instant of given civil fields, with the leap second read as second 60.
use vstd::prelude::*;
use crate::arith::{clamp64, clamp128, sat_add, sat_add64, sat_mul64, rem_floor, div_floor};
use crate::dt::{Dt, ATTOS_PER_SEC};
use crate::dt::gregorian::{ymd_of_jd, jd_of, month_days, valid_ymd};
use crate::dt::helpers::{clamp_spec, clamp_between};
use crate::dt::scale_conv::{
    to_attos_with, tai_attos_with,
    int_scale, tai_attos, from_tai_attos, to_attos_spec, leap_second_at, is_leap_second, utc_leap_offset,
    utc_step_attos, lemma_before_1972, lemma_offset_bounds, lemma_utc_image_not_leap, lemma_utc_tai_utc, lemma_leap_second_reads_back,
};
use crate::scale::Scale;

verus! {

/// The Unix epoch (1970-01-01 00:00:00) as a TAI count.
pub open spec fn unix_epoch_attos() -> int {
    -946_728_000 * ATTOS_PER_SEC
}

/// A calendar date and time of day on a time scale.
#[derive(Clone, Copy, Debug, PartialEq, Eq, Structural)]
pub struct YmdHms {
    /// Year (proleptic Gregorian, astronomical numbering).
    pub yr: i64,
    /// Month, 1 to 12.
    pub mo: u8,
    /// Day of the month, from 1.
    pub day: u8,
    /// Hour, 0 to 23.
    pub hr: u8,
    /// Minute, 0 to 59.
    pub min: u8,
    /// Second, 0 to 60 (60 in a leap second).
    pub sec: u8,
    /// Attoseconds into the second.
    pub attos: u64,
    /// The scale the fields are on.
    pub scale: Scale,
    /// The scale of the `Dt` the fields were read from.
    pub old_scale: Scale,
}

impl YmdHms {
    /// The year.
    pub fn yr(&self) -> (r: i64)
        ensures
            r == self.yr,
    {
        self.yr
    }

    /// The month.
    pub fn mo(&self) -> (r: u8)
        ensures
            r == self.mo,
    {
        self.mo
    }

    /// The day of the month.
    pub fn day(&self) -> (r: u8)
        ensures
            r == self.day,
    {
        self.day
    }

    /// The hour.
    pub fn hr(&self) -> (r: u8)
        ensures
            r == self.hr,
    {
        self.hr
    }

    /// The minute.
    pub fn min(&self) -> (r: u8)
        ensures
            r == self.min,
    {
        self.min
    }

    /// The second.
    pub fn sec(&self) -> (r: u8)
        ensures
            r == self.sec,
    {
        self.sec
    }

    /// The attoseconds into the second.
    pub fn attos(&self) -> (r: u64)
        ensures
            r == self.attos,
    {
        self.attos
    }
}

/// Attoseconds from the Unix epoch to `d`, both taken to `d`'s target scale.
pub open spec fn unix_attos_of(d: Dt) -> int {
    clamp128(to_attos_spec(d.scale, d.target, d.attos as int) - to_attos_spec(Scale::TAI, d.target, unix_epoch_attos()))
}

/// The calendar fields `to_ymd` reads from `d`: year, month, day, hour,
/// minute, second and attoseconds of the second `d` falls in, counted on
/// `d`'s target scale from the Unix epoch, with second 60 in a leap second.
pub open spec fn ymd_fields(d: Dt) -> (int, int, int, int, int, int, int) {
    let ua = unix_attos_of(d);
    let us = clamp64(ua / (ATTOS_PER_SEC as int));
    let (y, m, dd) = ymd_of_jd(us / 86400 + 2440588);
    let sod = us % 86400;
    let leap = leap_scale(d.target) && leap_second_at(tai_attos(d.scale, d.attos as int));
    (y, m, dd, sod / 3600, (sod % 3600) / 60, sod % 60 + (if leap { 1int } else { 0int }), ua % (ATTOS_PER_SEC as int))
}

/// Whether scale `s` inserts leap seconds.
pub open spec fn leap_scale(s: Scale) -> bool {
    s == Scale::UTC || s == Scale::UTCSpice || s == Scale::UTCSofa
}

impl Dt {
    /// The calendar date and time of day on the `target` scale: the day and
    /// second that the instant falls in (both floored), with second 60 during
    /// an inserted leap second when `target` is a UTC scale.
    pub fn to_ymd(&self) -> (r: YmdHms)
        requires
            int_scale(self.scale),
            int_scale(self.target),
        ensures
            (r.yr as int, r.mo as int, r.day as int, r.hr as int, r.min as int, r.sec as int, r.attos as int)
                == ymd_fields(*self),
            r.scale == self.target,
            r.old_scale == self.scale,
            valid_ymd(r.yr as int, r.mo as int, r.day as int),
            r.hr <= 23 && r.min <= 59 && r.sec <= 60 && r.attos < ATTOS_PER_SEC,
            r.sec == 60 ==> leap_scale(self.target),
    {
        let from_unix = self.to_scale_and_diff(Dt::unix_epoch(), true);
        let unix_sec = from_unix.to_sec64_floor();
        let frac = from_unix.to_sec_ufrac();
        let (yr, mo, day) = Dt::unix_sec_to_ymd(unix_sec);
        let sod = rem_floor(unix_sec as i128, 86400) as i64;
        let hr = (sod / 3600) as u8;
        let min = ((sod % 3600) / 60) as u8;
        let mut sec = (sod % 60) as u8;
        let is_leap = if self.target.uses_leap_seconds() {
            is_leap_second(self.to_tai().attos)
        } else {
            false
        };
        if is_leap {
            sec = sec + 1;
        }
        YmdHms { yr, mo, day, hr, min, sec, attos: frac, scale: self.target, old_scale: self.scale }
    }
}

/// The calendar fields `to_ymd_with` reads from `d`, the conversions taking
/// the corrections `cf` (of `d`'s scale), `ct` (of the target at `d`) and `ce`
/// (of the target at the Unix epoch).
pub open spec fn ymd_fields_with(d: Dt, cf: Option<i128>, ct: Option<i128>, ce: Option<i128>) -> (int, int, int, int, int, int, int) {
    let ua = clamp128(to_attos_with(d.scale, d.target, d.attos as int, cf, ct)
        - to_attos_with(Scale::TAI, d.target, unix_epoch_attos(), None, ce));
    let us = clamp64(ua / (ATTOS_PER_SEC as int));
    let (y, m, dd) = ymd_of_jd(us / 86400 + 2440588);
    let sod = us % 86400;
    let leap = leap_scale(d.target) && leap_second_at(tai_attos_with(d.scale, d.attos as int, cf));
    (y, m, dd, sod / 3600, (sod % 3600) / 60, sod % 60 + (if leap { 1int } else { 0int }), ua % (ATTOS_PER_SEC as int))
}

impl Dt {
    /// The calendar date and time of day on the `target` scale, as `to_ymd`
    /// reads them, for any pair of scales: the conversions take the
    /// corrections of `Dt::to_with` (`from_correction` for `scale`,
    /// `to_correction` for `target` at this instant, `epoch_correction` for
    /// `target` at the Unix epoch).
    pub fn to_ymd_with(&self, from_correction: Option<i128>, to_correction: Option<i128>,
        epoch_correction: Option<i128>) -> (r: YmdHms)
        ensures
            (r.yr as int, r.mo as int, r.day as int, r.hr as int, r.min as int, r.sec as int, r.attos as int)
                == ymd_fields_with(*self, from_correction, to_correction, epoch_correction),
            r.scale == self.target,
            r.old_scale == self.scale,
            valid_ymd(r.yr as int, r.mo as int, r.day as int),
            r.hr <= 23 && r.min <= 59 && r.sec <= 60 && r.attos < ATTOS_PER_SEC,
            r.sec == 60 ==> leap_scale(self.target),
    {
        let here = self.to_with(self.target, from_correction, to_correction);
        let epoch = Dt::unix_epoch().to_with(self.target, None, epoch_correction);
        let from_unix = here.to_diff_raw(epoch);
        let unix_sec = from_unix.to_sec64_floor();
        let frac = from_unix.to_sec_ufrac();
        let (yr, mo, day) = Dt::unix_sec_to_ymd(unix_sec);
        let sod = rem_floor(unix_sec as i128, 86400) as i64;
        let hr = (sod / 3600) as u8;
        let min = ((sod % 3600) / 60) as u8;
        let mut sec = (sod % 60) as u8;
        let is_leap = if self.target.uses_leap_seconds() {
            is_leap_second(self.to_tai_with(from_correction).attos)
        } else {
            false
        };
        if is_leap {
            sec = sec + 1;
        }
        YmdHms { yr, mo, day, hr, min, sec, attos: frac, scale: self.target, old_scale: self.scale }
    }
}

/// On scales that need no correction, `to_ymd_with` reads what `to_ymd`
/// reads, whatever corrections are handed in.
pub proof fn lemma_ymd_with_agrees(d: Dt, cf: Option<i128>, ct: Option<i128>, ce: Option<i128>)
    requires
        int_scale(d.scale),
        int_scale(d.target),
    ensures
        ymd_fields_with(d, cf, ct, ce) == ymd_fields(d),
{
    assert(to_attos_with(d.scale, d.target, d.attos as int, cf, ct) == to_attos_spec(d.scale, d.target, d.attos as int));
    assert(to_attos_with(Scale::TAI, d.target, unix_epoch_attos(), None, ce) == to_attos_spec(Scale::TAI, d.target, unix_epoch_attos()));
    assert(tai_attos_with(d.scale, d.attos as int, cf) == tai_attos(d.scale, d.attos as int));
}

/// The TAI count that `from_ymd` gives for fields read on scale `scale`:
/// month, day, hour, minute and second clamped to their ranges, the
/// attoseconds to one second; second 60 stands one second after second 59
/// where that second is an inserted leap second, and reads as 59 elsewhere.
pub open spec fn from_ymd_attos(yr: int, mo: int, day: int, scale: Scale, hr: int, min: int, sec: int, attos: int) -> int {
    let m = clamp_spec(mo, 1, 12);
    let d = clamp_spec(day, 1, month_days(yr, m));
    let h = clamp_spec(hr, 0, 23);
    let mi = clamp_spec(min, 0, 59);
    let s = clamp_spec(sec, 0, 60);
    let a = clamp_between(attos, 0, ATTOS_PER_SEC - 1);
    let s_unix = if s == 60 { 59 } else { s };
    let us = clamp64(clamp64(clamp64(clamp64(jd_of(yr, m, d)) - 2440588) * 86400) + (h * 3600 + mi * 60 + s_unix));
    let ua = clamp128(us * ATTOS_PER_SEC) + a;
    let t = tai_attos(scale, clamp128(unix_epoch_attos() + ua));
    let next = clamp128(t + ATTOS_PER_SEC);
    if s == 60 && leap_scale(scale) && leap_second_at(clamp64(next / (ATTOS_PER_SEC as int)) * ATTOS_PER_SEC) {
        next
    } else {
        t
    }
}

impl Dt {
    /// The TAI instant at `epoch + diff`, the sum read on `diff`'s scale
    /// (with `convert_epoch`, `epoch` is first taken to that scale);
    /// `target` is `diff`'s scale.
    pub fn from_diff_and_scale(diff: Dt, epoch: Dt, convert_epoch: bool) -> (r: Dt)
        requires
            int_scale(diff.scale),
            convert_epoch ==> int_scale(epoch.scale),
        ensures
            r.attos == tai_attos(diff.scale, clamp128(
                (if convert_epoch { to_attos_spec(epoch.scale, diff.scale, epoch.attos as int) } else { epoch.attos as int })
                    + diff.attos)),
            r.scale == Scale::TAI,
            r.target == diff.scale,
    {
        let base = if convert_epoch { epoch.to(diff.scale).attos } else { epoch.attos };
        Dt::new(sat_add(base, diff.attos), diff.scale, diff.scale).to_tai()
    }

    /// The TAI instant of a proleptic Gregorian date and time of day read on
    /// `scale`. Out-of-range fields are clamped (month 1..=12, day to the
    /// month, hour 0..=23, minute 0..=59, second 0..=60, attoseconds below one
    /// second). Second 60 is the inserted leap second where one follows second
    /// 59 on a UTC scale, and reads as second 59 elsewhere. `target` is `scale`.
    pub fn from_ymd(yr: i64, mo: u8, day: u8, scale: Scale, hr: u8, min: u8, sec: u8, attos: u64) -> (r: Dt)
        requires
            int_scale(scale),
        ensures
            r.attos == from_ymd_attos(yr as int, mo as int, day as int, scale, hr as int, min as int, sec as int, attos as int),
            r.scale == Scale::TAI,
            r.target == scale,
    {
        let (mo, day, hr, min, sec) = Dt::clamp_mdhms(yr, mo, day, hr, min, sec);
        let attos = Dt::clamp_u64(attos, 0, (ATTOS_PER_SEC - 1) as u64);
        let sec_is_60 = sec == 60;
        let s_for_unix = if sec_is_60 { 59 } else { sec };
        let unix_sec = Dt::ymd_to_unix_sec(yr, mo, day, hr, min, s_for_unix);
        let unix_attos = Dt::sec_to_attos(unix_sec as i128) + (attos as i128);
        let t = Dt::from_diff_and_scale(Dt::new(unix_attos, scale, scale), Dt::unix_epoch(), false);
        if sec_is_60 && scale.uses_leap_seconds() {
            let next = t.add_sec(1);
            let is_leap = is_leap_second((next.to_sec64_floor() as i128) * ATTOS_PER_SEC);
            if is_leap { next } else { t }
        } else {
            t
        }
    }
}

/// Whether the Unix seconds of every second of date `(y, m, d)` fit an `i64`.
pub open spec fn unix_day_fits(y: int, m: int, d: int) -> bool {
    &&& i64::MIN <= (jd_of(y, m, d) - 2440588) * 86400
    &&& (jd_of(y, m, d) - 2440588) * 86400 + 86399 <= i64::MAX
}

/// A valid date and time of day with a second below 60, read on UTC, TAI,
/// UT or a custom scale by `from_ymd`, is what `to_ymd` reads back, wherever
/// the Unix seconds fit an `i64`.
pub proof fn lemma_ymd_roundtrip(yr: i64, mo: u8, day: u8, scale: Scale, hr: u8, min: u8, sec: u8, attos: u64)
    requires
        scale == Scale::UTC || scale == Scale::TAI || scale == Scale::UT || scale == Scale::Custom,
        valid_ymd(yr as int, mo as int, day as int),
        hr < 24,
        min < 60,
        sec < 60,
        attos < ATTOS_PER_SEC,
        unix_day_fits(yr as int, mo as int, day as int),
    ensures
        ({
            let t = from_ymd_attos(yr as int, mo as int, day as int, scale, hr as int, min as int, sec as int, attos as int);
            ymd_fields(Dt { attos: t as i128, scale: Scale::TAI, target: scale })
                == (yr as int, mo as int, day as int, hr as int, min as int, sec as int, attos as int)
        }),
{
    let sp = ATTOS_PER_SEC as int;
    let j = jd_of(yr as int, mo as int, day as int);
    let tod = hr * 3600 + min * 60 + sec;
    assert(0 <= tod < 86400);
    assert(i64::MIN <= j <= i64::MAX) by (nonlinear_arith)
        requires i64::MIN <= (j - 2440588) * 86400, (j - 2440588) * 86400 + 86399 <= i64::MAX;
    let days = j - 2440588;
    let us = days * 86400 + tod;
    assert(clamp64(clamp64(clamp64(clamp64(j) - 2440588) * 86400) + tod) == us);
    assert(i64::MIN <= us <= i64::MAX);
    assert(-0x8000_0000_0000_0000_0000_0000_0000_0000_0000_0000 < us * sp < 0x8000_0000_0000_0000_0000_0000_0000_0000_0000_0000) by (nonlinear_arith)
        requires i64::MIN <= us <= i64::MAX, sp == 1_000_000_000_000_000_000;
    let ua = us * sp + attos;
    let x = unix_epoch_attos() + ua;
    assert(clamp128(us * sp) == us * sp);
    assert(clamp128(x) == x);
    let t = tai_attos(scale, x);
    assert(from_ymd_attos(yr as int, mo as int, day as int, scale, hr as int, min as int, sec as int, attos as int) == t);
    let d = Dt { attos: t as i128, scale: Scale::TAI, target: scale };
    if scale == Scale::UTC {
        lemma_offset_bounds(x);
        assert(t == x + utc_leap_offset(x) * sp);
        lemma_utc_tai_utc(x);
        lemma_before_1972(unix_epoch_attos());
        lemma_utc_image_not_leap(x);
        assert(to_attos_spec(Scale::TAI, Scale::UTC, t) == x);
        assert(to_attos_spec(Scale::TAI, Scale::UTC, unix_epoch_attos()) == unix_epoch_attos());
    }
    assert(unix_attos_of(d) == ua);
    vstd::arithmetic::div_mod::lemma_fundamental_div_mod_converse(ua, sp, us, attos as int);
    vstd::arithmetic::div_mod::lemma_fundamental_div_mod_converse(us, 86400, days, tod);
    crate::dt::calendar_proofs::lemma_ymd_jd_roundtrip(yr as int, mo as int, day as int);
    vstd::arithmetic::div_mod::lemma_fundamental_div_mod_converse(tod, 3600, hr as int, min * 60 + sec);
    vstd::arithmetic::div_mod::lemma_fundamental_div_mod_converse(min * 60 + sec, 60, min as int, sec as int);
    vstd::arithmetic::div_mod::lemma_fundamental_div_mod_converse(tod, 60, hr * 60 + min, sec as int);
}

/// The UTC count (from 2000-01-01 12:00) of the given date and time of day.
pub open spec fn utc_count_of(y: int, m: int, d: int, h: int, mi: int, s: int) -> int {
    unix_epoch_attos() + ((jd_of(y, m, d) - 2440588) * 86400 + h * 3600 + mi * 60 + s) * ATTOS_PER_SEC
}

/// Second 60 of a minute that ends in an inserted leap second, read on UTC
/// by `from_ymd`, is what `to_ymd` reads back.
pub proof fn lemma_ymd_leap_roundtrip(yr: i64, mo: u8, day: u8, hr: u8, min: u8, attos: u64)
    requires
        valid_ymd(yr as int, mo as int, day as int),
        hr < 24,
        min < 60,
        attos < ATTOS_PER_SEC,
        unix_day_fits(yr as int, mo as int, day as int),
        leap_second_at(tai_attos(Scale::UTC, utc_count_of(yr as int, mo as int, day as int, hr as int, min as int, 59))
            + ATTOS_PER_SEC),
    ensures
        ({
            let t = from_ymd_attos(yr as int, mo as int, day as int, Scale::UTC, hr as int, min as int, 60, attos as int);
            ymd_fields(Dt { attos: t as i128, scale: Scale::TAI, target: Scale::UTC })
                == (yr as int, mo as int, day as int, hr as int, min as int, 60int, attos as int)
        }),
{
    let sp = ATTOS_PER_SEC as int;
    let j = jd_of(yr as int, mo as int, day as int);
    let tod = hr * 3600 + min * 60 + 59;
    assert(0 <= tod < 86400);
    assert(i64::MIN <= j <= i64::MAX) by (nonlinear_arith)
        requires i64::MIN <= (j - 2440588) * 86400, (j - 2440588) * 86400 + 86399 <= i64::MAX;
    let days = j - 2440588;
    let us = days * 86400 + tod;
    assert(clamp64(clamp64(clamp64(clamp64(j) - 2440588) * 86400) + tod) == us);
    assert(i64::MIN <= us <= i64::MAX);
    assert(-0x8000_0000_0000_0000_0000_0000_0000_0000_0000_0000 < us * sp < 0x8000_0000_0000_0000_0000_0000_0000_0000_0000_0000) by (nonlinear_arith)
        requires i64::MIN <= us <= i64::MAX, sp == 1_000_000_000_000_000_000;
    let a = attos as int;
    let ua = us * sp + a;
    let n = -946_728_000 + us;
    let u = n * sp;
    assert(u == unix_epoch_attos() + us * sp);
    assert(u == utc_count_of(yr as int, mo as int, day as int, hr as int, min as int, 59));
    let x = u + a;
    assert(clamp128(us * sp) == us * sp);
    assert(clamp128(x) == x);
    lemma_offset_bounds(u);
    lemma_offset_bounds(x);
    let off = utc_leap_offset(u);
    assert(tai_attos(Scale::UTC, u) == u + off * sp);
    lemma_leap_second_reads_back(n, a);
    assert(utc_leap_offset(x) == off);
    let t = tai_attos(Scale::UTC, x);
    assert(t == u + off * sp + a);
    let next = clamp128(t + sp);
    assert(next == (n + off + 1) * sp + a);
    vstd::arithmetic::div_mod::lemma_fundamental_div_mod_converse(next, sp, n + off + 1, a);
    assert(clamp64(next / sp) * sp == u + off * sp + sp);
    assert(from_ymd_attos(yr as int, mo as int, day as int, Scale::UTC, hr as int, min as int, 60, attos as int) == next);
    let d = Dt { attos: next as i128, scale: Scale::TAI, target: Scale::UTC };
    lemma_before_1972(unix_epoch_attos());
    assert(to_attos_spec(Scale::TAI, Scale::UTC, next) == x);
    assert(to_attos_spec(Scale::TAI, Scale::UTC, unix_epoch_attos()) == unix_epoch_attos());
    assert(unix_attos_of(d) == ua);
    vstd::arithmetic::div_mod::lemma_fundamental_div_mod_converse(ua, sp, us, a);
    vstd::arithmetic::div_mod::lemma_fundamental_div_mod_converse(us, 86400, days, tod);
    crate::dt::calendar_proofs::lemma_ymd_jd_roundtrip(yr as int, mo as int, day as int);
    vstd::arithmetic::div_mod::lemma_fundamental_div_mod_converse(tod, 3600, hr as int, min * 60 + 59);
    vstd::arithmetic::div_mod::lemma_fundamental_div_mod_converse(min * 60 + 59, 60, min as int, 59);
    vstd::arithmetic::div_mod::lemma_fundamental_div_mod_converse(tod, 60, hr * 60 + min, 59);
}

/// `a` or `b`, whichever is smaller.
pub open spec fn min_int(a: int, b: int) -> int {
    if a <= b { a } else { b }
}

/// The date `add_months` gives: the month count moved by `n` (the year
/// saturating at the `i64` range) and the day clamped to the new month.
pub open spec fn add_months_date(y: int, m: int, d: int, n: int) -> (int, int, int) {
    let total = y * 12 + (m - 1) + n;
    let y2 = clamp64(total / 12);
    let m2 = total % 12 + 1;
    (y2, m2, min_int(d, month_days(y2, m2)))
}

/// The date `add_years` gives: the year moved by `n` (saturating), the
/// month kept and the day clamped to it.
pub open spec fn add_years_date(y: int, m: int, d: int, n: int) -> (int, int, int) {
    let y2 = clamp64(y + n);
    (y2, m, min_int(d, month_days(y2, m)))
}

/// The date `add_days` gives: `n` days after the date's Julian day number
/// (saturating).
pub open spec fn add_days_date(y: int, m: int, d: int, n: int) -> (int, int, int) {
    let (y2, m2, d2) = ymd_of_jd(clamp64(clamp64(jd_of(y, m, d)) + n));
    (clamp64(y2), m2, d2)
}

impl YmdHms {
    /// The same fields with another date.
    fn with_date(&self, yr: i64, mo: u8, day: u8) -> (r: YmdHms)
        ensures
            r.yr == yr && r.mo == mo && r.day == day,
            r.hr == self.hr && r.min == self.min && r.sec == self.sec && r.attos == self.attos,
            r.scale == self.scale && r.old_scale == self.old_scale,
    {
        YmdHms { yr, mo, day, hr: self.hr, min: self.min, sec: self.sec, attos: self.attos, scale: self.scale, old_scale: self.old_scale }
    }

    /// Moves the date by `n` calendar months (negative goes back), keeping
    /// the day of the month where the new month has it and taking its last
    /// day otherwise; the time of day is kept.
    pub fn add_months(&self, n: i64) -> (r: YmdHms)
        ensures
            (r.yr as int, r.mo as int, r.day as int) == add_months_date(self.yr as int, self.mo as int, self.day as int, n as int),
            r.hr == self.hr && r.min == self.min && r.sec == self.sec && r.attos == self.attos,
            r.scale == self.scale && r.old_scale == self.old_scale,
    {
        let total: i128 = self.yr as i128 * 12 + (self.mo as i128 - 1) + n as i128;
        let y2 = Dt::to_i64(div_floor(total, 12));
        let m2 = (rem_floor(total, 12) + 1) as u8;
        let dim = Dt::days_in_month(y2, m2);
        let d2 = if self.day <= dim { self.day } else { dim };
        self.with_date(y2, m2, d2)
    }

    /// Moves the date by `n` calendar years (negative goes back), keeping
    /// month and day where the new year has the day and taking the month's
    /// last day otherwise (29 February to 28 February); the time is kept.
    pub fn add_years(&self, n: i64) -> (r: YmdHms)
        ensures
            (r.yr as int, r.mo as int, r.day as int) == add_years_date(self.yr as int, self.mo as int, self.day as int, n as int),
            r.hr == self.hr && r.min == self.min && r.sec == self.sec && r.attos == self.attos,
            r.scale == self.scale && r.old_scale == self.old_scale,
    {
        let y2 = sat_add64(self.yr, n);
        let dim = Dt::days_in_month(y2, self.mo);
        let d2 = if self.day <= dim { self.day } else { dim };
        self.with_date(y2, self.mo, d2)
    }

    /// Moves the date by `n` days (negative goes back); the time is kept.
    pub fn add_days(&self, n: i64) -> (r: YmdHms)
        ensures
            (r.yr as int, r.mo as int, r.day as int) == add_days_date(self.yr as int, self.mo as int, self.day as int, n as int),
            r.hr == self.hr && r.min == self.min && r.sec == self.sec && r.attos == self.attos,
            r.scale == self.scale && r.old_scale == self.old_scale,
    {
        let jd = Dt::ymd_to_jd(self.yr, self.mo, self.day);
        let (y2, m2, d2) = Dt::jd_to_ymd(sat_add64(jd, n));
        self.with_date(y2, m2, d2)
    }

    /// Moves the date by `n` weeks (saturating), as `add_days(7 * n)`.
    pub fn add_weeks(&self, n: i64) -> (r: YmdHms)
        ensures
            (r.yr as int, r.mo as int, r.day as int)
                == add_days_date(self.yr as int, self.mo as int, self.day as int, clamp64(n * 7)),
            r.hr == self.hr && r.min == self.min && r.sec == self.sec && r.attos == self.attos,
            r.scale == self.scale && r.old_scale == self.old_scale,
    {
        self.add_days(sat_mul64(n, 7))
    }

    /// The TAI instant of these fields read on their scale (see `Dt::from_ymd`).
    pub fn to_dt(&self) -> (r: Dt)
        requires
            int_scale(self.scale),
        ensures
            r.attos == from_ymd_attos(self.yr as int, self.mo as int, self.day as int, self.scale,
                self.hr as int, self.min as int, self.sec as int, self.attos as int),
            r.scale == Scale::TAI,
            r.target == self.scale,
    {
        Dt::from_ymd(self.yr, self.mo, self.day, self.scale, self.hr, self.min, self.sec, self.attos)
    }
}

/// The calendar fields of `d` as a `YmdHms` value (what `to_ymd` returns).
pub open spec fn ymd_of(d: Dt) -> YmdHms {
    let f = ymd_fields(d);
    YmdHms {
        yr: f.0 as i64, mo: f.1 as u8, day: f.2 as u8, hr: f.3 as u8, min: f.4 as u8, sec: f.5 as u8,
        attos: f.6 as u64, scale: d.target, old_scale: d.scale,
    }
}

/// The TAI count of the fields of `y` read on their scale.
pub open spec fn ymd_to_attos(y: YmdHms) -> int {
    from_ymd_attos(y.yr as int, y.mo as int, y.day as int, y.scale, y.hr as int, y.min as int, y.sec as int, y.attos as int)
}

/// `y` with its date replaced.
pub open spec fn with_date_spec(y: YmdHms, date: (int, int, int)) -> YmdHms {
    YmdHms { yr: date.0 as i64, mo: date.1 as u8, day: date.2 as u8, ..y }
}

impl Dt {
    /// Moves this instant by `n` calendar years on its `target` scale (see
    /// `YmdHms::add_years`); the result is on TAI.
    pub fn add_years(&self, n: i64) -> (r: Dt)
        requires
            int_scale(self.scale),
            int_scale(self.target),
        ensures
            ({
                let y = ymd_of(*self);
                r.attos == ymd_to_attos(with_date_spec(y, add_years_date(y.yr as int, y.mo as int, y.day as int, n as int)))
            }),
            r.scale == Scale::TAI,
            r.target == self.target,
    {
        self.to_ymd().add_years(n).to_dt()
    }

    /// Moves this instant by `n` calendar months on its `target` scale (see
    /// `YmdHms::add_months`); the result is on TAI.
    pub fn add_months(&self, n: i64) -> (r: Dt)
        requires
            int_scale(self.scale),
            int_scale(self.target),
        ensures
            ({
                let y = ymd_of(*self);
                r.attos == ymd_to_attos(with_date_spec(y, add_months_date(y.yr as int, y.mo as int, y.day as int, n as int)))
            }),
            r.scale == Scale::TAI,
            r.target == self.target,
    {
        self.to_ymd().add_months(n).to_dt()
    }

    /// Moves this instant by `n` calendar weeks on its `target` scale; the
    /// result is on TAI.
    pub fn add_weeks(&self, n: i64) -> (r: Dt)
        requires
            int_scale(self.scale),
            int_scale(self.target),
        ensures
            ({
                let y = ymd_of(*self);
                r.attos == ymd_to_attos(with_date_spec(y, add_days_date(y.yr as int, y.mo as int, y.day as int, clamp64(n * 7))))
            }),
            r.scale == Scale::TAI,
            r.target == self.target,
    {
        self.to_ymd().add_weeks(n).to_dt()
    }

    /// Moves this instant by `n` calendar days on its `target` scale (the
    /// time of day is kept, so a day is not always 86 400 s on UTC); the
    /// result is on TAI.
    pub fn add_days(&self, n: i64) -> (r: Dt)
        requires
            int_scale(self.scale),
            int_scale(self.target),
        ensures
            ({
                let y = ymd_of(*self);
                r.attos == ymd_to_attos(with_date_spec(y, add_days_date(y.yr as int, y.mo as int, y.day as int, n as int)))
            }),
            r.scale == Scale::TAI,
            r.target == self.target,
    {
        self.to_ymd().add_days(n).to_dt()
    }
}

} // verus!
