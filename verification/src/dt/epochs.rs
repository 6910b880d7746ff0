//! Elapsed time from the Unix, NTP, GPS and CXC epochs, each taken on the
//! value's target scale, and the instants such counts stand for.
use vstd::prelude::*;
use crate::arith::{clamp128, sat_add, sat_mul, div_floor, rem_floor};
use crate::dt::{Dt, ATTOS_PER_SEC, ATTOS_PER_DAY, ATTOS_PER_WEEK};
use crate::dt::scale_conv::{
    int_scale, tai_attos, to_attos_spec, to_scale_spec, tai_leap_offset, in_leap_second,
    lemma_tai_utc_tai, lemma_before_1972, lemma_offset_bounds,
};
use crate::scale::Scale;
use crate::dt::civil::{from_ymd_attos, unix_epoch_attos};

verus! {

/// `d` less a TAI epoch at count `e`, both taken to `d`'s target scale,
/// saturating: what `to_scale_and_diff(epoch, true)` gives.
pub open spec fn since_epoch_attos(d: Dt, e: int) -> int {
    clamp128(to_attos_spec(d.scale, d.target, d.attos as int) - to_attos_spec(Scale::TAI, d.target, e))
}

/// The TAI count of `elapsed` read as a count from a TAI epoch at `e`, both
/// on `elapsed`'s scale: what `from_diff_and_scale(elapsed, epoch, true)` gives.
pub open spec fn from_epoch_attos(elapsed: Dt, e: int) -> int {
    tai_attos(elapsed.scale, clamp128(to_attos_spec(Scale::TAI, elapsed.scale, e) + elapsed.attos))
}

/// The Unix epoch as a TAI count.
pub open spec fn unix_epoch_count() -> int { -946_728_000 * ATTOS_PER_SEC }
/// The NTP epoch (1900-01-01) as a TAI count.
pub open spec fn ntp_epoch_count() -> int { -3_155_716_800 * ATTOS_PER_SEC }
/// The GPS epoch (1980-01-06 UTC) as a TAI count.
pub open spec fn gps_epoch_count() -> int { -630_763_181 * ATTOS_PER_SEC }
/// The CXC epoch (1998-01-01 TT) as a TAI count.
pub open spec fn cxc_epoch_count() -> int { -63_115_232_184_000_000_000_000_000 }
/// The CCSDS epoch (1958-01-01 TAI) as a TAI count.
pub open spec fn ccsds_epoch_count() -> int { -1_325_419_200 * ATTOS_PER_SEC }
/// Julian day 0 (noon of 24 November 4714 BC, proleptic Gregorian) as a TAI count.
pub open spec fn jd_epoch_count() -> int { -211_813_488_000 * ATTOS_PER_SEC }
/// Modified Julian day 0 (1858-11-17 00:00) as a TAI count.
pub open spec fn mjd_epoch_count() -> int { -4_453_444_800 * ATTOS_PER_SEC }

impl Dt {
    /// The Chandra X-ray Center epoch, 1998-01-01 00:00:00 TT, on TAI with a TT target.
    pub fn cxc_epoch() -> (r: Dt)
        ensures
            r.attos == cxc_epoch_count(),
            r.scale == Scale::TAI,
            r.target == Scale::TT,
    {
        Dt::new(-63_115_232_184_000_000_000_000_000i128, Scale::TAI, Scale::TT)
    }

    /// Attoseconds since the Unix epoch on the `target` scale.
    pub fn to_unix(&self) -> (r: Dt)
        requires
            int_scale(self.scale),
            int_scale(self.target),
        ensures
            r.attos == since_epoch_attos(*self, unix_epoch_count()),
            r.scale == to_scale_spec(self.scale, self.target),
            r.target == self.target,
    {
        self.to_scale_and_diff(Dt::unix_epoch(), true)
    }

    /// The TAI instant of a count since the Unix epoch on `unix`'s scale.
    pub fn from_unix(unix: Dt) -> (r: Dt)
        requires
            int_scale(unix.scale),
        ensures
            r.attos == from_epoch_attos(unix, unix_epoch_count()),
            r.scale == Scale::TAI,
            r.target == unix.scale,
    {
        Dt::from_diff_and_scale(unix, Dt::unix_epoch(), true)
    }

    /// The TAI instant of a count of UTC nanoseconds since the Unix epoch.
    pub fn from_unix_ns(ns: i128) -> (r: Dt)
        ensures
            r.attos == from_epoch_attos(Dt { attos: clamp128(ns * 1_000_000_000) as i128, scale: Scale::UTC, target: Scale::UTC },
                unix_epoch_count()),
            r.scale == Scale::TAI,
            r.target == Scale::UTC,
    {
        Dt::from_unix(Dt::new(Dt::ns_to_attos(ns), Scale::UTC, Scale::UTC))
    }

    /// The TAI instant of a count of UTC milliseconds since the Unix epoch.
    pub fn from_unix_ms(ms: i128) -> (r: Dt)
        ensures
            r.attos == from_epoch_attos(Dt { attos: clamp128(ms * 1_000_000_000_000_000) as i128, scale: Scale::UTC, target: Scale::UTC },
                unix_epoch_count()),
            r.scale == Scale::TAI,
            r.target == Scale::UTC,
    {
        Dt::from_unix(Dt::new(Dt::ms_to_attos(ms), Scale::UTC, Scale::UTC))
    }

    /// Whole days since the Unix epoch (floored) and the rest of the day.
    pub fn to_unix_days(&self) -> (r: (i128, Dt))
        requires
            int_scale(self.scale),
            int_scale(self.target),
        ensures
            r.0 == since_epoch_attos(*self, unix_epoch_count()) / (ATTOS_PER_DAY as int),
            r.1.attos == since_epoch_attos(*self, unix_epoch_count()) % (ATTOS_PER_DAY as int),
            r.1.scale == to_scale_spec(self.scale, self.target),
            r.1.target == self.target,
    {
        let unix = self.to_unix();
        let days = div_floor(unix.attos, ATTOS_PER_DAY);
        let attos = rem_floor(unix.attos, ATTOS_PER_DAY);
        (days, Dt::new(attos, unix.scale, unix.target))
    }

    /// The TAI instant `days` days (saturating) plus `frac` after the Unix
    /// epoch, on `frac`'s scale.
    pub fn from_unix_days(days: i128, frac: Dt) -> (r: Dt)
        requires
            int_scale(frac.scale),
        ensures
            r.attos == from_epoch_attos(Dt { attos: clamp128(clamp128(days * ATTOS_PER_DAY) + frac.attos) as i128,
                scale: frac.scale, target: frac.target }, unix_epoch_count()),
            r.scale == Scale::TAI,
            r.target == frac.scale,
    {
        let total = sat_add(sat_mul(days, ATTOS_PER_DAY), frac.attos);
        Dt::from_unix(Dt::new(total, frac.scale, frac.target))
    }

    /// Attoseconds since the NTP epoch on the `target` scale.
    pub fn to_ntp(&self) -> (r: Dt)
        requires
            int_scale(self.scale),
            int_scale(self.target),
        ensures
            r.attos == since_epoch_attos(*self, ntp_epoch_count()),
            r.scale == to_scale_spec(self.scale, self.target),
            r.target == self.target,
    {
        self.to_scale_and_diff(Dt::ntp_epoch(), true)
    }

    /// The TAI instant of a count since the NTP epoch on `ntp`'s scale.
    pub fn from_ntp(ntp: Dt) -> (r: Dt)
        requires
            int_scale(ntp.scale),
        ensures
            r.attos == from_epoch_attos(ntp, ntp_epoch_count()),
            r.scale == Scale::TAI,
            r.target == ntp.scale,
    {
        Dt::from_diff_and_scale(ntp, Dt::ntp_epoch(), true)
    }

    /// Attoseconds since the GPS epoch on the `target` scale.
    pub fn to_gps(&self) -> (r: Dt)
        requires
            int_scale(self.scale),
            int_scale(self.target),
        ensures
            r.attos == since_epoch_attos(*self, gps_epoch_count()),
            r.scale == to_scale_spec(self.scale, self.target),
            r.target == self.target,
    {
        self.to_scale_and_diff(Dt::gps_epoch(), true)
    }

    /// The TAI instant of a count since the GPS epoch on `elapsed`'s scale.
    pub fn from_gps(elapsed: Dt) -> (r: Dt)
        requires
            int_scale(elapsed.scale),
        ensures
            r.attos == from_epoch_attos(elapsed, gps_epoch_count()),
            r.scale == Scale::TAI,
            r.target == elapsed.scale,
    {
        Dt::from_diff_and_scale(elapsed, Dt::gps_epoch(), true)
    }

    /// Attoseconds since the GPS epoch on the `target` scale (the GALEX count).
    pub fn to_galexsec(&self) -> (r: Dt)
        requires
            int_scale(self.scale),
            int_scale(self.target),
        ensures
            r.attos == since_epoch_attos(*self, gps_epoch_count()),
            r.scale == to_scale_spec(self.scale, self.target),
            r.target == self.target,
    {
        self.to_scale_and_diff(Dt::gps_epoch(), true)
    }

    /// The TAI instant of a GALEX count on `elapsed`'s scale.
    pub fn from_galexsec(elapsed: Dt) -> (r: Dt)
        requires
            int_scale(elapsed.scale),
        ensures
            r.attos == from_epoch_attos(elapsed, gps_epoch_count()),
            r.scale == Scale::TAI,
            r.target == elapsed.scale,
    {
        Dt::from_diff_and_scale(elapsed, Dt::gps_epoch(), true)
    }

    /// Attoseconds since the CXC epoch on the `target` scale.
    pub fn to_cxcsec(&self) -> (r: Dt)
        requires
            int_scale(self.scale),
            int_scale(self.target),
        ensures
            r.attos == since_epoch_attos(*self, cxc_epoch_count()),
            r.scale == to_scale_spec(self.scale, self.target),
            r.target == self.target,
    {
        self.to_scale_and_diff(Dt::cxc_epoch(), true)
    }

    /// The TAI instant of a count since the CXC epoch on `elapsed`'s scale.
    pub fn from_cxcsec(elapsed: Dt) -> (r: Dt)
        requires
            int_scale(elapsed.scale),
        ensures
            r.attos == from_epoch_attos(elapsed, cxc_epoch_count()),
            r.scale == Scale::TAI,
            r.target == elapsed.scale,
    {
        Dt::from_diff_and_scale(elapsed, Dt::cxc_epoch(), true)
    }

    /// The GPS week (floored) and the time into it, counted from the GPS
    /// epoch on the `target` scale; the time of week is labelled with `target`.
    pub fn to_gps_wk_and_tow(&self) -> (r: (i64, Dt))
        requires
            int_scale(self.scale),
            int_scale(self.target),
        ensures
            r.0 == since_epoch_attos(*self, gps_epoch_count()) / (ATTOS_PER_WEEK as int),
            r.1.attos == since_epoch_attos(*self, gps_epoch_count()) % (ATTOS_PER_WEEK as int),
            r.1.scale == self.target,
            r.1.target == self.target,
    {
        let total = self.to_gps().attos;
        let wk = div_floor(total, ATTOS_PER_WEEK);
        let tow = rem_floor(total, ATTOS_PER_WEEK);
        proof {
            let w = ATTOS_PER_WEEK as int;
            vstd::arithmetic::div_mod::lemma_fundamental_div_mod(total as int, w);
            assert(i64::MIN <= (total as int) / w <= i64::MAX) by (nonlinear_arith)
                requires w * ((total as int) / w) + (total as int) % w == total as int, 0 <= (total as int) % w < w,
                    w == 604_800_000_000_000_000_000_000int,
                    i128::MIN <= total <= i128::MAX;
        }
        (wk as i64, Dt::new(tow, self.target, self.target))
    }

    /// The TAI instant of GPS week `wk` plus `tow` (saturating), on `tow`'s scale.
    pub fn from_gps_wk_and_tow(wk: i64, tow: Dt) -> (r: Dt)
        requires
            int_scale(tow.scale),
        ensures
            r.attos == from_epoch_attos(Dt { attos: clamp128(clamp128(wk * ATTOS_PER_WEEK) + tow.attos) as i128,
                scale: tow.scale, target: tow.target }, gps_epoch_count()),
            r.scale == Scale::TAI,
            r.target == tow.scale,
    {
        let total = sat_add(sat_mul(wk as i128, ATTOS_PER_WEEK), tow.attos);
        Dt::from_gps(Dt::new(total, tow.scale, tow.target))
    }

    /// The day of the GPS week, 0 (Sunday) to 6.
    pub fn to_gps_day_of_wk(&self) -> (r: u8)
        requires
            int_scale(self.scale),
            int_scale(self.target),
        ensures
            r == (since_epoch_attos(*self, gps_epoch_count()) % (ATTOS_PER_WEEK as int)) / (ATTOS_PER_DAY as int),
    {
        let (_, tow) = self.to_gps_wk_and_tow();
        let secs = tow.attos / ATTOS_PER_SEC;
        proof {
            vstd::arithmetic::div_mod::lemma_div_denominator(tow.attos as int, ATTOS_PER_SEC as int, 86400);
            assert((tow.attos as int) / (ATTOS_PER_DAY as int) < 7) by {
                vstd::arithmetic::div_mod::lemma_div_is_ordered(tow.attos as int, ATTOS_PER_WEEK as int, ATTOS_PER_DAY as int);
            }
        }
        (secs / 86400) as u8
    }
}

/// A TAI instant with a UTC or TAI target, taken to a count since the Unix
/// epoch and back, is unchanged, except inside an inserted leap second on
/// UTC and where the count would not fit an `i128`.
pub proof fn lemma_unix_roundtrip(d: Dt)
    requires
        d.scale == Scale::TAI,
        d.target == Scale::UTC || d.target == Scale::TAI,
        d.target == Scale::UTC ==> !in_leap_second(d.attos as int),
        d.target == Scale::UTC ==> i128::MIN <= d.attos - tai_leap_offset(d.attos as int) * ATTOS_PER_SEC,
        d.target == Scale::UTC ==> d.attos - tai_leap_offset(d.attos as int) * ATTOS_PER_SEC - unix_epoch_count() <= i128::MAX,
        d.target == Scale::TAI ==> i128::MIN <= d.attos - unix_epoch_count() <= i128::MAX,
    ensures
        from_epoch_attos(Dt { attos: since_epoch_attos(d, unix_epoch_count()) as i128, scale: d.target, target: d.target },
            unix_epoch_count()) == d.attos,
{
    lemma_before_1972(unix_epoch_count());
    lemma_offset_bounds(d.attos as int);
    if d.target == Scale::UTC {
        lemma_tai_utc_tai(d.attos as int);
    }
}

/// Each epoch is the instant its calendar definition names: the Unix epoch
/// 1970-01-01 00:00:00 UTC, NTP 1900-01-01 00:00:00 UTC, GPS 1980-01-06
/// 00:00:00 UTC, CXC 1998-01-01 00:00:00 TT, CCSDS 1958-01-01 00:00:00 TAI,
/// MJD 0 1858-11-17 00:00:00 TAI and JD 0 noon of 24 November 4714 BC
/// (year -4713) TAI, each read by `from_ymd`; the GPS epoch, where GPS weeks
/// start, is a Sunday.
#[verifier::rlimit(30)]
pub proof fn lemma_epochs_on_the_calendar()
    ensures
        unix_epoch_count() == from_ymd_attos(1970, 1, 1, Scale::UTC, 0, 0, 0, 0),
        unix_epoch_attos() == unix_epoch_count(),
        ntp_epoch_count() == from_ymd_attos(1900, 1, 1, Scale::UTC, 0, 0, 0, 0),
        gps_epoch_count() == from_ymd_attos(1980, 1, 6, Scale::UTC, 0, 0, 0, 0),
        cxc_epoch_count() == from_ymd_attos(1998, 1, 1, Scale::TT, 0, 0, 0, 0),
        ccsds_epoch_count() == from_ymd_attos(1958, 1, 1, Scale::TAI, 0, 0, 0, 0),
        crate::dt::ccsds_dt::ccsds_epoch_attos() == ccsds_epoch_count(),
        mjd_epoch_count() == from_ymd_attos(1858, 11, 17, Scale::TAI, 0, 0, 0, 0),
        jd_epoch_count() == from_ymd_attos(-4713, 11, 24, Scale::TAI, 12, 0, 0, 0),
        crate::dt::gregorian::wkday_of_jd(crate::dt::gregorian::jd_of(1980, 1, 6)) == 0,
{
    crate::dt::scale_conv::lemma_before_1972(from_ymd_attos(1970, 1, 1, Scale::TAI, 0, 0, 0, 0));
    crate::dt::scale_conv::lemma_before_1972(from_ymd_attos(1900, 1, 1, Scale::TAI, 0, 0, 0, 0));
    crate::dt::scale_conv::lemma_offset_in_step(from_ymd_attos(1980, 1, 6, Scale::TAI, 0, 0, 0, 0), 9);
}

} // verus!
