//! Clamping and unit conversions on raw attosecond counts.
use vstd::prelude::*;
use crate::arith::{clamp128, clamp64, tdiv, sat_add, sat_mul, div_trunc};
use crate::dt::{
    Dt, ATTOS_PER_FS, ATTOS_PER_PS, ATTOS_PER_NS, ATTOS_PER_US, ATTOS_PER_MS, ATTOS_PER_SEC,
    ATTOS_PER_MIN, ATTOS_PER_HOUR, ATTOS_PER_DAY, ATTOS_PER_WEEK,
};

verus! {

/// `v` clamped to `[lo, hi]`, the lower bound checked first.
pub open spec fn clamp_spec(v: int, lo: int, hi: int) -> int {
    if v < lo { lo } else if v > hi { hi } else { v }
}

/// `v` clamped to the range between `a` and `b`, whichever of them is smaller
/// being the lower bound.
pub open spec fn clamp_between(v: int, a: int, b: int) -> int {
    if a <= b { clamp_spec(v, a, b) } else { clamp_spec(v, b, a) }
}

/// `x` clamped to the `u64` range.
pub open spec fn clamp_u64_range(x: int) -> int {
    if x > u64::MAX { u64::MAX as int } else if x < 0 { 0 } else { x }
}

impl Dt {
    /// `value` clamped to `[min, max]`; when `min > max`, to `[max, min]`.
    pub fn clamp_u8(value: u8, min: u8, max: u8) -> (r: u8)
        ensures
            r == clamp_between(value as int, min as int, max as int),
    {
        let (lo, hi) = if min <= max { (min, max) } else { (max, min) };
        if value < lo {
            lo
        } else if value > hi {
            hi
        } else {
            value
        }
    }

    /// `value` clamped to `[min, max]`; when `min > max`, to `[max, min]`.
    pub fn clamp_u64(value: u64, min: u64, max: u64) -> (r: u64)
        ensures
            r == clamp_between(value as int, min as int, max as int),
    {
        let (lo, hi) = if min <= max { (min, max) } else { (max, min) };
        if value < lo {
            lo
        } else if value > hi {
            hi
        } else {
            value
        }
    }

    /// `n` clamped to the `i64` range.
    pub fn to_i64(n: i128) -> (r: i64)
        ensures
            r == clamp64(n as int),
    {
        if n > i64::MAX as i128 {
            i64::MAX
        } else if n < i64::MIN as i128 {
            i64::MIN
        } else {
            n as i64
        }
    }

    /// `n` clamped to the `u64` range.
    pub fn to_u64(n: i128) -> (r: u64)
        ensures
            r == clamp_u64_range(n as int),
    {
        if n > u64::MAX as i128 {
            u64::MAX
        } else if n < 0 {
            0
        } else {
            n as u64
        }
    }

    /// `n` as an `i128`, saturating at `i128::MAX`.
    pub fn to_i128(n: u128) -> (r: i128)
        ensures
            r == (if n > i128::MAX { i128::MAX as int } else { n as int }),
    {
        if n > i128::MAX as u128 {
            i128::MAX
        } else {
            n as i128
        }
    }

    /// `whole * unit_attos + attos`, each step saturating.
    pub fn unit_to_total_attos(whole: i128, attos: i128, unit_attos: i128) -> (r: i128)
        ensures
            r == clamp128(clamp128(whole * unit_attos) + attos),
    {
        sat_add(sat_mul(whole, unit_attos), attos)
    }

    /// Femtoseconds to attoseconds, saturating.
    pub fn fs_to_attos(fs: i128) -> (r: i128)
        ensures
            r == clamp128(fs * ATTOS_PER_FS),
    {
        sat_mul(fs, ATTOS_PER_FS)
    }

    /// Picoseconds to attoseconds, saturating.
    pub fn ps_to_attos(ps: i128) -> (r: i128)
        ensures
            r == clamp128(ps * ATTOS_PER_PS),
    {
        sat_mul(ps, ATTOS_PER_PS)
    }

    /// Nanoseconds to attoseconds, saturating.
    pub fn ns_to_attos(ns: i128) -> (r: i128)
        ensures
            r == clamp128(ns * ATTOS_PER_NS),
    {
        sat_mul(ns, ATTOS_PER_NS)
    }

    /// Microseconds to attoseconds, saturating.
    pub fn us_to_attos(us: i128) -> (r: i128)
        ensures
            r == clamp128(us * ATTOS_PER_US),
    {
        sat_mul(us, ATTOS_PER_US)
    }

    /// Milliseconds to attoseconds, saturating.
    pub fn ms_to_attos(ms: i128) -> (r: i128)
        ensures
            r == clamp128(ms * ATTOS_PER_MS),
    {
        sat_mul(ms, ATTOS_PER_MS)
    }

    /// Seconds to attoseconds, saturating.
    pub fn sec_to_attos(sec: i128) -> (r: i128)
        ensures
            r == clamp128(sec * ATTOS_PER_SEC),
    {
        sat_mul(sec, ATTOS_PER_SEC)
    }

    /// Minutes to attoseconds, saturating.
    pub fn mins_to_attos(mins: i128) -> (r: i128)
        ensures
            r == clamp128(mins * ATTOS_PER_MIN),
    {
        sat_mul(mins, ATTOS_PER_MIN)
    }

    /// Hours to attoseconds, saturating.
    pub fn hours_to_attos(hours: i128) -> (r: i128)
        ensures
            r == clamp128(hours * ATTOS_PER_HOUR),
    {
        sat_mul(hours, ATTOS_PER_HOUR)
    }

    /// Days of 86 400 s to attoseconds, saturating.
    pub fn days_to_attos(days: i128) -> (r: i128)
        ensures
            r == clamp128(days * ATTOS_PER_DAY),
    {
        sat_mul(days, ATTOS_PER_DAY)
    }

    /// Weeks to attoseconds, saturating.
    pub fn weeks_to_attos(weeks: i128) -> (r: i128)
        ensures
            r == clamp128(weeks * ATTOS_PER_WEEK),
    {
        sat_mul(weeks, ATTOS_PER_WEEK)
    }

    /// Whole femtoseconds in `attos`, rounding toward zero.
    pub fn attos_to_fs(attos: i128) -> (r: i128)
        ensures
            r == tdiv(attos as int, ATTOS_PER_FS as int),
    {
        div_trunc(attos, ATTOS_PER_FS)
    }

    /// Whole picoseconds in `attos`, rounding toward zero.
    pub fn attos_to_ps(attos: i128) -> (r: i128)
        ensures
            r == tdiv(attos as int, ATTOS_PER_PS as int),
    {
        div_trunc(attos, ATTOS_PER_PS)
    }

    /// Whole nanoseconds in `attos`, rounding toward zero.
    pub fn attos_to_ns(attos: i128) -> (r: i128)
        ensures
            r == tdiv(attos as int, ATTOS_PER_NS as int),
    {
        div_trunc(attos, ATTOS_PER_NS)
    }

    /// Whole microseconds in `attos`, rounding toward zero.
    pub fn attos_to_us(attos: i128) -> (r: i128)
        ensures
            r == tdiv(attos as int, ATTOS_PER_US as int),
    {
        div_trunc(attos, ATTOS_PER_US)
    }

    /// Whole milliseconds in `attos`, rounding toward zero.
    pub fn attos_to_ms(attos: i128) -> (r: i128)
        ensures
            r == tdiv(attos as int, ATTOS_PER_MS as int),
    {
        div_trunc(attos, ATTOS_PER_MS)
    }

    /// Whole seconds in `attos`, rounding toward zero.
    pub fn attos_to_sec(attos: i128) -> (r: i128)
        ensures
            r == tdiv(attos as int, ATTOS_PER_SEC as int),
    {
        div_trunc(attos, ATTOS_PER_SEC)
    }

    /// Whole seconds in `attos`, rounding toward zero, clamped to the `i64` range.
    pub fn attos_to_sec_i64(attos: i128) -> (r: i64)
        ensures
            r == clamp64(tdiv(attos as int, ATTOS_PER_SEC as int)),
    {
        Self::to_i64(Self::attos_to_sec(attos))
    }

    /// Whole minutes in `attos`, rounding toward zero.
    pub fn attos_to_mins(attos: i128) -> (r: i128)
        ensures
            r == tdiv(attos as int, ATTOS_PER_MIN as int),
    {
        div_trunc(attos, ATTOS_PER_MIN)
    }

    /// Whole hours in `attos`, rounding toward zero.
    pub fn attos_to_hours(attos: i128) -> (r: i128)
        ensures
            r == tdiv(attos as int, ATTOS_PER_HOUR as int),
    {
        div_trunc(attos, ATTOS_PER_HOUR)
    }

    /// Whole days of 86 400 s in `attos`, rounding toward zero.
    pub fn attos_to_days(attos: i128) -> (r: i128)
        ensures
            r == tdiv(attos as int, ATTOS_PER_DAY as int),
    {
        div_trunc(attos, ATTOS_PER_DAY)
    }

    /// Whole weeks in `attos`, rounding toward zero.
    pub fn attos_to_weeks(attos: i128) -> (r: i128)
        ensures
            r == tdiv(attos as int, ATTOS_PER_WEEK as int),
    {
        div_trunc(attos, ATTOS_PER_WEEK)
    }
}

} // verus!
