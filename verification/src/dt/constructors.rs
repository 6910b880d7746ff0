//! Building a `Dt` from counts of whole units plus an attosecond remainder.
use vstd::prelude::*;
use crate::arith::{clamp128, sat_add, sat_mul};
use crate::dt::{
    Dt, ATTOS_PER_FS, ATTOS_PER_PS, ATTOS_PER_NS, ATTOS_PER_US, ATTOS_PER_MS, ATTOS_PER_SEC,
    ATTOS_PER_MIN, ATTOS_PER_HOUR, ATTOS_PER_DAY,
};
use crate::scale::Scale;

verus! {

/// `n` units of `unit` attoseconds plus `frac` attoseconds, each step saturating.
pub open spec fn units_total(n: int, frac: int, unit: int) -> int {
    clamp128(clamp128(n * unit) + frac)
}

impl Dt {
    /// `epoch` moved by `attos` attoseconds (saturating), keeping its scales.
    pub fn from_diff_raw(attos: i128, epoch: Dt) -> (r: Dt)
        ensures
            r.attos == clamp128(epoch.attos + attos),
            r.scale == epoch.scale,
            r.target == epoch.target,
    {
        epoch.add(Dt::new(attos, epoch.scale, epoch.target))
    }

    /// `sec` seconds plus `attos` attoseconds, saturating.
    pub fn from_sec_and_frac(sec: i128, attos: i128, on: Scale, target: Scale) -> (r: Dt)
        ensures
            r.attos == units_total(sec as int, attos as int, ATTOS_PER_SEC as int),
            r.scale == on,
            r.target == target,
    {
        Dt::new(sat_add(sat_mul(sec, ATTOS_PER_SEC), attos), on, target)
    }

    /// `sec` seconds, saturating.
    pub fn from_sec(sec: i128, on: Scale, target: Scale) -> (r: Dt)
        ensures
            r.attos == clamp128(sec * ATTOS_PER_SEC),
            r.scale == on,
            r.target == target,
    {
        Dt::new(sat_mul(sec, ATTOS_PER_SEC), on, target)
    }

    /// `ms` milliseconds plus `frac_attos` attoseconds, saturating.
    pub fn from_ms(ms: i128, frac_attos: i128, on: Scale, target: Scale) -> (r: Dt)
        ensures
            r.attos == units_total(ms as int, frac_attos as int, ATTOS_PER_MS as int),
            r.scale == on,
            r.target == target,
    {
        Dt::new(Dt::unit_to_total_attos(ms, frac_attos, ATTOS_PER_MS), on, target)
    }

    /// `us` microseconds plus `frac_attos` attoseconds, saturating.
    pub fn from_us(us: i128, frac_attos: i128, on: Scale, target: Scale) -> (r: Dt)
        ensures
            r.attos == units_total(us as int, frac_attos as int, ATTOS_PER_US as int),
            r.scale == on,
            r.target == target,
    {
        Dt::new(Dt::unit_to_total_attos(us, frac_attos, ATTOS_PER_US), on, target)
    }

    /// `ns` nanoseconds plus `frac_attos` attoseconds, saturating.
    pub fn from_ns(ns: i128, frac_attos: i128, on: Scale, target: Scale) -> (r: Dt)
        ensures
            r.attos == units_total(ns as int, frac_attos as int, ATTOS_PER_NS as int),
            r.scale == on,
            r.target == target,
    {
        Dt::new(Dt::unit_to_total_attos(ns, frac_attos, ATTOS_PER_NS), on, target)
    }

    /// `ps` picoseconds plus `frac_attos` attoseconds, saturating.
    pub fn from_ps(ps: i128, frac_attos: i128, on: Scale, target: Scale) -> (r: Dt)
        ensures
            r.attos == units_total(ps as int, frac_attos as int, ATTOS_PER_PS as int),
            r.scale == on,
            r.target == target,
    {
        Dt::new(Dt::unit_to_total_attos(ps, frac_attos, ATTOS_PER_PS), on, target)
    }

    /// `fs` femtoseconds plus `frac_attos` attoseconds, saturating.
    pub fn from_fs(fs: i128, frac_attos: i128, on: Scale, target: Scale) -> (r: Dt)
        ensures
            r.attos == units_total(fs as int, frac_attos as int, ATTOS_PER_FS as int),
            r.scale == on,
            r.target == target,
    {
        Dt::new(Dt::unit_to_total_attos(fs, frac_attos, ATTOS_PER_FS), on, target)
    }

    /// `n` minutes plus `frac_attos` attoseconds, saturating.
    pub fn from_mins(n: i128, frac_attos: i128, on: Scale, target: Scale) -> (r: Dt)
        ensures
            r.attos == units_total(n as int, frac_attos as int, ATTOS_PER_MIN as int),
            r.scale == on,
            r.target == target,
    {
        Dt::new(Dt::unit_to_total_attos(n, frac_attos, ATTOS_PER_MIN), on, target)
    }

    /// `n` hours plus `frac_attos` attoseconds, saturating.
    pub fn from_hours(n: i128, frac_attos: i128, on: Scale, target: Scale) -> (r: Dt)
        ensures
            r.attos == units_total(n as int, frac_attos as int, ATTOS_PER_HOUR as int),
            r.scale == on,
            r.target == target,
    {
        Dt::new(Dt::unit_to_total_attos(n, frac_attos, ATTOS_PER_HOUR), on, target)
    }

    /// `d` days of 86 400 s plus `frac_attos` attoseconds, saturating.
    pub fn from_days(d: i128, frac_attos: i128, on: Scale, target: Scale) -> (r: Dt)
        ensures
            r.attos == units_total(d as int, frac_attos as int, ATTOS_PER_DAY as int),
            r.scale == on,
            r.target == target,
    {
        Dt::new(Dt::unit_to_total_attos(d, frac_attos, ATTOS_PER_DAY), on, target)
    }

    /// `n` weeks (604 800 s each), saturating at each step.
    pub fn from_weeks(n: i128, on: Scale, target: Scale) -> (r: Dt)
        ensures
            r.attos == clamp128(clamp128(n * 604_800) * ATTOS_PER_SEC),
            r.scale == on,
            r.target == target,
    {
        Dt::new(sat_mul(sat_mul(n, 604_800), ATTOS_PER_SEC), on, target)
    }

    /// `n` Julian years (365.25 days, 31 557 600 s each), saturating at each step.
    pub fn from_years(n: i128, on: Scale, target: Scale) -> (r: Dt)
        ensures
            r.attos == clamp128(clamp128(n * 31_557_600) * ATTOS_PER_SEC),
            r.scale == on,
            r.target == target,
    {
        Dt::new(sat_mul(sat_mul(n, 31_557_600), ATTOS_PER_SEC), on, target)
    }

    /// The negated attoseconds, keeping the scales.
    pub fn neg(self) -> (r: Dt)
        requires
            self.attos != i128::MIN,
        ensures
            r.attos == -self.attos,
            r.scale == self.scale,
            r.target == self.target,
    {
        Dt::new(-self.attos, self.scale, self.target)
    }

    /// The absolute attoseconds (`i128::MIN` saturates to `i128::MAX`), keeping the scales.
    pub fn abs(self) -> (r: Dt)
        ensures
            r.attos == (if self.attos == i128::MIN { i128::MAX as int } else if self.attos < 0 { -self.attos } else { self.attos as int }),
            r.scale == self.scale,
            r.target == self.target,
    {
        let a = if self.attos == i128::MIN {
            i128::MAX
        } else if self.attos < 0 {
            -self.attos
        } else {
            self.attos
        };
        Dt::new(a, self.scale, self.target)
    }
}

} // verus!
