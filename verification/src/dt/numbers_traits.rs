//! Building `Dt` durations from integers: `5.sec()`, `250.ms()`, `3.days()`.
use vstd::prelude::*;
use crate::arith::{clamp128, sat_mul};
use crate::dt::{
    Dt, ATTOS_PER_NS, ATTOS_PER_US, ATTOS_PER_MS, ATTOS_PER_SEC, ATTOS_PER_MIN, ATTOS_PER_HOUR,
};
use crate::scale::Scale;

verus! {

/// Integer time-unit constructors. Each gives a duration on TAI; counts and
/// products saturate at the `i128` limits.
pub trait TraitsTime: Copy + Sized {
    /// The count as an integer (a `u128` above `i128::MAX` reads as `i128::MAX`).
    spec fn count(self) -> int;

    /// `self` nanoseconds.
    fn ns(self) -> (r: Dt)
        ensures
            r.attos == clamp128(self.count() * ATTOS_PER_NS),
            r.scale == Scale::TAI && r.target == Scale::TAI;

    /// `self` microseconds.
    fn us(self) -> (r: Dt)
        ensures
            r.attos == clamp128(self.count() * ATTOS_PER_US),
            r.scale == Scale::TAI && r.target == Scale::TAI;

    /// `self` milliseconds.
    fn ms(self) -> (r: Dt)
        ensures
            r.attos == clamp128(self.count() * ATTOS_PER_MS),
            r.scale == Scale::TAI && r.target == Scale::TAI;

    /// `self` seconds.
    fn sec(self) -> (r: Dt)
        ensures
            r.attos == clamp128(self.count() * ATTOS_PER_SEC),
            r.scale == Scale::TAI && r.target == Scale::TAI;

    /// `self` minutes.
    fn mins(self) -> (r: Dt)
        ensures
            r.attos == clamp128(self.count() * ATTOS_PER_MIN),
            r.scale == Scale::TAI && r.target == Scale::TAI;

    /// `self` hours.
    fn hours(self) -> (r: Dt)
        ensures
            r.attos == clamp128(self.count() * ATTOS_PER_HOUR),
            r.scale == Scale::TAI && r.target == Scale::TAI;

    /// `self` days of 86 400 s.
    fn days(self) -> (r: Dt)
        ensures
            r.attos == clamp128(clamp128(self.count() * 86_400) * ATTOS_PER_SEC),
            r.scale == Scale::TAI && r.target == Scale::TAI;

    /// `self` weeks.
    fn weeks(self) -> (r: Dt)
        ensures
            r.attos == clamp128(clamp128(self.count() * 604_800) * ATTOS_PER_SEC),
            r.scale == Scale::TAI && r.target == Scale::TAI;

    /// `self` Julian years of 365.25 days.
    fn years(self) -> (r: Dt)
        ensures
            r.attos == clamp128(clamp128(self.count() * 31_557_600) * ATTOS_PER_SEC),
            r.scale == Scale::TAI && r.target == Scale::TAI;
}

/// The count of a `u128`, saturated at `i128::MAX`.
fn u128_count(n: u128) -> (r: i128)
    ensures
        r == (if n > i128::MAX { i128::MAX as int } else { n as int }),
{
    Dt::to_i128(n)
}

impl TraitsTime for i8 {
    open spec fn count(self) -> int {
        self as int
    }

    fn ns(self) -> (r: Dt) {
        Dt::from_ns(self as i128, 0, Scale::TAI, Scale::TAI)
    }

    fn us(self) -> (r: Dt) {
        Dt::from_us(self as i128, 0, Scale::TAI, Scale::TAI)
    }

    fn ms(self) -> (r: Dt) {
        Dt::from_ms(self as i128, 0, Scale::TAI, Scale::TAI)
    }

    fn sec(self) -> (r: Dt) {
        Dt::from_sec(self as i128, Scale::TAI, Scale::TAI)
    }

    fn mins(self) -> (r: Dt) {
        Dt::from_mins(self as i128, 0, Scale::TAI, Scale::TAI)
    }

    fn hours(self) -> (r: Dt) {
        Dt::from_hours(self as i128, 0, Scale::TAI, Scale::TAI)
    }

    fn days(self) -> (r: Dt) {
        Dt::from_sec(sat_mul(self as i128, 86_400), Scale::TAI, Scale::TAI)
    }

    fn weeks(self) -> (r: Dt) {
        Dt::from_sec(sat_mul(self as i128, 604_800), Scale::TAI, Scale::TAI)
    }

    fn years(self) -> (r: Dt) {
        Dt::from_sec(sat_mul(self as i128, 31_557_600), Scale::TAI, Scale::TAI)
    }
}

impl TraitsTime for i16 {
    open spec fn count(self) -> int {
        self as int
    }

    fn ns(self) -> (r: Dt) {
        Dt::from_ns(self as i128, 0, Scale::TAI, Scale::TAI)
    }

    fn us(self) -> (r: Dt) {
        Dt::from_us(self as i128, 0, Scale::TAI, Scale::TAI)
    }

    fn ms(self) -> (r: Dt) {
        Dt::from_ms(self as i128, 0, Scale::TAI, Scale::TAI)
    }

    fn sec(self) -> (r: Dt) {
        Dt::from_sec(self as i128, Scale::TAI, Scale::TAI)
    }

    fn mins(self) -> (r: Dt) {
        Dt::from_mins(self as i128, 0, Scale::TAI, Scale::TAI)
    }

    fn hours(self) -> (r: Dt) {
        Dt::from_hours(self as i128, 0, Scale::TAI, Scale::TAI)
    }

    fn days(self) -> (r: Dt) {
        Dt::from_sec(sat_mul(self as i128, 86_400), Scale::TAI, Scale::TAI)
    }

    fn weeks(self) -> (r: Dt) {
        Dt::from_sec(sat_mul(self as i128, 604_800), Scale::TAI, Scale::TAI)
    }

    fn years(self) -> (r: Dt) {
        Dt::from_sec(sat_mul(self as i128, 31_557_600), Scale::TAI, Scale::TAI)
    }
}

impl TraitsTime for i32 {
    open spec fn count(self) -> int {
        self as int
    }

    fn ns(self) -> (r: Dt) {
        Dt::from_ns(self as i128, 0, Scale::TAI, Scale::TAI)
    }

    fn us(self) -> (r: Dt) {
        Dt::from_us(self as i128, 0, Scale::TAI, Scale::TAI)
    }

    fn ms(self) -> (r: Dt) {
        Dt::from_ms(self as i128, 0, Scale::TAI, Scale::TAI)
    }

    fn sec(self) -> (r: Dt) {
        Dt::from_sec(self as i128, Scale::TAI, Scale::TAI)
    }

    fn mins(self) -> (r: Dt) {
        Dt::from_mins(self as i128, 0, Scale::TAI, Scale::TAI)
    }

    fn hours(self) -> (r: Dt) {
        Dt::from_hours(self as i128, 0, Scale::TAI, Scale::TAI)
    }

    fn days(self) -> (r: Dt) {
        Dt::from_sec(sat_mul(self as i128, 86_400), Scale::TAI, Scale::TAI)
    }

    fn weeks(self) -> (r: Dt) {
        Dt::from_sec(sat_mul(self as i128, 604_800), Scale::TAI, Scale::TAI)
    }

    fn years(self) -> (r: Dt) {
        Dt::from_sec(sat_mul(self as i128, 31_557_600), Scale::TAI, Scale::TAI)
    }
}

impl TraitsTime for i64 {
    open spec fn count(self) -> int {
        self as int
    }

    fn ns(self) -> (r: Dt) {
        Dt::from_ns(self as i128, 0, Scale::TAI, Scale::TAI)
    }

    fn us(self) -> (r: Dt) {
        Dt::from_us(self as i128, 0, Scale::TAI, Scale::TAI)
    }

    fn ms(self) -> (r: Dt) {
        Dt::from_ms(self as i128, 0, Scale::TAI, Scale::TAI)
    }

    fn sec(self) -> (r: Dt) {
        Dt::from_sec(self as i128, Scale::TAI, Scale::TAI)
    }

    fn mins(self) -> (r: Dt) {
        Dt::from_mins(self as i128, 0, Scale::TAI, Scale::TAI)
    }

    fn hours(self) -> (r: Dt) {
        Dt::from_hours(self as i128, 0, Scale::TAI, Scale::TAI)
    }

    fn days(self) -> (r: Dt) {
        Dt::from_sec(sat_mul(self as i128, 86_400), Scale::TAI, Scale::TAI)
    }

    fn weeks(self) -> (r: Dt) {
        Dt::from_sec(sat_mul(self as i128, 604_800), Scale::TAI, Scale::TAI)
    }

    fn years(self) -> (r: Dt) {
        Dt::from_sec(sat_mul(self as i128, 31_557_600), Scale::TAI, Scale::TAI)
    }
}

impl TraitsTime for i128 {
    open spec fn count(self) -> int {
        self as int
    }

    fn ns(self) -> (r: Dt) {
        Dt::from_ns(self as i128, 0, Scale::TAI, Scale::TAI)
    }

    fn us(self) -> (r: Dt) {
        Dt::from_us(self as i128, 0, Scale::TAI, Scale::TAI)
    }

    fn ms(self) -> (r: Dt) {
        Dt::from_ms(self as i128, 0, Scale::TAI, Scale::TAI)
    }

    fn sec(self) -> (r: Dt) {
        Dt::from_sec(self as i128, Scale::TAI, Scale::TAI)
    }

    fn mins(self) -> (r: Dt) {
        Dt::from_mins(self as i128, 0, Scale::TAI, Scale::TAI)
    }

    fn hours(self) -> (r: Dt) {
        Dt::from_hours(self as i128, 0, Scale::TAI, Scale::TAI)
    }

    fn days(self) -> (r: Dt) {
        Dt::from_sec(sat_mul(self as i128, 86_400), Scale::TAI, Scale::TAI)
    }

    fn weeks(self) -> (r: Dt) {
        Dt::from_sec(sat_mul(self as i128, 604_800), Scale::TAI, Scale::TAI)
    }

    fn years(self) -> (r: Dt) {
        Dt::from_sec(sat_mul(self as i128, 31_557_600), Scale::TAI, Scale::TAI)
    }
}

impl TraitsTime for u8 {
    open spec fn count(self) -> int {
        self as int
    }

    fn ns(self) -> (r: Dt) {
        Dt::from_ns(self as i128, 0, Scale::TAI, Scale::TAI)
    }

    fn us(self) -> (r: Dt) {
        Dt::from_us(self as i128, 0, Scale::TAI, Scale::TAI)
    }

    fn ms(self) -> (r: Dt) {
        Dt::from_ms(self as i128, 0, Scale::TAI, Scale::TAI)
    }

    fn sec(self) -> (r: Dt) {
        Dt::from_sec(self as i128, Scale::TAI, Scale::TAI)
    }

    fn mins(self) -> (r: Dt) {
        Dt::from_mins(self as i128, 0, Scale::TAI, Scale::TAI)
    }

    fn hours(self) -> (r: Dt) {
        Dt::from_hours(self as i128, 0, Scale::TAI, Scale::TAI)
    }

    fn days(self) -> (r: Dt) {
        Dt::from_sec(sat_mul(self as i128, 86_400), Scale::TAI, Scale::TAI)
    }

    fn weeks(self) -> (r: Dt) {
        Dt::from_sec(sat_mul(self as i128, 604_800), Scale::TAI, Scale::TAI)
    }

    fn years(self) -> (r: Dt) {
        Dt::from_sec(sat_mul(self as i128, 31_557_600), Scale::TAI, Scale::TAI)
    }
}

impl TraitsTime for u16 {
    open spec fn count(self) -> int {
        self as int
    }

    fn ns(self) -> (r: Dt) {
        Dt::from_ns(self as i128, 0, Scale::TAI, Scale::TAI)
    }

    fn us(self) -> (r: Dt) {
        Dt::from_us(self as i128, 0, Scale::TAI, Scale::TAI)
    }

    fn ms(self) -> (r: Dt) {
        Dt::from_ms(self as i128, 0, Scale::TAI, Scale::TAI)
    }

    fn sec(self) -> (r: Dt) {
        Dt::from_sec(self as i128, Scale::TAI, Scale::TAI)
    }

    fn mins(self) -> (r: Dt) {
        Dt::from_mins(self as i128, 0, Scale::TAI, Scale::TAI)
    }

    fn hours(self) -> (r: Dt) {
        Dt::from_hours(self as i128, 0, Scale::TAI, Scale::TAI)
    }

    fn days(self) -> (r: Dt) {
        Dt::from_sec(sat_mul(self as i128, 86_400), Scale::TAI, Scale::TAI)
    }

    fn weeks(self) -> (r: Dt) {
        Dt::from_sec(sat_mul(self as i128, 604_800), Scale::TAI, Scale::TAI)
    }

    fn years(self) -> (r: Dt) {
        Dt::from_sec(sat_mul(self as i128, 31_557_600), Scale::TAI, Scale::TAI)
    }
}

impl TraitsTime for u32 {
    open spec fn count(self) -> int {
        self as int
    }

    fn ns(self) -> (r: Dt) {
        Dt::from_ns(self as i128, 0, Scale::TAI, Scale::TAI)
    }

    fn us(self) -> (r: Dt) {
        Dt::from_us(self as i128, 0, Scale::TAI, Scale::TAI)
    }

    fn ms(self) -> (r: Dt) {
        Dt::from_ms(self as i128, 0, Scale::TAI, Scale::TAI)
    }

    fn sec(self) -> (r: Dt) {
        Dt::from_sec(self as i128, Scale::TAI, Scale::TAI)
    }

    fn mins(self) -> (r: Dt) {
        Dt::from_mins(self as i128, 0, Scale::TAI, Scale::TAI)
    }

    fn hours(self) -> (r: Dt) {
        Dt::from_hours(self as i128, 0, Scale::TAI, Scale::TAI)
    }

    fn days(self) -> (r: Dt) {
        Dt::from_sec(sat_mul(self as i128, 86_400), Scale::TAI, Scale::TAI)
    }

    fn weeks(self) -> (r: Dt) {
        Dt::from_sec(sat_mul(self as i128, 604_800), Scale::TAI, Scale::TAI)
    }

    fn years(self) -> (r: Dt) {
        Dt::from_sec(sat_mul(self as i128, 31_557_600), Scale::TAI, Scale::TAI)
    }
}

impl TraitsTime for u64 {
    open spec fn count(self) -> int {
        self as int
    }

    fn ns(self) -> (r: Dt) {
        Dt::from_ns(self as i128, 0, Scale::TAI, Scale::TAI)
    }

    fn us(self) -> (r: Dt) {
        Dt::from_us(self as i128, 0, Scale::TAI, Scale::TAI)
    }

    fn ms(self) -> (r: Dt) {
        Dt::from_ms(self as i128, 0, Scale::TAI, Scale::TAI)
    }

    fn sec(self) -> (r: Dt) {
        Dt::from_sec(self as i128, Scale::TAI, Scale::TAI)
    }

    fn mins(self) -> (r: Dt) {
        Dt::from_mins(self as i128, 0, Scale::TAI, Scale::TAI)
    }

    fn hours(self) -> (r: Dt) {
        Dt::from_hours(self as i128, 0, Scale::TAI, Scale::TAI)
    }

    fn days(self) -> (r: Dt) {
        Dt::from_sec(sat_mul(self as i128, 86_400), Scale::TAI, Scale::TAI)
    }

    fn weeks(self) -> (r: Dt) {
        Dt::from_sec(sat_mul(self as i128, 604_800), Scale::TAI, Scale::TAI)
    }

    fn years(self) -> (r: Dt) {
        Dt::from_sec(sat_mul(self as i128, 31_557_600), Scale::TAI, Scale::TAI)
    }
}

impl TraitsTime for u128 {
    open spec fn count(self) -> int {
        (if self > i128::MAX { i128::MAX as int } else { self as int })
    }

    fn ns(self) -> (r: Dt) {
        Dt::from_ns(u128_count(self), 0, Scale::TAI, Scale::TAI)
    }

    fn us(self) -> (r: Dt) {
        Dt::from_us(u128_count(self), 0, Scale::TAI, Scale::TAI)
    }

    fn ms(self) -> (r: Dt) {
        Dt::from_ms(u128_count(self), 0, Scale::TAI, Scale::TAI)
    }

    fn sec(self) -> (r: Dt) {
        Dt::from_sec(u128_count(self), Scale::TAI, Scale::TAI)
    }

    fn mins(self) -> (r: Dt) {
        Dt::from_mins(u128_count(self), 0, Scale::TAI, Scale::TAI)
    }

    fn hours(self) -> (r: Dt) {
        Dt::from_hours(u128_count(self), 0, Scale::TAI, Scale::TAI)
    }

    fn days(self) -> (r: Dt) {
        Dt::from_sec(sat_mul(u128_count(self), 86_400), Scale::TAI, Scale::TAI)
    }

    fn weeks(self) -> (r: Dt) {
        Dt::from_sec(sat_mul(u128_count(self), 604_800), Scale::TAI, Scale::TAI)
    }

    fn years(self) -> (r: Dt) {
        Dt::from_sec(sat_mul(u128_count(self), 31_557_600), Scale::TAI, Scale::TAI)
    }
}

} // verus!
