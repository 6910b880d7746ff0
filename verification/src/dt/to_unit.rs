//! Whole-unit readings of a `Dt`'s attosecond count: truncating (`to_*`) and
//! flooring (`to_*_floor`) quotients with their remainders.
use vstd::prelude::*;
use crate::arith::{clamp64, tdiv, trem, wabs, div_trunc, rem_trunc, div_floor, rem_floor};
use crate::dt::{
    Dt, ATTOS_PER_FS, ATTOS_PER_PS, ATTOS_PER_NS, ATTOS_PER_US, ATTOS_PER_MS, ATTOS_PER_SEC,
    ATTOS_PER_MIN, ATTOS_PER_HOUR, ATTOS_PER_DAY, ATTOS_PER_WEEK,
};
use crate::dt::arithmetic::{round_ok, round_attos, round_abs, round_quot};
use crate::scale::Scale;

verus! {

/// The truncating quotient and remainder of `a` by `u`, as Rust's `/` and `%`.
pub open spec fn trunc_parts(a: i128, u: i128) -> (int, int) {
    (tdiv(a as int, u as int), trem(a as int, u as int))
}

/// The Euclidean (flooring, for positive `u`) quotient and remainder of `a` by `u`.
pub open spec fn floor_parts(a: i128, u: i128) -> (int, int) {
    ((a as int) / (u as int), (a as int) % (u as int))
}

/// Rounding to whole seconds never hits the cases where `round` would overflow.
pub proof fn lemma_round_sec_ok(a: i128)
    ensures
        round_ok(a as int, ATTOS_PER_SEC as int),
{
    let b = ATTOS_PER_SEC as int;
    if a < 0 && a != i128::MIN {
        let x = wabs(a as int);
        assert(x == -(a as int));
        vstd::arithmetic::div_mod::lemma_fundamental_div_mod(x, b);
        let q = round_quot(a as int, b);
        assert(0 <= q <= x / b + 1);
        assert(0 <= q * b <= x + b) by (nonlinear_arith)
            requires 0 <= q <= x / b + 1, b * (x / b) + x % b == x, 0 <= x % b, b > 0;
        vstd::arithmetic::div_mod::lemma_mod_multiples_basic(q, b);
        assert(0x8000_0000_0000_0000_0000_0000_0000_0000int % b != 0);
    } else if a == i128::MIN {
        assert(round_abs(i128::MIN as int, b) != i128::MIN);
    }
}

impl Dt {
    /// Whole seconds, rounding toward zero.
    pub fn to_sec(&self) -> (r: i128)
        ensures
            r == tdiv(self.attos as int, ATTOS_PER_SEC as int),
    {
        div_trunc(self.attos, ATTOS_PER_SEC)
    }

    /// Whole seconds, rounding toward zero, clamped to the `i64` range.
    pub fn to_sec64(&self) -> (r: i64)
        ensures
            r == clamp64(tdiv(self.attos as int, ATTOS_PER_SEC as int)),
    {
        Self::to_i64(div_trunc(self.attos, ATTOS_PER_SEC))
    }

    /// Whole seconds, rounding toward negative infinity.
    pub fn to_sec_floor(&self) -> (r: i128)
        ensures
            r == (self.attos as int) / (ATTOS_PER_SEC as int),
    {
        div_floor(self.attos, ATTOS_PER_SEC)
    }

    /// Whole seconds, rounding toward negative infinity, clamped to the `i64` range.
    pub fn to_sec64_floor(&self) -> (r: i64)
        ensures
            r == clamp64((self.attos as int) / (ATTOS_PER_SEC as int)),
    {
        Self::to_i64(div_floor(self.attos, ATTOS_PER_SEC))
    }

    /// The value rounded to the nearest second, halves away from zero.
    pub fn round_to_sec(&self) -> (r: Dt)
        ensures
            r.attos == round_attos(self.attos as int, ATTOS_PER_SEC as int),
            r.scale == self.scale,
            r.target == self.target,
    {
        proof { lemma_round_sec_ok(self.attos); }
        self.round(Dt::new(ATTOS_PER_SEC, Scale::TAI, Scale::TAI))
    }

    /// Seconds, rounded to the nearest whole second (halves away from zero).
    pub fn to_sec_round(&self) -> (r: i128)
        ensures
            r == tdiv(round_attos(self.attos as int, ATTOS_PER_SEC as int), ATTOS_PER_SEC as int),
    {
        self.round_to_sec().to_sec()
    }

    /// Seconds, rounded to the nearest whole second, clamped to the `i64` range.
    pub fn to_sec64_round(&self) -> (r: i64)
        ensures
            r == clamp64(tdiv(round_attos(self.attos as int, ATTOS_PER_SEC as int), ATTOS_PER_SEC as int)),
    {
        Self::to_i64(self.round_to_sec().to_sec())
    }

    /// The signed attoseconds below the whole second (`attos % 10^18`, sign of `attos`).
    pub fn to_sec_frac(&self) -> (r: i64)
        ensures
            r == trem(self.attos as int, ATTOS_PER_SEC as int),
    {
        rem_trunc(self.attos, ATTOS_PER_SEC) as i64
    }

    /// The attoseconds past the floored whole second, in `[0, 10^18)`.
    pub fn to_sec_ufrac(&self) -> (r: u64)
        ensures
            r == (self.attos as int) % (ATTOS_PER_SEC as int),
    {
        rem_floor(self.attos, ATTOS_PER_SEC) as u64
    }

    /// The attosecond count.
    pub fn to_attos(&self) -> (r: i128)
        ensures
            r == self.attos,
    {
        self.attos
    }

    /// Floored femtoseconds and the attoseconds left over.
    pub fn to_fs_floor(&self) -> (r: (i128, i128))
        ensures
            (r.0 as int, r.1 as int) == floor_parts(self.attos, ATTOS_PER_FS),
    {
        (div_floor(self.attos, ATTOS_PER_FS), rem_floor(self.attos, ATTOS_PER_FS))
    }

    /// Floored picoseconds and the attoseconds left over.
    pub fn to_ps_floor(&self) -> (r: (i128, i128))
        ensures
            (r.0 as int, r.1 as int) == floor_parts(self.attos, ATTOS_PER_PS),
    {
        (div_floor(self.attos, ATTOS_PER_PS), rem_floor(self.attos, ATTOS_PER_PS))
    }

    /// Floored nanoseconds and the attoseconds left over.
    pub fn to_ns_floor(&self) -> (r: (i128, i128))
        ensures
            (r.0 as int, r.1 as int) == floor_parts(self.attos, ATTOS_PER_NS),
    {
        (div_floor(self.attos, ATTOS_PER_NS), rem_floor(self.attos, ATTOS_PER_NS))
    }

    /// Floored microseconds and the attoseconds left over.
    pub fn to_us_floor(&self) -> (r: (i128, i128))
        ensures
            (r.0 as int, r.1 as int) == floor_parts(self.attos, ATTOS_PER_US),
    {
        (div_floor(self.attos, ATTOS_PER_US), rem_floor(self.attos, ATTOS_PER_US))
    }

    /// Floored milliseconds and the attoseconds left over.
    pub fn to_ms_floor(&self) -> (r: (i128, i128))
        ensures
            (r.0 as int, r.1 as int) == floor_parts(self.attos, ATTOS_PER_MS),
    {
        (div_floor(self.attos, ATTOS_PER_MS), rem_floor(self.attos, ATTOS_PER_MS))
    }

    /// Floored minutes and the attoseconds left over.
    pub fn to_mins_floor(&self) -> (r: (i128, i128))
        ensures
            (r.0 as int, r.1 as int) == floor_parts(self.attos, ATTOS_PER_MIN),
    {
        (div_floor(self.attos, ATTOS_PER_MIN), rem_floor(self.attos, ATTOS_PER_MIN))
    }

    /// Floored hours and the attoseconds left over.
    pub fn to_hours_floor(&self) -> (r: (i128, i128))
        ensures
            (r.0 as int, r.1 as int) == floor_parts(self.attos, ATTOS_PER_HOUR),
    {
        (div_floor(self.attos, ATTOS_PER_HOUR), rem_floor(self.attos, ATTOS_PER_HOUR))
    }

    /// Floored days (86 400 s) and the attoseconds left over.
    pub fn to_days_floor(&self) -> (r: (i128, i128))
        ensures
            (r.0 as int, r.1 as int) == floor_parts(self.attos, ATTOS_PER_DAY),
    {
        (div_floor(self.attos, ATTOS_PER_DAY), rem_floor(self.attos, ATTOS_PER_DAY))
    }

    /// Floored weeks and the attoseconds left over.
    pub fn to_weeks_floor(&self) -> (r: (i128, i128))
        ensures
            (r.0 as int, r.1 as int) == floor_parts(self.attos, ATTOS_PER_WEEK),
    {
        (div_floor(self.attos, ATTOS_PER_WEEK), rem_floor(self.attos, ATTOS_PER_WEEK))
    }

    /// Whole minutes (toward zero) and the signed attoseconds left over.
    pub fn to_mins(&self) -> (r: (i128, i128))
        ensures
            (r.0 as int, r.1 as int) == trunc_parts(self.attos, ATTOS_PER_MIN),
    {
        (div_trunc(self.attos, ATTOS_PER_MIN), rem_trunc(self.attos, ATTOS_PER_MIN))
    }

    /// Whole hours (toward zero) and the signed attoseconds left over.
    pub fn to_hours(&self) -> (r: (i128, i128))
        ensures
            (r.0 as int, r.1 as int) == trunc_parts(self.attos, ATTOS_PER_HOUR),
    {
        (div_trunc(self.attos, ATTOS_PER_HOUR), rem_trunc(self.attos, ATTOS_PER_HOUR))
    }

    /// Whole days (toward zero) and the signed attoseconds left over.
    pub fn to_days(&self) -> (r: (i128, i128))
        ensures
            (r.0 as int, r.1 as int) == trunc_parts(self.attos, ATTOS_PER_DAY),
    {
        (div_trunc(self.attos, ATTOS_PER_DAY), rem_trunc(self.attos, ATTOS_PER_DAY))
    }

    /// Whole weeks (toward zero) and the signed attoseconds left over.
    pub fn to_weeks(&self) -> (r: (i128, i128))
        ensures
            (r.0 as int, r.1 as int) == trunc_parts(self.attos, ATTOS_PER_WEEK),
    {
        (div_trunc(self.attos, ATTOS_PER_WEEK), rem_trunc(self.attos, ATTOS_PER_WEEK))
    }

    /// Whole milliseconds (toward zero) and the signed attoseconds left over.
    pub fn to_ms(&self) -> (r: (i128, i128))
        ensures
            (r.0 as int, r.1 as int) == trunc_parts(self.attos, ATTOS_PER_MS),
    {
        (div_trunc(self.attos, ATTOS_PER_MS), rem_trunc(self.attos, ATTOS_PER_MS))
    }

    /// Whole microseconds (toward zero) and the signed attoseconds left over.
    pub fn to_us(&self) -> (r: (i128, i128))
        ensures
            (r.0 as int, r.1 as int) == trunc_parts(self.attos, ATTOS_PER_US),
    {
        (div_trunc(self.attos, ATTOS_PER_US), rem_trunc(self.attos, ATTOS_PER_US))
    }

    /// Whole nanoseconds (toward zero) and the signed attoseconds left over.
    pub fn to_ns(&self) -> (r: (i128, i128))
        ensures
            (r.0 as int, r.1 as int) == trunc_parts(self.attos, ATTOS_PER_NS),
    {
        (div_trunc(self.attos, ATTOS_PER_NS), rem_trunc(self.attos, ATTOS_PER_NS))
    }

    /// Whole picoseconds (toward zero) and the signed attoseconds left over.
    pub fn to_ps(&self) -> (r: (i128, i128))
        ensures
            (r.0 as int, r.1 as int) == trunc_parts(self.attos, ATTOS_PER_PS),
    {
        (div_trunc(self.attos, ATTOS_PER_PS), rem_trunc(self.attos, ATTOS_PER_PS))
    }

    /// Whole femtoseconds (toward zero) and the signed attoseconds left over.
    pub fn to_fs(&self) -> (r: (i128, i128))
        ensures
            (r.0 as int, r.1 as int) == trunc_parts(self.attos, ATTOS_PER_FS),
    {
        (div_trunc(self.attos, ATTOS_PER_FS), rem_trunc(self.attos, ATTOS_PER_FS))
    }
}

} // verus!
