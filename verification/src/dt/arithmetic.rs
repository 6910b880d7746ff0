//! Saturating arithmetic and rounding on `Dt` attosecond counts; no time-scale
//! conversion is made by any of these.
use vstd::prelude::*;
use crate::arith::{
    clamp128, tdiv, wrap128, wabs, safe_div_euc, safe_rem_euc, sat_add, sat_sub, sat_mul,
    div_trunc, wrapping_abs128, safe_div_euc128, safe_rem_euc128,
    wrapping_mul128, wrapping_add128, rem_floor, abs_u128,
};
use crate::dt::{
    Dt, ATTOS_PER_FS, ATTOS_PER_PS, ATTOS_PER_NS, ATTOS_PER_US, ATTOS_PER_MS, ATTOS_PER_SEC,
    ATTOS_PER_MIN, ATTOS_PER_HOUR,
};
use crate::scale::Scale;
use crate::dt::relativistic::{mul_rate, rate_of};

verus! {

/// The value `floor` gives: the largest multiple of `b` at or below `a`
/// (`a` less its remainder modulo `|b|`), wrapped where it is below `i128::MIN`.
pub open spec fn floor_attos(a: int, b: int) -> int {
    wrap128(a - a % b)
}

/// The value `ceil` gives: the smallest multiple of `b` at or above `a`,
/// wrapped where it is above `i128::MAX`.
pub open spec fn ceil_attos(a: int, b: int) -> int {
    wrap128(a + (-a) % b)
}

/// `|a| / |b|` rounded half up, in whole multiples of `|b|`.
pub open spec fn round_quot(a: int, b: int) -> int {
    let q = safe_div_euc(wabs(a), wabs(b));
    let r = safe_rem_euc(wabs(a), wabs(b));
    if r >= tdiv(wabs(b) + 1, 2) { q + 1 } else { q }
}

/// `|a|` rounded to a multiple of `|b|` (before the sign of `a` is put back).
pub open spec fn round_abs(a: int, b: int) -> int {
    wrap128(round_quot(a, b) * wabs(b))
}

/// The value `round` gives: `round_abs` with the sign of `a`.
pub open spec fn round_attos(a: int, b: int) -> int {
    if a < 0 { -round_abs(a, b) } else { round_abs(a, b) }
}

/// The inputs on which `round` completes: `|b| + 1` must fit, and the negated
/// result must fit when `a` is negative.
pub open spec fn round_ok(a: int, b: int) -> bool {
    &&& b == 0 || wabs(b) < i128::MAX
    &&& b == 0 || a >= 0 || round_abs(a, b) != i128::MIN
}

/// `floor(|a| / |b|)` on two's-complement absolute values, saturated above
/// at `usize::MAX` and truncated to `usize` below.
pub open spec fn abs_div_floor_spec(a: i128, b: i128) -> usize {
    let q = safe_div_euc(wabs(a as int), wabs(b as int));
    if q > usize::MAX { usize::MAX } else { (q as i128) as usize }
}

/// The fixed-point scale of a fraction factor: `10^15` stands for one.
pub open spec fn frac_one() -> int {
    1_000_000_000_000_000
}

/// The fraction `f / 10^15` of `a`, truncated toward zero, with `a`'s sign.
pub open spec fn frac_attos_spec(a: int, f: int) -> int {
    rate_of(a, f, frac_one())
}

/// In `round`, adding one to the quotient cannot overflow.
proof fn lemma_round_quot_fits(x: int, d: int)
    requires
        d != 0,
        i128::MIN <= x <= i128::MAX,
        i128::MIN <= d < i128::MAX,
        x >= 0 || x == i128::MIN,
        d > 0 || d == i128::MIN,
    ensures
        safe_rem_euc(x, d) >= tdiv(d + 1, 2) ==> safe_div_euc(x, d) < i128::MAX,
        i128::MIN <= safe_div_euc(x, d) <= i128::MAX,
{
    vstd::arithmetic::div_mod::lemma_fundamental_div_mod(x, d);
    let q = x / d;
    let r = x % d;
    if d == i128::MIN {
        assert(q < 2 && q >= 0) by (nonlinear_arith)
            requires d * q == x - r, d == -0x8000_0000_0000_0000_0000_0000_0000_0000int,
                0 <= r < 0x8000_0000_0000_0000_0000_0000_0000_0000int,
                -0x8000_0000_0000_0000_0000_0000_0000_0000int <= x < 0x8000_0000_0000_0000_0000_0000_0000_0000int;
    } else if d == 1 {
        assert(r == 0);
    } else if x >= 0 {
        assert(q <= x / 2 && q >= 0) by (nonlinear_arith)
            requires d * q == x - r, d >= 2, 0 <= r < d, x >= 0;
    } else {
        assert(q < 0 && q >= x) by (nonlinear_arith)
            requires d * q == x - r, d >= 2, 0 <= r < d, x < 0;
    }
}

/// The remainder of `-a` modulo `b` is `|b|` less that of `a`, or zero.
proof fn lemma_neg_mod(a: int, b: int)
    requires
        b != 0,
    ensures
        (-a) % b == (if a % b == 0 { 0 } else { (if b < 0 { -b } else { b }) - a % b }),
{
    let ab = if b < 0 { -b } else { b };
    vstd::arithmetic::div_mod::lemma_fundamental_div_mod(a, b);
    let q = a / b;
    let r = a % b;
    assert(a == b * q + r);
    if r == 0 {
        assert(-a == (-q) * b + 0) by (nonlinear_arith) requires a == b * q + r, r == 0;
        crate::dt_big::lemma_euclid_converse(-a, b, -q, 0);
    } else if b > 0 {
        assert(-a == (-q - 1) * b + (ab - r)) by (nonlinear_arith) requires a == b * q + r, ab == b;
        crate::dt_big::lemma_euclid_converse(-a, b, -q - 1, ab - r);
    } else {
        assert(-a == (-q + 1) * b + (ab - r)) by (nonlinear_arith) requires a == b * q + r, ab == -b;
        crate::dt_big::lemma_euclid_converse(-a, b, -q + 1, ab - r);
    }
}

impl Dt {
    /// `self - other` on the attoseconds, saturating; keeps `self`'s scales.
    pub fn to_diff_raw(&self, other: Dt) -> (r: Dt)
        ensures
            r.attos == clamp128(self.attos - other.attos),
            r.scale == self.scale,
            r.target == self.target,
    {
        Dt::new(sat_sub(self.attos, other.attos), self.scale, self.target)
    }

    /// Attoseconds from `reference` to `self` (saturating); no scale conversion.
    pub fn to_tai_attos_since(self, reference: Dt) -> (r: i128)
        ensures
            r == clamp128(self.attos - reference.attos),
    {
        self.to_diff_raw(reference).to_attos()
    }

    /// `self + dt` on the attoseconds, saturating; keeps `self`'s scales.
    pub fn add(&self, dt: Dt) -> (r: Dt)
        ensures
            r.attos == clamp128(self.attos + dt.attos),
            r.scale == self.scale,
            r.target == self.target,
    {
        if !dt.is_zero() {
            Dt::new(sat_add(self.attos, dt.attos), self.scale, self.target)
        } else {
            *self
        }
    }

    /// `self - dt` on the attoseconds, saturating; keeps `self`'s scales.
    pub fn sub(&self, dt: Dt) -> (r: Dt)
        ensures
            r.attos == clamp128(self.attos - dt.attos),
            r.scale == self.scale,
            r.target == self.target,
    {
        if !dt.is_zero() {
            Dt::new(sat_sub(self.attos, dt.attos), self.scale, self.target)
        } else {
            *self
        }
    }

    /// Adds `n` attoseconds, saturating.
    pub fn add_attos(&self, n: i128) -> (r: Dt)
        ensures
            r.attos == clamp128(self.attos + n),
            r.scale == self.scale,
            r.target == self.target,
    {
        Dt::new(sat_add(self.attos, n), self.scale, self.target)
    }

    /// Adds `n` femtoseconds, saturating at each step.
    pub fn add_fs(&self, n: i128) -> (r: Dt)
        ensures
            r.attos == clamp128(self.attos + clamp128(n * ATTOS_PER_FS)),
            r.scale == self.scale,
            r.target == self.target,
    {
        self.add_attos(sat_mul(n, ATTOS_PER_FS))
    }

    /// Adds `n` picoseconds, saturating at each step.
    pub fn add_ps(&self, n: i128) -> (r: Dt)
        ensures
            r.attos == clamp128(self.attos + clamp128(n * ATTOS_PER_PS)),
            r.scale == self.scale,
            r.target == self.target,
    {
        self.add_attos(sat_mul(n, ATTOS_PER_PS))
    }

    /// Adds `n` nanoseconds, saturating at each step.
    pub fn add_ns(&self, n: i128) -> (r: Dt)
        ensures
            r.attos == clamp128(self.attos + clamp128(n * ATTOS_PER_NS)),
            r.scale == self.scale,
            r.target == self.target,
    {
        self.add_attos(sat_mul(n, ATTOS_PER_NS))
    }

    /// Adds `n` microseconds, saturating at each step.
    pub fn add_us(&self, n: i128) -> (r: Dt)
        ensures
            r.attos == clamp128(self.attos + clamp128(n * ATTOS_PER_US)),
            r.scale == self.scale,
            r.target == self.target,
    {
        self.add_attos(sat_mul(n, ATTOS_PER_US))
    }

    /// Adds `n` milliseconds, saturating at each step.
    pub fn add_ms(&self, n: i128) -> (r: Dt)
        ensures
            r.attos == clamp128(self.attos + clamp128(n * ATTOS_PER_MS)),
            r.scale == self.scale,
            r.target == self.target,
    {
        self.add_attos(sat_mul(n, ATTOS_PER_MS))
    }

    /// Adds `n` seconds, saturating at each step.
    pub fn add_sec(&self, n: i128) -> (r: Dt)
        ensures
            r.attos == clamp128(self.attos + clamp128(n * ATTOS_PER_SEC)),
            r.scale == self.scale,
            r.target == self.target,
    {
        self.add_attos(sat_mul(n, ATTOS_PER_SEC))
    }

    /// Adds `n` minutes, saturating at each step.
    pub fn add_mins(&self, n: i128) -> (r: Dt)
        ensures
            r.attos == clamp128(self.attos + clamp128(n * ATTOS_PER_MIN)),
            r.scale == self.scale,
            r.target == self.target,
    {
        self.add_attos(sat_mul(n, ATTOS_PER_MIN))
    }

    /// Adds `n` hours, saturating at each step.
    pub fn add_hours(&self, n: i128) -> (r: Dt)
        ensures
            r.attos == clamp128(self.attos + clamp128(n * ATTOS_PER_HOUR)),
            r.scale == self.scale,
            r.target == self.target,
    {
        self.add_attos(sat_mul(n, ATTOS_PER_HOUR))
    }

    /// `true` when the attosecond count is zero.
    pub fn is_zero(&self) -> (r: bool)
        ensures
            r == (self.attos == 0),
    {
        self.attos == 0
    }

    /// `true` when the attosecond count is strictly positive.
    pub fn is_positive(&self) -> (r: bool)
        ensures
            r == (self.attos > 0),
    {
        self.attos > 0
    }

    /// `self * rhs`, saturating; zero (on TAI) when either factor is zero.
    pub fn mul(self, rhs: i64) -> (r: Dt)
        ensures
            rhs == 0 || self.attos == 0 ==> r == Dt::spec_zero(),
            rhs != 0 && self.attos != 0 ==> r.attos == clamp128(self.attos * rhs),
            rhs != 0 && self.attos != 0 ==> r.scale == self.scale && r.target == self.target,
    {
        if rhs == 0 || self.is_zero() {
            return Dt::zero();
        }
        let total = sat_mul(self.attos, rhs as i128);
        Dt::new(total, self.scale, self.target)
    }

    /// `self / rhs` rounding toward zero; zero (on TAI) when `rhs` or `self` is zero.
    pub fn div(self, rhs: i64) -> (r: Dt)
        requires
            !(self.attos == i128::MIN && rhs == -1),
        ensures
            rhs == 0 || self.attos == 0 ==> r == Dt::spec_zero(),
            rhs != 0 && self.attos != 0 ==> r.attos == tdiv(self.attos as int, rhs as int),
            rhs != 0 && self.attos != 0 ==> r.scale == self.scale && r.target == self.target,
    {
        if rhs == 0 || self.is_zero() {
            return Dt::zero();
        }
        let result = div_trunc(self.attos, rhs as i128);
        Dt::new(result, self.scale, self.target)
    }

    /// The largest multiple of `unit` at or below `self`; `self` when `unit` is zero.
    pub fn floor(&self, unit: Dt) -> (r: Dt)
        ensures
            unit.attos == 0 ==> r == *self,
            unit.attos != 0 ==> r.attos == floor_attos(self.attos as int, unit.attos as int),
            r.scale == self.scale,
            r.target == self.target,
    {
        if unit.is_zero() {
            return *self;
        }
        let m = rem_floor(self.attos, unit.attos);
        let result = wrapping_add128(self.attos, -m);
        Dt::new(result, self.scale, self.target)
    }

    /// The smallest multiple of `unit` at or above `self`; `self` when `unit` is zero.
    pub fn ceil(&self, unit: Dt) -> (r: Dt)
        ensures
            unit.attos == 0 ==> r == *self,
            unit.attos != 0 ==> r.attos == ceil_attos(self.attos as int, unit.attos as int),
            r.scale == self.scale,
            r.target == self.target,
    {
        if unit.is_zero() {
            return *self;
        }
        let m = rem_floor(self.attos, unit.attos);
        let ub = abs_u128(unit.attos);
        let c: i128 = if m == 0 { 0 } else { (ub - m as u128) as i128 };
        proof { lemma_neg_mod(self.attos as int, unit.attos as int); }
        let result = wrapping_add128(self.attos, c);
        Dt::new(result, self.scale, self.target)
    }

    /// The nearest multiple of `unit`, halves rounding away from zero; `self`
    /// when `unit` is zero.
    pub fn round(&self, unit: Dt) -> (r: Dt)
        requires
            round_ok(self.attos as int, unit.attos as int),
        ensures
            unit.attos == 0 ==> r == *self,
            unit.attos != 0 ==> r.attos == round_attos(self.attos as int, unit.attos as int),
            r.scale == self.scale,
            r.target == self.target,
    {
        if unit.is_zero() {
            return *self;
        }
        let a = self.attos;
        let b = unit.attos;
        let abs_a = wrapping_abs128(a);
        let abs_b = wrapping_abs128(b);
        let q = safe_div_euc128(abs_a, abs_b);
        let r = safe_rem_euc128(abs_a, abs_b);
        let half = div_trunc(abs_b + 1, 2);
        proof { lemma_round_quot_fits(abs_a as int, abs_b as int); }
        let q_rounded = if r >= half { q + 1 } else { q };
        let rounded_abs = wrapping_mul128(q_rounded, abs_b);
        let result = if a < 0 { -rounded_abs } else { rounded_abs };
        Dt::new(result, self.scale, self.target)
    }

    /// `floor(|self| / |unit|)` (two's-complement absolute values), saturating at
    /// `usize::MAX`; `0` when `unit` is zero.
    pub fn abs_div_floor(&self, unit: Dt) -> (r: usize)
        ensures
            unit.attos == 0 ==> r == 0,
            unit.attos != 0 ==> r == abs_div_floor_spec(self.attos, unit.attos),
    {
        if unit.is_zero() {
            return 0;
        }
        let a = wrapping_abs128(self.attos);
        let b = wrapping_abs128(unit.attos);
        let q = safe_div_euc128(a, b);
        if q > usize::MAX as i128 {
            usize::MAX
        } else {
            #[verifier::truncate] (q as usize)
        }
    }

    /// The fraction `frac_scaled / 10^15` (at most one) of `self`'s
    /// attoseconds, truncated toward zero, added (saturating) to `int_attos`:
    /// the integer step of scaling by a factor whose whole part gave
    /// `int_attos` and whose fractional part is `frac_scaled`.
    pub fn add_scaled_frac(&self, int_attos: i128, frac_scaled: i128) -> (r: Dt)
        requires
            0 <= frac_scaled <= frac_one(),
        ensures
            r.attos == clamp128(int_attos + frac_attos_spec(self.attos as int, frac_scaled as int)),
            r.scale == self.scale,
            r.target == self.target,
    {
        let frac = mul_rate(self.attos, frac_scaled, 1_000_000_000_000_000);
        Dt::new(sat_add(int_attos, frac), self.scale, self.target)
    }

    /// `a * b`, or `max_attos` / `min_attos` (by the product's sign) when it does not fit.
    pub fn saturating_mul_attos(a: i128, b: i128, max_attos: i128, min_attos: i128) -> (r: i128)
        ensures
            i128::MIN <= a * b <= i128::MAX ==> r == a * b,
            !(i128::MIN <= a * b <= i128::MAX) ==> r == (if (a < 0) == (b < 0) { max_attos } else { min_attos }),
    {
        match a.checked_mul(b) {
            Some(product) => product,
            None => {
                if (a < 0) == (b < 0) { max_attos } else { min_attos }
            }
        }
    }
}

impl Dt {
    /// Zero attoseconds on TAI.
    pub open spec fn spec_zero() -> Dt {
        Dt { attos: 0, scale: Scale::TAI, target: Scale::TAI }
    }
}

/// `floor` gives the largest multiple of `unit` at or below the value,
/// wherever that multiple is an `i128`.
pub proof fn lemma_floor_largest_multiple(a: i128, b: i128)
    requires
        b != 0,
        i128::MIN <= a - (a as int) % (b as int),
    ensures
        floor_attos(a as int, b as int) == a - (a as int) % (b as int),
        floor_attos(a as int, b as int) <= a < floor_attos(a as int, b as int) + (if b < 0 { -b } else { b as int }),
        floor_attos(a as int, b as int) % (b as int) == 0,
{
    let x = a as int;
    let d = b as int;
    vstd::arithmetic::div_mod::lemma_fundamental_div_mod(x, d);
    assert(x - x % d == (x / d) * d) by (nonlinear_arith) requires d * (x / d) + x % d == x;
    crate::dt_big::lemma_euclid_converse(x - x % d, d, x / d, 0);
    lemma_wrap_in_range(x - x % d);
}

/// `ceil` gives the smallest multiple of `unit` at or above the value,
/// wherever that multiple is an `i128`.
pub proof fn lemma_ceil_smallest_multiple(a: i128, b: i128)
    requires
        b != 0,
        a + ((-a) as int) % (b as int) <= i128::MAX,
    ensures
        ceil_attos(a as int, b as int) == a + ((-a) as int) % (b as int),
        ceil_attos(a as int, b as int) - (if b < 0 { -b } else { b as int }) < a <= ceil_attos(a as int, b as int),
        ceil_attos(a as int, b as int) % (b as int) == 0,
{
    let x = -(a as int);
    let d = b as int;
    vstd::arithmetic::div_mod::lemma_fundamental_div_mod(x, d);
    assert(a + x % d == (-(x / d)) * d) by (nonlinear_arith) requires d * (x / d) + x % d == x, x == -(a as int);
    crate::dt_big::lemma_euclid_converse(a + x % d, d, -(x / d), 0);
    lemma_wrap_in_range(a + x % d);
}

/// `wrap128` leaves values in the `i128` range unchanged.
pub proof fn lemma_wrap_in_range(x: int)
    requires
        i128::MIN <= x <= i128::MAX,
    ensures
        wrap128(x) == x,
{
    let m = 0x1_0000_0000_0000_0000_0000_0000_0000_0000int;
    if x >= 0 {
        vstd::arithmetic::div_mod::lemma_small_mod(x as nat, m as nat);
    } else {
        vstd::arithmetic::div_mod::lemma_fundamental_div_mod_converse(x, m, -1, x + m);
    }
}

/// `round` gives a multiple of `|unit|` within half a unit of the value,
/// halves going away from zero, wherever that multiple is an `i128` and
/// neither argument is `i128::MIN`.
pub proof fn lemma_round_nearest_multiple(a: i128, b: i128)
    requires
        b != 0,
        a != i128::MIN,
        b != i128::MIN,
        round_quot(a as int, b as int) * wabs(b as int) <= i128::MAX,
    ensures
        round_attos(a as int, b as int) % wabs(b as int) == 0,
        2 * (if a < 0 { -(a as int) } else { a as int }) - wabs(b as int)
            < 2 * (if a < 0 { -round_attos(a as int, b as int) } else { round_attos(a as int, b as int) })
            <= 2 * (if a < 0 { -(a as int) } else { a as int }) + wabs(b as int),
        (a < 0 ==> round_attos(a as int, b as int) <= 0) && (a >= 0 ==> round_attos(a as int, b as int) >= 0),
{
    let x = wabs(a as int);
    let d = wabs(b as int);
    vstd::arithmetic::div_mod::lemma_fundamental_div_mod(x, d);
    let q = x / d;
    let r = x % d;
    vstd::arithmetic::div_mod::lemma_div_pos_is_pos(x, d);
    let qr = round_quot(a as int, b as int);
    assert(qr * d >= 0) by (nonlinear_arith) requires qr >= 0, d > 0;
    lemma_wrap_in_range(qr * d);
    vstd::arithmetic::div_mod::lemma_mod_multiples_basic(qr, d);
    vstd::arithmetic::div_mod::lemma_mod_multiples_basic(-qr, d);
    assert(-(qr * d) == (-qr) * d) by (nonlinear_arith);
    assert((q + 1) * d == q * d + d) by (nonlinear_arith);
    assert(tdiv(d + 1, 2) == (d + 1) / 2);
    let h = (d + 1) / 2;
    assert(2 * h <= d + 1 && 2 * h >= d) by {
        vstd::arithmetic::div_mod::lemma_fundamental_div_mod(d + 1, 2);
    }
    if r >= h {
        assert(qr == q + 1);
        assert(2 * x - d < 2 * (qr * d) <= 2 * x + d);
    } else {
        assert(qr == q);
        assert(2 * x - d < 2 * (qr * d) <= 2 * x + d);
    }
    assert(x == (if a < 0 { -(a as int) } else { a as int }));
}

} // verus!
