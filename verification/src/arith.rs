//! Exact integer helpers used throughout the crate: truncating and
//! Euclidean division on signed integers and saturating arithmetic, each
//! specified over mathematical integers.
use vstd::prelude::*;

verus! {

/// Division rounding toward zero, as Rust's `/` on signed integers.
pub open spec fn tdiv(x: int, d: int) -> int {
    if x >= 0 && d > 0 {
        x / d
    } else if x < 0 && d < 0 {
        (-x) / (-d)
    } else if x < 0 {
        -((-x) / d)
    } else {
        -(x / (-d))
    }
}

/// Remainder of division rounding toward zero, as Rust's `%` on signed integers.
pub open spec fn trem(x: int, d: int) -> int {
    x - d * tdiv(x, d)
}

/// `x` clamped to the `i128` range.
pub open spec fn clamp128(x: int) -> int {
    if x > i128::MAX {
        i128::MAX as int
    } else if x < i128::MIN {
        i128::MIN as int
    } else {
        x
    }
}

/// `x` clamped to the `i64` range.
pub open spec fn clamp64(x: int) -> int {
    if x > i64::MAX {
        i64::MAX as int
    } else if x < i64::MIN {
        i64::MIN as int
    } else {
        x
    }
}

/// Magnitude of a signed `i128` as a `u128`.
pub fn abs_u128(a: i128) -> (r: u128)
    ensures
        r as int == (if a < 0 { -(a as int) } else { a as int }),
{
    if a >= 0 {
        a as u128
    } else if a == i128::MIN {
        0x8000_0000_0000_0000_0000_0000_0000_0000u128
    } else {
        (-a) as u128
    }
}

/// `sign * m` as an `i128` where the product is known to fit.
pub fn signed_from_mag(neg: bool, m: u128) -> (r: i128)
    requires
        neg ==> m <= 0x8000_0000_0000_0000_0000_0000_0000_0000u128,
        !neg ==> m <= i128::MAX,
    ensures
        r as int == (if neg { -(m as int) } else { m as int }),
{
    if !neg {
        m as i128
    } else if m == 0x8000_0000_0000_0000_0000_0000_0000_0000u128 {
        i128::MIN
    } else {
        -(m as i128)
    }
}

/// Signed division rounding toward zero (Rust's `/`).
pub fn div_trunc(a: i128, b: i128) -> (q: i128)
    requires
        b != 0,
        !(a == i128::MIN && b == -1),
    ensures
        q as int == tdiv(a as int, b as int),
{
    let ua = abs_u128(a);
    let ub = abs_u128(b);
    let uq = ua / ub;
    proof {
        vstd::arithmetic::div_mod::lemma_div_is_ordered_by_denominator(ua as int, 1, ub as int);
        vstd::arithmetic::div_mod::lemma_div_basics(ua as int);
        if ub == 1 {
            vstd::arithmetic::div_mod::lemma_div_basics(ua as int);
        } else {
            vstd::arithmetic::div_mod::lemma_div_is_ordered_by_denominator(ua as int, 2, ub as int);
            vstd::arithmetic::div_mod::lemma_div_pos_is_pos(ua as int, 2);
        }
    }
    let neg = (a < 0) != (b < 0);
    signed_from_mag(neg, uq)
}

/// Signed remainder of division rounding toward zero (Rust's `%`).
pub fn rem_trunc(a: i128, b: i128) -> (r: i128)
    requires
        b != 0,
    ensures
        r as int == trem(a as int, b as int),
        (if a < 0 { -(r as int) } else { r as int }) < (if b < 0 { -(b as int) } else { b as int }),
        a >= 0 ==> r >= 0,
        a <= 0 ==> r <= 0,
{
    let ua = abs_u128(a);
    let ub = abs_u128(b);
    let ur = ua % ub;
    proof {
        let q = ua as int / ub as int;
        vstd::arithmetic::div_mod::lemma_fundamental_div_mod(ua as int, ub as int);
        let x = a as int;
        let d = b as int;
        if x >= 0 && d > 0 {
        } else if x < 0 && d < 0 {
            assert(d * q == -(ub * q)) by (nonlinear_arith) requires d == -(ub as int);
        } else if x < 0 {
            assert(d * (-q) == -(ub * q)) by (nonlinear_arith) requires d == ub as int;
        } else {
            assert(d * (-q) == ub * q) by (nonlinear_arith) requires d == -(ub as int);
        }
    }
    signed_from_mag(a < 0, ur)
}

/// Euclidean division (Rust's `div_euclid`): the remainder is never negative.
pub fn div_floor(a: i128, b: i128) -> (q: i128)
    requires
        b != 0,
        !(a == i128::MIN && b == -1),
    ensures
        q as int == (a as int) / (b as int),
{
    proof {
        let x = a as int;
        let d = b as int;
        vstd::arithmetic::div_mod::lemma_fundamental_div_mod(x, d);
    }
    match a.checked_div_euclid(b) {
        Some(q) => q,
        None => {
            proof {
                lemma_euclid_div_fits(a, b);
            }
            0
        }
    }
}

proof fn lemma_euclid_div_fits(a: i128, b: i128)
    requires
        b != 0,
        !(a == i128::MIN && b == -1),
    ensures
        i128::MIN <= (a as int) / (b as int) <= i128::MAX,
{
    let x = a as int;
    let d = b as int;
    let q = x / d;
    vstd::arithmetic::div_mod::lemma_fundamental_div_mod(x, d);
    let r = x % d;
    assert(0 <= r < (if d < 0 { -d } else { d }));
    if d >= 1 {
        if x >= 0 {
            vstd::arithmetic::div_mod::lemma_div_is_ordered_by_denominator(x, 1, d);
            vstd::arithmetic::div_mod::lemma_div_pos_is_pos(x, d);
        } else {
            // q = (x - r) / d with x - r in [x - d + 1, x]
            assert(d * q == x - r);
            assert(q <= 0) by (nonlinear_arith) requires d * q == x - r, x < 0, r < d, d >= 1, r >= 0;
            assert(q >= x) by (nonlinear_arith) requires d * q == x - r, x < 0, r >= 0, d >= 1, r < d;
        }
    } else {
        // d <= -1
        assert(d * q == x - r);
        if d == -1 {
            assert(q == -x);
        } else {
            assert(q * (-d) == r - x) by (nonlinear_arith) requires d * q == x - r;
            if x >= 0 {
                assert(q <= 0) by (nonlinear_arith) requires q * (-d) == r - x, x >= 0, r < -d, -d >= 2, r >= 0;
                assert(q >= -x) by (nonlinear_arith) requires q * (-d) == r - x, x >= 0, r >= 0, -d >= 2;
            } else {
                assert(q >= 0) by (nonlinear_arith) requires q * (-d) == r - x, x < 0, r >= 0, -d >= 2;
                assert(2 * q <= -x + r) by (nonlinear_arith) requires q * (-d) == r - x, x < 0, r >= 0, -d >= 2, q >= 0;
                assert(q <= i128::MAX);
            }
        }
    }
}

/// Euclidean remainder (Rust's `rem_euclid`): always in `[0, |b|)`.
pub fn rem_floor(a: i128, b: i128) -> (r: i128)
    requires
        b != 0,
    ensures
        r as int == (a as int) % (b as int),
        0 <= r,
{
    proof {
        vstd::arithmetic::div_mod::lemma_fundamental_div_mod(a as int, b as int);
    }
    if b == -1 {
        return 0;
    }
    match a.checked_rem_euclid(b) {
        Some(r) => r,
        None => 0,
    }
}

/// Saturating `i128` addition.
pub fn sat_add(a: i128, b: i128) -> (r: i128)
    ensures
        r as int == clamp128(a + b),
{
    match a.checked_add(b) {
        Some(r) => r,
        None => if b > 0 { i128::MAX } else { i128::MIN },
    }
}

/// Saturating `i128` subtraction.
pub fn sat_sub(a: i128, b: i128) -> (r: i128)
    ensures
        r as int == clamp128(a - b),
{
    match a.checked_sub(b) {
        Some(r) => r,
        None => if b < 0 { i128::MAX } else { i128::MIN },
    }
}

/// Saturating `i128` multiplication.
pub fn sat_mul(a: i128, b: i128) -> (r: i128)
    ensures
        r as int == clamp128(a * b),
{
    match a.checked_mul(b) {
        Some(r) => r,
        None => {
            proof {
                if a * b >= 0 {
                } else {
                }
                assert((a > 0) == (b > 0) ==> a * b >= 0) by (nonlinear_arith);
                assert((a > 0) != (b > 0) && a != 0 && b != 0 ==> a * b < 0) by (nonlinear_arith);
            }
            if (a > 0) == (b > 0) { i128::MAX } else { i128::MIN }
        }
    }
}

/// Saturating `i64` addition.
pub fn sat_add64(a: i64, b: i64) -> (r: i64)
    ensures
        r as int == clamp64(a + b),
{
    match a.checked_add(b) {
        Some(r) => r,
        None => if b > 0 { i64::MAX } else { i64::MIN },
    }
}

/// Saturating `i64` subtraction.
pub fn sat_sub64(a: i64, b: i64) -> (r: i64)
    ensures
        r as int == clamp64(a - b),
{
    match a.checked_sub(b) {
        Some(r) => r,
        None => if b < 0 { i64::MAX } else { i64::MIN },
    }
}

/// Saturating `i64` multiplication.
pub fn sat_mul64(a: i64, b: i64) -> (r: i64)
    ensures
        r as int == clamp64(a * b),
{
    match a.checked_mul(b) {
        Some(r) => r,
        None => {
            proof {
                assert((a > 0) == (b > 0) ==> a * b >= 0) by (nonlinear_arith);
                assert((a > 0) != (b > 0) && a != 0 && b != 0 ==> a * b < 0) by (nonlinear_arith);
            }
            if (a > 0) == (b > 0) { i64::MAX } else { i64::MIN }
        }
    }
}


/// `x` reduced to the `i128` range by two's-complement wrapping.
pub open spec fn wrap128(x: int) -> int {
    let m = 0x1_0000_0000_0000_0000_0000_0000_0000_0000int;
    if x % m > i128::MAX { x % m - m } else { x % m }
}

/// `|x|`, except that `i128::MIN` stays `i128::MIN` (two's-complement wrapping).
pub open spec fn wabs(x: int) -> int {
    if x == i128::MIN { x } else if x < 0 { -x } else { x }
}

/// Euclidean quotient, or `0` where it is undefined or does not fit
/// (`b == 0`, or `i128::MIN / -1`).
pub open spec fn safe_div_euc(a: int, b: int) -> int {
    if b == 0 || (a == i128::MIN && b == -1) { 0 } else { a / b }
}

/// Euclidean remainder, or `0` where the quotient is undefined or does not fit.
pub open spec fn safe_rem_euc(a: int, b: int) -> int {
    if b == 0 || (a == i128::MIN && b == -1) { 0 } else { a % b }
}

/// Two's-complement absolute value.
pub fn wrapping_abs128(a: i128) -> (r: i128)
    ensures
        r == wabs(a as int),
{
    if a == i128::MIN { a } else if a < 0 { -a } else { a }
}

/// Euclidean quotient with `0` in place of an undefined or overflowing result.
pub fn safe_div_euc128(a: i128, b: i128) -> (r: i128)
    ensures
        r == safe_div_euc(a as int, b as int),
{
    if b == 0 || (a == i128::MIN && b == -1) {
        0
    } else {
        div_floor(a, b)
    }
}

/// Euclidean remainder with `0` in place of an undefined result.
pub fn safe_rem_euc128(a: i128, b: i128) -> (r: i128)
    ensures
        r == safe_rem_euc(a as int, b as int),
{
    if b == 0 || (a == i128::MIN && b == -1) {
        0
    } else {
        rem_floor(a, b)
    }
}

/// Two's-complement multiplication.
pub fn wrapping_mul128(a: i128, b: i128) -> (r: i128)
    ensures
        r == wrap128(a * b),
{
    a.wrapping_mul(b)
}

/// Truncating division by a positive divisor shrinks the magnitude.
pub proof fn lemma_tdiv_bound(a: int, d: int)
    requires
        d >= 1,
    ensures
        -(if a < 0 { -a } else { a }) <= tdiv(a, d) <= (if a < 0 { -a } else { a }),
{
    if a >= 0 {
        vstd::arithmetic::div_mod::lemma_div_is_ordered_by_denominator(a, 1, d);
        vstd::arithmetic::div_mod::lemma_div_pos_is_pos(a, d);
    } else {
        vstd::arithmetic::div_mod::lemma_div_is_ordered_by_denominator(-a, 1, d);
        vstd::arithmetic::div_mod::lemma_div_pos_is_pos(-a, d);
    }
}

/// Two's-complement addition.
pub fn wrapping_add128(a: i128, b: i128) -> (r: i128)
    ensures
        r == wrap128(a + b),
{
    proof {
        let m = 0x1_0000_0000_0000_0000_0000_0000_0000_0000int;
        let x = a as int + b as int;
        if x > i128::MAX {
            vstd::arithmetic::div_mod::lemma_fundamental_div_mod_converse(x, m, 0, x);
        } else if x < i128::MIN {
            vstd::arithmetic::div_mod::lemma_fundamental_div_mod_converse(x, m, -1, x + m);
        } else if x >= 0 {
            vstd::arithmetic::div_mod::lemma_fundamental_div_mod_converse(x, m, 0, x);
        } else {
            vstd::arithmetic::div_mod::lemma_fundamental_div_mod_converse(x, m, -1, x + m);
        }
    }
    a.wrapping_add(b)
}

} // verus!
