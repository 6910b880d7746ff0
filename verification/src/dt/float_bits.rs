//! Exact conversion of an IEEE-754 binary64 seconds value, given by its bit
//! pattern, to attoseconds.
use vstd::prelude::*;
use vstd::arithmetic::power2::{pow2, lemma_pow2_unfold, lemma_pow2_adds, lemma_pow2_pos, lemma2_to64, lemma_pow2_strictly_increases};
use crate::dt::Dt;

verus! {

/// `5^18`; `10^18 = 5^18 * 2^18`.
pub open spec fn five18() -> int {
    3_814_697_265_625
}

/// The sign bit of a binary64 bit pattern.
pub open spec fn f64_is_neg(bits: u64) -> bool {
    bits >= 0x8000_0000_0000_0000u64
}

/// The biased exponent field (11 bits).
pub open spec fn f64_bexp(bits: u64) -> int {
    (bits as int / 0x10_0000_0000_0000) % 2048
}

/// The mantissa field (52 bits).
pub open spec fn f64_mant(bits: u64) -> int {
    bits as int % 0x10_0000_0000_0000
}

/// The significand: the mantissa with the implicit leading bit of normal numbers.
pub open spec fn f64_sig(bits: u64) -> int {
    if f64_bexp(bits) == 0 { f64_mant(bits) } else { 0x10_0000_0000_0000 + f64_mant(bits) }
}

/// The binary exponent applying to the significand.
pub open spec fn f64_exp(bits: u64) -> int {
    if f64_bexp(bits) == 0 { -1074 } else { f64_bexp(bits) - 1075 }
}

/// `sig * 2^e` seconds in attoseconds, rounded to the nearest (halves up);
/// `None` when that exceeds `i128::MAX`.
pub open spec fn attos_of_binary(sig: int, e: int) -> Option<int> {
    let v = sig * five18();
    let k = e + 18;
    if k >= 0 {
        let m = v * pow2(k as nat);
        if m > i128::MAX { None } else { Some(m) }
    } else {
        let d = pow2((-k) as nat) as int;
        Some(v / d + if v % d >= d / 2 { 1int } else { 0int })
    }
}

/// The attoseconds of the binary64 seconds value with bit pattern `bits`:
/// exact up to rounding half away from zero, saturating at the `i128` limits
/// (infinities and NaN saturate by their sign bit; both zeros give 0).
pub open spec fn bits_attos(bits: u64) -> int {
    if f64_sig(bits) == 0 {
        0
    } else {
        match attos_of_binary(f64_sig(bits), f64_exp(bits)) {
            None => if f64_is_neg(bits) { i128::MIN as int } else { i128::MAX as int },
            Some(m) => if f64_is_neg(bits) { -m } else { m },
        }
    }
}

/// `2^k` as a `u128`.
fn pow2_u128(k: u32) -> (r: u128)
    requires
        k < 128,
    ensures
        r == pow2(k as nat),
{
    let mut r: u128 = 1;
    let mut i: u32 = 0;
    proof { lemma2_to64(); }
    while i < k
        invariant
            i <= k < 128,
            r == pow2(i as nat),
        decreases k - i,
    {
        proof {
            lemma_pow2_unfold((i + 1) as nat);
            lemma_pow2_strictly_increases((i + 1) as nat, 128);
            lemma_pow2_adds(64, 64);
            lemma2_to64();
        }
        r = r * 2;
        i += 1;
    }
    r
}

proof fn lemma_pow2_facts()
    ensures
        pow2(41) * pow2(121) == pow2(162),
        pow2(127) == 0x8000_0000_0000_0000_0000_0000_0000_0000int,
        pow2(53) * pow2(42) == pow2(95),
        pow2(95) * 4 == pow2(97),
        pow2(41) < five18() < pow2(42),
        pow2(53) == 0x20_0000_0000_0000int,
{
    lemma2_to64();
    vstd::arithmetic::power2::lemma2_to64_rest();
    lemma_pow2_adds(41, 121);
    lemma_pow2_adds(63, 64);
    lemma_pow2_adds(53, 42);
    lemma_pow2_adds(95, 2);
}

/// The exact value of `bits` in attoseconds is `exact_num(bits) / exact_den(bits)`
/// in magnitude: the numerator.
pub open spec fn exact_num(bits: u64) -> int {
    let k = f64_exp(bits) + 18;
    let v = f64_sig(bits) * five18();
    if k >= 0 { v * pow2(k as nat) } else { v }
}

/// The denominator of the exact value of `bits` in attoseconds (a power of two).
pub open spec fn exact_den(bits: u64) -> int {
    let k = f64_exp(bits) + 18;
    if k >= 0 { 1 } else { pow2((-k) as nat) as int }
}

/// The numerator of the exact value with its sign.
pub open spec fn exact_signed(bits: u64) -> int {
    if f64_is_neg(bits) { -exact_num(bits) } else { exact_num(bits) }
}

/// Whether the rounded value of `bits` fits an `i128` (so no saturation;
/// true of every finite value below about `1.7e20` seconds in magnitude).
pub open spec fn attos_fit(bits: u64) -> bool {
    attos_of_binary(f64_sig(bits), f64_exp(bits)) is Some
}

/// `|x|`.
pub open spec fn abs_of(x: int) -> int {
    if x < 0 { -x } else { x }
}

/// Where it fits, the result's magnitude is the exact magnitude plus one
/// half, floored.
proof fn lemma_round_form(bits: u64)
    requires
        attos_fit(bits),
    ensures
        exact_den(bits) >= 1,
        exact_num(bits) >= 0,
        abs_of(bits_attos(bits)) == (2 * exact_num(bits) + exact_den(bits)) / (2 * exact_den(bits)),
        f64_is_neg(bits) ==> bits_attos(bits) <= 0,
        !f64_is_neg(bits) ==> bits_attos(bits) >= 0,
{
    let k = f64_exp(bits) + 18;
    let v = f64_sig(bits) * five18();
    let n = exact_num(bits);
    let d = exact_den(bits);
    assert(f64_sig(bits) >= 0);
    assert(v >= 0) by (nonlinear_arith) requires v == f64_sig(bits) * five18(), f64_sig(bits) >= 0;
    if k >= 0 {
        lemma_pow2_pos(k as nat);
        assert(n >= 0) by (nonlinear_arith) requires n == v * pow2(k as nat), v >= 0, pow2(k as nat) > 0;
        vstd::arithmetic::div_mod::lemma_fundamental_div_mod_converse(2 * n + 1, 2, n, 1);
    } else {
        let j = (-k) as nat;
        lemma_pow2_unfold(j);
        lemma_pow2_pos((j - 1) as nat);
        let h = pow2((j - 1) as nat) as int;
        assert(d == 2 * h);
        vstd::arithmetic::div_mod::lemma_fundamental_div_mod(v, d);
        let q = v / d;
        let r = v % d;
        vstd::arithmetic::div_mod::lemma_div_pos_is_pos(v, d);
        assert(d / 2 == h);
        if r >= h {
            assert(2 * v + d == (2 * d) * (q + 1) + (2 * r - d)) by (nonlinear_arith) requires v == d * q + r;
            vstd::arithmetic::div_mod::lemma_fundamental_div_mod_converse(2 * v + d, 2 * d, q + 1, 2 * r - d);
        } else {
            assert(2 * v + d == (2 * d) * q + (2 * r + d)) by (nonlinear_arith) requires v == d * q + r;
            vstd::arithmetic::div_mod::lemma_fundamental_div_mod_converse(2 * v + d, 2 * d, q, 2 * r + d);
        }
    }
}

/// Rounding: where the result fits, it lies within half an attosecond of the
/// exact value `exact_signed / exact_den`, and an exact half goes away from
/// zero: `-d < 2 * (|r| * d - |n|) <= d`.
pub proof fn lemma_bits_attos_rounding(bits: u64)
    requires
        attos_fit(bits),
    ensures
        ({
            let d = exact_den(bits);
            let n = exact_num(bits);
            let m = abs_of(bits_attos(bits));
            &&& -d < 2 * (m * d - n) <= d
            &&& abs_of(exact_signed(bits)) == n
            &&& (bits_attos(bits) < 0 ==> exact_signed(bits) < 0)
            &&& (bits_attos(bits) > 0 ==> exact_signed(bits) > 0)
        }),
{
    lemma_round_form(bits);
    let d = exact_den(bits);
    let n = exact_num(bits);
    let m = abs_of(bits_attos(bits));
    vstd::arithmetic::div_mod::lemma_fundamental_div_mod(2 * n + d, 2 * d);
    assert(-d < 2 * (m * d - n) <= d) by (nonlinear_arith)
        requires (2 * d) * m + (2 * n + d) % (2 * d) == 2 * n + d, 0 <= (2 * n + d) % (2 * d) < 2 * d,
            m == (2 * n + d) / (2 * d), d >= 1;
    if bits_attos(bits) != 0 {
        assert(m >= 1);
        assert(n > 0) by (nonlinear_arith) requires -d < 2 * (m * d - n) <= d, m >= 1, d >= 1;
    }
}

/// Symmetry: flipping the sign bit negates the result, where it fits.
pub proof fn lemma_bits_attos_odd(bits: u64)
    requires
        bits < 0x8000_0000_0000_0000u64,
        attos_fit(bits),
    ensures
        bits_attos((bits + 0x8000_0000_0000_0000u64) as u64) == -bits_attos(bits),
{
    let nb = (bits + 0x8000_0000_0000_0000u64) as u64;
    let b = bits as int;
    assert(nb as int == b + 0x8000_0000_0000_0000);
    vstd::arithmetic::div_mod::lemma_fundamental_div_mod(b, 0x10_0000_0000_0000);
    vstd::arithmetic::div_mod::lemma_fundamental_div_mod_converse(nb as int, 0x10_0000_0000_0000,
        b / 0x10_0000_0000_0000 + 2048, b % 0x10_0000_0000_0000);
    vstd::arithmetic::div_mod::lemma_fundamental_div_mod(b / 0x10_0000_0000_0000, 2048);
    vstd::arithmetic::div_mod::lemma_fundamental_div_mod_converse(b / 0x10_0000_0000_0000 + 2048, 2048,
        (b / 0x10_0000_0000_0000) / 2048 + 1, (b / 0x10_0000_0000_0000) % 2048);
    assert(f64_mant(nb) == f64_mant(bits));
    assert(f64_bexp(nb) == f64_bexp(bits));
}

/// `(2n + d) / (2d)` does not decrease as the fraction `n / d` grows.
proof fn lemma_round_monotone(n1: int, d1: int, n2: int, d2: int)
    requires
        d1 >= 1,
        d2 >= 1,
        n1 * d2 <= n2 * d1,
    ensures
        (2 * n1 + d1) / (2 * d1) <= (2 * n2 + d2) / (2 * d2),
{
    let q1 = (2 * n1 + d1) / (2 * d1);
    vstd::arithmetic::div_mod::lemma_fundamental_div_mod(2 * n1 + d1, 2 * d1);
    assert(2 * d1 * q1 <= 2 * n1 + d1);
    assert(2 * d2 * q1 <= 2 * n2 + d2) by (nonlinear_arith)
        requires 2 * d1 * q1 <= 2 * n1 + d1, n1 * d2 <= n2 * d1, d1 >= 1, d2 >= 1;
    vstd::arithmetic::div_mod::lemma_div_is_ordered(2 * d2 * q1, 2 * n2 + d2, 2 * d2);
    vstd::arithmetic::div_mod::lemma_div_multiples_vanish(q1, 2 * d2);
    assert((2 * d2 * q1) / (2 * d2) == q1) by {
        assert(2 * d2 * q1 == q1 * (2 * d2)) by (nonlinear_arith);
    }
}

/// Monotonicity: where both results fit, a smaller exact value never gives
/// a larger result.
pub proof fn lemma_bits_attos_monotone(a: u64, b: u64)
    requires
        attos_fit(a),
        attos_fit(b),
        exact_signed(a) * exact_den(b) <= exact_signed(b) * exact_den(a),
    ensures
        bits_attos(a) <= bits_attos(b),
{
    lemma_round_form(a);
    lemma_round_form(b);
    let na = exact_num(a);
    let nb = exact_num(b);
    let da = exact_den(a);
    let db = exact_den(b);
    if !f64_is_neg(a) && !f64_is_neg(b) {
        lemma_round_monotone(na, da, nb, db);
    } else if f64_is_neg(a) && f64_is_neg(b) {
        assert(nb * da <= na * db) by (nonlinear_arith)
            requires (-na) * db <= (-nb) * da;
        lemma_round_monotone(nb, db, na, da);
    } else if !f64_is_neg(a) && f64_is_neg(b) {
        assert(na == 0 && nb == 0) by (nonlinear_arith)
            requires na * db <= (-nb) * da, na >= 0, nb >= 0, da >= 1, db >= 1;
        vstd::arithmetic::div_mod::lemma_fundamental_div_mod_converse(2 * na + da, 2 * da, 0, da);
        vstd::arithmetic::div_mod::lemma_fundamental_div_mod_converse(2 * nb + db, 2 * db, 0, db);
    }
}

impl Dt {
    /// The attoseconds of the binary64 seconds value whose bit pattern is
    /// `bits`, rounded to the nearest attosecond (halves away from zero) and
    /// saturating at the `i128` limits.
    pub fn bits_to_attos(bits: u64) -> (r: i128)
        ensures
            r == bits_attos(bits),
    {
        let is_negative = bits >= 0x8000_0000_0000_0000u64;
        let biased_exp = (bits / 0x10_0000_0000_0000) % 2048;
        let mantissa = bits % 0x10_0000_0000_0000;
        if biased_exp == 0 && mantissa == 0 {
            return 0;
        }
        let sig: u128 = if biased_exp == 0 { mantissa as u128 } else { (0x10_0000_0000_0000 + mantissa) as u128 };
        let exp: i64 = if biased_exp == 0 { -1074 } else { biased_exp as i64 - 1075 };
        let product: u128 = sig * 3_814_697_265_625;
        let total_exp = exp + 18;
        let ghost v = product as int;
        proof { lemma_pow2_facts(); }
        if total_exp > 120 {
            proof {
                let k = total_exp as nat;
                if k > 121 { lemma_pow2_strictly_increases(121, k); }
                lemma_pow2_strictly_increases(127, 162);
                lemma_pow2_pos(121);
                lemma_pow2_pos(41);
                assert(v * pow2(k) >= pow2(41) * pow2(121)) by (nonlinear_arith)
                    requires v >= five18(), five18() > pow2(41), pow2(k) >= pow2(121), pow2(41) > 0, pow2(121) > 0;
            }
            return if is_negative { i128::MIN } else { i128::MAX };
        }
        if total_exp < -97 {
            proof {
                let s = (-total_exp) as nat;
                lemma_pow2_strictly_increases(97, s);
                lemma_pow2_unfold(s);
                assert(v < pow2(95)) by (nonlinear_arith)
                    requires v == sig * five18(), sig < 0x20_0000_0000_0000, five18() < pow2(42),
                        pow2(53) * pow2(42) == pow2(95), pow2(53) == 0x20_0000_0000_0000int, sig >= 0;
                let d = pow2(s) as int;
                vstd::arithmetic::div_mod::lemma_fundamental_div_mod_converse(v, d, 0, v);
            }
            return 0;
        }
        let abs_total: i128 = if total_exp >= 0 {
            let p = pow2_u128(total_exp as u32);
            proof { lemma_pow2_pos(total_exp as nat); }
            if product > u128::MAX / p {
                proof {
                    vstd::arithmetic::div_mod::lemma_fundamental_div_mod(u128::MAX as int, p as int);
                    assert(v * p > u128::MAX) by (nonlinear_arith)
                        requires v > (u128::MAX as int) / (p as int), p > 0,
                            (p as int) * ((u128::MAX as int) / (p as int)) + (u128::MAX as int) % (p as int) == u128::MAX,
                            (u128::MAX as int) % (p as int) < p;
                }
                return if is_negative { i128::MIN } else { i128::MAX };
            }
            proof {
                vstd::arithmetic::div_mod::lemma_fundamental_div_mod(u128::MAX as int, p as int);
                assert(v * p <= u128::MAX) by (nonlinear_arith)
                    requires v <= (u128::MAX as int) / (p as int), p > 0,
                        (p as int) * ((u128::MAX as int) / (p as int)) <= u128::MAX;
            }
            let shifted = product * p;
            if shifted > i128::MAX as u128 {
                return if is_negative { i128::MIN } else { i128::MAX };
            }
            shifted as i128
        } else {
            let shift = (-total_exp) as u32;
            let p = pow2_u128(shift);
            proof {
                lemma_pow2_unfold(shift as nat);
                lemma_pow2_pos((shift - 1) as nat);
                lemma_pow2_strictly_increases(shift as nat, 98);
                lemma_pow2_adds(97, 1);
                assert(v < pow2(95)) by (nonlinear_arith)
                    requires v == sig * five18(), sig < 0x20_0000_0000_0000, five18() < pow2(42),
                        pow2(53) * pow2(42) == pow2(95), pow2(53) == 0x20_0000_0000_0000int, sig >= 0;
                vstd::arithmetic::div_mod::lemma_div_is_ordered_by_denominator(v, 1, p as int);
            }
            let int_part = (product / p) as i128;
            let rem = product % p;
            if rem > (p - 1) / 2 { int_part + 1 } else { int_part }
        };
        if is_negative { -abs_total } else { abs_total }
    }
}

} // verus!
